//! The shape of one row of the review listing.
//!
//! A row reads `* Needs Review D42: Fix bug`: an optional marker `* `, a
//! status label of word characters and spaces, a space, a ticket identifier,
//! a colon and a space, and a summary that runs to the end of the line. The
//! columns are not of fixed width, so the row is cut where the ticket
//! identifier with its colon stands; there is only one such place.

use crate::chars::{
    ascii_digit, chars_of, is_ascii_digit, is_white_space, text_between, trim_between,
    trim_white_space, white_space,
};
use crate::seqs::lemma_trim;
use crate::ticket::is_ticket_id;
use vstd::prelude::*;

verus! {

/// Whether a character beyond ASCII is a Unicode word character: what
/// `regex_syntax::try_is_word_character` answers for it.
pub uninterp spec fn unicode_word(c: char) -> bool;

/// The ASCII word characters: the letters, the digits and the underscore.
pub open spec fn is_ascii_word(c: char) -> bool {
    'a' <= c <= 'z' || 'A' <= c <= 'Z' || '0' <= c <= '9' || c == '_'
}

/// The word characters: in ASCII those of [`is_ascii_word`]; beyond ASCII
/// the Unicode word characters.
pub open spec fn is_word(c: char) -> bool {
    if c <= '\u{7F}' {
        is_ascii_word(c)
    } else {
        unicode_word(c)
    }
}

/// The characters that a status label is made of: word characters and the
/// space.
pub open spec fn is_label_char(c: char) -> bool {
    c == ' ' || is_word(c)
}

/// Whether `line` begins with the marker `* `.
pub open spec fn is_marked(line: Seq<char>) -> bool {
    line.len() >= 2 && line[0] == '*' && line[1] == ' '
}

/// Where the status label of `line` begins: behind the marker, if there is
/// one.
pub open spec fn label_start(line: Seq<char>) -> int {
    if is_marked(line) {
        2
    } else {
        0
    }
}

/// Whether `line` is a row whose status label ends before `end` and whose
/// ticket identifier ends before `colon`: the label is not empty; at `end`
/// stand a space, `D` and one or more digits; at `colon` stand a colon and a
/// space; the summary behind them holds no line feed.
pub open spec fn row_shape(line: Seq<char>, end: int, colon: int) -> bool {
    &&& label_start(line) < end
    &&& end + 2 < colon
    &&& colon + 1 < line.len()
    &&& forall|i: int| label_start(line) <= i < end ==> is_label_char(#[trigger] line[i])
    &&& line[end] == ' '
    &&& line[end + 1] == 'D'
    &&& forall|i: int| end + 2 <= i < colon ==> is_ascii_digit(#[trigger] line[i])
    &&& line[colon] == ':'
    &&& line[colon + 1] == ' '
    &&& forall|i: int| colon + 2 <= i < line.len() ==> #[trigger] line[i] != '\n'
}

/// What the review tool says of a ticket, as text.
pub struct ReviewInfoView {
    pub exists: bool,
    pub status: Seq<char>,
    pub summary: Seq<char>,
}

/// What a row says, as text.
pub struct RowView {
    pub ticket: Seq<char>,
    pub info: ReviewInfoView,
}

/// What a row of the given shape says: whether it is marked, its status
/// label trimmed, its ticket identifier, and its summary trimmed.
pub open spec fn row_at(line: Seq<char>, end: int, colon: int) -> RowView {
    RowView {
        ticket: line.subrange(end + 1, colon),
        info: ReviewInfoView {
            exists: is_marked(line),
            status: trim_white_space(line.subrange(label_start(line), end)),
            summary: trim_white_space(line.skip(colon + 2)),
        },
    }
}

/// Whether `line` is a row.
pub open spec fn is_row(line: Seq<char>) -> bool {
    exists|end: int, colon: int| row_shape(line, end, colon)
}

/// What `line` says if it is a row.
pub open spec fn row_of(line: Seq<char>) -> Option<RowView> {
    if is_row(line) {
        let (end, colon) = choose|end: int, colon: int| row_shape(line, end, colon);
        Some(row_at(line, end, colon))
    } else {
        None
    }
}

/// The colon of a row is the first character behind the start of the label
/// that is no label character.
proof fn lemma_colon_ends_label_run(line: Seq<char>, end: int, colon: int, stop: int)
    requires
        row_shape(line, end, colon),
        label_start(line) <= stop <= line.len(),
        forall|i: int| label_start(line) <= i < stop ==> is_label_char(#[trigger] line[i]),
        stop < line.len() ==> !is_label_char(line[stop]),
    ensures
        colon == stop,
{
    if colon < stop {
        assert(is_label_char(line[colon]));
    } else if stop < colon {
        if stop < end {
            assert(is_label_char(line[stop]));
        } else if stop >= end + 2 {
            assert(is_ascii_digit(line[stop]));
        }
    }
}

/// The digits of a row's ticket identifier are the whole run of digits
/// before the colon.
proof fn lemma_digits_end_at_colon(line: Seq<char>, end: int, colon: int, first: int)
    requires
        row_shape(line, end, colon),
        label_start(line) <= first <= colon,
        forall|i: int| first <= i < colon ==> is_ascii_digit(#[trigger] line[i]),
        first > label_start(line) ==> !is_ascii_digit(line[first - 1]),
    ensures
        first == end + 2,
{
    if first > end + 2 {
        assert(is_ascii_digit(line[first - 1]));
    } else if first < end + 2 {
        assert(is_ascii_digit(line[end + 1]));
    }
}

/// A line is a row in at most one way: two shapes of one line are the same.
pub proof fn lemma_row_shape_is_unique(line: Seq<char>, e1: int, c1: int, e2: int, c2: int)
    requires
        row_shape(line, e1, c1),
        row_shape(line, e2, c2),
    ensures
        e1 == e2,
        c1 == c2,
{
    assert forall|i: int| label_start(line) <= i < c1 implies is_label_char(#[trigger] line[i]) by {
        if i >= e1 + 2 {
            assert(is_ascii_digit(line[i]));
        }
    }
    lemma_colon_ends_label_run(line, e2, c2, c1);
    assert(!is_ascii_digit(line[e1 + 1]));
    lemma_digits_end_at_colon(line, e2, c2, e1 + 2);
}

/// A row of a given shape says what [`row_of`] reports.
pub proof fn lemma_row_of_shape(line: Seq<char>, end: int, colon: int)
    requires
        row_shape(line, end, colon),
    ensures
        row_of(line) == Some(row_at(line, end, colon)),
        is_ticket_id(row_at(line, end, colon).ticket),
{
    let (e, c) = choose|e: int, c: int| row_shape(line, e, c);
    lemma_row_shape_is_unique(line, e, c, end, colon);
    let ticket = line.subrange(end + 1, colon);
    assert forall|i: int| 1 <= i < ticket.len() implies is_ascii_digit(#[trigger] ticket[i]) by {
        assert(ticket[i] == line[end + 1 + i]);
    }
}

/// What a row says of its ticket is passed on unchanged but for the white
/// space around it: the status and the summary neither begin nor end with
/// white space, and the row counts as marked exactly when the line begins
/// with the marker.
pub proof fn lemma_row_fields_are_trimmed(line: Seq<char>, end: int, colon: int)
    requires
        row_shape(line, end, colon),
    ensures
        row_at(line, end, colon).info.exists == is_marked(line),
        row_at(line, end, colon).info.status.len() > 0 ==> !is_white_space(
            row_at(line, end, colon).info.status.first(),
        ) && !is_white_space(row_at(line, end, colon).info.status.last()),
        row_at(line, end, colon).info.summary.len() > 0 ==> !is_white_space(
            row_at(line, end, colon).info.summary.first(),
        ) && !is_white_space(row_at(line, end, colon).info.summary.last()),
{
    lemma_trim(line.subrange(label_start(line), end), white_space());
    lemma_trim(line.skip(colon + 2), white_space());
}

/// Asks `regex_syntax::try_is_word_character`, the regex crate's definition
/// of `\w`, whether `c` is a word character. The contract names the answer;
/// the function fails only where the crate is built without its Unicode
/// tables, which this crate does not do.
#[verifier::external_body]
fn unicode_word_char(c: char) -> (b: bool)
    ensures
        b == unicode_word(c),
{
    match regex_syntax::try_is_word_character(c) {
        Ok(answer) => answer,
        Err(_) => false,
    }
}

/// Decides [`is_ascii_word`].
pub fn ascii_word_char(c: char) -> (b: bool)
    ensures
        b == is_ascii_word(c),
{
    ('a' <= c && c <= 'z') || ('A' <= c && c <= 'Z') || ('0' <= c && c <= '9') || c == '_'
}

/// Decides [`is_word`]: an ASCII character is decided here, any other by
/// the Unicode tables of the regex crate.
pub fn word_char(c: char) -> (b: bool)
    ensures
        b == is_word(c),
        c <= '\u{7F}' ==> b == is_ascii_word(c),
{
    if c <= '\u{7F}' {
        ascii_word_char(c)
    } else {
        unicode_word_char(c)
    }
}

/// Decides [`is_label_char`].
pub fn label_char(c: char) -> (b: bool)
    ensures
        b == is_label_char(c),
{
    c == ' ' || word_char(c)
}

/// What the review tool says of a ticket.
#[derive(Debug, Clone, PartialEq, Eq)]
pub struct ReviewInfo {
    /// Whether the row is marked. The review tool does not say what the
    /// mark means; it is passed on as it is.
    pub exists: bool,
    /// The review status, such as `Needs Review` or `Accepted`.
    pub status: String,
    /// The title of the ticket.
    pub summary: String,
}

impl View for ReviewInfo {
    type V = ReviewInfoView;

    open spec fn view(&self) -> ReviewInfoView {
        ReviewInfoView { exists: self.exists, status: self.status@, summary: self.summary@ }
    }
}

/// One row of the review listing.
#[derive(Debug, Clone, PartialEq, Eq)]
pub struct Row {
    /// The ticket that the row is about.
    pub ticket: String,
    /// What the row says of it.
    pub info: ReviewInfo,
}

impl View for Row {
    type V = RowView;

    open spec fn view(&self) -> RowView {
        RowView { ticket: self.ticket@, info: self.info@ }
    }
}

/// What a row holds, as text.
pub open spec fn row_view(row: Option<Row>) -> Option<RowView> {
    match row {
        Some(r) => Some(r@),
        None => None,
    }
}

/// Reads one line of the review listing as a row, if it is one.
pub fn parse_row(line: &str) -> (row: Option<Row>)
    ensures
        row_view(row) == row_of(line@),
        row matches Some(r) ==> is_ticket_id(r.ticket@),
{
    let chars = chars_of(line);
    let n = chars.len();
    let marked = n >= 2 && chars[0] == '*' && chars[1] == ' ';
    let start: usize = if marked {
        2
    } else {
        0
    };
    let mut colon: usize = start;
    while colon < n && label_char(chars[colon])
        invariant
            chars@ == line@,
            n == chars@.len(),
            start <= colon <= n,
            forall|i: int| start <= i < colon ==> is_label_char(#[trigger] chars@[i]),
        decreases n - colon,
    {
        colon += 1;
    }
    let mut first: usize = colon;
    while first > start && ascii_digit(chars[first - 1])
        invariant
            chars@ == line@,
            start <= first <= colon <= n == chars@.len(),
            forall|i: int| first <= i < colon ==> is_ascii_digit(#[trigger] chars@[i]),
        decreases first,
    {
        first -= 1;
    }
    assert forall|e: int, c: int| row_shape(line@, e, c) implies c == colon && e + 2 == first by {
        lemma_colon_ends_label_run(line@, e, c, colon as int);
        lemma_digits_end_at_colon(line@, e, c, first as int);
    }
    if n - colon < 2 || chars[colon] != ':' || chars[colon + 1] != ' ' {
        return None;
    }
    if first == colon || first < start + 3 || chars[first - 1] != 'D' || chars[first - 2] != ' ' {
        return None;
    }
    let mut k: usize = colon + 2;
    while k < n
        invariant
            chars@ == line@,
            colon + 2 <= k <= n == chars@.len(),
            forall|i: int| colon + 2 <= i < k ==> #[trigger] chars@[i] != '\n',
            forall|e: int, c: int| row_shape(line@, e, c) ==> c == colon,
        decreases n - k,
    {
        if chars[k] == '\n' {
            return None;
        }
        k += 1;
    }
    let end: usize = first - 2;
    proof {
        assert(row_shape(line@, end as int, colon as int));
        lemma_row_of_shape(line@, end as int, colon as int);
        assert(line@.subrange(colon + 2, n as int) =~= line@.skip(colon + 2));
    }
    let (status_from, status_to) = trim_between(&chars, start, end);
    let (summary_from, summary_to) = trim_between(&chars, colon + 2, n);
    Some(
        Row {
            ticket: text_between(&chars, end + 1, colon),
            info: ReviewInfo {
                exists: marked,
                status: text_between(&chars, status_from, status_to),
                summary: text_between(&chars, summary_from, summary_to),
            },
        },
    )
}

} // verus!
