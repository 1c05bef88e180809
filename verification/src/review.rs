//! The review status of the open tickets, read off the review listing.
//!
//! The listing is either one fixed line that says that there are no open
//! tickets, or one row per ticket. A line that holds text and is no row
//! means that the listing has changed its format: it is reported, not
//! skipped.

use crate::bytes::{decode, decoded, trim_ascii, trim_ascii_whitespace};
use crate::chars::{
    ascii_blank, chars_of, same_text, trim_ascii_blank, trim_ascii_bounds, views,
};
use crate::error::{ReviewToolError, TableParseError};
use crate::lines::{lemma_one_line, lines, lines_of, split_lines};
use crate::row::{parse_row, row_of, ReviewInfo, ReviewInfoView, RowView};
use crate::seqs::{
    gather, lemma_find_is, lemma_gather_failed_front, lemma_gather_ok, lemma_trim,
    lemma_trim_leaves_trimmed,
};
use crate::ticket::is_ticket_id;
use vstd::hash_map::StringHashMap;
use vstd::prelude::*;
use vstd::slice::slice_subrange;

verus! {

/// The line that the review tool prints when there are no open tickets.
pub const NO_REVISIONS: &'static str = "You have no open Differential revisions.";

/// The review status of each open ticket, by ticket identifier.
pub struct ReviewTable {
    entries: StringHashMap<ReviewInfo>,
}

impl View for ReviewTable {
    type V = Map<Seq<char>, ReviewInfoView>;

    closed spec fn view(&self) -> Map<Seq<char>, ReviewInfoView> {
        self.entries@.map_values(|info: ReviewInfo| info@)
    }
}

/// The table that a sequence of rows fills: each row enters under its
/// ticket and replaces what an earlier row had entered there.
pub open spec fn table_of(rows: Seq<RowView>) -> Map<Seq<char>, ReviewInfoView>
    decreases rows.len(),
{
    if rows.len() == 0 {
        Map::empty()
    } else {
        table_of(rows.drop_last()).insert(rows.last().ticket, rows.last().info)
    }
}

/// The predicate "holds text".
pub open spec fn has_text() -> spec_fn(Seq<char>) -> bool {
    |line: Seq<char>| line.len() > 0
}

/// Reads a line as a row, or hands the line back.
pub open spec fn row_reader() -> spec_fn(Seq<char>) -> Result<RowView, Seq<char>> {
    |line: Seq<char>|
        match row_of(line) {
            Some(row) => Ok(row),
            None => Err(line),
        }
}

/// The rows of `lines`: what each line that holds text says, or the first
/// such line that is no row.
pub open spec fn rows_of(lines: Seq<Seq<char>>) -> Result<Seq<RowView>, Seq<char>> {
    gather(lines.filter(has_text()).map_values(row_reader()))
}

/// The table that a listing with the given lines describes, or its first
/// line that holds text and is no row. The one line [`NO_REVISIONS`]
/// describes the empty table.
pub open spec fn table_of_lines(lines: Seq<Seq<char>>) -> Result<
    Map<Seq<char>, ReviewInfoView>,
    Seq<char>,
> {
    if lines == seq![NO_REVISIONS@] {
        Ok(Map::empty())
    } else {
        match rows_of(lines) {
            Ok(rows) => Ok(table_of(rows)),
            Err(line) => Err(line),
        }
    }
}

/// The table that a listing describes: that of its lines, once ASCII white
/// space around the listing is set aside.
pub open spec fn review_table(listing: Seq<char>) -> Result<
    Map<Seq<char>, ReviewInfoView>,
    Seq<char>,
> {
    table_of_lines(lines(trim_ascii_blank(listing)))
}

/// The lines of a listing given as raw bytes, once ASCII white space
/// around it is set aside; `None` where the bytes are not UTF-8.
pub open spec fn listing_lines(output: Seq<u8>) -> Option<Seq<Seq<char>>> {
    match decoded(trim_ascii(output)) {
        Some(text) => Some(lines(text)),
        None => None,
    }
}

/// A table holds the tickets of its rows and no others.
pub proof fn lemma_table_holds_the_tickets_of_its_rows(rows: Seq<RowView>, ticket: Seq<char>)
    ensures
        table_of(rows).contains_key(ticket) <==> exists|i: int|
            0 <= i < rows.len() && (#[trigger] rows[i]).ticket == ticket,
    decreases rows.len(),
{
    if rows.len() > 0 {
        let front = rows.drop_last();
        lemma_table_holds_the_tickets_of_its_rows(front, ticket);
        if table_of(rows).contains_key(ticket) {
            if rows.last().ticket == ticket {
                assert(rows[rows.len() - 1].ticket == ticket);
            } else {
                let i = choose|i: int| 0 <= i < front.len() && (#[trigger] front[i]).ticket
                    == ticket;
                assert(rows[i].ticket == ticket);
            }
        }
        if exists|i: int| 0 <= i < rows.len() && (#[trigger] rows[i]).ticket == ticket {
            let i = choose|i: int| 0 <= i < rows.len() && (#[trigger] rows[i]).ticket == ticket;
            if i < front.len() {
                assert(front[i].ticket == ticket);
            }
        }
    }
}

/// Where several rows are about one ticket, the table holds what the last
/// of them says.
pub proof fn lemma_last_row_wins(rows: Seq<RowView>, i: int)
    requires
        0 <= i < rows.len(),
        forall|j: int| i < j < rows.len() ==> (#[trigger] rows[j]).ticket != rows[i].ticket,
    ensures
        table_of(rows).contains_key(rows[i].ticket),
        table_of(rows)[rows[i].ticket] == rows[i].info,
    decreases rows.len(),
{
    if i < rows.len() - 1 {
        let front = rows.drop_last();
        assert(front[i] == rows[i]);
        assert forall|j: int| i < j < front.len() implies (#[trigger] front[j]).ticket
            != front[i].ticket by {
            assert(front[j] == rows[j]);
        }
        lemma_last_row_wins(front, i);
        assert(rows[rows.len() - 1].ticket != rows[i].ticket);
    }
}

/// A line that holds text and is no row is reported, not skipped: the
/// listing's first such line is the error, whatever follows it.
pub proof fn lemma_malformed_row_is_reported(lines: Seq<Seq<char>>, k: int)
    requires
        lines != seq![NO_REVISIONS@],
        0 <= k < lines.len(),
        lines[k].len() > 0,
        row_of(lines[k]) is None,
        forall|j: int| 0 <= j < k && lines[j].len() > 0 ==> row_of(#[trigger] lines[j]) is Some,
    ensures
        table_of_lines(lines) == Err::<Map<Seq<char>, ReviewInfoView>, Seq<char>>(lines[k]),
{
    let before = lines.take(k);
    let after = lines.skip(k + 1);
    let good = before.filter(has_text()).map_values(row_reader());
    let bad = Err::<RowView, Seq<char>>(lines[k]);
    assert(lines =~= before.push(lines[k]) + after);
    before.lemma_filter_push(lines[k], has_text());
    Seq::filter_distributes_over_add(before.push(lines[k]), after, has_text());
    assert(lines.filter(has_text()).map_values(row_reader()) =~= good.push(bad) + after.filter(
        has_text(),
    ).map_values(row_reader()));
    assert forall|i: int| 0 <= i < good.len() implies (#[trigger] good[i]) is Ok by {
        let line = before.filter(has_text())[i];
        before.lemma_filter_pred(has_text(), i);
        before.lemma_filter_contains_rev(has_text(), line);
        let j = choose|j: int| 0 <= j < before.len() && before[j] == line;
        assert(lines[j] == line);
    }
    lemma_gather_ok(good);
    assert(good.push(bad).drop_last() =~= good);
    lemma_gather_failed_front(good.push(bad), after.filter(has_text()).map_values(row_reader()));
}

/// The line that says that there are no open tickets gives the empty
/// table, with or without ASCII white space around it.
pub proof fn lemma_no_revisions_is_the_empty_table(listing: Seq<char>)
    requires
        trim_ascii_blank(listing) == NO_REVISIONS@,
    ensures
        review_table(listing) == Ok::<Map<Seq<char>, ReviewInfoView>, Seq<char>>(Map::empty()),
{
    reveal_strlit("You have no open Differential revisions.");
    lemma_find_is(NO_REVISIONS@, '\n', NO_REVISIONS@.len() as int);
    assert(lines(NO_REVISIONS@) =~= seq![NO_REVISIONS@]);
}

/// The exact line that says that there are no open tickets gives the empty
/// table.
pub proof fn lemma_no_revisions_alone_is_the_empty_table()
    ensures
        review_table(NO_REVISIONS@) == Ok::<Map<Seq<char>, ReviewInfoView>, Seq<char>>(
            Map::empty(),
        ),
{
    reveal_strlit("You have no open Differential revisions.");
    lemma_trim_leaves_trimmed(NO_REVISIONS@, ascii_blank());
    lemma_no_revisions_is_the_empty_table(NO_REVISIONS@);
}

/// A listing that is anything else is read line by line, once ASCII white
/// space around it is set aside.
pub proof fn lemma_listing_is_read_line_by_line(listing: Seq<char>)
    requires
        trim_ascii_blank(listing) != NO_REVISIONS@,
    ensures
        review_table(listing) == match rows_of(lines(trim_ascii_blank(listing))) {
            Ok(rows) => Ok::<Map<Seq<char>, ReviewInfoView>, Seq<char>>(table_of(rows)),
            Err(line) => Err(line),
        },
{
    let text = trim_ascii_blank(listing);
    lemma_trim(listing, ascii_blank());
    if lines(text) == seq![NO_REVISIONS@] {
        lemma_one_line(text);
        assert(lines(text)[0] == NO_REVISIONS@);
    }
}

impl ReviewTable {
    /// The table without entries.
    pub fn new() -> (table: ReviewTable)
        ensures
            table@ == Map::<Seq<char>, ReviewInfoView>::empty(),
    {
        let table = ReviewTable { entries: StringHashMap::new() };
        assert(table@ =~= Map::<Seq<char>, ReviewInfoView>::empty());
        table
    }

    /// Enters `info` under `ticket`, in place of what stood there.
    pub fn insert(&mut self, ticket: String, info: ReviewInfo)
        ensures
            final(self)@ == old(self)@.insert(ticket@, info@),
    {
        self.entries.insert(ticket, info);
        assert(self@ =~= old(self)@.insert(ticket@, info@));
    }

    /// What the table holds for `ticket`, if anything. A ticket without an
    /// entry is no error: its status is not known.
    pub fn get(&self, ticket: &str) -> (found: Option<&ReviewInfo>)
        ensures
            match found {
                Some(info) => self@.contains_key(ticket@) && self@[ticket@] == info@,
                None => !self@.contains_key(ticket@),
            },
    {
        self.entries.get(ticket)
    }

    /// The number of tickets in the table.
    pub fn len(&self) -> (n: usize)
        ensures
            n == self@.len(),
    {
        assert(self@.dom() =~= self.entries@.dom());
        self.entries.len()
    }

    /// Whether the table holds no ticket.
    pub fn is_empty(&self) -> (empty: bool)
        ensures
            empty == (self@.len() == 0),
    {
        self.len() == 0
    }
}

/// Reads the rows of `lines` into a table.
fn read_rows(lines: &[String]) -> (r: Result<ReviewTable, TableParseError>)
    ensures
        match r {
            Ok(table) => rows_of(views(lines@)) matches Ok(rows) && table@ == table_of(rows) && (
            forall|t: Seq<char>| table@.contains_key(t) ==> is_ticket_id(t)),
            Err(e) => rows_of(views(lines@)) == Err::<Seq<RowView>, Seq<char>>(e.line@),
        },
{
    let mut table = ReviewTable::new();
    let ghost all = views(lines@);
    let ghost mut rows: Seq<RowView> = Seq::empty();
    let mut i: usize = 0;
    proof {
        reveal(Seq::filter);
        assert(all.take(0).filter(has_text()).map_values(row_reader()) =~= Seq::empty());
    }
    while i < lines.len()
        invariant
            i <= lines@.len(),
            all == views(lines@),
            gather(all.take(i as int).filter(has_text()).map_values(row_reader())) == Ok::<
                Seq<RowView>,
                Seq<char>,
            >(rows),
            table@ == table_of(rows),
            forall|t: Seq<char>| table@.contains_key(t) ==> is_ticket_id(t),
        decreases lines@.len() - i,
    {
        let line = &lines[i];
        let ghost seen = all.take(i as int);
        let ghost kept = seen.filter(has_text());
        proof {
            assert(all.take(i + 1) =~= seen.push(line@));
            seen.lemma_filter_push(line@, has_text());
        }
        if !line.as_str().is_empty() {
            let ghost results = kept.map_values(row_reader());
            proof {
                assert(kept.push(line@).map_values(row_reader()) =~= results.push(
                    row_reader()(line@),
                ));
                assert(results.push(row_reader()(line@)).drop_last() =~= results);
            }
            match parse_row(line.as_str()) {
                Some(row) => {
                    proof {
                        assert(rows.push(row@).drop_last() =~= rows);
                        rows = rows.push(row@);
                    }
                    table.insert(row.ticket, row.info);
                },
                None => {
                    proof {
                        let rest = all.skip(i + 1);
                        assert(all =~= all.take(i + 1) + rest);
                        Seq::filter_distributes_over_add(all.take(i + 1), rest, has_text());
                        let front = all.take(i + 1).filter(has_text()).map_values(row_reader());
                        let back = rest.filter(has_text()).map_values(row_reader());
                        assert(all.filter(has_text()).map_values(row_reader()) =~= front + back);
                        lemma_gather_failed_front(front, back);
                    }
                    return Err(TableParseError { line: line.clone() });
                },
            }
        }
        i += 1;
    }
    assert(all.take(lines@.len() as int) =~= all);
    Ok(table)
}

/// The table that a listing with the given lines describes.
///
/// The one line [`NO_REVISIONS`] gives the empty table. Otherwise every
/// line that holds text must be a row; the first that is none is returned
/// as the error. Where two rows are about one ticket, the later one stays.
pub fn get_arc_info(lines: &[String]) -> (r: Result<ReviewTable, TableParseError>)
    ensures
        match r {
            Ok(table) => table_of_lines(views(lines@)) == Ok::<
                Map<Seq<char>, ReviewInfoView>,
                Seq<char>,
            >(table@) && (forall|t: Seq<char>| table@.contains_key(t) ==> is_ticket_id(t)),
            Err(e) => table_of_lines(views(lines@)) == Err::<
                Map<Seq<char>, ReviewInfoView>,
                Seq<char>,
            >(e.line@),
        },
{
    if lines.len() == 1 && same_text(lines[0].as_str(), NO_REVISIONS) {
        assert(views(lines@) =~= seq![NO_REVISIONS@]);
        return Ok(ReviewTable::new());
    }
    assert(views(lines@) != seq![NO_REVISIONS@]) by {
        if views(lines@) == seq![NO_REVISIONS@] {
            assert(views(lines@)[0] == NO_REVISIONS@);
        }
    }
    read_rows(lines)
}

/// The table that a review listing describes.
///
/// ASCII white space around the listing is set aside, and the rest is
/// read line by line as [`get_arc_info`] does.
pub fn parse_review_table(listing: &str) -> (r: Result<ReviewTable, TableParseError>)
    ensures
        match r {
            Ok(table) => review_table(listing@) == Ok::<Map<Seq<char>, ReviewInfoView>, Seq<char>>(
                table@,
            ) && (forall|t: Seq<char>| table@.contains_key(t) ==> is_ticket_id(t)),
            Err(e) => review_table(listing@) == Err::<Map<Seq<char>, ReviewInfoView>, Seq<char>>(
                e.line@,
            ),
        },
{
    let chars = chars_of(listing);
    let (from, to) = trim_ascii_bounds(&chars);
    let lines = lines_of(slice_subrange(&chars, from, to));
    get_arc_info(&lines)
}

/// The lines of a review listing given as the raw output of the review
/// tool: ASCII white space around the output is set aside, and the rest is
/// decoded and split.
pub fn arc_list(output: &[u8]) -> (r: Result<Vec<String>, ReviewToolError>)
    ensures
        match r {
            Ok(lines) => listing_lines(output@) == Some(views(lines@)),
            Err(e) => e == ReviewToolError::NotUtf8 && listing_lines(output@) is None,
        },
{
    match decode(trim_ascii_whitespace(output)) {
        Some(text) => Ok(split_lines(&text)),
        None => Err(ReviewToolError::NotUtf8),
    }
}

} // verus!
