//! Ticket identifiers, and the commit-message line that cites one.
//!
//! A commit cites its review ticket in a line of the form
//! `Differential Revision: https://host/D1234`. The ticket is the path of the
//! URL without its leading slash.

use crate::chars::{
    ascii_digit, chars_of, is_ascii_digit, option_view, starts_with, text_between, trim_between,
    trim_white_space,
};
use vstd::prelude::*;

verus! {

/// What a citing line begins with.
pub const ANNOTATION: &'static str = "Differential Revision:";

/// A ticket identifier: `D` followed by one or more ASCII digits.
pub open spec fn is_ticket_id(id: Seq<char>) -> bool {
    &&& id.len() >= 2
    &&& id[0] == 'D'
    &&& forall|i: int| 1 <= i < id.len() ==> is_ascii_digit(#[trigger] id[i])
}

/// The ticket that a URL path names: the path is a slash and a ticket
/// identifier, and nothing else.
pub open spec fn ticket_of_path(path: Seq<char>) -> Option<Seq<char>> {
    if path.len() > 0 && path[0] == '/' && is_ticket_id(path.skip(1)) {
        Some(path.skip(1))
    } else {
        None
    }
}

/// The path of `input` read as an absolute URL: what `url::Url::parse`
/// followed by `Url::path` returns, and `None` where `input` does not parse.
pub uninterp spec fn url_path(input: Seq<char>) -> Option<Seq<char>>;

/// The ticket that `line` cites, if it is a citing line: it begins with
/// [`ANNOTATION`], and the rest, trimmed, is an absolute URL whose path names
/// a ticket.
pub open spec fn ticket_reference(line: Seq<char>) -> Option<Seq<char>> {
    if ANNOTATION@.is_prefix_of(line) {
        match url_path(trim_white_space(line.skip(ANNOTATION@.len() as int))) {
            Some(path) => ticket_of_path(path),
            None => None,
        }
    } else {
        None
    }
}

/// A line that does not begin with the annotation cites nothing.
pub proof fn lemma_annotation_is_required(line: Seq<char>)
    requires
        !ANNOTATION@.is_prefix_of(line),
    ensures
        ticket_reference(line) is None,
{
}

/// A line made of the annotation and an address whose path is a slash and a
/// ticket identifier cites exactly that identifier.
pub proof fn lemma_citing_line(line: Seq<char>, id: Seq<char>)
    requires
        ANNOTATION@.is_prefix_of(line),
        is_ticket_id(id),
        url_path(trim_white_space(line.skip(ANNOTATION@.len() as int))) == Some(seq!['/'] + id),
    ensures
        ticket_reference(line) == Some(id),
{
    assert((seq!['/'] + id).skip(1) =~= id);
}

/// A path with a character that is no digit behind `/D` names no ticket,
/// and a line with such an address cites nothing.
pub proof fn lemma_stray_character_spoils_ticket(line: Seq<char>, path: Seq<char>, i: int)
    requires
        2 <= i < path.len(),
        !is_ascii_digit(path[i]),
    ensures
        ticket_of_path(path) is None,
        url_path(trim_white_space(line.skip(ANNOTATION@.len() as int))) == Some(path)
            ==> ticket_reference(line) is None,
{
    assert(path.skip(1)[i - 1] == path[i]);
}

/// Parses `input` with `url::Url::parse` and copies out `Url::path` of the
/// result. Nothing is claimed of the URL grammar: the contract only names the
/// outcome [`url_path`], a function of the input text alone.
#[verifier::external_body]
fn parse_url_path(input: &str) -> (path: Option<String>)
    ensures
        option_view(path) == url_path(input@),
{
    match url::Url::parse(input) {
        Ok(parsed) => Some(parsed.path().to_owned()),
        Err(_) => None,
    }
}

/// The ticket named by a URL path, if it names one.
///
/// A path with anything but digits after `/D`, or with no digit there, names
/// none.
pub fn ticket_from_path(path: &str) -> (ticket: Option<String>)
    ensures
        option_view(ticket) == ticket_of_path(path@),
        ticket matches Some(id) ==> is_ticket_id(id@) && path@ == seq!['/'] + id@,
        (exists|i: int| 2 <= i < path@.len() && !is_ascii_digit(path@[i])) ==> ticket is None,
{
    let chars = chars_of(path);
    let n = chars.len();
    if n < 3 || chars[0] != '/' || chars[1] != 'D' {
        assert(ticket_of_path(path@) is None) by {
            if path@.len() >= 3 && path@[0] == '/' {
                assert(path@.skip(1)[0] == path@[1]);
            }
        }
        return None;
    }
    let mut i: usize = 2;
    while i < n
        invariant
            chars@ == path@,
            n == chars@.len(),
            2 <= i <= n,
            forall|j: int| 2 <= j < i ==> is_ascii_digit(chars@[j]),
        decreases n - i,
    {
        if !ascii_digit(chars[i]) {
            assert(!is_ticket_id(path@.skip(1))) by {
                assert(path@.skip(1)[i - 1] == path@[i as int]);
            }
            return None;
        }
        i += 1;
    }
    let id = text_between(&chars, 1, n);
    proof {
        assert(id@ =~= path@.skip(1));
        assert(path@ =~= seq!['/'] + id@);
        assert forall|k: int| 1 <= k < id@.len() implies is_ascii_digit(#[trigger] id@[k]) by {
            assert(id@[k] == chars@[k + 1]);
        }
    }
    Some(id)
}

/// The ticket that a commit-message line cites, if it cites one.
///
/// Every line is classified: a line that does not begin with [`ANNOTATION`],
/// whose remainder is no absolute URL, or whose URL path names no ticket,
/// cites none.
pub fn parse_ticket_reference(line: &str) -> (ticket: Option<String>)
    ensures
        option_view(ticket) == ticket_reference(line@),
        !ANNOTATION@.is_prefix_of(line@) ==> ticket is None,
        ticket matches Some(id) ==> is_ticket_id(id@),
{
    let chars = chars_of(line);
    let annotation = chars_of(ANNOTATION);
    if !starts_with(&chars, &annotation) {
        return None;
    }
    let (from, to) = trim_between(&chars, annotation.len(), chars.len());
    let address = text_between(&chars, from, to);
    assert(chars@.subrange(annotation@.len() as int, chars@.len() as int) =~= line@.skip(
        ANNOTATION@.len() as int,
    ));
    match parse_url_path(&address) {
        Some(path) => ticket_from_path(&path),
        None => None,
    }
}

} // verus!
