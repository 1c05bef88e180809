//! The tickets that a branch introduces, read off its commit log.

use crate::bytes::{decode, decoded, trim_ascii, trim_ascii_whitespace};
use crate::chars::views;
use crate::error::RepositoryError;
use crate::lines::{lines, split_lines};
use crate::seqs::{lemma_filter_map_concat, lemma_filter_map_reverse};
use crate::ticket::{is_ticket_id, parse_ticket_reference, ticket_reference};
use vstd::prelude::*;
use vstd::seq_lib::to_multiset_build;

verus! {

/// [`ticket_reference`] as a function value.
pub open spec fn reference() -> spec_fn(Seq<char>) -> Option<Seq<char>> {
    |line: Seq<char>| ticket_reference(line)
}

/// The tickets cited in `bodies`, one for each citing line, in the order of
/// the lines.
pub open spec fn cited(bodies: Seq<Seq<char>>) -> Seq<Seq<char>> {
    bodies.filter_map(reference())
}

/// The tickets of a branch whose log, newest commit first, has the lines
/// `bodies`: every citation, oldest first.
pub open spec fn branch_diffs(bodies: Seq<Seq<char>>) -> Seq<Seq<char>> {
    cited(bodies).reverse()
}

/// The commit that a merge-base query names: its output as text, without
/// the ASCII white space around it; `None` where that is not UTF-8.
pub open spec fn merge_base_of(output: Seq<u8>) -> Option<Seq<char>> {
    decoded(trim_ascii(output))
}

/// The lines of the commit messages that a log query printed; `None` where
/// its output is not UTF-8.
pub open spec fn commit_bodies_of(output: Seq<u8>) -> Option<Seq<Seq<char>>> {
    match decoded(output) {
        Some(text) => Some(lines(text)),
        None => None,
    }
}

/// The tickets that a branch introduces, oldest first, given the raw output
/// of the log query for it.
pub open spec fn resolved(output: Seq<u8>) -> Option<Seq<Seq<char>>> {
    match commit_bodies_of(output) {
        Some(bodies) => Some(branch_diffs(bodies)),
        None => None,
    }
}

/// The predicate "cites `ticket`".
pub open spec fn cites(ticket: Seq<char>) -> spec_fn(Seq<char>) -> bool {
    |line: Seq<char>| ticket_reference(line) == Some(ticket)
}

/// Reading the log backwards gives the same tickets as reading it forwards
/// and reversing what was found: the tickets of a branch stand in the order
/// of its commits, oldest first.
pub proof fn lemma_tickets_follow_commit_order(bodies: Seq<Seq<char>>)
    ensures
        branch_diffs(bodies) == cited(bodies.reverse()),
{
    lemma_filter_map_reverse(bodies, reference());
}

/// The tickets of a log in two parts are those of the older part followed
/// by those of the newer part: what one commit cites does not change what
/// another contributes.
pub proof fn lemma_branch_diffs_of_two_parts(newer: Seq<Seq<char>>, older: Seq<Seq<char>>)
    ensures
        branch_diffs(newer + older) == branch_diffs(older) + branch_diffs(newer),
{
    lemma_filter_map_concat(newer, older, reference());
    assert((cited(newer) + cited(older)).reverse() =~= cited(older).reverse() + cited(
        newer,
    ).reverse());
}

/// A single line contributes its ticket if it cites one, and nothing
/// otherwise.
pub proof fn lemma_branch_diffs_of_one_line(line: Seq<char>)
    ensures
        branch_diffs(seq![line]) == match ticket_reference(line) {
            Some(ticket) => seq![ticket],
            None => Seq::empty(),
        },
{
    Seq::lemma_filter_map_singleton(line, reference());
    match ticket_reference(line) {
        Some(ticket) => {
            assert(seq![ticket].reverse() =~= seq![ticket]);
        },
        None => {
            assert(Seq::<Seq<char>>::empty().reverse() =~= Seq::<Seq<char>>::empty());
        },
    }
}

/// Nothing is deduplicated: a ticket occurs among the tickets of a branch
/// as often as there are lines that cite it.
pub proof fn lemma_every_citation_is_kept(bodies: Seq<Seq<char>>, ticket: Seq<char>)
    ensures
        branch_diffs(bodies).to_multiset().count(ticket) == bodies.filter(cites(ticket)).len(),
    decreases bodies.len(),
{
    reveal(Seq::filter);
    cited(bodies).lemma_reverse_to_multiset();
    if bodies.len() == 0 {
        assert(cited(bodies).to_multiset().count(ticket) == 0) by {
            cited(bodies).to_multiset_ensures();
        }
    } else {
        let front = bodies.drop_last();
        lemma_every_citation_is_kept(front, ticket);
        cited(front).lemma_reverse_to_multiset();
        match ticket_reference(bodies.last()) {
            Some(found) => {
                assert(cited(bodies) =~= cited(front).push(found));
                to_multiset_build(cited(front), found);
            },
            None => {},
        }
    }
}

/// The commit identifier in the output of a merge-base query.
pub fn get_merge_base(output: &[u8]) -> (r: Result<String, RepositoryError>)
    ensures
        match r {
            Ok(commit) => merge_base_of(output@) == Some(commit@),
            Err(e) => e == RepositoryError::NotUtf8 && merge_base_of(output@) is None,
        },
{
    match decode(trim_ascii_whitespace(output)) {
        Some(commit) => Ok(commit),
        None => Err(RepositoryError::NotUtf8),
    }
}

/// The lines of the commit messages in the output of a log query, in its
/// order: newest commit first, one line of output per line returned.
pub fn get_commit_bodies(output: &[u8]) -> (r: Result<Vec<String>, RepositoryError>)
    ensures
        match r {
            Ok(bodies) => commit_bodies_of(output@) == Some(views(bodies@)),
            Err(e) => e == RepositoryError::NotUtf8 && commit_bodies_of(output@) is None,
        },
{
    match decode(output) {
        Some(text) => Ok(split_lines(&text)),
        None => Err(RepositoryError::NotUtf8),
    }
}

/// The tickets cited in `bodies`, in the order of the lines.
pub fn cited_tickets(bodies: &[String]) -> (tickets: Vec<String>)
    ensures
        views(tickets@) == cited(views(bodies@)),
        forall|i: int| 0 <= i < tickets@.len() ==> is_ticket_id(#[trigger] tickets@[i]@),
{
    let mut tickets: Vec<String> = Vec::new();
    let mut i: usize = 0;
    assert(views(tickets@) =~= views(bodies@).take(0).filter_map(reference()));
    while i < bodies.len()
        invariant
            i <= bodies@.len(),
            views(tickets@) == views(bodies@).take(i as int).filter_map(reference()),
            forall|k: int| 0 <= k < tickets@.len() ==> is_ticket_id(#[trigger] tickets@[k]@),
        decreases bodies@.len() - i,
    {
        proof {
            views(bodies@).lemma_filter_map_take_succ(reference(), i as int);
        }
        match parse_ticket_reference(&bodies[i]) {
            Some(ticket) => {
                assert(views(tickets@.push(ticket)) =~= views(tickets@) + seq![ticket@]);
                tickets.push(ticket);
            },
            None => {},
        }
        i += 1;
    }
    assert(views(bodies@).take(bodies@.len() as int) =~= views(bodies@));
    tickets
}

/// The tickets that a branch introduces, oldest first, given the lines of
/// its commit messages as the log prints them, newest commit first.
///
/// Each citing line contributes its ticket: a ticket cited by several
/// commits appears once for each. A log without citations gives no tickets.
pub fn get_branch_diffs(bodies: &[String]) -> (diffs: Vec<String>)
    ensures
        views(diffs@) == branch_diffs(views(bodies@)),
        forall|i: int| 0 <= i < diffs@.len() ==> is_ticket_id(#[trigger] diffs@[i]@),
{
    let mut tickets = cited_tickets(bodies);
    let ghost all = tickets@;
    let mut diffs: Vec<String> = Vec::new();
    while tickets.len() > 0
        invariant
            tickets@.len() + diffs@.len() == all.len(),
            tickets@ == all.take(tickets@.len() as int),
            forall|k: int| 0 <= k < diffs@.len() ==> diffs@[k] == all[all.len() - 1 - k],
        decreases tickets@.len(),
    {
        let last = tickets.pop();
        match last {
            Some(ticket) => {
                diffs.push(ticket);
            },
            None => {},
        }
    }
    assert(views(diffs@) =~= views(all).reverse());
    diffs
}

/// The tickets that a branch introduces, oldest first, given the raw output
/// of the log query for the commits that the branch has and its target has
/// not.
pub fn resolve_branch_diffs(output: &[u8]) -> (r: Result<Vec<String>, RepositoryError>)
    ensures
        match r {
            Ok(diffs) => resolved(output@) == Some(views(diffs@)) && forall|i: int|
                0 <= i < diffs@.len() ==> is_ticket_id(#[trigger] diffs@[i]@),
            Err(e) => e == RepositoryError::NotUtf8 && resolved(output@) is None,
        },
{
    match get_commit_bodies(output) {
        Ok(bodies) => Ok(get_branch_diffs(&bodies)),
        Err(e) => Err(e),
    }
}

} // verus!
