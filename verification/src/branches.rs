//! The local branches of a repository, read off the branch listing.
//!
//! The listing holds one record per line. A record is the branch's name, a
//! NUL byte, and the name of its upstream, which is empty where the branch
//! has none. Empty lines hold no record.

use crate::bytes::{decode, pieces, split_bytes, LINE_FEED};
use crate::chars::option_view;
use crate::error::RepositoryError;
use crate::seqs::{gather, lemma_gather_err, lemma_gather_failed_prefix, lemma_gather_ok, split};
use vstd::prelude::*;
use vstd::utf8::{decode_utf8, valid_utf8};

verus! {

/// The byte between the two fields of a record.
pub const FIELD_SEPARATOR: u8 = 0;

/// A local branch.
#[derive(Debug, Clone, PartialEq, Eq)]
pub struct BranchInfo {
    /// The branch's name.
    pub branch: String,
    /// The name of the branch it tracks, if it tracks one.
    pub upstream: Option<String>,
}

/// What a [`BranchInfo`] holds, as text.
pub struct BranchView {
    pub branch: Seq<char>,
    pub upstream: Option<Seq<char>>,
}

impl View for BranchInfo {
    type V = BranchView;

    open spec fn view(&self) -> BranchView {
        BranchView { branch: self.branch@, upstream: option_view(self.upstream) }
    }
}

/// What a sequence of branches holds, as text.
pub open spec fn branch_views(v: Seq<BranchInfo>) -> Seq<BranchView> {
    v.map_values(|b: BranchInfo| b@)
}

/// The names of a sequence of branches.
pub open spec fn names_of(branches: Seq<BranchView>) -> Seq<Seq<char>> {
    branches.map_values(|b: BranchView| b.branch)
}

/// The branch that a record describes. A record has exactly two fields,
/// both UTF-8; an empty second field means that there is no upstream.
pub open spec fn branch_of_record(record: Seq<u8>) -> Result<BranchView, RepositoryError> {
    let fields = split(record, FIELD_SEPARATOR);
    if fields.len() != 2 {
        Err(RepositoryError::FieldCount { found: fields.len() as usize })
    } else if !valid_utf8(fields[0]) {
        Err(RepositoryError::NotUtf8)
    } else if fields[1].len() == 0 {
        Ok(BranchView { branch: decode_utf8(fields[0]), upstream: None })
    } else if !valid_utf8(fields[1]) {
        Err(RepositoryError::NotUtf8)
    } else {
        Ok(BranchView { branch: decode_utf8(fields[0]), upstream: Some(decode_utf8(fields[1])) })
    }
}

/// The predicate "is not empty".
pub open spec fn non_empty() -> spec_fn(Seq<u8>) -> bool {
    |record: Seq<u8>| record.len() > 0
}

/// [`branch_of_record`] as a function value.
pub open spec fn record_parser() -> spec_fn(Seq<u8>) -> Result<BranchView, RepositoryError> {
    |record: Seq<u8>| branch_of_record(record)
}

/// The records of a listing: its non-empty lines.
pub open spec fn branch_records(output: Seq<u8>) -> Seq<Seq<u8>> {
    split(output, LINE_FEED).filter(non_empty())
}

/// The branches of a listing, in its order, or what is wrong with the first
/// record that describes none.
pub open spec fn branches_of(output: Seq<u8>) -> Result<Seq<BranchView>, RepositoryError> {
    gather(branch_records(output).map_values(record_parser()))
}

/// A listing is read record by record: it gives a branch for each of its
/// records, in their order, if every record describes one.
pub proof fn lemma_branches_follow_the_records(output: Seq<u8>)
    ensures
        branches_of(output) is Ok <==> forall|i: int|
            0 <= i < branch_records(output).len() ==> branch_of_record(
                #[trigger] branch_records(output)[i],
            ) is Ok,
        branches_of(output) matches Ok(branches) ==> branches.len() == branch_records(
            output,
        ).len() && forall|i: int|
            0 <= i < branches.len() ==> branch_of_record(branch_records(output)[i]) == Ok::<
                BranchView,
                RepositoryError,
            >(#[trigger] branches[i]),
{
    let records = branch_records(output);
    let results = records.map_values(record_parser());
    lemma_gather_ok(results);
    if branches_of(output) is Ok {
        assert forall|i: int| 0 <= i < records.len() implies branch_of_record(
            #[trigger] records[i],
        ) is Ok by {
            assert(results[i] is Ok);
        }
    }
    if forall|i: int| 0 <= i < records.len() ==> branch_of_record(#[trigger] records[i]) is Ok {
        assert forall|i: int| 0 <= i < results.len() implies (#[trigger] results[i]) is Ok by {
            assert(branch_of_record(records[i]) is Ok);
        }
    }
    if let Ok(branches) = branches_of(output) {
        assert forall|i: int| 0 <= i < branches.len() implies branch_of_record(records[i]) == Ok::<
            BranchView,
            RepositoryError,
        >(#[trigger] branches[i]) by {
            assert(results[i] == Ok::<BranchView, RepositoryError>(branches[i]));
        }
    }
}

/// A listing with a record that describes no branch fails with what is
/// wrong with the first such record; `k` is its place among the records.
pub proof fn lemma_first_bad_record_decides(output: Seq<u8>) -> (k: int)
    requires
        branches_of(output) is Err,
    ensures
        0 <= k < branch_records(output).len(),
        branch_of_record(branch_records(output)[k]) == Err::<BranchView, RepositoryError>(
            branches_of(output)->Err_0,
        ),
        forall|j: int| 0 <= j < k ==> branch_of_record(#[trigger] branch_records(output)[j]) is Ok,
{
    let records = branch_records(output);
    let results = records.map_values(record_parser());
    let k = lemma_gather_err(results);
    assert forall|j: int| 0 <= j < k implies branch_of_record(#[trigger] records[j]) is Ok by {
        assert(results[j] is Ok);
    }
    k
}

/// The branch that one record describes.
pub fn parse_branch_record(record: &[u8]) -> (r: Result<BranchInfo, RepositoryError>)
    ensures
        match r {
            Ok(info) => branch_of_record(record@) == Ok::<BranchView, RepositoryError>(info@),
            Err(e) => branch_of_record(record@) == Err::<BranchView, RepositoryError>(e),
        },
{
    let fields = split_bytes(record, FIELD_SEPARATOR);
    if fields.len() != 2 {
        return Err(RepositoryError::FieldCount { found: fields.len() });
    }
    assert(pieces(fields@)[0] == fields@[0]@ && pieces(fields@)[1] == fields@[1]@);
    let branch = match decode(fields[0]) {
        Some(text) => text,
        None => {
            return Err(RepositoryError::NotUtf8);
        },
    };
    let upstream = if fields[1].len() == 0 {
        None
    } else {
        match decode(fields[1]) {
            Some(text) => Some(text),
            None => {
                return Err(RepositoryError::NotUtf8);
            },
        }
    };
    Ok(BranchInfo { branch, upstream })
}

/// The records of a listing.
fn records_of<'a>(output: &'a [u8]) -> (records: Vec<&'a [u8]>)
    ensures
        pieces(records@) == branch_records(output@),
{
    let lines = split_bytes(output, LINE_FEED);
    let mut records: Vec<&'a [u8]> = Vec::new();
    let mut i: usize = 0;
    proof {
        reveal(Seq::filter);
        assert(pieces(lines@).take(0).filter(non_empty()) =~= pieces(records@));
    }
    while i < lines.len()
        invariant
            i <= lines@.len(),
            pieces(records@) == pieces(lines@).take(i as int).filter(non_empty()),
        decreases lines@.len() - i,
    {
        let line = lines[i];
        proof {
            let seen = pieces(lines@).take(i as int);
            assert(pieces(lines@).take(i + 1) =~= seen.push(line@));
            seen.lemma_filter_push(line@, non_empty());
        }
        if line.len() > 0 {
            assert(pieces(records@.push(line)) =~= pieces(records@).push(line@));
            records.push(line);
        }
        i += 1;
    }
    assert(pieces(lines@).take(lines@.len() as int) =~= pieces(lines@));
    records
}

/// The local branches that a branch listing describes, in its order.
///
/// Fails on the first record that has not exactly two fields or holds
/// bytes that are not UTF-8.
pub fn get_branches(output: &[u8]) -> (r: Result<Vec<BranchInfo>, RepositoryError>)
    ensures
        match r {
            Ok(branches) => branches_of(output@) == Ok::<Seq<BranchView>, RepositoryError>(
                branch_views(branches@),
            ),
            Err(e) => branches_of(output@) == Err::<Seq<BranchView>, RepositoryError>(e),
        },
{
    let records = records_of(output);
    let ghost results = pieces(records@).map_values(record_parser());
    let mut branches: Vec<BranchInfo> = Vec::new();
    let mut i: usize = 0;
    assert(results.take(0) =~= Seq::empty());
    assert(branch_views(branches@) =~= Seq::empty());
    while i < records.len()
        invariant
            i <= records@.len(),
            pieces(records@) == branch_records(output@),
            results == pieces(records@).map_values(record_parser()),
            gather(results.take(i as int)) == Ok::<Seq<BranchView>, RepositoryError>(
                branch_views(branches@),
            ),
        decreases records@.len() - i,
    {
        proof {
            assert(results.take(i + 1).drop_last() =~= results.take(i as int));
            assert(results.take(i + 1).last() == branch_of_record(records@[i as int]@));
        }
        match parse_branch_record(records[i]) {
            Ok(info) => {
                assert(branch_views(branches@.push(info)) =~= branch_views(branches@).push(info@));
                branches.push(info);
            },
            Err(e) => {
                proof {
                    lemma_gather_failed_prefix(results, i + 1);
                }
                return Err(e);
            },
        }
        i += 1;
    }
    assert(results.take(records@.len() as int) =~= results);
    Ok(branches)
}

} // verus!
