//! The run that produces a report, one step at a time.
//!
//! The report needs answers from two outside programs: the review tool, for
//! its listing, and the version-control system, for the branches and for the
//! merge base and the log of each branch. This module decides which query
//! comes next and what to do with its answer; running the query is left to
//! the caller. The caller starts with [`Report::start`], runs the query it
//! is given, and hands the outcome to [`Report::step`]; it prints the line
//! it gets back, if any, and goes on until it is told that the run is
//! done or has failed.

use crate::branches::{
    branch_views, branches_of, get_branches, names_of, BranchInfo, BranchView,
};
use crate::chars::views;
use crate::error::{Error, ErrorView, RepositoryError, ReviewToolError};
use crate::render::{
    branch_line, column_width, column_width_of, render_branch, segment_views,
    Segment, SegmentView,
};
use crate::resolver::{get_merge_base, merge_base_of, resolve_branch_diffs, resolved};
use crate::review::{arc_list, get_arc_info, listing_lines, table_of_lines, ReviewTable};
use crate::row::ReviewInfoView;
use vstd::prelude::*;
use vstd::string::StringExecFns;

verus! {

/// The branch that the branches of a repository are usually compared with.
pub const TARGET: &'static str = "master";

/// A query for the caller to run.
#[derive(Debug, Clone, PartialEq, Eq)]
pub enum Query {
    /// The review tool's listing of the open tickets.
    ReviewListing,
    /// The local branches with their upstreams.
    Branches,
    /// The nearest common ancestor of two branches.
    MergeBase { branch: String, target: String },
    /// The commit messages of the commits that `to` has and `from` has not.
    CommitLog { from: String, to: String },
}

/// What a [`Query`] holds, as text.
pub enum QueryView {
    ReviewListing,
    Branches,
    MergeBase { branch: Seq<char>, target: Seq<char> },
    CommitLog { from: Seq<char>, to: Seq<char> },
}

impl View for Query {
    type V = QueryView;

    open spec fn view(&self) -> QueryView {
        match self {
            Query::ReviewListing => QueryView::ReviewListing,
            Query::Branches => QueryView::Branches,
            Query::MergeBase { branch, target } => QueryView::MergeBase {
                branch: branch@,
                target: target@,
            },
            Query::CommitLog { from, to } => QueryView::CommitLog { from: from@, to: to@ },
        }
    }
}

/// The outcome of a query.
#[derive(Debug, Clone, PartialEq, Eq)]
pub enum Answer {
    /// The program ran and ended with status zero; this is what it wrote
    /// to its standard output.
    Output(Vec<u8>),
    /// The program could not be run or ended with another status.
    Failed,
}

impl View for Answer {
    type V = Option<Seq<u8>>;

    open spec fn view(&self) -> Option<Seq<u8>> {
        match self {
            Answer::Output(bytes) => Some(bytes@),
            Answer::Failed => None,
        }
    }
}

/// What the caller does next.
#[derive(Debug, Clone, PartialEq, Eq)]
pub enum Next {
    /// Run this query and hand its outcome to [`Report::step`].
    Ask(Query),
    /// Nothing: the report is complete.
    Done,
    /// Nothing: the run has failed, and no further line is printed.
    Failed(Error),
}

/// What a [`Next`] holds, as text.
pub enum NextView {
    Ask(QueryView),
    Done,
    Failed(ErrorView),
}

impl View for Next {
    type V = NextView;

    open spec fn view(&self) -> NextView {
        match self {
            Next::Ask(query) => NextView::Ask(query@),
            Next::Done => NextView::Done,
            Next::Failed(e) => NextView::Failed(e@),
        }
    }
}

/// The result of one step: a line to print, if the step completed one, and
/// what to do after printing it.
#[derive(Debug, Clone, PartialEq, Eq)]
pub struct Turn {
    pub line: Option<Vec<Segment>>,
    pub next: Next,
}

/// What a [`Turn`] holds, as text.
pub struct TurnView {
    pub line: Option<Seq<SegmentView>>,
    pub next: NextView,
}

impl View for Turn {
    type V = TurnView;

    open spec fn view(&self) -> TurnView {
        TurnView {
            line: match self.line {
                Some(line) => Some(segment_views(line@)),
                None => None,
            },
            next: self.next@,
        }
    }
}

/// Which answer a run is waiting for.
#[derive(Debug, Clone, Copy, PartialEq, Eq)]
pub enum Stage {
    /// The review listing.
    Listing,
    /// The branch listing.
    Branches,
    /// The merge base of the current branch and the target.
    MergeBase,
    /// The log of the current branch since the merge base.
    Log,
    /// None: the run is over.
    Finished,
}

/// A run in progress.
pub struct Report {
    stage: Stage,
    target: String,
    table: ReviewTable,
    branches: Vec<BranchInfo>,
    width: usize,
    current: usize,
}

/// What a [`Report`] holds, as text.
pub struct ReportView {
    pub stage: Stage,
    pub target: Seq<char>,
    pub table: Map<Seq<char>, ReviewInfoView>,
    pub branches: Seq<BranchView>,
    pub width: int,
    pub current: int,
}

impl View for Report {
    type V = ReportView;

    closed spec fn view(&self) -> ReportView {
        ReportView {
            stage: self.stage,
            target: self.target@,
            table: self.table@,
            branches: branch_views(self.branches@),
            width: self.width as int,
            current: self.current as int,
        }
    }
}

/// The program that answers a query.
pub open spec fn program_of(query: QueryView) -> Seq<char> {
    match query {
        QueryView::ReviewListing => "arc"@,
        _ => "git"@,
    }
}

/// The arguments with which the program answers a query.
pub open spec fn arguments_of(query: QueryView) -> Seq<Seq<char>> {
    match query {
        QueryView::ReviewListing => seq!["list"@],
        QueryView::Branches => seq![
            "for-each-ref"@,
            "--format=%(refname:short)%00%(upstream:short)"@,
            "refs/heads"@,
        ],
        QueryView::MergeBase { branch, target } => seq!["merge-base"@, branch, target],
        QueryView::CommitLog { from, to } => seq![
            "--no-pager"@,
            "log"@,
            "--format=%B"@,
            from + ".."@ + to,
        ],
    }
}

/// Whether a state is one that a run can be in: while a branch is being
/// resolved, it is one of the listing's.
pub open spec fn consistent(r: ReportView) -> bool {
    (r.stage == Stage::MergeBase || r.stage == Stage::Log) ==> 0 <= r.current < r.branches.len()
}

/// The state in which a run against `target` begins: it waits for the
/// review listing.
pub open spec fn starting(target: Seq<char>) -> ReportView {
    ReportView {
        stage: Stage::Listing,
        target: target,
        table: Map::empty(),
        branches: Seq::empty(),
        width: 0,
        current: 0,
    }
}

/// The state in which a run is over.
pub open spec fn finished(r: ReportView) -> ReportView {
    ReportView { stage: Stage::Finished, ..r }
}

/// A run that fails: it is over, prints nothing and reports `e`.
pub open spec fn failing(r: ReportView, e: ErrorView) -> (ReportView, TurnView) {
    (finished(r), TurnView { line: None, next: NextView::Failed(e) })
}

/// The merge-base query for the current branch, or the end of the run
/// where no branch is left.
pub open spec fn next_branch(r: ReportView) -> (ReportView, NextView) {
    if 0 <= r.current < r.branches.len() {
        (
            ReportView { stage: Stage::MergeBase, ..r },
            NextView::Ask(
                QueryView::MergeBase { branch: r.branches[r.current].branch, target: r.target },
            ),
        )
    } else {
        (finished(r), NextView::Done)
    }
}

/// The state after a step and what the step hands to the caller, given the
/// state before it and the outcome of the query that the run was waiting
/// for.
///
/// The review listing comes first, then the branch listing; then, for each
/// branch in the listing's order, the merge base with the target and the log
/// since the merge base, which completes the branch's line. A query that
/// fails, or an answer that cannot be read, ends the run.
pub open spec fn step_of(r: ReportView, answer: Option<Seq<u8>>) -> (ReportView, TurnView) {
    match r.stage {
        Stage::Listing => match answer {
            None => failing(r, ErrorView::ReviewTool(ReviewToolError::CommandFailed)),
            Some(output) => match listing_lines(output) {
                None => failing(r, ErrorView::ReviewTool(ReviewToolError::NotUtf8)),
                Some(lines) => match table_of_lines(lines) {
                    Err(line) => failing(r, ErrorView::TableParse(line)),
                    Ok(table) => (
                        ReportView { stage: Stage::Branches, table: table, ..r },
                        TurnView { line: None, next: NextView::Ask(QueryView::Branches) },
                    ),
                },
            },
        },
        Stage::Branches => match answer {
            None => failing(r, ErrorView::Repository(RepositoryError::CommandFailed)),
            Some(output) => match branches_of(output) {
                Err(e) => failing(r, ErrorView::Repository(e)),
                Ok(branches) => {
                    let (after, next) = next_branch(
                        ReportView {
                            branches: branches,
                            width: column_width_of(names_of(branches)),
                            current: 0,
                            ..r
                        },
                    );
                    (after, TurnView { line: None, next: next })
                },
            },
        },
        Stage::MergeBase => match answer {
            None => failing(r, ErrorView::Repository(RepositoryError::CommandFailed)),
            Some(output) => match merge_base_of(output) {
                None => failing(r, ErrorView::Repository(RepositoryError::NotUtf8)),
                Some(base) => (
                    ReportView { stage: Stage::Log, ..r },
                    TurnView {
                        line: None,
                        next: NextView::Ask(
                            QueryView::CommitLog { from: base, to: r.branches[r.current].branch },
                        ),
                    },
                ),
            },
        },
        Stage::Log => match answer {
            None => failing(r, ErrorView::Repository(RepositoryError::CommandFailed)),
            Some(output) => match resolved(output) {
                None => failing(r, ErrorView::Repository(RepositoryError::NotUtf8)),
                Some(tickets) => {
                    let line = branch_line(
                        r.branches[r.current].branch,
                        r.width,
                        tickets,
                        r.table,
                    );
                    let (after, next) = next_branch(ReportView { current: r.current + 1, ..r });
                    (after, TurnView { line: Some(line), next: next })
                },
            },
        },
        Stage::Finished => (r, TurnView { line: None, next: NextView::Done }),
    }
}

/// The lines that a run prints from the state `r` on, given the outcomes
/// of its queries in the order in which it asks them.
pub open spec fn printed(r: ReportView, answers: Seq<Option<Seq<u8>>>) -> Seq<Seq<SegmentView>>
    decreases answers.len(),
{
    if answers.len() == 0 {
        Seq::empty()
    } else {
        let (after, turn) = step_of(r, answers.first());
        let rest = printed(after, answers.drop_first());
        match turn.line {
            Some(line) => seq![line] + rest,
            None => rest,
        }
    }
}

/// Whether `answers` holds, for the `k`-th branch that is left, a merge
/// base and a log that can be read.
pub open spec fn resolves(answers: Seq<Option<Seq<u8>>>, k: int) -> bool {
    &&& answers[2 * k] matches Some(base) && merge_base_of(base) is Some
    &&& answers[2 * k + 1] matches Some(log) && resolved(log) is Some
}

/// The line of the `k`-th branch that is left, given the outcomes of the
/// queries.
pub open spec fn line_of(r: ReportView, answers: Seq<Option<Seq<u8>>>, k: int) -> Seq<
    SegmentView,
> {
    branch_line(
        r.branches[r.current + k].branch,
        r.width,
        resolved(answers[2 * k + 1]->0)->0,
        r.table,
    )
}

/// A step leaves a state that a run can be in, and a run that has ended,
/// by completion or by failure, stays ended: it asks and prints nothing
/// more.
pub proof fn lemma_step_keeps_the_run_on_track(r: ReportView, answer: Option<Seq<u8>>)
    requires
        consistent(r),
    ensures
        consistent(step_of(r, answer).0),
        !(step_of(r, answer).1.next is Ask) ==> step_of(r, answer).0.stage == Stage::Finished,
        step_of(r, answer).1.next is Failed ==> step_of(r, answer).1.line is None,
        r.stage == Stage::Finished ==> step_of(r, answer) == (
            r,
            TurnView { line: None, next: NextView::Done },
        ),
        step_of(r, answer).0.target == r.target,
{
}

/// Where every merge base and every log can be read, a run prints one line
/// for each branch that is left, in the order of the branch listing, with
/// the tickets that the branch's log resolves to.
pub proof fn lemma_run_prints_a_line_per_branch(r: ReportView, answers: Seq<Option<Seq<u8>>>)
    requires
        r.stage == Stage::MergeBase,
        consistent(r),
        answers.len() == 2 * (r.branches.len() - r.current),
        forall|k: int| 0 <= k < r.branches.len() - r.current ==> #[trigger] resolves(answers, k),
    ensures
        printed(r, answers) == Seq::new(
            (r.branches.len() - r.current) as nat,
            |k: int| line_of(r, answers, k),
        ),
    decreases r.branches.len() - r.current,
{
    let left = r.branches.len() - r.current;
    assert(resolves(answers, 0));
    let (waiting, asked) = step_of(r, answers[0]);
    let (after, turn) = step_of(waiting, answers[1]);
    let rest = answers.skip(2);
    assert(answers.drop_first().first() == answers[1]);
    assert(answers.drop_first().drop_first() =~= rest);
    assert(printed(r, answers) == seq![line_of(r, answers, 0)] + printed(after, rest)) by {
        reveal_with_fuel(printed, 3);
    }
    if left > 1 {
        assert forall|k: int| 0 <= k < left - 1 implies #[trigger] resolves(rest, k) by {
            assert(resolves(answers, k + 1));
            assert(rest[2 * k] == answers[2 * (k + 1)]);
            assert(rest[2 * k + 1] == answers[2 * (k + 1) + 1]);
        }
        lemma_run_prints_a_line_per_branch(after, rest);
        assert forall|k: int| 0 <= k < left - 1 implies line_of(after, rest, k) == line_of(
            r,
            answers,
            k + 1,
        ) by {
            assert(rest[2 * k + 1] == answers[2 * (k + 1) + 1]);
        }
        assert(seq![line_of(r, answers, 0)] + Seq::new(
            (left - 1) as nat,
            |k: int| line_of(after, rest, k),
        ) =~= Seq::new(left as nat, |k: int| line_of(r, answers, k)));
    } else {
        assert(rest.len() == 0);
        assert(seq![line_of(r, answers, 0)] + printed(after, rest) =~= Seq::new(
            left as nat,
            |k: int| line_of(r, answers, k),
        ));
    }
}

/// A run in which every query is answered and every answer can be read
/// prints the report: one line for each branch of the branch listing, in
/// the listing's order, with the tickets that the branch's log resolves to
/// and the status that the review listing has for each.
pub proof fn lemma_complete_run_prints_the_report(
    target: Seq<char>,
    listing: Seq<u8>,
    branch_listing: Seq<u8>,
    answers: Seq<Option<Seq<u8>>>,
)
    requires
        listing_lines(listing) is Some,
        table_of_lines(listing_lines(listing)->0) is Ok,
        branches_of(branch_listing) is Ok,
        answers.len() == 2 * (branches_of(branch_listing)->Ok_0).len(),
        forall|k: int|
            0 <= k < (branches_of(branch_listing)->Ok_0).len() ==> #[trigger] resolves(answers, k),
    ensures
        printed(starting(target), seq![Some(listing), Some(branch_listing)] + answers) == Seq::new(
            (branches_of(branch_listing)->Ok_0).len(),
            |k: int|
                branch_line(
                    (branches_of(branch_listing)->Ok_0)[k].branch,
                    column_width_of(names_of(branches_of(branch_listing)->Ok_0)),
                    resolved(answers[2 * k + 1]->0)->0,
                    table_of_lines(listing_lines(listing)->0)->Ok_0,
                ),
        ),
{
    let all = seq![Some(listing), Some(branch_listing)] + answers;
    let branches = branches_of(branch_listing)->Ok_0;
    let (listed, first) = step_of(starting(target), all[0]);
    let (ready, second) = step_of(listed, all[1]);
    assert(all.drop_first().first() == all[1]);
    assert(all.drop_first().drop_first() =~= answers);
    assert(printed(starting(target), all) == printed(ready, answers)) by {
        reveal_with_fuel(printed, 3);
    }
    if branches.len() > 0 {
        lemma_run_prints_a_line_per_branch(ready, answers);
    }
    assert(printed(ready, answers) =~= Seq::new(
        branches.len(),
        |k: int|
            branch_line(
                branches[k].branch,
                column_width_of(names_of(branches)),
                resolved(answers[2 * k + 1]->0)->0,
                table_of_lines(listing_lines(listing)->0)->Ok_0,
            ),
    ));
}

impl Query {
    /// The name of the program that answers the query.
    pub fn program(&self) -> (name: &'static str)
        ensures
            name@ == program_of(self@),
    {
        match self {
            Query::ReviewListing => "arc",
            _ => "git",
        }
    }

    /// The arguments with which the program answers the query.
    pub fn arguments(&self) -> (args: Vec<String>)
        ensures
            views(args@) == arguments_of(self@),
    {
        let mut args: Vec<String> = Vec::new();
        match self {
            Query::ReviewListing => {
                args.push("list".to_owned());
            },
            Query::Branches => {
                args.push("for-each-ref".to_owned());
                args.push("--format=%(refname:short)%00%(upstream:short)".to_owned());
                args.push("refs/heads".to_owned());
            },
            Query::MergeBase { branch, target } => {
                args.push("merge-base".to_owned());
                args.push(branch.clone());
                args.push(target.clone());
            },
            Query::CommitLog { from, to } => {
                args.push("--no-pager".to_owned());
                args.push("log".to_owned());
                args.push("--format=%B".to_owned());
                args.push(from.clone().concat("..").concat(to.as_str()));
            },
        }
        assert(views(args@) =~= arguments_of(self@));
        args
    }
}

impl Report {
    /// While a branch is being resolved, it is one of the listing's.
    #[verifier::type_invariant]
    closed spec fn well_formed(self) -> bool {
        consistent(self@)
    }

    /// A run that compares each branch with `target`, and its first query.
    pub fn start(target: &str) -> (begun: (Report, Query))
        ensures
            begun.0@ == starting(target@),
            begun.1@ == QueryView::ReviewListing,
    {
        let branches: Vec<BranchInfo> = Vec::new();
        assert(branch_views(branches@) =~= Seq::empty());
        (
            Report {
                stage: Stage::Listing,
                target: target.to_owned(),
                table: ReviewTable::new(),
                branches: branches,
                width: 0,
                current: 0,
            },
            Query::ReviewListing,
        )
    }

    /// Which answer the run is waiting for.
    pub fn stage(&self) -> (stage: Stage)
        ensures
            stage == self@.stage,
    {
        self.stage
    }

    /// Ends the run with the error `e`.
    fn fail(self, e: Error) -> (r: (Report, Turn))
        ensures
            (r.0@, r.1@) == failing(self@, e@),
    {
        (
            Report {
                stage: Stage::Finished,
                target: self.target,
                table: self.table,
                branches: self.branches,
                width: self.width,
                current: self.current,
            },
            Turn { line: None, next: Next::Failed(e) },
        )
    }

    /// Turns to the branch at `current`, or ends the run where there is
    /// none.
    fn turn_to_branch(
        target: String,
        table: ReviewTable,
        branches: Vec<BranchInfo>,
        width: usize,
        current: usize,
    ) -> (r: (Report, Next))
        ensures
            (r.0@, r.1@) == next_branch(
                ReportView {
                    stage: Stage::Finished,
                    target: target@,
                    table: table@,
                    branches: branch_views(branches@),
                    width: width as int,
                    current: current as int,
                },
            ),
    {
        if current < branches.len() {
            let query = Query::MergeBase {
                branch: branches[current].branch.clone(),
                target: target.clone(),
            };
            assert(branch_views(branches@)[current as int] == branches@[current as int]@);
            (
                Report { stage: Stage::MergeBase, target, table, branches, width, current },
                Next::Ask(query),
            )
        } else {
            (Report { stage: Stage::Finished, target, table, branches, width, current }, Next::Done)
        }
    }

    /// Takes the outcome of the query that the run was waiting for, and
    /// says what to print and what to do next.
    pub fn step(self, answer: Answer) -> (r: (Report, Turn))
        ensures
            (r.0@, r.1@) == step_of(self@, answer@),
            consistent(self@),
            consistent(r.0@),
    {
        proof {
            use_type_invariant(&self);
        }
        let output = match answer {
            Answer::Output(bytes) => bytes,
            Answer::Failed => {
                return match self.stage {
                    Stage::Listing => self.fail(Error::ReviewTool(ReviewToolError::CommandFailed)),
                    Stage::Finished => (self, Turn { line: None, next: Next::Done }),
                    _ => self.fail(Error::Repository(RepositoryError::CommandFailed)),
                };
            },
        };
        match self.stage {
            Stage::Listing => {
                let lines = match arc_list(output.as_slice()) {
                    Ok(lines) => lines,
                    Err(e) => {
                        return self.fail(Error::ReviewTool(e));
                    },
                };
                match get_arc_info(lines.as_slice()) {
                    Ok(table) => (
                        Report {
                            stage: Stage::Branches,
                            target: self.target,
                            table: table,
                            branches: self.branches,
                            width: self.width,
                            current: self.current,
                        },
                        Turn { line: None, next: Next::Ask(Query::Branches) },
                    ),
                    Err(e) => self.fail(Error::TableParse(e)),
                }
            },
            Stage::Branches => {
                match get_branches(output.as_slice()) {
                    Ok(branches) => {
                        let width = column_width(branches.as_slice());
                        let (after, next) = Report::turn_to_branch(
                            self.target,
                            self.table,
                            branches,
                            width,
                            0,
                        );
                        (after, Turn { line: None, next: next })
                    },
                    Err(e) => self.fail(Error::Repository(e)),
                }
            },
            Stage::MergeBase => {
                match get_merge_base(output.as_slice()) {
                    Ok(base) => {
                        let query = Query::CommitLog {
                            from: base,
                            to: self.branches[self.current].branch.clone(),
                        };
                        assert(branch_views(self.branches@)[self.current as int]
                            == self.branches@[self.current as int]@);
                        (
                            Report {
                                stage: Stage::Log,
                                target: self.target,
                                table: self.table,
                                branches: self.branches,
                                width: self.width,
                                current: self.current,
                            },
                            Turn { line: None, next: Next::Ask(query) },
                        )
                    },
                    Err(e) => self.fail(Error::Repository(e)),
                }
            },
            Stage::Log => {
                match resolve_branch_diffs(output.as_slice()) {
                    Ok(tickets) => {
                        let line = render_branch(
                            self.branches[self.current].branch.as_str(),
                            self.width,
                            tickets.as_slice(),
                            &self.table,
                        );
                        assert(branch_views(self.branches@)[self.current as int]
                            == self.branches@[self.current as int]@);
                        assert(self.current < self.branches.len());
                        let following = self.current + 1;
                        let (after, next) = Report::turn_to_branch(
                            self.target,
                            self.table,
                            self.branches,
                            self.width,
                            following,
                        );
                        (after, Turn { line: Some(line), next: next })
                    },
                    Err(e) => self.fail(Error::Repository(e)),
                }
            },
            Stage::Finished => (self, Turn { line: None, next: Next::Done }),
        }
    }
}

} // verus!
