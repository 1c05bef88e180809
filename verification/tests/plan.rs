use branch_diffs::error::{Error, RepositoryError, ReviewToolError, TableParseError};
use branch_diffs::plan::{Answer, Next, Query, Report, Stage, Turn, TARGET};
use branch_diffs::render::{Segment, Style};

fn seg(text: &str, style: Style) -> Segment {
    Segment { text: text.to_owned(), style }
}

fn output(bytes: &[u8]) -> Answer {
    Answer::Output(bytes.to_vec())
}

fn ask(turn: &Turn) -> Query {
    match &turn.next {
        Next::Ask(query) => query.clone(),
        other => panic!("no query: {:?}", other),
    }
}

fn strings(items: &[&str]) -> Vec<String> {
    items.iter().map(|s| (*s).to_owned()).collect()
}

#[test]
fn queries_name_their_program_and_arguments() {
    assert_eq!(Query::ReviewListing.program(), "arc");
    assert_eq!(Query::ReviewListing.arguments(), strings(&["list"]));
    assert_eq!(Query::Branches.program(), "git");
    assert_eq!(
        Query::Branches.arguments(),
        strings(&["for-each-ref", "--format=%(refname:short)%00%(upstream:short)", "refs/heads"])
    );
    let merge_base = Query::MergeBase { branch: "topic".to_owned(), target: "master".to_owned() };
    assert_eq!(merge_base.program(), "git");
    assert_eq!(merge_base.arguments(), strings(&["merge-base", "topic", "master"]));
    let log = Query::CommitLog { from: "abc123".to_owned(), to: "topic".to_owned() };
    assert_eq!(log.program(), "git");
    assert_eq!(log.arguments(), strings(&["--no-pager", "log", "--format=%B", "abc123..topic"]));
}

#[test]
fn run_asks_in_order_and_prints_a_line_per_branch() {
    let (report, first) = Report::start("master");
    assert_eq!(first, Query::ReviewListing);
    assert_eq!(report.stage(), Stage::Listing);

    let (report, turn) = report.step(output(b"* Needs Review D20: Second\n  Closed D99: Other\n"));
    assert_eq!(turn, Turn { line: None, next: Next::Ask(Query::Branches) });
    assert_eq!(report.stage(), Stage::Branches);

    let (report, turn) = report.step(output(b"master\0origin/master\ntopic\0\n"));
    assert_eq!(turn.line, None);
    assert_eq!(
        ask(&turn),
        Query::MergeBase { branch: "master".to_owned(), target: "master".to_owned() }
    );
    assert_eq!(report.stage(), Stage::MergeBase);

    let (report, turn) = report.step(output(b"1111\n"));
    assert_eq!(turn.line, None);
    assert_eq!(ask(&turn), Query::CommitLog { from: "1111".to_owned(), to: "master".to_owned() });
    assert_eq!(report.stage(), Stage::Log);

    let (report, turn) = report.step(output(b""));
    assert_eq!(turn.line, Some(vec![seg("master  ", Style::Plain)]));
    assert_eq!(
        ask(&turn),
        Query::MergeBase { branch: "topic".to_owned(), target: "master".to_owned() }
    );

    let (report, turn) = report.step(output(b" 2222 \n"));
    assert_eq!(ask(&turn), Query::CommitLog { from: "2222".to_owned(), to: "topic".to_owned() });

    let log = b"Second\n\nDifferential Revision: https://h/D20\n\nFirst\n\nDifferential Revision: https://h/D10\n";
    let (report, turn) = report.step(output(log));
    assert_eq!(
        turn.line,
        Some(vec![
            seg("topic   ", Style::Bold),
            seg(" ", Style::Plain),
            seg("D10", Style::Bold),
            seg(" ", Style::Plain),
            seg("D20", Style::Bold),
            seg(" (", Style::Plain),
            seg("Needs Review", Style::Magenta),
            seg(")", Style::Plain),
        ])
    );
    assert_eq!(turn.next, Next::Done);
    assert_eq!(report.stage(), Stage::Finished);

    let (report, turn) = report.step(output(b"late"));
    assert_eq!(turn, Turn { line: None, next: Next::Done });
    assert_eq!(report.stage(), Stage::Finished);
}

#[test]
fn run_without_branches_is_done_after_the_listing() {
    assert_eq!(TARGET, "master");
    let (report, _) = Report::start(TARGET);
    let (report, _) = report.step(output(b"You have no open Differential revisions.\n"));
    let (report, turn) = report.step(output(b""));
    assert_eq!(turn, Turn { line: None, next: Next::Done });
    assert_eq!(report.stage(), Stage::Finished);
}

#[test]
fn failed_review_tool_ends_the_run() {
    let (report, _) = Report::start("master");
    let (report, turn) = report.step(Answer::Failed);
    assert_eq!(
        turn,
        Turn { line: None, next: Next::Failed(Error::ReviewTool(ReviewToolError::CommandFailed)) }
    );
    assert_eq!(report.stage(), Stage::Finished);
    let (_, turn) = report.step(Answer::Failed);
    assert_eq!(turn, Turn { line: None, next: Next::Done });
}

#[test]
fn listing_that_is_not_utf8_ends_the_run() {
    let (report, _) = Report::start("master");
    let (_, turn) = report.step(output(b"\xff"));
    assert_eq!(turn.next, Next::Failed(Error::ReviewTool(ReviewToolError::NotUtf8)));
}

#[test]
fn malformed_listing_ends_the_run_with_its_line() {
    let (report, _) = Report::start("master");
    let (report, turn) = report.step(output(b"Closed D1: fine\nthis is no row\n"));
    assert_eq!(turn.line, None);
    assert_eq!(
        turn.next,
        Next::Failed(Error::TableParse(TableParseError { line: "this is no row".to_owned() }))
    );
    assert_eq!(report.stage(), Stage::Finished);
}

#[test]
fn failed_repository_query_ends_the_run() {
    let (report, _) = Report::start("master");
    let (report, _) = report.step(output(b""));
    let (_, turn) = report.step(Answer::Failed);
    assert_eq!(turn.next, Next::Failed(Error::Repository(RepositoryError::CommandFailed)));

    let (report, _) = Report::start("master");
    let (report, _) = report.step(output(b""));
    let (report, _) = report.step(output(b"a\0\nb\0\n"));
    let (report, turn) = report.step(Answer::Failed);
    assert_eq!(turn.next, Next::Failed(Error::Repository(RepositoryError::CommandFailed)));
    assert_eq!(report.stage(), Stage::Finished);

    let (report, _) = Report::start("master");
    let (report, _) = report.step(output(b""));
    let (report, _) = report.step(output(b"a\0\nb\0\n"));
    let (report, _) = report.step(output(b"base"));
    let (_, turn) = report.step(Answer::Failed);
    assert_eq!(turn.line, None);
    assert_eq!(turn.next, Next::Failed(Error::Repository(RepositoryError::CommandFailed)));
}

#[test]
fn unreadable_repository_answer_ends_the_run() {
    let (report, _) = Report::start("master");
    let (report, _) = report.step(output(b""));
    let (_, turn) = report.step(output(b"lonely\n"));
    assert_eq!(
        turn.next,
        Next::Failed(Error::Repository(RepositoryError::FieldCount { found: 1 }))
    );

    let (report, _) = Report::start("master");
    let (report, _) = report.step(output(b""));
    let (report, _) = report.step(output(b"a\0\n"));
    let (_, turn) = report.step(output(b"\xfe"));
    assert_eq!(turn.next, Next::Failed(Error::Repository(RepositoryError::NotUtf8)));

    let (report, _) = Report::start("master");
    let (report, _) = report.step(output(b""));
    let (report, _) = report.step(output(b"a\0\n"));
    let (report, _) = report.step(output(b"base"));
    let (_, turn) = report.step(output(b"\xfe"));
    assert_eq!(turn.next, Next::Failed(Error::Repository(RepositoryError::NotUtf8)));
}

#[test]
fn failure_on_a_later_branch_keeps_earlier_lines_only() {
    let (report, _) = Report::start("trunk");
    let (report, _) = report.step(output(b""));
    let (report, turn) = report.step(output(b"one\0\ntwo\0\n"));
    assert_eq!(ask(&turn), Query::MergeBase { branch: "one".to_owned(), target: "trunk".to_owned() });
    let (report, _) = report.step(output(b"b1"));
    let (report, turn) = report.step(output(b"x"));
    assert_eq!(turn.line, Some(vec![seg("one  ", Style::Plain)]));
    let (report, _) = report.step(output(b"b2"));
    let (report, turn) = report.step(Answer::Failed);
    assert_eq!(turn.line, None);
    assert!(matches!(turn.next, Next::Failed(_)));
    assert_eq!(report.stage(), Stage::Finished);
}
