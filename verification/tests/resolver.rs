use branch_diffs::resolver::{cited_tickets, get_branch_diffs};

fn lines(items: &[&str]) -> Vec<String> {
    items.iter().map(|s| (*s).to_owned()).collect()
}

#[test]
fn tickets_come_out_oldest_first() {
    // Three commits, newest first; only the two older ones cite a ticket.
    let bodies = lines(&[
        "C3: tidy up",
        "",
        "C2: second step",
        "",
        "Differential Revision: https://host/D20",
        "",
        "C1: first step",
        "",
        "Differential Revision: https://host/D10",
        "",
    ]);
    assert_eq!(get_branch_diffs(&bodies), lines(&["D10", "D20"]));
}

#[test]
fn repeated_ticket_is_kept_once_per_citation() {
    let bodies = lines(&[
        "Amend",
        "Differential Revision: https://host/D5",
        "First version",
        "Differential Revision: https://host/D5",
    ]);
    assert_eq!(get_branch_diffs(&bodies), lines(&["D5", "D5"]));
}

#[test]
fn repeated_ticket_keeps_its_positions() {
    let bodies = lines(&[
        "Differential Revision: https://host/D5",
        "Differential Revision: https://host/D6",
        "Differential Revision: https://host/D5",
    ]);
    assert_eq!(get_branch_diffs(&bodies), lines(&["D5", "D6", "D5"]));
}

#[test]
fn log_without_citations_gives_no_tickets() {
    assert_eq!(get_branch_diffs(&lines(&["Just a commit", "", "More text"])), Vec::<String>::new());
    assert_eq!(get_branch_diffs(&[]), Vec::<String>::new());
}

#[test]
fn cited_tickets_follow_the_log_order() {
    let bodies = lines(&[
        "Differential Revision: https://host/D3",
        "noise",
        "Differential Revision: https://host/D2",
        "Differential Revision: https://host/D1x",
        "Differential Revision: https://host/D1",
    ]);
    assert_eq!(cited_tickets(&bodies), lines(&["D3", "D2", "D1"]));
}

#[test]
fn reversing_the_log_reverses_the_tickets() {
    let bodies = lines(&[
        "Differential Revision: https://host/D3",
        "noise",
        "Differential Revision: https://host/D2",
        "Differential Revision: https://host/D1",
    ]);
    let mut reversed = bodies.clone();
    reversed.reverse();
    assert_eq!(get_branch_diffs(&bodies), cited_tickets(&reversed));
}
