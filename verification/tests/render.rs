use branch_diffs::branches::BranchInfo;
use branch_diffs::render::{
    coloured_status, column_width, pad, render_branch, render_ticket, Segment, Style,
};
use branch_diffs::review::parse_review_table;

fn seg(text: &str, style: Style) -> Segment {
    Segment { text: text.to_owned(), style }
}

fn branch(name: &str) -> BranchInfo {
    BranchInfo { branch: name.to_owned(), upstream: None }
}

#[test]
fn each_status_has_its_colour() {
    assert_eq!(coloured_status("Closed"), Style::Cyan);
    assert_eq!(coloured_status("Needs Review"), Style::Magenta);
    assert_eq!(coloured_status("Needs Revision"), Style::Red);
    assert_eq!(coloured_status("Changes Planned"), Style::Red);
    assert_eq!(coloured_status("Accepted"), Style::Green);
    assert_eq!(coloured_status("No Revision"), Style::Blue);
    assert_eq!(coloured_status("Abandoned"), Style::Dimmed);
}

#[test]
fn other_status_is_plain() {
    assert_eq!(coloured_status("Draft"), Style::Plain);
    assert_eq!(coloured_status(""), Style::Plain);
    assert_eq!(coloured_status("closed"), Style::Plain);
    assert_eq!(coloured_status("Closed "), Style::Plain);
}

#[test]
fn ticket_without_entry_shows_its_identifier_alone() {
    let table = parse_review_table("Closed D7: Old work").unwrap();
    assert_eq!(render_ticket("D8", &table), vec![seg(" ", Style::Plain), seg("D8", Style::Bold)]);
}

#[test]
fn ticket_with_entry_shows_its_status() {
    let table = parse_review_table("* Needs Review D42: Fix bug\nWeird D1: x").unwrap();
    assert_eq!(
        render_ticket("D42", &table),
        vec![
            seg(" ", Style::Plain),
            seg("D42", Style::Bold),
            seg(" (", Style::Plain),
            seg("Needs Review", Style::Magenta),
            seg(")", Style::Plain),
        ]
    );
    assert_eq!(render_ticket("D1", &table)[3], seg("Weird", Style::Plain));
}

#[test]
fn branch_without_tickets_is_plain() {
    let table = parse_review_table("").unwrap();
    assert_eq!(render_branch("main", 8, &[], &table), vec![seg("main    ", Style::Plain)]);
}

#[test]
fn branch_with_tickets_is_bold_and_lists_them() {
    let table = parse_review_table("Accepted D10: a\nAbandoned D30: c").unwrap();
    let tickets = vec!["D10".to_owned(), "D20".to_owned(), "D30".to_owned()];
    assert_eq!(
        render_branch("topic", 7, &tickets, &table),
        vec![
            seg("topic  ", Style::Bold),
            seg(" ", Style::Plain),
            seg("D10", Style::Bold),
            seg(" (", Style::Plain),
            seg("Accepted", Style::Green),
            seg(")", Style::Plain),
            seg(" ", Style::Plain),
            seg("D20", Style::Bold),
            seg(" ", Style::Plain),
            seg("D30", Style::Bold),
            seg(" (", Style::Plain),
            seg("Abandoned", Style::Dimmed),
            seg(")", Style::Plain),
        ]
    );
}

#[test]
fn padding_counts_characters() {
    assert_eq!(pad("ab", 5), "ab   ");
    assert_eq!(pad("abcde", 5), "abcde");
    assert_eq!(pad("abcdef", 5), "abcdef");
    assert_eq!(pad("", 0), "");
    assert_eq!(pad("\u{e9}t\u{e9}", 5), "\u{e9}t\u{e9}  ");
    assert_eq!(pad("\u{e9}t\u{e9}", 5), format!("{:5}", "\u{e9}t\u{e9}"));
}

#[test]
fn column_is_two_wider_than_the_longest_name_in_bytes() {
    assert_eq!(column_width(&[]), 2);
    assert_eq!(column_width(&[branch("main"), branch("feature/long"), branch("x")]), 14);
    assert_eq!(column_width(&[branch("\u{e9}t\u{e9}")]), 7);
}
