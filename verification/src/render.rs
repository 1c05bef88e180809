//! The report: one line per branch, with the branch's tickets and the
//! review status of each.
//!
//! A line is a sequence of segments, each a text with the style in which a
//! terminal is to show it. Turning styles into escape sequences is left to
//! the caller.

use crate::branches::{branch_views, names_of, BranchInfo};
use crate::chars::{chars_of, same_text, views};
use crate::review::ReviewTable;
use crate::row::ReviewInfoView;
use vstd::prelude::*;
use vstd::utf8::encode_utf8;

verus! {

/// How a segment is shown.
#[derive(Debug, Clone, Copy, PartialEq, Eq)]
pub enum Style {
    Plain,
    Bold,
    Cyan,
    Magenta,
    Red,
    Green,
    Blue,
    Dimmed,
}

/// A piece of a line with its style.
#[derive(Debug, Clone, PartialEq, Eq)]
pub struct Segment {
    pub text: String,
    pub style: Style,
}

/// What a [`Segment`] holds, as text.
pub struct SegmentView {
    pub text: Seq<char>,
    pub style: Style,
}

impl View for Segment {
    type V = SegmentView;

    open spec fn view(&self) -> SegmentView {
        SegmentView { text: self.text@, style: self.style }
    }
}

/// What a line holds, as text.
pub open spec fn segment_views(line: Seq<Segment>) -> Seq<SegmentView> {
    line.map_values(|s: Segment| s@)
}

/// The style in which a review status is shown. A status that the table
/// does not list is shown plain.
pub open spec fn status_style(status: Seq<char>) -> Style {
    if status == "Closed"@ {
        Style::Cyan
    } else if status == "Needs Review"@ {
        Style::Magenta
    } else if status == "Needs Revision"@ {
        Style::Red
    } else if status == "Changes Planned"@ {
        Style::Red
    } else if status == "Accepted"@ {
        Style::Green
    } else if status == "No Revision"@ {
        Style::Blue
    } else if status == "Abandoned"@ {
        Style::Dimmed
    } else {
        Style::Plain
    }
}

/// The segments that show one ticket: a space and the identifier in bold,
/// and, where the table knows the ticket, its status in brackets, in the
/// status's style.
pub open spec fn ticket_segments(
    ticket: Seq<char>,
    table: Map<Seq<char>, ReviewInfoView>,
) -> Seq<SegmentView> {
    let identifier = seq![
        SegmentView { text: " "@, style: Style::Plain },
        SegmentView { text: ticket, style: Style::Bold },
    ];
    if table.contains_key(ticket) {
        let status = table[ticket].status;
        identifier + seq![
            SegmentView { text: " ("@, style: Style::Plain },
            SegmentView { text: status, style: status_style(status) },
            SegmentView { text: ")"@, style: Style::Plain },
        ]
    } else {
        identifier
    }
}

/// The segments that show a sequence of tickets, in its order.
pub open spec fn tickets_segments(
    tickets: Seq<Seq<char>>,
    table: Map<Seq<char>, ReviewInfoView>,
) -> Seq<SegmentView>
    decreases tickets.len(),
{
    if tickets.len() == 0 {
        Seq::empty()
    } else {
        tickets_segments(tickets.drop_last(), table) + ticket_segments(tickets.last(), table)
    }
}

/// `name`, followed by as many spaces as it lacks to `width` characters.
pub open spec fn padded(name: Seq<char>, width: int) -> Seq<char> {
    if name.len() < width {
        name + Seq::new((width - name.len()) as nat, |i: int| ' ')
    } else {
        name
    }
}

/// The line of a branch: its name, padded to `width` and in bold if the
/// branch has tickets, and then its tickets.
pub open spec fn branch_line(
    name: Seq<char>,
    width: int,
    tickets: Seq<Seq<char>>,
    table: Map<Seq<char>, ReviewInfoView>,
) -> Seq<SegmentView> {
    seq![
        SegmentView {
            text: padded(name, width),
            style: if tickets.len() == 0 {
                Style::Plain
            } else {
                Style::Bold
            },
        },
    ] + tickets_segments(tickets, table)
}

/// The length in bytes of the longest of `names`, encoded as UTF-8.
pub open spec fn longest(names: Seq<Seq<char>>) -> int
    decreases names.len(),
{
    if names.len() == 0 {
        0
    } else {
        let rest = longest(names.drop_last());
        let last = encode_utf8(names.last()).len() as int;
        if last > rest {
            last
        } else {
            rest
        }
    }
}

/// The width of the column of branch names: two more than the length in
/// bytes of the longest name, or `usize::MAX` where that does not fit.
pub open spec fn column_width_of(names: Seq<Seq<char>>) -> int {
    if longest(names) + 2 <= usize::MAX {
        longest(names) + 2
    } else {
        usize::MAX as int
    }
}

/// A ticket that the table does not hold is shown by its identifier
/// alone, without a status; a ticket that it holds is shown with the status
/// that the table has for it.
pub proof fn lemma_status_is_shown_where_known(
    ticket: Seq<char>,
    table: Map<Seq<char>, ReviewInfoView>,
)
    ensures
        !table.contains_key(ticket) ==> ticket_segments(ticket, table) == seq![
            SegmentView { text: " "@, style: Style::Plain },
            SegmentView { text: ticket, style: Style::Bold },
        ],
        table.contains_key(ticket) ==> ticket_segments(ticket, table).len() == 5
            && ticket_segments(ticket, table)[3].text == table[ticket].status,
{
}

/// The line of a branch whose tickets are all unknown to the table holds
/// the name and two segments for each ticket.
pub proof fn lemma_line_without_known_tickets(
    tickets: Seq<Seq<char>>,
    table: Map<Seq<char>, ReviewInfoView>,
)
    requires
        forall|i: int| 0 <= i < tickets.len() ==> !table.contains_key(#[trigger] tickets[i]),
    ensures
        tickets_segments(tickets, table).len() == 2 * tickets.len(),
        forall|i: int|
            0 <= i < tickets.len() ==> #[trigger] tickets_segments(tickets, table)[2 * i + 1]
                == (SegmentView { text: tickets[i], style: Style::Bold }),
    decreases tickets.len(),
{
    if tickets.len() > 0 {
        let front = tickets.drop_last();
        assert forall|i: int| 0 <= i < front.len() implies !table.contains_key(
            #[trigger] front[i],
        ) by {
            assert(front[i] == tickets[i]);
        }
        lemma_line_without_known_tickets(front, table);
        assert(!table.contains_key(tickets[tickets.len() - 1]));
        assert forall|i: int| 0 <= i < tickets.len() implies #[trigger] tickets_segments(
            tickets,
            table,
        )[2 * i + 1] == (SegmentView { text: tickets[i], style: Style::Bold }) by {
            if i < front.len() {
                assert(front[i] == tickets[i]);
                assert(tickets_segments(tickets, table)[2 * i + 1] == tickets_segments(
                    front,
                    table,
                )[2 * i + 1]);
            }
        }
    }
}

/// The style in which a review status is shown.
pub fn coloured_status(status: &str) -> (style: Style)
    ensures
        style == status_style(status@),
{
    if same_text(status, "Closed") {
        Style::Cyan
    } else if same_text(status, "Needs Review") {
        Style::Magenta
    } else if same_text(status, "Needs Revision") {
        Style::Red
    } else if same_text(status, "Changes Planned") {
        Style::Red
    } else if same_text(status, "Accepted") {
        Style::Green
    } else if same_text(status, "No Revision") {
        Style::Blue
    } else if same_text(status, "Abandoned") {
        Style::Dimmed
    } else {
        Style::Plain
    }
}

/// The width of the column of branch names.
pub fn column_width(branches: &[BranchInfo]) -> (width: usize)
    ensures
        width == column_width_of(names_of(branch_views(branches@))),
{
    let mut most: usize = 0;
    let mut i: usize = 0;
    assert(names_of(branch_views(branches@)).take(0) =~= Seq::empty());
    while i < branches.len()
        invariant
            i <= branches@.len(),
            most == longest(names_of(branch_views(branches@)).take(i as int)),
        decreases branches@.len() - i,
    {
        let n = branches[i].branch.as_str().as_bytes().len();
        proof {
            let names = names_of(branch_views(branches@));
            assert(names.take(i + 1).drop_last() =~= names.take(i as int));
            assert(names.take(i + 1).last() == branches@[i as int].branch@);
        }
        if n > most {
            most = n;
        }
        i += 1;
    }
    assert(names_of(branch_views(branches@)).take(branches@.len() as int) =~= names_of(
        branch_views(branches@),
    ));
    most.saturating_add(2)
}

/// `name`, followed by as many spaces as it lacks to `width` characters.
pub fn pad(name: &str, width: usize) -> (text: String)
    ensures
        text@ == padded(name@, width as int),
{
    let mut chars = chars_of(name);
    let ghost n = chars@.len();
    while chars.len() < width
        invariant
            n == name@.len(),
            n <= chars@.len(),
            chars@.len() <= width || chars@.len() == n,
            chars@.take(n as int) == name@,
            forall|i: int| n <= i < chars@.len() ==> chars@[i] == ' ',
        decreases width - chars@.len(),
    {
        chars.push(' ');
    }
    assert(chars@ =~= padded(name@, width as int));
    crate::chars::text_between(&chars, 0, chars.len())
}

/// The segments that show one ticket.
///
/// A ticket that the table does not hold is shown by its identifier alone.
pub fn render_ticket(ticket: &str, table: &ReviewTable) -> (segments: Vec<Segment>)
    ensures
        segment_views(segments@) == ticket_segments(ticket@, table@),
        !table@.contains_key(ticket@) ==> segments@.len() == 2,
{
    let mut segments: Vec<Segment> = Vec::new();
    segments.push(Segment { text: " ".to_owned(), style: Style::Plain });
    segments.push(Segment { text: ticket.to_owned(), style: Style::Bold });
    match table.get(ticket) {
        Some(info) => {
            let style = coloured_status(info.status.as_str());
            segments.push(Segment { text: " (".to_owned(), style: Style::Plain });
            segments.push(Segment { text: info.status.clone(), style });
            segments.push(Segment { text: ")".to_owned(), style: Style::Plain });
        },
        None => {},
    }
    assert(segment_views(segments@) =~= ticket_segments(ticket@, table@));
    segments
}

/// The line of a branch with the given tickets, its name padded to `width`
/// characters.
pub fn render_branch(name: &str, width: usize, tickets: &[String], table: &ReviewTable) -> (line:
    Vec<Segment>)
    ensures
        segment_views(line@) == branch_line(name@, width as int, views(tickets@), table@),
{
    let mut line: Vec<Segment> = Vec::new();
    let style = if tickets.len() == 0 {
        Style::Plain
    } else {
        Style::Bold
    };
    line.push(Segment { text: pad(name, width), style });
    let ghost head = segment_views(line@);
    let mut i: usize = 0;
    assert(views(tickets@).take(0) =~= Seq::empty());
    assert(segment_views(line@) =~= head + tickets_segments(views(tickets@).take(0), table@));
    while i < tickets.len()
        invariant
            i <= tickets@.len(),
            segment_views(line@) == head + tickets_segments(
                views(tickets@).take(i as int),
                table@,
            ),
        decreases tickets@.len() - i,
    {
        let mut segments = render_ticket(tickets[i].as_str(), table);
        proof {
            let all = views(tickets@);
            assert(all.take(i + 1).drop_last() =~= all.take(i as int));
            assert(all.take(i + 1).last() == tickets@[i as int]@);
            assert(segment_views(line@ + segments@) =~= segment_views(line@) + segment_views(
                segments@,
            ));
            assert(head + tickets_segments(all.take(i as int), table@) + ticket_segments(
                tickets@[i as int]@,
                table@,
            ) =~= head + tickets_segments(all.take(i + 1), table@));
        }
        line.append(&mut segments);
        i += 1;
    }
    assert(views(tickets@).take(tickets@.len() as int) =~= views(tickets@));
    line
}

} // verus!
