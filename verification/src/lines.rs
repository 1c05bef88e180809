//! Splitting a text into lines.

use crate::chars::{chars_of, text_between, views};
use crate::seqs::{find, lemma_find, lemma_find_is};
use vstd::prelude::*;

verus! {

/// `line` without a carriage return at its end.
pub open spec fn without_cr(line: Seq<char>) -> Seq<char> {
    if line.len() > 0 && line.last() == '\r' {
        line.drop_last()
    } else {
        line
    }
}

/// The lines of `text`. A line ends at a line feed, or at a carriage return
/// directly followed by one; neither belongs to the line. What follows the
/// last line feed is a line too, unless it is empty, and keeps a carriage
/// return at its end.
pub open spec fn lines(text: Seq<char>) -> Seq<Seq<char>>
    decreases text.len(),
{
    if text.len() == 0 {
        Seq::empty()
    } else {
        let n = find(text, '\n');
        if 0 <= n < text.len() {
            seq![without_cr(text.take(n))] + lines(text.skip(n + 1))
        } else {
            seq![text]
        }
    }
}

/// No line holds a line feed.
pub proof fn lemma_lines_hold_no_line_feed(text: Seq<char>)
    ensures
        forall|i: int, j: int|
            0 <= i < lines(text).len() && 0 <= j < lines(text)[i].len() ==> #[trigger] lines(
                text,
            )[i][j] != '\n',
    decreases text.len(),
{
    if text.len() > 0 {
        let n = find(text, '\n');
        lemma_find(text, '\n');
        if n < text.len() {
            let rest = lines(text.skip(n + 1));
            lemma_lines_hold_no_line_feed(text.skip(n + 1));
            let first = without_cr(text.take(n));
            assert forall|i: int, j: int|
                0 <= i < lines(text).len() && 0 <= j < lines(text)[i].len() implies #[trigger] lines(
                text,
            )[i][j] != '\n' by {
                if i == 0 {
                    assert(first[j] == text[j]);
                } else {
                    assert(lines(text)[i] == rest[i - 1]);
                }
            }
        }
    }
}

/// A text that does not end with a line feed and has one line is that
/// line.
pub proof fn lemma_one_line(text: Seq<char>)
    requires
        lines(text).len() == 1,
        text.len() > 0 ==> text.last() != '\n',
    ensures
        lines(text) == seq![text],
{
    let n = find(text, '\n');
    lemma_find(text, '\n');
    if text.len() > 0 && n < text.len() {
        let rest = text.skip(n + 1);
        assert(lines(rest).len() == 0);
        assert(rest.len() == 0);
        assert(text.last() == text[n]);
    }
}

/// The lines of the text `chars`.
pub fn lines_of(chars: &[char]) -> (out: Vec<String>)
    ensures
        views(out@) == lines(chars@),
{
    let n = chars.len();
    let mut out: Vec<String> = Vec::new();
    let mut start: usize = 0;
    let mut i: usize = 0;
    assert(chars@.skip(0) =~= chars@);
    assert(views(out@) + lines(chars@) =~= lines(chars@));
    while i < n
        invariant
            n == chars@.len(),
            start <= i <= n,
            forall|j: int| start <= j < i ==> chars@[j] != '\n',
            views(out@) + lines(chars@.skip(start as int)) == lines(chars@),
        decreases n - i,
    {
        if chars[i] == '\n' {
            let end = if i > start && chars[i - 1] == '\r' {
                i - 1
            } else {
                i
            };
            let line = text_between(chars, start, end);
            proof {
                let tail = chars@.skip(start as int);
                lemma_find_is(tail, '\n', i - start);
                assert(tail.skip(i - start + 1) =~= chars@.skip(i + 1));
                assert(line@ =~= without_cr(tail.take(i - start)));
                assert(views(out@.push(line)) =~= views(out@).push(line@));
                assert(views(out@).push(line@) + lines(chars@.skip(i + 1)) =~= views(out@) + lines(
                    tail,
                ));
            }
            out.push(line);
            start = i + 1;
        }
        i += 1;
    }
    if start < n {
        let line = text_between(chars, start, n);
        proof {
            let tail = chars@.skip(start as int);
            lemma_find_is(tail, '\n', tail.len() as int);
            assert(line@ =~= tail);
            assert(views(out@.push(line)) =~= views(out@).push(line@));
            assert(views(out@).push(line@) =~= views(out@) + lines(tail));
        }
        out.push(line);
    } else {
        assert(views(out@) =~= views(out@) + lines(chars@.skip(start as int)));
    }
    out
}

/// Splits `text` into its lines.
pub fn split_lines(text: &str) -> (out: Vec<String>)
    ensures
        views(out@) == lines(text@),
{
    let chars = chars_of(text);
    lines_of(&chars)
}

} // verus!
