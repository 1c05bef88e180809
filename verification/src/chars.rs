//! Character classes, and conversions between strings and character vectors.
//!
//! The parsers of this crate read text one character at a time. They turn a
//! string into a vector of characters once, work on index ranges of it, and
//! turn the ranges they keep back into strings.

use crate::seqs::{lemma_leading_is, lemma_trailing, lemma_trailing_is, trim};
use vstd::prelude::*;
use vstd::slice::slice_subrange;

verus! {

/// The ASCII decimal digits `0` to `9`.
pub open spec fn is_ascii_digit(c: char) -> bool {
    '0' <= c <= '9'
}

/// The characters with the Unicode property `White_Space`.
pub open spec fn is_white_space(c: char) -> bool {
    ||| '\u{9}' <= c <= '\u{D}'
    ||| c == ' '
    ||| c == '\u{85}'
    ||| c == '\u{A0}'
    ||| c == '\u{1680}'
    ||| '\u{2000}' <= c <= '\u{200A}'
    ||| c == '\u{2028}'
    ||| c == '\u{2029}'
    ||| c == '\u{202F}'
    ||| c == '\u{205F}'
    ||| c == '\u{3000}'
}

/// [`is_white_space`] as a predicate value.
pub open spec fn white_space() -> spec_fn(char) -> bool {
    |c: char| is_white_space(c)
}

/// `s` without leading and trailing white space.
pub open spec fn trim_white_space(s: Seq<char>) -> Seq<char> {
    trim(s, white_space())
}

/// The ASCII white space: space, tab, line feed, form feed and carriage
/// return.
pub open spec fn is_ascii_blank(c: char) -> bool {
    c == ' ' || c == '\t' || c == '\n' || c == '\u{C}' || c == '\r'
}

/// [`is_ascii_blank`] as a predicate value.
pub open spec fn ascii_blank() -> spec_fn(char) -> bool {
    |c: char| is_ascii_blank(c)
}

/// `s` without leading and trailing ASCII white space.
pub open spec fn trim_ascii_blank(s: Seq<char>) -> Seq<char> {
    trim(s, ascii_blank())
}

/// The texts of a sequence of strings.
pub open spec fn views(v: Seq<String>) -> Seq<Seq<char>> {
    v.map_values(|s: String| s@)
}

/// The text of an optional string.
pub open spec fn option_view(o: Option<String>) -> Option<Seq<char>> {
    match o {
        Some(s) => Some(s@),
        None => None,
    }
}

/// Decides [`is_ascii_digit`].
pub fn ascii_digit(c: char) -> (b: bool)
    ensures
        b == is_ascii_digit(c),
{
    '0' <= c && c <= '9'
}

/// Decides [`is_white_space`].
pub fn white_space_char(c: char) -> (b: bool)
    ensures
        b == is_white_space(c),
{
    ('\u{9}' <= c && c <= '\u{D}') || c == ' ' || c == '\u{85}' || c == '\u{A0}' || c
        == '\u{1680}' || ('\u{2000}' <= c && c <= '\u{200A}') || c == '\u{2028}' || c
        == '\u{2029}' || c == '\u{202F}' || c == '\u{205F}' || c == '\u{3000}'
}

/// The characters of `s`, in order.
pub fn chars_of(s: &str) -> (v: Vec<char>)
    ensures
        v@ == s@,
{
    let mut v: Vec<char> = Vec::new();
    for c in it: s.chars()
        invariant
            v@ == it.seq().take(it.index()),
            it.seq() == s@,
    {
        v.push(c);
    }
    v
}

/// Builds a string with `String::from_iter`, which std documents as
/// collecting the characters it is given: the result's text is exactly
/// `chars`, in order.
#[verifier::external_body]
fn collect_text(chars: &[char]) -> (s: String)
    ensures
        s@ == chars@,
{
    String::from_iter(chars)
}

/// The string made of the characters `chars[from..to]`.
pub fn text_between(chars: &[char], from: usize, to: usize) -> (s: String)
    requires
        from <= to <= chars@.len(),
    ensures
        s@ == chars@.subrange(from as int, to as int),
{
    collect_text(slice_subrange(chars, from, to))
}

/// Whether `chars` begins with `prefix`.
pub fn starts_with(chars: &[char], prefix: &[char]) -> (b: bool)
    ensures
        b == prefix@.is_prefix_of(chars@),
{
    if prefix.len() > chars.len() {
        return false;
    }
    let mut i: usize = 0;
    while i < prefix.len()
        invariant
            i <= prefix@.len() <= chars@.len(),
            forall|j: int| 0 <= j < i ==> prefix@[j] == chars@[j],
        decreases prefix@.len() - i,
    {
        if prefix[i] != chars[i] {
            return false;
        }
        i += 1;
    }
    assert(prefix@ =~= chars@.subrange(0, prefix@.len() as int));
    true
}

/// Trims white space off the range `from..to` of `chars`: the bounds
/// returned delimit what [`trim_white_space`] keeps of it.
pub fn trim_between(chars: &[char], from: usize, to: usize) -> (kept: (usize, usize))
    requires
        from <= to <= chars@.len(),
    ensures
        from <= kept.0 <= kept.1 <= to,
        chars@.subrange(kept.0 as int, kept.1 as int) == trim_white_space(
            chars@.subrange(from as int, to as int),
        ),
{
    let ghost s = chars@.subrange(from as int, to as int);
    let mut a: usize = from;
    while a < to && white_space_char(chars[a])
        invariant
            from <= a <= to <= chars@.len(),
            forall|j: int| from <= j < a ==> is_white_space(chars@[j]),
        decreases to - a,
    {
        a += 1;
    }
    let mut b: usize = to;
    while b > a && white_space_char(chars[b - 1])
        invariant
            from <= a <= b <= to <= chars@.len(),
            forall|j: int| b <= j < to ==> is_white_space(chars@[j]),
        decreases b,
    {
        b -= 1;
    }
    proof {
        if a == to {
            lemma_leading_is(s, white_space(), s.len() as int);
            lemma_trailing(s, white_space());
            assert(chars@.subrange(a as int, b as int) =~= Seq::empty());
        } else {
            lemma_leading_is(s, white_space(), a - from);
            lemma_trailing_is(s, white_space(), to - b);
            assert(chars@.subrange(a as int, b as int) =~= s.subrange(a - from, b - from));
        }
    }
    (a, b)
}

/// Whether two strings hold the same text.
pub fn same_text(a: &str, b: &str) -> (same: bool)
    ensures
        same == (a@ == b@),
{
    let x = chars_of(a);
    let y = chars_of(b);
    if x.len() != y.len() {
        return false;
    }
    let mut i: usize = 0;
    while i < x.len()
        invariant
            x@ == a@,
            y@ == b@,
            i <= x@.len() == y@.len(),
            forall|j: int| 0 <= j < i ==> x@[j] == y@[j],
        decreases x@.len() - i,
    {
        if x[i] != y[i] {
            return false;
        }
        i += 1;
    }
    assert(x@ =~= y@);
    true
}

/// Decides [`is_ascii_blank`].
pub fn ascii_blank_char(c: char) -> (b: bool)
    ensures
        b == is_ascii_blank(c),
{
    c == ' ' || c == '\t' || c == '\n' || c == '\u{C}' || c == '\r'
}

/// Trims ASCII white space off `chars`: the bounds returned delimit what
/// [`trim_ascii_blank`] keeps of it.
pub fn trim_ascii_bounds(chars: &[char]) -> (kept: (usize, usize))
    ensures
        kept.0 <= kept.1 <= chars@.len(),
        chars@.subrange(kept.0 as int, kept.1 as int) == trim_ascii_blank(chars@),
{
    let n = chars.len();
    let mut a: usize = 0;
    while a < n && ascii_blank_char(chars[a])
        invariant
            a <= n == chars@.len(),
            forall|j: int| 0 <= j < a ==> is_ascii_blank(chars@[j]),
        decreases n - a,
    {
        a += 1;
    }
    let mut b: usize = n;
    while b > a && ascii_blank_char(chars[b - 1])
        invariant
            a <= b <= n == chars@.len(),
            forall|j: int| b <= j < n ==> is_ascii_blank(chars@[j]),
        decreases b,
    {
        b -= 1;
    }
    proof {
        if a == n {
            lemma_leading_is(chars@, ascii_blank(), n as int);
            lemma_trailing(chars@, ascii_blank());
            assert(chars@.subrange(a as int, b as int) =~= Seq::empty());
        } else {
            lemma_leading_is(chars@, ascii_blank(), a as int);
            lemma_trailing_is(chars@, ascii_blank(), n - b);
        }
    }
    (a, b)
}

} // verus!
