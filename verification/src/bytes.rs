//! Raw command output: trimming, splitting at a separator byte, and decoding
//! as UTF-8.

use crate::seqs::{
    lemma_find_is, lemma_leading_is, lemma_trailing, lemma_trailing_is, split, trim,
};
use vstd::prelude::*;
use vstd::slice::slice_subrange;
use vstd::utf8::{decode_utf8, valid_utf8};

verus! {

/// The byte of a line feed.
pub const LINE_FEED: u8 = 0x0A;

/// The ASCII white space: space, tab, line feed, form feed and carriage
/// return.
pub open spec fn is_ascii_white_space(b: u8) -> bool {
    b == 0x20 || b == 0x09 || b == 0x0A || b == 0x0C || b == 0x0D
}

/// [`is_ascii_white_space`] as a predicate value.
pub open spec fn ascii_white_space() -> spec_fn(u8) -> bool {
    |b: u8| is_ascii_white_space(b)
}

/// `bytes` without leading and trailing ASCII white space.
pub open spec fn trim_ascii(bytes: Seq<u8>) -> Seq<u8> {
    trim(bytes, ascii_white_space())
}

/// The text that `bytes` encode, if they are UTF-8.
pub open spec fn decoded(bytes: Seq<u8>) -> Option<Seq<char>> {
    if valid_utf8(bytes) {
        Some(decode_utf8(bytes))
    } else {
        None
    }
}

/// The contents of a sequence of slices.
pub open spec fn pieces(v: Seq<&[u8]>) -> Seq<Seq<u8>> {
    v.map_values(|p: &[u8]| p@)
}

/// Decides [`is_ascii_white_space`].
pub fn ascii_white_space_byte(b: u8) -> (r: bool)
    ensures
        r == is_ascii_white_space(b),
{
    b == 0x20 || b == 0x09 || b == 0x0A || b == 0x0C || b == 0x0D
}

/// `bytes` without leading and trailing ASCII white space.
pub fn trim_ascii_whitespace(bytes: &[u8]) -> (kept: &[u8])
    ensures
        kept@ == trim_ascii(bytes@),
{
    let n = bytes.len();
    let mut a: usize = 0;
    while a < n && ascii_white_space_byte(bytes[a])
        invariant
            a <= n == bytes@.len(),
            forall|j: int| 0 <= j < a ==> is_ascii_white_space(bytes@[j]),
        decreases n - a,
    {
        a += 1;
    }
    let mut b: usize = n;
    while b > a && ascii_white_space_byte(bytes[b - 1])
        invariant
            a <= b <= n == bytes@.len(),
            forall|j: int| b <= j < n ==> is_ascii_white_space(bytes@[j]),
        decreases b,
    {
        b -= 1;
    }
    proof {
        if a == n {
            lemma_leading_is(bytes@, ascii_white_space(), n as int);
            lemma_trailing(bytes@, ascii_white_space());
            assert(bytes@.subrange(a as int, b as int) =~= Seq::empty());
        } else {
            lemma_leading_is(bytes@, ascii_white_space(), a as int);
            lemma_trailing_is(bytes@, ascii_white_space(), n - b);
        }
    }
    slice_subrange(bytes, a, b)
}

/// The pieces of `bytes` between occurrences of `sep`.
pub fn split_bytes<'a>(bytes: &'a [u8], sep: u8) -> (out: Vec<&'a [u8]>)
    ensures
        pieces(out@) == split(bytes@, sep),
{
    let n = bytes.len();
    let mut out: Vec<&'a [u8]> = Vec::new();
    let mut start: usize = 0;
    let mut i: usize = 0;
    assert(bytes@.skip(0) =~= bytes@);
    assert(pieces(out@) + split(bytes@, sep) =~= split(bytes@, sep));
    while i < n
        invariant
            n == bytes@.len(),
            start <= i <= n,
            forall|j: int| start <= j < i ==> bytes@[j] != sep,
            pieces(out@) + split(bytes@.skip(start as int), sep) == split(bytes@, sep),
        decreases n - i,
    {
        if bytes[i] == sep {
            let piece = slice_subrange(bytes, start, i);
            proof {
                let tail = bytes@.skip(start as int);
                lemma_find_is(tail, sep, i - start);
                assert(tail.skip(i - start + 1) =~= bytes@.skip(i + 1));
                assert(piece@ =~= tail.take(i - start));
                assert(pieces(out@.push(piece)) =~= pieces(out@).push(piece@));
                assert(pieces(out@).push(piece@) + split(bytes@.skip(i + 1), sep) =~= pieces(out@)
                    + split(tail, sep));
            }
            out.push(piece);
            start = i + 1;
        }
        i += 1;
    }
    let piece = slice_subrange(bytes, start, n);
    proof {
        let tail = bytes@.skip(start as int);
        lemma_find_is(tail, sep, tail.len() as int);
        assert(piece@ =~= tail);
        assert(pieces(out@.push(piece)) =~= pieces(out@).push(piece@));
        assert(pieces(out@).push(piece@) =~= pieces(out@) + split(tail, sep));
    }
    out.push(piece);
    out
}

/// Checks `bytes` with `core::str::from_utf8`, which std documents as
/// succeeding exactly on valid UTF-8 and as returning the same bytes seen as
/// a string: `Some` exactly when the bytes are valid, and then the text they
/// encode.
#[verifier::external_body]
fn str_of_utf8(bytes: &[u8]) -> (text: Option<&str>)
    ensures
        text is Some <==> valid_utf8(bytes@),
        text matches Some(s) ==> s@ == decode_utf8(bytes@),
{
    core::str::from_utf8(bytes).ok()
}

/// The text that `bytes` encode, or `None` where they are not UTF-8.
pub fn decode(bytes: &[u8]) -> (text: Option<String>)
    ensures
        crate::chars::option_view(text) == decoded(bytes@),
{
    match str_of_utf8(bytes) {
        Some(s) => Some(s.to_owned()),
        None => None,
    }
}

} // verus!
