//! Sequence vocabulary shared by the parsers: runs of elements at either end
//! of a sequence, trimming, splitting at a separator, and gathering results.

use vstd::prelude::*;

verus! {

/// The length of the longest prefix of `s` whose elements all satisfy `p`.
pub open spec fn leading<T>(s: Seq<T>, p: spec_fn(T) -> bool) -> int
    decreases s.len(),
{
    if s.len() > 0 && p(s[0]) {
        1 + leading(s.drop_first(), p)
    } else {
        0
    }
}

/// The length of the longest suffix of `s` whose elements all satisfy `p`.
pub open spec fn trailing<T>(s: Seq<T>, p: spec_fn(T) -> bool) -> int
    decreases s.len(),
{
    if s.len() > 0 && p(s.last()) {
        1 + trailing(s.drop_last(), p)
    } else {
        0
    }
}

/// `s` without its leading and trailing elements that satisfy `blank`.
pub open spec fn trim<T>(s: Seq<T>, blank: spec_fn(T) -> bool) -> Seq<T> {
    let from = leading(s, blank);
    let to = s.len() - trailing(s, blank);
    if from < to {
        s.subrange(from, to)
    } else {
        Seq::empty()
    }
}

/// The predicate "differs from `x`".
pub open spec fn other_than<T>(x: T) -> spec_fn(T) -> bool {
    |y: T| y != x
}

/// The index of the first occurrence of `x` in `s`, or `s.len()` if there is none.
pub open spec fn find<T>(s: Seq<T>, x: T) -> int {
    leading(s, other_than(x))
}

/// The pieces of `s` between occurrences of `sep`. A sequence with `n`
/// separators has `n + 1` pieces, some of which may be empty.
pub open spec fn split<T>(s: Seq<T>, sep: T) -> Seq<Seq<T>>
    decreases s.len(),
{
    let n = find(s, sep);
    if 0 <= n < s.len() {
        seq![s.take(n)] + split(s.skip(n + 1), sep)
    } else {
        seq![s]
    }
}

/// The pieces put together, with `sep` between each two.
pub open spec fn joined<T>(pieces: Seq<Seq<T>>, sep: T) -> Seq<T>
    decreases pieces.len(),
{
    if pieces.len() == 0 {
        Seq::empty()
    } else if pieces.len() == 1 {
        pieces[0]
    } else {
        pieces[0] + seq![sep] + joined(pieces.drop_first(), sep)
    }
}

/// All the successes of `rs` in order, or the first failure among them.
pub open spec fn gather<T, E>(rs: Seq<Result<T, E>>) -> Result<Seq<T>, E>
    decreases rs.len(),
{
    if rs.len() == 0 {
        Ok(Seq::empty())
    } else {
        match gather(rs.drop_last()) {
            Err(e) => Err(e),
            Ok(ts) => match rs.last() {
                Ok(t) => Ok(ts.push(t)),
                Err(e) => Err(e),
            },
        }
    }
}

/// `leading` counts a run that starts at the front, holds throughout, and
/// stops at the first element that fails `p`.
pub proof fn lemma_leading<T>(s: Seq<T>, p: spec_fn(T) -> bool)
    ensures
        0 <= leading(s, p) <= s.len(),
        forall|j: int| 0 <= j < leading(s, p) ==> p(#[trigger] s[j]),
        leading(s, p) < s.len() ==> !p(s[leading(s, p)]),
    decreases s.len(),
{
    if s.len() > 0 && p(s[0]) {
        let rest = s.drop_first();
        lemma_leading(rest, p);
        assert forall|j: int| 0 <= j < leading(s, p) implies p(#[trigger] s[j]) by {
            if j > 0 {
                assert(s[j] == rest[j - 1]);
            }
        }
        if leading(s, p) < s.len() {
            assert(s[leading(s, p)] == rest[leading(rest, p)]);
        }
    }
}

/// Any `n` that bounds such a run is `leading(s, p)`.
pub proof fn lemma_leading_is<T>(s: Seq<T>, p: spec_fn(T) -> bool, n: int)
    requires
        0 <= n <= s.len(),
        forall|j: int| 0 <= j < n ==> p(#[trigger] s[j]),
        n < s.len() ==> !p(s[n]),
    ensures
        leading(s, p) == n,
    decreases s.len(),
{
    if n > 0 {
        let rest = s.drop_first();
        assert(p(s[0]));
        assert forall|j: int| 0 <= j < n - 1 implies p(#[trigger] rest[j]) by {
            assert(rest[j] == s[j + 1]);
        }
        if n - 1 < rest.len() {
            assert(rest[n - 1] == s[n]);
        }
        lemma_leading_is(rest, p, n - 1);
    }
}

/// `trailing` counts a run that ends at the back, holds throughout, and is
/// preceded by an element that fails `p`.
pub proof fn lemma_trailing<T>(s: Seq<T>, p: spec_fn(T) -> bool)
    ensures
        0 <= trailing(s, p) <= s.len(),
        forall|j: int| s.len() - trailing(s, p) <= j < s.len() ==> p(#[trigger] s[j]),
        trailing(s, p) < s.len() ==> !p(s[s.len() - trailing(s, p) - 1]),
    decreases s.len(),
{
    if s.len() > 0 && p(s.last()) {
        let rest = s.drop_last();
        lemma_trailing(rest, p);
        assert forall|j: int| s.len() - trailing(s, p) <= j < s.len() implies p(
            #[trigger] s[j],
        ) by {
            if j < s.len() - 1 {
                assert(s[j] == rest[j]);
            }
        }
        if trailing(s, p) < s.len() {
            assert(s[s.len() - trailing(s, p) - 1] == rest[rest.len() - trailing(rest, p) - 1]);
        }
    }
}

/// Any `n` that bounds such a run is `trailing(s, p)`.
pub proof fn lemma_trailing_is<T>(s: Seq<T>, p: spec_fn(T) -> bool, n: int)
    requires
        0 <= n <= s.len(),
        forall|j: int| s.len() - n <= j < s.len() ==> p(#[trigger] s[j]),
        n < s.len() ==> !p(s[s.len() - n - 1]),
    ensures
        trailing(s, p) == n,
    decreases s.len(),
{
    if n > 0 {
        let rest = s.drop_last();
        assert(p(s[s.len() - 1]));
        assert forall|j: int| rest.len() - (n - 1) <= j < rest.len() implies p(
            #[trigger] rest[j],
        ) by {
            assert(rest[j] == s[j]);
        }
        if n - 1 < rest.len() {
            assert(rest[rest.len() - (n - 1) - 1] == s[s.len() - n - 1]);
        }
        lemma_trailing_is(rest, p, n - 1);
    }
}

/// What `trim` keeps is the stretch of `s` behind its leading blanks, with
/// only blanks behind it, and it neither begins nor ends with a blank.
pub proof fn lemma_trim<T>(s: Seq<T>, blank: spec_fn(T) -> bool)
    ensures
        0 <= leading(s, blank) <= leading(s, blank) + trim(s, blank).len() <= s.len(),
        trim(s, blank) == s.subrange(
            leading(s, blank),
            leading(s, blank) + trim(s, blank).len(),
        ),
        forall|j: int| 0 <= j < leading(s, blank) ==> blank(#[trigger] s[j]),
        forall|j: int|
            leading(s, blank) + trim(s, blank).len() <= j < s.len() ==> blank(#[trigger] s[j]),
        trim(s, blank).len() > 0 ==> !blank(trim(s, blank).first()) && !blank(
            trim(s, blank).last(),
        ),
{
    lemma_leading(s, blank);
    lemma_trailing(s, blank);
    let from = leading(s, blank);
    let to = s.len() - trailing(s, blank);
    if from < s.len() {
        assert(!blank(s[from]));
        assert(from < to);
    } else {
        assert(trim(s, blank) =~= s.subrange(from, from));
    }
}

/// A sequence that neither begins nor ends with a blank is left as it is.
pub proof fn lemma_trim_leaves_trimmed<T>(s: Seq<T>, blank: spec_fn(T) -> bool)
    requires
        s.len() > 0 ==> !blank(s.first()) && !blank(s.last()),
    ensures
        trim(s, blank) == s,
{
    if s.len() > 0 {
        lemma_leading_is(s, blank, 0);
        lemma_trailing_is(s, blank, 0);
        assert(s.subrange(0, s.len() as int) =~= s);
    } else {
        assert(trim(s, blank) =~= s);
    }
}

/// Trimming twice is trimming once.
pub proof fn lemma_trim_is_idempotent<T>(s: Seq<T>, blank: spec_fn(T) -> bool)
    ensures
        trim(trim(s, blank), blank) == trim(s, blank),
{
    lemma_trim(s, blank);
    lemma_trim_leaves_trimmed(trim(s, blank), blank);
}

/// The pieces of a split hold no separator, and put together again with a
/// separator between each two they are the sequence that was split.
pub proof fn lemma_split<T>(s: Seq<T>, sep: T)
    ensures
        split(s, sep).len() >= 1,
        forall|i: int, j: int|
            0 <= i < split(s, sep).len() && 0 <= j < split(s, sep)[i].len() ==> #[trigger] split(
                s,
                sep,
            )[i][j] != sep,
        joined(split(s, sep), sep) == s,
    decreases s.len(),
{
    lemma_find(s, sep);
    let n = find(s, sep);
    if n < s.len() {
        let rest = split(s.skip(n + 1), sep);
        lemma_split(s.skip(n + 1), sep);
        assert forall|i: int, j: int|
            0 <= i < split(s, sep).len() && 0 <= j < split(s, sep)[i].len() implies #[trigger] split(
            s,
            sep,
        )[i][j] != sep by {
            if i == 0 {
                assert(split(s, sep)[0][j] == s[j]);
            } else {
                assert(split(s, sep)[i] == rest[i - 1]);
            }
        }
        assert(split(s, sep).drop_first() =~= rest);
        assert(s.take(n) + seq![sep] + s.skip(n + 1) =~= s);
    } else {
        assert(split(s, sep).drop_first() =~= Seq::<Seq<T>>::empty());
    }
}

/// `find` returns a position in `0..=s.len()` with no `x` before it, and
/// with `x` at it unless it is `s.len()`.
pub proof fn lemma_find<T>(s: Seq<T>, x: T)
    ensures
        0 <= find(s, x) <= s.len(),
        forall|j: int| 0 <= j < find(s, x) ==> #[trigger] s[j] != x,
        find(s, x) < s.len() ==> s[find(s, x)] == x,
{
    lemma_leading(s, other_than(x));
}

/// Any position with those properties is `find(s, x)`.
pub proof fn lemma_find_is<T>(s: Seq<T>, x: T, n: int)
    requires
        0 <= n <= s.len(),
        forall|j: int| 0 <= j < n ==> #[trigger] s[j] != x,
        n < s.len() ==> s[n] == x,
    ensures
        find(s, x) == n,
{
    lemma_leading_is(s, other_than(x), n);
}

/// A failure among the first `k` results is the failure of the whole.
pub proof fn lemma_gather_failed_prefix<T, E>(rs: Seq<Result<T, E>>, k: int)
    requires
        0 <= k <= rs.len(),
        gather(rs.take(k)) is Err,
    ensures
        gather(rs) == gather(rs.take(k)),
    decreases rs.len() - k,
{
    if k < rs.len() {
        assert(rs.take(k + 1).drop_last() =~= rs.take(k));
        lemma_gather_failed_prefix(rs, k + 1);
    } else {
        assert(rs.take(k) =~= rs);
    }
}

/// `gather` succeeds exactly when every result is a success, and then
/// returns their values position by position.
pub proof fn lemma_gather_ok<T, E>(rs: Seq<Result<T, E>>)
    ensures
        gather(rs) is Ok <==> forall|i: int| 0 <= i < rs.len() ==> (#[trigger] rs[i]) is Ok,
        gather(rs) matches Ok(ts) ==> ts.len() == rs.len() && forall|i: int|
            0 <= i < rs.len() ==> #[trigger] rs[i] == Ok::<T, E>(ts[i]),
    decreases rs.len(),
{
    if rs.len() > 0 {
        let front = rs.drop_last();
        lemma_gather_ok(front);
        if gather(front) is Ok {
            assert forall|i: int| 0 <= i < front.len() implies (#[trigger] rs[i]) is Ok by {
                assert(rs[i] == front[i]);
            }
            if let Ok(ts) = gather(rs) {
                assert forall|i: int| 0 <= i < rs.len() implies #[trigger] rs[i] == Ok::<T, E>(
                    ts[i],
                ) by {
                    if i < front.len() {
                        assert(rs[i] == front[i]);
                    }
                }
            }
        } else {
            let i = choose|i: int| 0 <= i < front.len() && !((#[trigger] front[i]) is Ok);
            assert(rs[i] == front[i]);
        }
    }
}

/// When `gather` fails, it fails with the first failure: every result before
/// it is a success.
pub proof fn lemma_gather_err<T, E>(rs: Seq<Result<T, E>>) -> (k: int)
    requires
        gather(rs) is Err,
    ensures
        0 <= k < rs.len(),
        rs[k] is Err,
        rs[k]->Err_0 == gather(rs)->Err_0,
        forall|j: int| 0 <= j < k ==> (#[trigger] rs[j]) is Ok,
    decreases rs.len(),
{
    let front = rs.drop_last();
    if gather(front) is Err {
        let k = lemma_gather_err(front);
        assert(rs[k] == front[k]);
        assert forall|j: int| 0 <= j < k implies (#[trigger] rs[j]) is Ok by {
            assert(rs[j] == front[j]);
        }
        k
    } else {
        lemma_gather_ok(front);
        assert forall|j: int| 0 <= j < rs.len() - 1 implies (#[trigger] rs[j]) is Ok by {
            assert(rs[j] == front[j]);
        }
        rs.len() - 1
    }
}

/// A failure in the front part of a concatenation is the failure of the
/// whole.
pub proof fn lemma_gather_failed_front<T, E>(a: Seq<Result<T, E>>, b: Seq<Result<T, E>>)
    requires
        gather(a) is Err,
    ensures
        gather(a + b) == gather(a),
{
    assert((a + b).take(a.len() as int) =~= a);
    lemma_gather_failed_prefix(a + b, a.len() as int);
}

/// `filter_map` of a concatenation is the concatenation of the two
/// `filter_map`s.
pub proof fn lemma_filter_map_concat<A, B>(a: Seq<A>, b: Seq<A>, f: spec_fn(A) -> Option<B>)
    ensures
        (a + b).filter_map(f) == a.filter_map(f) + b.filter_map(f),
    decreases b.len(),
{
    if b.len() == 0 {
        assert(a + b =~= a);
        assert(a.filter_map(f) + b.filter_map(f) =~= a.filter_map(f));
    } else {
        assert((a + b).drop_last() =~= a + b.drop_last());
        lemma_filter_map_concat(a, b.drop_last(), f);
        match f(b.last()) {
            Some(y) => {
                assert(a.filter_map(f) + (b.drop_last().filter_map(f) + seq![y]) =~= (a.filter_map(
                    f,
                ) + b.drop_last().filter_map(f)) + seq![y]);
            },
            None => {},
        }
    }
}

/// `filter_map` of a reversed sequence is the reversed `filter_map`.
pub proof fn lemma_filter_map_reverse<A, B>(s: Seq<A>, f: spec_fn(A) -> Option<B>)
    ensures
        s.reverse().filter_map(f) == s.filter_map(f).reverse(),
    decreases s.len(),
{
    if s.len() == 0 {
        assert(s.reverse() =~= s);
        assert(s.filter_map(f).reverse() =~= s.filter_map(f));
    } else {
        let front = s.drop_last();
        let last = seq![s.last()];
        assert(s.reverse() =~= last + front.reverse());
        lemma_filter_map_concat(last, front.reverse(), f);
        lemma_filter_map_reverse(front, f);
        Seq::lemma_filter_map_singleton(s.last(), f);
        match f(s.last()) {
            Some(y) => {
                assert((front.filter_map(f) + seq![y]).reverse() =~= seq![y] + front.filter_map(
                    f,
                ).reverse());
            },
            None => {
                assert(Seq::<B>::empty() + front.filter_map(f).reverse() =~= front.filter_map(
                    f,
                ).reverse());
            },
        }
    }
}

} // verus!
