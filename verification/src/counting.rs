use vstd::prelude::*;

verus! {

/// How many positions `p` in `[0, n)` of `s` satisfy `pred(p, s[p])`.
pub open spec fn count_hits<T>(s: Seq<T>, pred: spec_fn(int, T) -> bool, n: int) -> nat
    decreases n,
{
    if n <= 0 {
        0
    } else {
        count_hits(s, pred, n - 1) + (if pred(n - 1, s[n - 1]) {
            1nat
        } else {
            0nat
        })
    }
}

/// A count over `[0, n)` never exceeds `n`.
pub proof fn lemma_count_hits_le<T>(s: Seq<T>, pred: spec_fn(int, T) -> bool, n: int)
    requires
        0 <= n,
    ensures
        count_hits(s, pred, n) <= n,
    decreases n,
{
    if n > 0 {
        lemma_count_hits_le(s, pred, n - 1);
    }
}

/// Overwriting one position changes the count exactly by the difference the
/// old and new entries contribute there.
pub proof fn lemma_count_hits_update<T>(
    s: Seq<T>,
    pred: spec_fn(int, T) -> bool,
    i: int,
    v: T,
    n: int,
)
    requires
        0 <= i < s.len(),
        n <= s.len(),
    ensures
        count_hits(s.update(i, v), pred, n) == count_hits(s, pred, n) + (if i < n && pred(i, v) {
            1int
        } else {
            0int
        }) - (if i < n && pred(i, s[i]) {
            1int
        } else {
            0int
        }),
    decreases n,
{
    if n > 0 {
        lemma_count_hits_update(s, pred, i, v, n - 1);
    }
}

/// Two sequences whose entries satisfy their predicates at exactly the same
/// positions have the same count.
pub proof fn lemma_count_hits_congruent<T, U>(
    s: Seq<T>,
    t: Seq<U>,
    ps: spec_fn(int, T) -> bool,
    pt: spec_fn(int, U) -> bool,
    n: int,
)
    requires
        forall|p: int| 0 <= p < n ==> (ps(p, #[trigger] s[p]) <==> pt(p, #[trigger] t[p])),
    ensures
        count_hits(s, ps, n) == count_hits(t, pt, n),
    decreases n,
{
    if n > 0 {
        lemma_count_hits_congruent(s, t, ps, pt, n - 1);
    }
}

/// When every position in `[0, n)` hits, the count is `n`; when none does, it
/// is zero.
pub proof fn lemma_count_hits_uniform<T>(s: Seq<T>, pred: spec_fn(int, T) -> bool, n: int, hit: bool)
    requires
        0 <= n,
        forall|p: int| 0 <= p < n ==> pred(p, #[trigger] s[p]) == hit,
    ensures
        count_hits(s, pred, n) == if hit {
            n as nat
        } else {
            0nat
        },
    decreases n,
{
    if n > 0 {
        lemma_count_hits_uniform(s, pred, n - 1, hit);
    }
}

} // verus!
