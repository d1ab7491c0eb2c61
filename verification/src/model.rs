//! Mathematical model of corner-cutting subdivision.
//!
//! An axis of a polyline is modelled as a sequence of integer mantissas at a
//! caller-chosen power-of-two scale. The corner cut `(p + 3*q) / 4` is exact
//! whenever the coordinates carry two spare low bits, so one pass over such an
//! axis is ordinary integer arithmetic with no rounding at all.

use vstd::prelude::*;

verus! {

/// The coordinates of one axis, as mathematical integers.
pub open spec fn ints(s: Seq<i64>) -> Seq<int> {
    s.map_values(|v: i64| v as int)
}

/// The corner cut on the edge arriving at a vertex: the point one quarter of
/// the way back from `cur` toward `prev`.
pub open spec fn cut_before(prev: int, cur: int) -> int {
    (prev + 3 * cur) / 4
}

/// The corner cut on the edge leaving a vertex: the point one quarter of the
/// way from `cur` toward `next`.
pub open spec fn cut_after(cur: int, next: int) -> int {
    (3 * cur + next) / 4
}

/// Element `j` of the sequence produced by one corner-cutting pass over `s`.
/// The two endpoints are kept verbatim; interior vertex `i` contributes the
/// pair of cuts at output positions `2*i - 1` and `2*i`.
pub open spec fn step_at(s: Seq<int>, j: int) -> int {
    if j == 0 {
        s[0]
    } else if j == 2 * s.len() - 3 {
        s[s.len() - 1]
    } else if j % 2 == 1 {
        cut_before(s[(j - 1) / 2], s[(j + 1) / 2])
    } else {
        cut_after(s[j / 2], s[j / 2 + 1])
    }
}

/// One corner-cutting pass: a sequence of length `l >= 2` becomes one of
/// length `2*l - 2`.
pub open spec fn chaikin_step(s: Seq<int>) -> Seq<int> {
    Seq::new((2 * s.len() - 2) as nat, |j: int| step_at(s, j))
}

/// `n` corner-cutting passes, each applied to the result of the previous one.
pub open spec fn chaikin_smooth(s: Seq<int>, n: nat) -> Seq<int>
    decreases n,
{
    if n == 0 {
        s
    } else {
        chaikin_smooth(chaikin_step(s), (n - 1) as nat)
    }
}

/// The length recurrence of repeated passes: each pass takes a sequence of
/// length `l` to one of length `2*l - 2`.
pub open spec fn smoothed_len(l: nat, n: nat) -> nat
    decreases n,
{
    if n == 0 {
        l
    } else {
        smoothed_len((2 * l - 2) as nat, (n - 1) as nat)
    }
}

/// `v` is divisible by four, `k` times over: it carries `2*k` spare low bits,
/// enough for `k` exact corner-cutting passes.
pub open spec fn div4k(v: int, k: nat) -> bool
    decreases k,
{
    k == 0 || (v % 4 == 0 && div4k(v / 4, (k - 1) as nat))
}

/// Every coordinate of the axis carries enough spare low bits for `n` exact
/// passes. An axis of exactly two points is only ever copied, never cut, so
/// it needs no spare bits.
pub open spec fn axis_ready(s: Seq<int>, n: nat) -> bool {
    s.len() > 2 ==> forall|j: int| 0 <= j < s.len() ==> div4k(s[j], n)
}

/// Spare bits for `k` passes are spare bits for any `m <= k` passes.
pub proof fn lemma_div4k_mono(v: int, k: nat, m: nat)
    requires
        div4k(v, k),
        m <= k,
    ensures
        div4k(v, m),
    decreases k,
{
    if m != 0 && k != 0 {
        lemma_div4k_mono(v / 4, (k - 1) as nat, (m - 1) as nat);
    }
}

/// Divisibility by four, `k` times over, is closed under the two weighted
/// sums that a corner cut forms before its final division by four.
pub proof fn lemma_div4k_lincomb(u: int, v: int, k: nat)
    requires
        div4k(u, k),
        div4k(v, k),
    ensures
        div4k(u + 3 * v, k),
        div4k(3 * u + v, k),
    decreases k,
{
    if k != 0 {
        vstd::arithmetic::div_mod::lemma_fundamental_div_mod(u, 4);
        vstd::arithmetic::div_mod::lemma_fundamental_div_mod(v, 4);
        let p = u / 4;
        let q = v / 4;
        assert(u + 3 * v == (p + 3 * q) * 4);
        assert(3 * u + v == (3 * p + q) * 4);
        vstd::arithmetic::div_mod::lemma_mod_multiples_basic(p + 3 * q, 4);
        vstd::arithmetic::div_mod::lemma_mod_multiples_basic(3 * p + q, 4);
        vstd::arithmetic::div_mod::lemma_div_multiples_vanish(p + 3 * q, 4);
        vstd::arithmetic::div_mod::lemma_div_multiples_vanish(3 * p + q, 4);
        assert(4 * (p + 3 * q) == u + 3 * v);
        assert(4 * (3 * p + q) == 3 * u + v);
        lemma_div4k_lincomb(p, q, (k - 1) as nat);
    }
}

/// A corner cut of two coordinates with spare bits for `k` passes leaves a
/// coordinate with spare bits for the remaining `k - 1` passes.
pub proof fn lemma_div4k_cut(a: int, b: int, k: nat)
    requires
        k >= 1,
        div4k(a, k),
        div4k(b, k),
    ensures
        div4k(cut_before(a, b), (k - 1) as nat),
        div4k(cut_after(a, b), (k - 1) as nat),
{
    vstd::arithmetic::div_mod::lemma_fundamental_div_mod(a, 4);
    vstd::arithmetic::div_mod::lemma_fundamental_div_mod(b, 4);
    let p = a / 4;
    let q = b / 4;
    lemma_div4k_lincomb(p, q, (k - 1) as nat);
    assert(a + 3 * b == 4 * (p + 3 * q));
    assert(3 * a + b == 4 * (3 * p + q));
    vstd::arithmetic::div_mod::lemma_div_multiples_vanish(p + 3 * q, 4);
    vstd::arithmetic::div_mod::lemma_div_multiples_vanish(3 * p + q, 4);
}

/// A corner cut written without its final division: with the divisibility
/// that exact smoothing assumes, `(a + 3*b) / 4` is `a/4 + 3*(b/4)`, which an
/// implementation can compute without ever forming the four-fold sum.
pub proof fn lemma_cut_quarters(a: int, b: int)
    requires
        a % 4 == 0,
        b % 4 == 0,
    ensures
        a == 4 * (a / 4),
        b == 4 * (b / 4),
        cut_before(a, b) == a / 4 + 3 * (b / 4),
        cut_after(a, b) == 3 * (a / 4) + b / 4,
{
    vstd::arithmetic::div_mod::lemma_fundamental_div_mod(a, 4);
    vstd::arithmetic::div_mod::lemma_fundamental_div_mod(b, 4);
    let p = a / 4;
    let q = b / 4;
    assert(a + 3 * b == 4 * (p + 3 * q));
    assert(3 * a + b == 4 * (3 * p + q));
    vstd::arithmetic::div_mod::lemma_div_multiples_vanish(p + 3 * q, 4);
    vstd::arithmetic::div_mod::lemma_div_multiples_vanish(3 * p + q, 4);
}

/// One pass keeps both endpoints verbatim and produces length `2*l - 2`.
pub proof fn lemma_step_endpoints(s: Seq<int>)
    requires
        s.len() >= 2,
    ensures
        chaikin_step(s).len() == 2 * s.len() - 2,
        chaikin_step(s).len() >= 2,
        chaikin_step(s)[0] == s[0],
        chaikin_step(s)[chaikin_step(s).len() - 1] == s[s.len() - 1],
{
}

/// A pass over an axis whose coordinates have spare bits for `k` passes
/// yields an axis with spare bits for the remaining `k - 1` passes.
pub proof fn lemma_step_ready(s: Seq<int>, k: nat)
    requires
        s.len() >= 2,
        k >= 1,
        axis_ready(s, k),
    ensures
        axis_ready(chaikin_step(s), (k - 1) as nat),
{
    let t = chaikin_step(s);
    let l = s.len() as int;
    if t.len() > 2 {
        assert(l > 2);
        assert forall|j: int| 0 <= j < t.len() implies div4k(t[j], (k - 1) as nat) by {
            if j == 0 {
                lemma_div4k_mono(s[0], k, (k - 1) as nat);
            } else if j == 2 * l - 3 {
                lemma_div4k_mono(s[l - 1], k, (k - 1) as nat);
            } else if j % 2 == 1 {
                let i = (j + 1) / 2;
                assert(1 <= i < l - 1);
                assert((j - 1) / 2 == i - 1);
                lemma_div4k_cut(s[i - 1], s[i], k);
            } else {
                let i = j / 2;
                assert(1 <= i < l - 1);
                lemma_div4k_cut(s[i], s[i + 1], k);
            }
        }
    }
}

/// Iterated passes peeled from the back: `n + 1` passes are one pass applied
/// to the result of `n` passes.
pub proof fn lemma_smooth_unfold_back(s: Seq<int>, n: nat)
    requires
        s.len() >= 2,
    ensures
        chaikin_smooth(s, (n + 1) as nat) == chaikin_step(chaikin_smooth(s, n)),
    decreases n,
{
    lemma_step_endpoints(s);
    if n == 0 {
        assert(chaikin_smooth(s, 1) == chaikin_smooth(chaikin_step(s), 0));
    } else {
        lemma_smooth_unfold_back(chaikin_step(s), (n - 1) as nat);
        assert(chaikin_smooth(s, (n + 1) as nat) == chaikin_smooth(chaikin_step(s), n));
        assert(chaikin_smooth(s, n) == chaikin_smooth(chaikin_step(s), (n - 1) as nat));
    }
}

} // verus!
