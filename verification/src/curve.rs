//! Executable corner-cutting smoothing over exact fixed-point coordinates.

use vstd::prelude::*;

use crate::model::axis_ready;
use crate::model::chaikin_smooth;
use crate::model::chaikin_step;
use crate::model::cut_after;
use crate::model::cut_before;
use crate::model::div4k;
use crate::model::ints;
use crate::model::lemma_cut_quarters;
use crate::model::lemma_div4k_mono;
use crate::model::lemma_smooth_unfold_back;
use crate::model::lemma_step_ready;
use crate::model::step_at;

verus! {

/// Why a smoothing request was rejected.
#[derive(Clone, Copy, Debug, PartialEq, Eq, Structural)]
pub enum CurveError {
    /// The axis sequences of one curve do not all have the same length.
    LengthMismatch,
    /// Fewer than two control points were supplied.
    TooShort,
    /// Zero passes were requested of the iteration driver.
    ZeroIterations,
}

/// Two axes describe a curve the steps accept: positionally aligned and with
/// at least the two endpoints.
pub open spec fn valid_pair(x: Seq<int>, y: Seq<int>) -> bool {
    x.len() == y.len() && x.len() >= 2
}

/// Three axes describe a curve the steps accept.
pub open spec fn valid_triple(x: Seq<int>, y: Seq<int>, z: Seq<int>) -> bool {
    x.len() == y.len() && y.len() == z.len() && x.len() >= 2
}

/// An exact quarter of a coordinate that carries two spare low bits.
fn quarter(t: i64) -> (r: i64)
    requires
        t % 4 == 0,
    ensures
        r == t as int / 4,
{
    t / 4
}

/// One corner-cutting pass over a single axis: the endpoints are copied
/// verbatim, and each interior vertex is replaced by the two quarter cuts on
/// its incoming and outgoing edges.
pub fn step_axis(s: &Vec<i64>) -> (r: Vec<i64>)
    requires
        s@.len() >= 2,
        axis_ready(ints(s@), 1),
    ensures
        ints(r@) == chaikin_step(ints(s@)),
        r@.len() == 2 * s@.len() - 2,
        r@[0] == s@[0],
        r@[r@.len() - 1] == s@[s@.len() - 1],
{
    let ghost g = ints(s@);
    let mut r: Vec<i64> = Vec::new();
    r.push(s[0]);
    let mut i: usize = 1;
    while i < s.len() - 1
        invariant
            1 <= i <= s@.len() - 1,
            s@.len() >= 2,
            g == ints(s@),
            axis_ready(g, 1),
            r@.len() == 2 * i - 1,
            forall|j: int| 0 <= j < r@.len() ==> ints(r@)[j] == step_at(g, j),
        decreases s@.len() - 1 - i,
    {
        proof {
            assert(s@.len() > 2);
            assert(div4k(g[i - 1], 1) && div4k(g[i as int], 1) && div4k(g[i + 1], 1));
            lemma_cut_quarters(g[i - 1], g[i as int]);
            lemma_cut_quarters(g[i as int], g[i + 1]);
        }
        let qp = quarter(s[i - 1]);
        let qc = quarter(s[i]);
        let qn = quarter(s[i + 1]);
        let a1 = qp + 3 * qc;
        let c1 = 3 * qc + qn;
        proof {
            assert(a1 == cut_before(g[i - 1], g[i as int]));
            assert(c1 == cut_after(g[i as int], g[i + 1]));
            let j1 = 2 * i as int - 1;
            let j2 = 2 * i as int;
            assert(j1 % 2 == 1 && j2 % 2 == 0);
            assert((j1 - 1) / 2 == i - 1 && (j1 + 1) / 2 == i as int);
            assert(j2 / 2 == i as int);
            assert(j1 != 0 && j1 != 2 * g.len() - 3);
            assert(j2 != 0 && j2 != 2 * g.len() - 3);
            assert(a1 == step_at(g, j1));
            assert(c1 == step_at(g, j2));
        }
        r.push(a1);
        r.push(c1);
        i = i + 1;
    }
    r.push(s[s.len() - 1]);
    proof {
        assert(r@.len() == 2 * g.len() - 2);
        assert(ints(r@)[2 * g.len() - 3] == step_at(g, 2 * g.len() - 3));
        assert(ints(r@) =~= chaikin_step(g));
        assert(r@[0] as int == step_at(g, 0));
        assert(r@[r@.len() - 1] as int == step_at(g, 2 * g.len() - 3));
    }
    r
}

/// `n` corner-cutting passes over a single axis, each applied to the result
/// of the previous one.
pub fn smooth_axis(s: &Vec<i64>, n: u8) -> (r: Vec<i64>)
    requires
        s@.len() >= 2,
        n >= 1,
        axis_ready(ints(s@), n as nat),
    ensures
        ints(r@) == chaikin_smooth(ints(s@), n as nat),
{
    let ghost g = ints(s@);
    proof {
        lemma_ready_at_least_one(g, n as nat);
        lemma_step_ready(g, n as nat);
        assert(chaikin_smooth(g, 1) == chaikin_smooth(chaikin_step(g), 0));
        assert(chaikin_step(g) == chaikin_smooth(g, 1));
    }
    let mut cur: Vec<i64> = step_axis(s);
    let mut i: u8 = 1;
    while i < n
        invariant
            1 <= i <= n,
            g == ints(s@),
            g.len() >= 2,
            ints(cur@) == chaikin_smooth(g, i as nat),
            cur@.len() >= 2,
            axis_ready(ints(cur@), (n - i) as nat),
        decreases n - i,
    {
        proof {
            lemma_ready_at_least_one(ints(cur@), (n - i) as nat);
            lemma_step_ready(ints(cur@), (n - i) as nat);
            lemma_smooth_unfold_back(g, i as nat);
        }
        let next = step_axis(&cur);
        cur = next;
        i = i + 1;
    }
    cur
}

/// An axis ready for `k >= 1` passes is in particular ready for the next one.
proof fn lemma_ready_at_least_one(s: Seq<int>, k: nat)
    requires
        k >= 1,
        axis_ready(s, k),
    ensures
        axis_ready(s, 1),
{
    if s.len() > 2 {
        assert forall|j: int| 0 <= j < s.len() implies div4k(s[j], 1) by {
            lemma_div4k_mono(s[j], k, 1);
        }
    }
}

/// One corner-cutting pass over a 2D polyline. The two axes are cut
/// independently, at the same positions with the same quarter weights, and
/// both endpoints of each axis are returned verbatim.
pub fn fast_2d_step(x: &Vec<i64>, y: &Vec<i64>) -> (r: Result<(Vec<i64>, Vec<i64>), CurveError>)
    requires
        valid_pair(ints(x@), ints(y@)) ==> axis_ready(ints(x@), 1) && axis_ready(ints(y@), 1),
    ensures
        (match r {
            Ok(p) => valid_pair(ints(x@), ints(y@)) && ints(p.0@) == chaikin_step(ints(x@))
                && ints(p.1@) == chaikin_step(ints(y@)),
            Err(CurveError::LengthMismatch) => x@.len() != y@.len(),
            Err(CurveError::TooShort) => x@.len() == y@.len() && x@.len() < 2,
            Err(CurveError::ZeroIterations) => false,
        }),
{
    if x.len() != y.len() {
        return Err(CurveError::LengthMismatch);
    }
    if x.len() < 2 {
        return Err(CurveError::TooShort);
    }
    Ok((step_axis(x), step_axis(y)))
}

/// One corner-cutting pass over a 3D polyline: the coordinate-wise product
/// of three independent one-axis passes. Each axis's endpoints are copied
/// from that axis's own sequence.
pub fn fast_3d_step(x: &Vec<i64>, y: &Vec<i64>, z: &Vec<i64>) -> (r: Result<
    (Vec<i64>, Vec<i64>, Vec<i64>),
    CurveError,
>)
    requires
        valid_triple(ints(x@), ints(y@), ints(z@)) ==> axis_ready(ints(x@), 1) && axis_ready(
            ints(y@),
            1,
        ) && axis_ready(ints(z@), 1),
    ensures
        (match r {
            Ok(p) => valid_triple(ints(x@), ints(y@), ints(z@)) && ints(p.0@) == chaikin_step(
                ints(x@),
            ) && ints(p.1@) == chaikin_step(ints(y@)) && ints(p.2@) == chaikin_step(ints(z@)),
            Err(CurveError::LengthMismatch) => !(x@.len() == y@.len() && y@.len() == z@.len()),
            Err(CurveError::TooShort) => x@.len() == y@.len() && y@.len() == z@.len()
                && x@.len() < 2,
            Err(CurveError::ZeroIterations) => false,
        }),
{
    if x.len() != y.len() || y.len() != z.len() {
        return Err(CurveError::LengthMismatch);
    }
    if x.len() < 2 {
        return Err(CurveError::TooShort);
    }
    Ok((step_axis(x), step_axis(y), step_axis(z)))
}

/// Smooth a 2D polyline by `n` corner-cutting passes, threading the output
/// of each pass into the next.
pub fn fast_curve_2d(x: &Vec<i64>, y: &Vec<i64>, n: u8) -> (r: Result<
    (Vec<i64>, Vec<i64>),
    CurveError,
>)
    requires
        valid_pair(ints(x@), ints(y@)) && n >= 1 ==> axis_ready(ints(x@), n as nat) && axis_ready(
            ints(y@),
            n as nat,
        ),
    ensures
        (match r {
            Ok(p) => valid_pair(ints(x@), ints(y@)) && n >= 1 && ints(p.0@) == chaikin_smooth(
                ints(x@),
                n as nat,
            ) && ints(p.1@) == chaikin_smooth(ints(y@), n as nat),
            Err(CurveError::LengthMismatch) => x@.len() != y@.len(),
            Err(CurveError::TooShort) => x@.len() == y@.len() && x@.len() < 2,
            Err(CurveError::ZeroIterations) => x@.len() == y@.len() && x@.len() >= 2 && n == 0,
        }),
{
    if x.len() != y.len() {
        return Err(CurveError::LengthMismatch);
    }
    if x.len() < 2 {
        return Err(CurveError::TooShort);
    }
    if n == 0 {
        return Err(CurveError::ZeroIterations);
    }
    Ok((smooth_axis(x, n), smooth_axis(y, n)))
}

/// Smooth a 3D polyline by `n` corner-cutting passes, threading the output
/// of each pass into the next.
pub fn fast_curve_3d(x: &Vec<i64>, y: &Vec<i64>, z: &Vec<i64>, n: u8) -> (r: Result<
    (Vec<i64>, Vec<i64>, Vec<i64>),
    CurveError,
>)
    requires
        valid_triple(ints(x@), ints(y@), ints(z@)) && n >= 1 ==> axis_ready(ints(x@), n as nat)
            && axis_ready(ints(y@), n as nat) && axis_ready(ints(z@), n as nat),
    ensures
        (match r {
            Ok(p) => valid_triple(ints(x@), ints(y@), ints(z@)) && n >= 1 && ints(p.0@)
                == chaikin_smooth(ints(x@), n as nat) && ints(p.1@) == chaikin_smooth(
                ints(y@),
                n as nat,
            ) && ints(p.2@) == chaikin_smooth(ints(z@), n as nat),
            Err(CurveError::LengthMismatch) => !(x@.len() == y@.len() && y@.len() == z@.len()),
            Err(CurveError::TooShort) => x@.len() == y@.len() && y@.len() == z@.len()
                && x@.len() < 2,
            Err(CurveError::ZeroIterations) => x@.len() == y@.len() && y@.len() == z@.len()
                && x@.len() >= 2 && n == 0,
        }),
{
    if x.len() != y.len() || y.len() != z.len() {
        return Err(CurveError::LengthMismatch);
    }
    if x.len() < 2 {
        return Err(CurveError::TooShort);
    }
    if n == 0 {
        return Err(CurveError::ZeroIterations);
    }
    Ok((smooth_axis(x, n), smooth_axis(y, n), smooth_axis(z, n)))
}

} // verus!
