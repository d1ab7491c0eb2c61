//! Laws of corner-cutting subdivision, stated over the model and proved once
//! for every input the library accepts.

use vstd::prelude::*;

use crate::model::chaikin_smooth;
use crate::model::chaikin_step;
use crate::model::lemma_step_endpoints;
use crate::model::smoothed_len;
use crate::model::step_at;

verus! {

/// Endpoint invariance: however many passes are applied, the first and last
/// points of the output are exactly the first and last points of the input —
/// they are copied, never recomputed, so no drift can accumulate.
pub proof fn lemma_smooth_endpoints(s: Seq<int>, n: nat)
    requires
        s.len() >= 2,
    ensures
        chaikin_smooth(s, n).len() >= 2,
        chaikin_smooth(s, n)[0] == s[0],
        chaikin_smooth(s, n)[chaikin_smooth(s, n).len() - 1] == s[s.len() - 1],
    decreases n,
{
    if n != 0 {
        lemma_step_endpoints(s);
        lemma_smooth_endpoints(chaikin_step(s), (n - 1) as nat);
    }
}

/// Length formula: one pass takes a sequence of length `l >= 2` to one of
/// length `2*l - 2`, and `n` passes follow that recurrence.
pub proof fn lemma_smooth_len(s: Seq<int>, n: nat)
    requires
        s.len() >= 2,
    ensures
        chaikin_smooth(s, n).len() == smoothed_len(s.len(), n),
        chaikin_smooth(s, n).len() >= 2,
    decreases n,
{
    if n != 0 {
        lemma_step_endpoints(s);
        lemma_smooth_len(chaikin_step(s), (n - 1) as nat);
    }
}

/// Idempotence of a bare segment: a sequence of just the two endpoints is
/// unchanged by a pass, and therefore by any number of passes.
pub proof fn lemma_two_points_fixed(s: Seq<int>, n: nat)
    requires
        s.len() == 2,
    ensures
        chaikin_smooth(s, n) == s,
    decreases n,
{
    assert(chaikin_step(s) =~= s);
    if n != 0 {
        lemma_two_points_fixed(chaikin_step(s), (n - 1) as nat);
    }
}

/// The two input positions that output element `j` of a pass is cut from.
/// An endpoint is "cut" from its own position alone.
pub open spec fn cut_sources(j: int, l: int) -> (int, int) {
    if j == 0 {
        (0, 0)
    } else if j == 2 * l - 3 {
        (l - 1, l - 1)
    } else if j % 2 == 1 {
        ((j - 1) / 2, (j + 1) / 2)
    } else {
        (j / 2, j / 2 + 1)
    }
}

/// The quarter weights with which output element `j` of a pass combines its
/// two source positions. They always sum to four: every output point is a
/// convex combination of its sources.
pub open spec fn cut_weights(j: int, l: int) -> (int, int) {
    if j == 0 || j == 2 * l - 3 {
        (4, 0)
    } else if j % 2 == 1 {
        (1, 3)
    } else {
        (3, 1)
    }
}

/// Every element of a pass is the stated weighted combination of its two
/// source positions.
proof fn lemma_cut_decomposition(s: Seq<int>, j: int)
    requires
        s.len() >= 2,
        0 <= j < 2 * s.len() - 2,
    ensures
        ({
            let l = s.len() as int;
            let (i0, i1) = cut_sources(j, l);
            let (w0, w1) = cut_weights(j, l);
            0 <= i0 < l && 0 <= i1 < l && w0 + w1 == 4 && w0 >= 0 && w1 >= 0 && chaikin_step(s)[j]
                == (w0 * s[i0] + w1 * s[i1]) / 4
        }),
{
    let l = s.len() as int;
    if j == 0 {
        vstd::arithmetic::div_mod::lemma_div_multiples_vanish(s[0], 4);
        assert(4 * s[0] + 0 * s[0] == 4 * s[0]);
    } else if j == 2 * l - 3 {
        vstd::arithmetic::div_mod::lemma_div_multiples_vanish(s[l - 1], 4);
        assert(4 * s[l - 1] + 0 * s[l - 1] == 4 * s[l - 1]);
    } else if j % 2 == 1 {
        assert(1 <= (j + 1) / 2 < l - 1);
        assert(step_at(s, j) == (s[(j - 1) / 2] + 3 * s[(j + 1) / 2]) / 4);
        assert(1 * s[(j - 1) / 2] == s[(j - 1) / 2]);
    } else {
        assert(1 <= j / 2 < l - 1);
        assert(step_at(s, j) == (3 * s[j / 2] + s[j / 2 + 1]) / 4);
        assert(1 * s[j / 2 + 1] == s[j / 2 + 1]);
    }
}

/// Coordinate independence with shared geometry: element `j` of a pass is
/// cut from the same two input positions, with the same quarter weights, on
/// every axis of the same length — which axis is examined never changes the
/// interpolation fractions applied at an index.
pub proof fn lemma_shared_cut_weights(x: Seq<int>, y: Seq<int>, j: int)
    requires
        x.len() >= 2,
        y.len() == x.len(),
        0 <= j < 2 * x.len() - 2,
    ensures
        ({
            let l = x.len() as int;
            let (i0, i1) = cut_sources(j, l);
            let (w0, w1) = cut_weights(j, l);
            0 <= i0 < l && 0 <= i1 < l && w0 + w1 == 4 && w0 >= 0 && w1 >= 0 && chaikin_step(x)[j]
                == (w0 * x[i0] + w1 * x[i1]) / 4 && chaikin_step(y)[j] == (w0 * y[i0] + w1 * y[i1])
                / 4
        }),
{
    lemma_cut_decomposition(x, j);
    lemma_cut_decomposition(y, j);
}

} // verus!
