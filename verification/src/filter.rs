//! The smoothing filter: a single-pole exponential moving average.

use vstd::prelude::*;
use crate::confidence::{
    alternating, lemma_alternating_spread, lemma_constant_has_no_spread,
    lemma_spread_nonnegative, lemma_spread_within_range, some_inside, spread,
};
use crate::units::{clamp, clamp_unit, UNIT};

verus! {

/// One step of the moving average: the estimate moves from `estimate`
/// toward `raw` by the fraction `alpha` of their distance, `alpha` counted
/// in millionths. The step is rounded toward zero, so the estimate never
/// passes `raw`.
pub open spec fn step_toward(estimate: int, raw: int, alpha: int) -> int {
    if raw >= estimate {
        estimate + (alpha * (raw - estimate)) / (UNIT as int)
    } else {
        estimate - (alpha * (estimate - raw)) / (UNIT as int)
    }
}

/// What the filter hands out for `raw`: `raw` itself while no estimate
/// exists, else one step from the estimate with `alpha` limited to the unit
/// interval.
pub open spec fn smoothed(estimate: Option<i64>, raw: i64, alpha: i64) -> int {
    match estimate {
        None => raw as int,
        Some(e) => step_toward(e as int, raw as int, clamp(alpha as int, 0, UNIT as int)),
    }
}

/// The estimate that a filter holds after it was fed `inputs`, starting
/// from `estimate`.
pub open spec fn held(estimate: Option<i64>, inputs: Seq<i64>, alpha: i64) -> Option<i64> {
    if inputs.len() == 0 {
        estimate
    } else {
        Some(run(estimate, inputs, alpha).last())
    }
}

/// The outputs of a filter that starts from `estimate` and is fed `inputs`
/// in turn, with the factor `alpha` throughout. An output lies between
/// the estimate before it and its input, so it is a value like them.
pub open spec fn run(estimate: Option<i64>, inputs: Seq<i64>, alpha: i64) -> Seq<i64>
    decreases inputs.len(),
{
    if inputs.len() == 0 {
        Seq::empty()
    } else {
        let earlier = run(estimate, inputs.drop_last(), alpha);
        let before = if earlier.len() == 0 {
            estimate
        } else {
            Some(earlier.last())
        };
        earlier.push(smoothed(before, inputs.last(), alpha) as i64)
    }
}

/// A step ends between the estimate and the raw value, both included.
pub proof fn lemma_step_between(estimate: int, raw: int, alpha: int)
    requires
        0 <= alpha <= UNIT,
    ensures
        raw >= estimate ==> estimate <= step_toward(estimate, raw, alpha) <= raw,
        raw < estimate ==> raw <= step_toward(estimate, raw, alpha) <= estimate,
{
    let d = if raw >= estimate {
        raw - estimate
    } else {
        estimate - raw
    };
    let unit = UNIT as int;
    assert(0 <= alpha * d <= unit * d) by (nonlinear_arith)
        requires
            0 <= alpha <= unit,
            0 <= d,
    ;
    assert(0 <= (alpha * d) / unit <= d) by (nonlinear_arith)
        requires
            0 <= alpha * d <= unit * d,
            unit > 0,
    ;
}

/// With the factor 0 the estimate is frozen; with the factor 1 the raw
/// value passes through.
pub proof fn lemma_step_extremes(estimate: int, raw: int)
    ensures
        step_toward(estimate, raw, 0) == estimate,
        step_toward(estimate, raw, UNIT as int) == raw,
{
    let unit = UNIT as int;
    let d = if raw >= estimate {
        raw - estimate
    } else {
        estimate - raw
    };
    assert(0 * d == 0) by (nonlinear_arith);
    assert((unit * d) / unit == d) by (nonlinear_arith)
        requires
            unit > 0,
    ;
}

/// Whatever the factor, the output for `raw` lies between the previous
/// estimate and `raw`.
pub proof fn lemma_smoothed_between(estimate: Option<i64>, raw: i64, alpha: i64)
    ensures
        estimate is None ==> smoothed(estimate, raw, alpha) == raw,
        estimate matches Some(e) ==> (raw >= e ==> e <= smoothed(estimate, raw, alpha) <= raw),
        estimate matches Some(e) ==> (raw < e ==> raw <= smoothed(estimate, raw, alpha) <= e),
{
    if let Some(e) = estimate {
        lemma_step_between(e as int, raw as int, clamp(alpha as int, 0, UNIT as int));
    }
}

/// The last output of a run is one step from the estimate held before it,
/// and every earlier output is that of the shorter run.
pub proof fn lemma_run_unfolds(estimate: Option<i64>, inputs: Seq<i64>, alpha: i64)
    requires
        inputs.len() > 0,
    ensures
        run(estimate, inputs, alpha).len() == inputs.len(),
        run(estimate, inputs.drop_last(), alpha).len() == inputs.len() - 1,
        run(estimate, inputs, alpha).last() == smoothed(
            held(estimate, inputs.drop_last(), alpha),
            inputs.last(),
            alpha,
        ),
        forall|i: int|
            0 <= i < inputs.len() - 1 ==> #[trigger] run(estimate, inputs, alpha)[i] == run(
                estimate,
                inputs.drop_last(),
                alpha,
            )[i],
{
    lemma_run_len(estimate, inputs, alpha);
    lemma_run_len(estimate, inputs.drop_last(), alpha);
    lemma_smoothed_between(held(estimate, inputs.drop_last(), alpha), inputs.last(), alpha);
}

/// A run has one output for each input.
proof fn lemma_run_len(estimate: Option<i64>, inputs: Seq<i64>, alpha: i64)
    ensures
        run(estimate, inputs, alpha).len() == inputs.len(),
    decreases inputs.len(),
{
    if inputs.len() > 0 {
        lemma_run_len(estimate, inputs.drop_last(), alpha);
    }
}

/// The filter never leaves the range of what it was fed: where every input
/// and the starting estimate lie between `lo` and `hi`, so does every
/// output.
pub proof fn lemma_run_stays_in_range(
    estimate: Option<i64>,
    inputs: Seq<i64>,
    alpha: i64,
    lo: i64,
    hi: i64,
)
    requires
        forall|i: int| 0 <= i < inputs.len() ==> lo <= #[trigger] inputs[i] <= hi,
        estimate matches Some(e) ==> lo <= e <= hi,
    ensures
        run(estimate, inputs, alpha).len() == inputs.len(),
        forall|i: int|
            0 <= i < inputs.len() ==> lo <= #[trigger] run(estimate, inputs, alpha)[i] <= hi,
    decreases inputs.len(),
{
    if inputs.len() > 0 {
        let head = inputs.drop_last();
        lemma_run_stays_in_range(estimate, head, alpha, lo, hi);
        lemma_run_unfolds(estimate, inputs, alpha);
        let earlier = run(estimate, head, alpha);
        if earlier.len() > 0 {
            assert(lo <= earlier[earlier.len() - 1] <= hi);
        }
        lemma_smoothed_between(held(estimate, head, alpha), inputs.last(), alpha);
        assert(lo <= inputs[inputs.len() - 1] <= hi);
        let out = run(estimate, inputs, alpha);
        assert(out.last() == out[inputs.len() - 1]);
    }
}

/// The two ends of the factor's range: at 0 the filter holds its first
/// input for ever, at 1 its outputs are its inputs.
pub proof fn lemma_run_extremes(inputs: Seq<i64>)
    ensures
        run(None, inputs, 0).len() == inputs.len(),
        run(None, inputs, UNIT) == inputs,
        forall|i: int| 0 <= i < inputs.len() ==> #[trigger] run(None, inputs, 0)[i] == inputs[0],
    decreases inputs.len(),
{
    if inputs.len() > 0 {
        let head = inputs.drop_last();
        lemma_run_extremes(head);
        lemma_run_unfolds(None, inputs, 0);
        lemma_run_unfolds(None, inputs, UNIT);
        let frozen = run(None, head, 0);
        let passed = run(None, head, UNIT);
        if head.len() > 0 {
            assert(frozen.last() == frozen[frozen.len() - 1]);
            assert(head[0] == inputs[0]);
            lemma_step_extremes(frozen.last() as int, inputs.last() as int);
            lemma_step_extremes(passed.last() as int, inputs.last() as int);
        }
        let cold = run(None, inputs, 0);
        let warm = run(None, inputs, UNIT);
        assert(cold.last() == cold[inputs.len() - 1]);
        assert(warm.last() == warm[inputs.len() - 1]);
        assert(inputs.last() == inputs[inputs.len() - 1]);
        assert forall|i: int| 0 <= i < inputs.len() implies #[trigger] cold[i] == inputs[0] by {
            if i < head.len() {
                assert(cold[i] == frozen[i]);
            }
        }
        assert forall|i: int| 0 <= i < inputs.len() implies warm[i] == inputs[i] by {
            if i < head.len() {
                assert(warm[i] == passed[i]);
                assert(head[i] == inputs[i]);
            }
        }
        assert(warm =~= inputs);
    } else {
        assert(run(None, inputs, UNIT) =~= inputs);
    }
}

/// The outputs for the first inputs do not depend on the later ones.
pub proof fn lemma_run_prefix(estimate: Option<i64>, inputs: Seq<i64>, alpha: i64, k: int)
    requires
        0 <= k <= inputs.len(),
    ensures
        run(estimate, inputs.take(k), alpha) == run(estimate, inputs, alpha).take(k),
    decreases inputs.len(),
{
    lemma_run_len(estimate, inputs, alpha);
    lemma_run_len(estimate, inputs.take(k), alpha);
    if k == inputs.len() {
        assert(inputs.take(k) =~= inputs);
        assert(run(estimate, inputs, alpha).take(k) =~= run(estimate, inputs, alpha));
    } else {
        let head = inputs.drop_last();
        lemma_run_prefix(estimate, head, alpha, k);
        lemma_run_unfolds(estimate, inputs, alpha);
        assert(head.take(k) =~= inputs.take(k));
        assert(run(estimate, head, alpha).take(k) =~= run(estimate, inputs, alpha).take(k));
    }
}

/// Whatever the factor and whatever the inputs: the outputs of a filter
/// that starts without an estimate vary no more than values that sit half
/// at each end of the inputs' range. Their variance is at most a quarter
/// of the squared range.
pub proof fn lemma_smoothed_variance_within_range(
    inputs: Seq<i64>,
    alpha: i64,
    lo: i64,
    hi: i64,
)
    requires
        forall|i: int| 0 <= i < inputs.len() ==> lo <= #[trigger] inputs[i] <= hi,
    ensures
        run(None, inputs, alpha).len() == inputs.len(),
        0 <= 4 * spread(run(None, inputs, alpha)) <= (inputs.len() * inputs.len()) * ((hi - lo)
            * (hi - lo)),
{
    lemma_run_stays_in_range(None, inputs, alpha, lo, hi);
    lemma_spread_within_range(run(None, inputs, alpha), lo as int, hi as int);
    lemma_spread_nonnegative(run(None, inputs, alpha));
}

/// Where one step from `a` toward `b` does not get off `a`, no run over
/// the two values ever does.
proof fn lemma_run_stuck(a: i64, b: i64, alpha: i64, len: nat)
    requires
        smoothed(Some(a), b, alpha) == a,
    ensures
        run(None, alternating(a, b, len), alpha).len() == len,
        forall|i: int| 0 <= i < len ==> #[trigger] run(None, alternating(a, b, len), alpha)[i] == a,
    decreases len,
{
    let w = alternating(a, b, len);
    if len > 0 {
        let fewer = (len - 1) as nat;
        lemma_run_stuck(a, b, alpha, fewer);
        assert(w.drop_last() =~= alternating(a, b, fewer));
        lemma_run_unfolds(None, w, alpha);
        let out = run(None, w, alpha);
        let earlier = run(None, alternating(a, b, fewer), alpha);
        assert(out.last() == out[len - 1]);
        if fewer == 0 {
            assert(w.last() == a);
        } else {
            assert(earlier.last() == earlier[fewer - 1]);
            if w.last() == a {
                lemma_step_extremes(a as int, a as int);
                lemma_step_between(a as int, a as int, clamp(alpha as int, 0, UNIT as int));
            }
        }
        assert forall|i: int| 0 <= i < len implies #[trigger] out[i] == a by {
            if i < fewer {
                assert(out[i] == earlier[i]);
            }
        }
    } else {
        lemma_run_len(None, w, alpha);
    }
}

/// Smoothing lowers the variance of a signal that jumps between two
/// values: for every factor below 1, the outputs for `a, b, a, b, ...`
/// vary strictly less than the inputs do.
pub proof fn lemma_smoothing_lowers_alternating_variance(a: i64, b: i64, pairs: nat, alpha: i64)
    requires
        a != b,
        pairs > 0,
        alpha < UNIT,
    ensures
        run(None, alternating(a, b, 2 * pairs), alpha).len() == alternating(a, b, 2 * pairs).len(),
        spread(run(None, alternating(a, b, 2 * pairs), alpha)) < spread(
            alternating(a, b, 2 * pairs),
        ),
{
    let w = alternating(a, b, 2 * pairs);
    let out = run(None, w, alpha);
    let lo = if a < b {
        a
    } else {
        b
    };
    let hi = if a < b {
        b
    } else {
        a
    };
    let d = b - a;
    let p = pairs as int;
    let factor = clamp(alpha as int, 0, UNIT as int);
    lemma_alternating_spread(a, b, pairs);
    lemma_run_stays_in_range(None, w, alpha, lo, hi);
    assert((p * p) * (d * d) > 0) by (nonlinear_arith)
        requires
            p > 0,
            d != 0,
    ;
    // The second output is one step from `a` toward `b`.
    lemma_run_prefix(None, w, alpha, 1);
    lemma_run_prefix(None, w, alpha, 2);
    lemma_run_unfolds(None, w.take(1), alpha);
    lemma_run_unfolds(None, w.take(2), alpha);
    assert(w.take(2).drop_last() =~= w.take(1));
    assert(w.take(1).drop_last() =~= Seq::<i64>::empty());
    assert(w.take(1).last() == a);
    assert(w.take(2).last() == b);
    assert(run(None, w.take(1), alpha).last() == a);
    assert(out.take(1).last() == out[0]);
    assert(out.take(2).last() == out[1]);
    let second = smoothed(Some(a), b, alpha);
    assert(out[1] == second);
    lemma_step_between(a as int, b as int, factor);
    let gap = if b >= a {
        b - a
    } else {
        a - b
    };
    assert((factor * gap) / (UNIT as int) < gap) by (nonlinear_arith)
        requires
            0 <= factor < UNIT,
            gap > 0,
    ;
    assert(second != b);
    if second == a {
        lemma_run_stuck(a, b, alpha, 2 * pairs);
        lemma_constant_has_no_spread(out, a);
    } else {
        assert(lo < out[1] < hi);
        assert(some_inside(out, lo as int, hi as int));
        lemma_spread_within_range(out, lo as int, hi as int);
        assert((hi - lo) * (hi - lo) == d * d) by (nonlinear_arith)
            requires
                hi - lo == d || hi - lo == -d,
        ;
        assert(((2 * p) * (2 * p)) * (d * d) == 4 * ((p * p) * (d * d))) by (nonlinear_arith);
    }
}

/// Between the two ends of the factor: at 0 the outputs for two
/// alternating values do not vary at all, at 1 they vary as the inputs
/// do, and for every factor they vary no more than the inputs.
pub proof fn lemma_alternating_variance_between_the_ends(
    a: i64,
    b: i64,
    pairs: nat,
    alpha: i64,
)
    ensures
        spread(run(None, alternating(a, b, 2 * pairs), 0)) == 0,
        spread(run(None, alternating(a, b, 2 * pairs), UNIT)) == spread(
            alternating(a, b, 2 * pairs),
        ),
        0 <= spread(run(None, alternating(a, b, 2 * pairs), alpha)) <= spread(
            alternating(a, b, 2 * pairs),
        ),
{
    let w = alternating(a, b, 2 * pairs);
    let lo = if a < b {
        a
    } else {
        b
    };
    let hi = if a < b {
        b
    } else {
        a
    };
    let d = b - a;
    let p = pairs as int;
    lemma_run_extremes(w);
    if w.len() > 0 {
        lemma_constant_has_no_spread(run(None, w, 0), w[0]);
    } else {
        lemma_constant_has_no_spread(run(None, w, 0), a);
    }
    lemma_alternating_spread(a, b, pairs);
    lemma_smoothed_variance_within_range(w, alpha, lo, hi);
    assert((hi - lo) * (hi - lo) == d * d) by (nonlinear_arith)
        requires
            hi - lo == d || hi - lo == -d,
    ;
    assert(((2 * p) * (2 * p)) * (d * d) == 4 * ((p * p) * (d * d))) by (nonlinear_arith);
}

/// Stateful exponential filter. The factor can be changed at any time and
/// is limited to the unit interval when it is applied.
pub struct SmoothingFilter {
    alpha: i64,
    estimate: Option<i64>,
}

pub(crate) fn blend(estimate: i64, raw: i64, alpha: i64) -> (out: i64)
    requires
        0 <= alpha <= UNIT,
    ensures
        out == step_toward(estimate as int, raw as int, alpha as int),
{
    proof {
        lemma_step_between(estimate as int, raw as int, alpha as int);
    }
    if raw >= estimate {
        let distance: u128 = (raw as i128 - estimate as i128) as u128;
        assert(alpha as u128 * distance <= 1_000_000 * 0x1_0000_0000_0000_0000) by (nonlinear_arith)
            requires
                0 <= alpha <= 1_000_000,
                distance < 0x1_0000_0000_0000_0000,
        ;
        let step: u128 = (alpha as u128 * distance) / 1_000_000;
        (estimate as i128 + step as i128) as i64
    } else {
        let distance: u128 = (estimate as i128 - raw as i128) as u128;
        assert(alpha as u128 * distance <= 1_000_000 * 0x1_0000_0000_0000_0000) by (nonlinear_arith)
            requires
                0 <= alpha <= 1_000_000,
                distance < 0x1_0000_0000_0000_0000,
        ;
        let step: u128 = (alpha as u128 * distance) / 1_000_000;
        (estimate as i128 - step as i128) as i64
    }
}

impl SmoothingFilter {
    /// The factor as it was set.
    pub closed spec fn factor(&self) -> i64 {
        self.alpha
    }

    /// The running estimate, if an input was seen.
    pub closed spec fn state(&self) -> Option<i64> {
        self.estimate
    }

    /// A filter without an estimate.
    pub fn new(alpha: i64) -> (filter: SmoothingFilter)
        ensures
            filter.factor() == alpha,
            filter.state() is None,
    {
        SmoothingFilter { alpha, estimate: None }
    }

    /// Changes the factor; the estimate stays.
    pub fn set_alpha(&mut self, alpha: i64)
        ensures
            final(self).factor() == alpha,
            final(self).state() == old(self).state(),
    {
        self.alpha = alpha;
    }

    /// The factor as it was set.
    pub fn alpha(&self) -> (alpha: i64)
        ensures
            alpha == self.factor(),
    {
        self.alpha
    }

    /// The running estimate.
    pub fn estimate(&self) -> (estimate: Option<i64>)
        ensures
            estimate == self.state(),
    {
        self.estimate
    }

    /// Feeds one raw value and returns the new estimate. The first value
    /// is returned unchanged.
    pub fn update(&mut self, raw: i64) -> (out: i64)
        ensures
            out == smoothed(old(self).state(), raw, old(self).factor()),
            final(self).state() == Some(out),
            final(self).factor() == old(self).factor(),
    {
        let out = match self.estimate {
            None => raw,
            Some(estimate) => blend(estimate, raw, clamp_unit(self.alpha)),
        };
        self.estimate = Some(out);
        out
    }
}

} // verus!
