//! The confidence estimator: a stability score from the variance of the
//! last smoothed values.

use std::collections::VecDeque;
use vstd::prelude::*;
use crate::units::UNIT;

verus! {

/// How many values the rolling window holds.
pub const WINDOW: usize = 64;

/// [`UNIT`] to the third power.
pub const CUBE: u128 = 1_000_000_000_000_000_000;

/// [`UNIT`] to the fourth power.
pub const QUAD: u128 = 1_000_000_000_000_000_000_000_000;

/// Offsets from the first value of the window are summed exactly below
/// this bound, 2 to the power 46; its square exceeds `QUAD * WINDOW * WINDOW`.
const REACH: i128 = 0x4000_0000_0000;

/// The square of `REACH`.
const REACH_SQ: u128 = 0x1000_0000_0000_0000_0000_0000;

/// The sum of the values.
pub open spec fn total(w: Seq<i64>) -> int
    decreases w.len(),
{
    if w.len() == 0 {
        0
    } else {
        total(w.drop_last()) + w.last()
    }
}

/// The sum of the squared values.
pub open spec fn total_sq(w: Seq<i64>) -> int
    decreases w.len(),
{
    if w.len() == 0 {
        0
    } else {
        total_sq(w.drop_last()) + w.last() * w.last()
    }
}

/// The population variance of the values, times the square of their
/// number: `n * sum(v^2) - sum(v)^2`.
pub open spec fn spread(w: Seq<i64>) -> int {
    w.len() * total_sq(w) - total(w) * total(w)
}

/// The stability score of a window in millionths: `1 / (1 + k * variance)`
/// rounded down, where the variance is that of the values in their unit and
/// `k` counts millionths. With `n` values, the variance is
/// `spread / (n^2 * UNIT^2)`, so the score is
/// `UNIT^4 * n^2 / (UNIT^3 * n^2 + k * spread)`.
pub open spec fn stability(w: Seq<i64>, k: u64) -> int
    recommends
        w.len() > 0,
{
    let n2 = (w.len() * w.len()) as int;
    (QUAD as int * n2) / (CUBE as int * n2 + k as int * spread(w))
}

/// The window after one more value: once it is full, the oldest value
/// leaves. The last `WINDOW - 1` values stay, and `value` follows them.
pub open spec fn pushed(w: Seq<i64>, value: i64) -> Seq<i64> {
    if w.len() >= WINDOW {
        w.skip(w.len() - WINDOW + 1).push(value)
    } else {
        w.push(value)
    }
}

/// The window after `times` observations of the same `value`.
pub open spec fn fed(w: Seq<i64>, value: i64, times: nat) -> Seq<i64>
    decreases times,
{
    if times == 0 {
        w
    } else {
        pushed(fed(w, value, (times - 1) as nat), value)
    }
}

/// The sum of the distances of the values from `c`.
pub open spec fn total_from(w: Seq<i64>, c: int) -> int
    decreases w.len(),
{
    if w.len() == 0 {
        0
    } else {
        total_from(w.drop_last(), c) + (w.last() - c)
    }
}

/// The sum of the squared distances of the values from `c`.
pub open spec fn total_sq_from(w: Seq<i64>, c: int) -> int
    decreases w.len(),
{
    if w.len() == 0 {
        0
    } else {
        total_sq_from(w.drop_last(), c) + (w.last() - c) * (w.last() - c)
    }
}

/// The sums of distances from `c`, written with the plain sums.
proof fn lemma_from(w: Seq<i64>, c: int)
    ensures
        total_from(w, c) == total(w) - w.len() * c,
        total_sq_from(w, c) == total_sq(w) - 2 * c * total(w) + w.len() * c * c,
    decreases w.len(),
{
    if w.len() > 0 {
        let head = w.drop_last();
        lemma_from(head, c);
        let x = w.last() as int;
        let m = head.len() as int;
        let t = total(head);
        let q = total_sq(head);
        assert(w.len() == m + 1);
        assert((t - m * c) + (x - c) == (t + x) - (m + 1) * c) by (nonlinear_arith);
        assert((q - 2 * c * t + m * c * c) + (x - c) * (x - c) == (q + x * x) - 2 * c * (t + x) + (m
            + 1) * c * c) by (nonlinear_arith);
    } else {
        assert(w.len() * c == 0) by (nonlinear_arith)
            requires
                w.len() == 0,
        ;
        assert(w.len() * c * c == 0) by (nonlinear_arith)
            requires
                w.len() == 0,
        ;
    }
}

/// One more value adds to the spread the squared distances of the earlier
/// values from it.
proof fn lemma_spread_grows(w: Seq<i64>)
    requires
        w.len() > 0,
    ensures
        spread(w) == spread(w.drop_last()) + total_sq_from(w.drop_last(), w.last() as int),
{
    let head = w.drop_last();
    let x = w.last() as int;
    let m = head.len() as int;
    let t = total(head);
    let q = total_sq(head);
    lemma_from(head, x);
    assert(w.len() == m + 1);
    assert((m + 1) * (q + x * x) - (t + x) * (t + x) == (m * q - t * t) + (q - 2 * x * t + m * x
        * x)) by (nonlinear_arith);
}

/// A sum of squares is at least each of its terms, and never negative.
proof fn lemma_total_sq_from_bounds(w: Seq<i64>, c: int, j: int)
    requires
        0 <= j < w.len(),
    ensures
        total_sq_from(w, c) >= (w[j] - c) * (w[j] - c),
        total_sq_from(w, c) >= 0,
    decreases w.len(),
{
    let head = w.drop_last();
    let d = w.last() - c;
    assert(d * d >= 0) by (nonlinear_arith);
    assert(total_sq_from(w, c) == total_sq_from(head, c) + d * d);
    if head.len() > 0 {
        let pick = if j < head.len() {
            j
        } else {
            0
        };
        lemma_total_sq_from_bounds(head, c, pick);
        assert(head[pick] == w[pick]);
    } else {
        assert(total_sq_from(head, c) == 0);
    }
    if j == w.len() - 1 {
        assert(w[j] == w.last());
    }
}

/// The spread is never negative.
pub proof fn lemma_spread_nonnegative(w: Seq<i64>)
    ensures
        spread(w) >= 0,
    decreases w.len(),
{
    if w.len() > 0 {
        let head = w.drop_last();
        lemma_spread_nonnegative(head);
        lemma_spread_grows(w);
        if head.len() > 0 {
            lemma_total_sq_from_bounds(head, w.last() as int, 0);
        }
    } else {
        assert(w.len() * total_sq(w) == 0) by (nonlinear_arith)
            requires
                w.len() == 0,
        ;
    }
}

/// The spread is at least the squared distance of any two values.
pub proof fn lemma_spread_covers_pair(w: Seq<i64>, i: int, j: int)
    requires
        0 <= i < j < w.len(),
    ensures
        spread(w) >= (w[i] - w[j]) * (w[i] - w[j]),
    decreases w.len(),
{
    let head = w.drop_last();
    lemma_spread_grows(w);
    if j == w.len() - 1 {
        lemma_spread_nonnegative(head);
        lemma_total_sq_from_bounds(head, w.last() as int, i);
    } else {
        lemma_spread_covers_pair(head, i, j);
        lemma_total_sq_from_bounds(head, w.last() as int, 0);
    }
}

/// The spread does not change when every value is shifted by `c`.
proof fn lemma_spread_shifted(w: Seq<i64>, c: int)
    ensures
        spread(w) == w.len() * total_sq_from(w, c) - total_from(w, c) * total_from(w, c),
{
    lemma_from(w, c);
    let n = w.len() as int;
    let t = total(w);
    let q = total_sq(w);
    assert(n * (q - 2 * c * t + n * c * c) - (t - n * c) * (t - n * c) == n * q - t * t)
        by (nonlinear_arith);
}

/// Values that are all the same have no spread.
pub proof fn lemma_constant_has_no_spread(w: Seq<i64>, c: i64)
    requires
        forall|i: int| 0 <= i < w.len() ==> #[trigger] w[i] == c,
    ensures
        spread(w) == 0,
{
    lemma_spread_shifted(w, c as int);
    lemma_constant_offsets(w, c);
    assert(w.len() * 0 - 0 * 0 == 0) by (nonlinear_arith);
}

/// Equal values have no distance from their common value.
proof fn lemma_constant_offsets(w: Seq<i64>, c: i64)
    requires
        forall|i: int| 0 <= i < w.len() ==> #[trigger] w[i] == c,
    ensures
        total_from(w, c as int) == 0,
        total_sq_from(w, c as int) == 0,
    decreases w.len(),
{
    if w.len() > 0 {
        let head = w.drop_last();
        assert forall|i: int| 0 <= i < head.len() implies #[trigger] head[i] == c by {
            assert(head[i] == w[i]);
        }
        lemma_constant_offsets(head, c);
        assert(w.last() == w[w.len() - 1]);
        assert((c - c) * (c - c) == 0) by (nonlinear_arith);
    }
}

/// The score lies in the unit interval.
pub proof fn lemma_stability_in_unit_interval(w: Seq<i64>, k: u64)
    requires
        w.len() > 0,
    ensures
        0 <= stability(w, k) <= UNIT,
{
    lemma_spread_nonnegative(w);
    let n2 = (w.len() * w.len()) as int;
    let s = spread(w);
    let num = QUAD as int * n2;
    let base = CUBE as int * n2;
    assert(n2 >= 1) by (nonlinear_arith)
        requires
            n2 == w.len() * w.len(),
            w.len() >= 1,
    ;
    assert(k as int * s >= 0) by (nonlinear_arith)
        requires
            k >= 0,
            s >= 0,
    ;
    let den = base + k as int * s;
    assert(0 <= num / den <= 1_000_000) by (nonlinear_arith)
        requires
            num == 1_000_000_000_000_000_000_000_000 * n2,
            base == 1_000_000_000_000_000_000 * n2,
            den >= base,
            n2 >= 1,
    ;
}

/// A window of equal values scores 1.
pub proof fn lemma_constant_is_stable(w: Seq<i64>, c: i64, k: u64)
    requires
        w.len() > 0,
        forall|i: int| 0 <= i < w.len() ==> #[trigger] w[i] == c,
    ensures
        stability(w, k) == UNIT,
{
    lemma_constant_has_no_spread(w, c);
    let n2 = (w.len() * w.len()) as int;
    assert(n2 >= 1) by (nonlinear_arith)
        requires
            n2 == w.len() * w.len(),
            w.len() >= 1,
    ;
    assert(k as int * 0 == 0);
    assert((1_000_000_000_000_000_000_000_000 * n2) / (1_000_000_000_000_000_000 * n2)
        == 1_000_000) by (nonlinear_arith)
        requires
            n2 >= 1,
    ;
}

/// More spread means less stability: of two windows of one length, the
/// one whose values vary less scores at least as high.
pub proof fn lemma_more_spread_less_stable(calm: Seq<i64>, wild: Seq<i64>, k: u64)
    requires
        calm.len() == wild.len(),
        calm.len() > 0,
        spread(calm) <= spread(wild),
    ensures
        stability(calm, k) >= stability(wild, k),
{
    lemma_spread_nonnegative(calm);
    let n2 = (calm.len() * calm.len()) as int;
    assert(n2 >= 1) by (nonlinear_arith)
        requires
            n2 == calm.len() * calm.len(),
            calm.len() >= 1,
    ;
    let low = CUBE as int * n2 + k as int * spread(calm);
    let high = CUBE as int * n2 + k as int * spread(wild);
    assert(0 <= k as int * spread(calm) <= k as int * spread(wild)) by (nonlinear_arith)
        requires
            0 <= spread(calm) <= spread(wild),
            k >= 0,
    ;
    assert(QUAD as int * n2 >= 0) by (nonlinear_arith)
        requires
            n2 >= 1,
    ;
    vstd::arithmetic::div_mod::lemma_div_is_ordered_by_denominator(QUAD as int * n2, low, high);
}

/// A window in which two values take turns: `a` at the even places, `b`
/// at the odd ones.
pub open spec fn alternating(a: i64, b: i64, len: nat) -> Seq<i64> {
    Seq::new(len, |i: int| if i % 2 == 0 { a } else { b })
}

/// The distances from `a` in a window where `a` and `b` take turns.
proof fn lemma_alternating_offsets(a: i64, b: i64, pairs: nat)
    ensures
        total_from(alternating(a, b, 2 * pairs), a as int) == pairs * (b - a),
        total_sq_from(alternating(a, b, 2 * pairs), a as int) == pairs * ((b - a) * (b - a)),
    decreases pairs,
{
    let d = b - a;
    if pairs > 0 {
        let fewer = (pairs - 1) as nat;
        lemma_alternating_offsets(a, b, fewer);
        let w = alternating(a, b, 2 * pairs);
        let w1 = w.drop_last();
        let w2 = w1.drop_last();
        assert(w2 =~= alternating(a, b, 2 * fewer));
        assert(w.last() == b);
        assert(w1.last() == a);
        assert(total_from(w, a as int) == total_from(w1, a as int) + (b - a));
        assert(total_from(w1, a as int) == total_from(w2, a as int) + (a - a));
        assert(total_sq_from(w, a as int) == total_sq_from(w1, a as int) + (b - a) * (b - a));
        assert(total_sq_from(w1, a as int) == total_sq_from(w2, a as int) + (a - a) * (a - a));
        assert((a - a) * (a - a) == 0) by (nonlinear_arith);
        assert(fewer * d + d == pairs * d) by (nonlinear_arith)
            requires
                pairs == fewer + 1,
        ;
        assert(fewer * (d * d) + d * d == pairs * (d * d)) by (nonlinear_arith)
            requires
                pairs == fewer + 1,
        ;
    } else {
        assert(pairs * d == 0) by (nonlinear_arith)
            requires
                pairs == 0,
        ;
        assert(pairs * (d * d) == 0) by (nonlinear_arith)
            requires
                pairs == 0,
        ;
    }
}

/// The spread of two values that take turns, `pairs` times: with a
/// distance of `d` between them the variance is `d^2 / 4`, the most that
/// values so far apart can have.
pub proof fn lemma_alternating_spread(a: i64, b: i64, pairs: nat)
    ensures
        alternating(a, b, 2 * pairs).len() == 2 * pairs,
        spread(alternating(a, b, 2 * pairs)) == (pairs * pairs) * ((b - a) * (b - a)),
{
    let w = alternating(a, b, 2 * pairs);
    let d = b - a;
    let p = pairs as int;
    lemma_alternating_offsets(a, b, pairs);
    lemma_spread_shifted(w, a as int);
    assert(w.len() == 2 * p);
    assert((2 * p) * (p * (d * d)) - (p * d) * (p * d) == (p * p) * (d * d)) by (nonlinear_arith);
}

/// The score of two values that take turns does not depend on how long
/// they do: with a distance of `d` between them, the variance is
/// `d^2 / 4` and the score `4 * UNIT^4 / (4 * UNIT^3 + k * d^2)`. The
/// farther apart the values, the nearer to 0 the score.
pub proof fn lemma_alternating_score(a: i64, b: i64, pairs: nat, k: u64)
    requires
        pairs > 0,
    ensures
        stability(alternating(a, b, 2 * pairs), k) == (4 * QUAD) / (4 * CUBE + k * ((b - a) * (b
            - a))),
{
    let w = alternating(a, b, 2 * pairs);
    let d = b - a;
    let p = pairs as int;
    lemma_alternating_spread(a, b, pairs);
    assert(d * d >= 0) by (nonlinear_arith);
    let n2 = (w.len() * w.len()) as int;
    assert(n2 == (p * p) * 4) by (nonlinear_arith)
        requires
            n2 == (2 * p) * (2 * p),
    ;
    let top = 4 * QUAD as int;
    let bottom = 4 * CUBE as int + k as int * (d * d);
    assert(k as int * (d * d) >= 0) by (nonlinear_arith)
        requires
            k >= 0,
            d * d >= 0,
    ;
    assert(p * p > 0) by (nonlinear_arith)
        requires
            p > 0,
    ;
    assert(QUAD as int * n2 == (p * p) * top) by (nonlinear_arith)
        requires
            n2 == (p * p) * 4,
            top == 4 * QUAD as int,
    ;
    assert(CUBE as int * n2 + k as int * spread(w) == (p * p) * bottom) by (nonlinear_arith)
        requires
            n2 == (p * p) * 4,
            spread(w) == (p * p) * (d * d),
            bottom == 4 * CUBE as int + k as int * (d * d),
    ;
    vstd::arithmetic::div_mod::lemma_div_multiples_vanish_quotient(p * p, top, bottom);
}

/// Whether some value lies strictly between `lo` and `hi`.
pub open spec fn some_inside(w: Seq<i64>, lo: int, hi: int) -> bool {
    exists|i: int| 0 <= i < w.len() && lo < #[trigger] w[i] < hi
}

/// The distances from `lo` of values between `lo` and `hi`: their
/// squares sum to no more than their sum times the range.
proof fn lemma_offsets_within(w: Seq<i64>, lo: int, hi: int)
    requires
        forall|i: int| 0 <= i < w.len() ==> lo <= #[trigger] w[i] <= hi,
    ensures
        0 <= total_from(w, lo) <= w.len() * (hi - lo),
        0 <= total_sq_from(w, lo) <= (hi - lo) * total_from(w, lo),
        some_inside(w, lo, hi) ==> total_sq_from(w, lo) < (hi - lo) * total_from(w, lo),
    decreases w.len(),
{
    let range = hi - lo;
    if w.len() > 0 {
        let head = w.drop_last();
        assert forall|i: int| 0 <= i < head.len() implies lo <= #[trigger] head[i] <= hi by {
            assert(head[i] == w[i]);
        }
        lemma_offsets_within(head, lo, hi);
        let o = w.last() - lo;
        assert(w.last() == w[w.len() - 1]);
        let sh = total_from(head, lo);
        let qh = total_sq_from(head, lo);
        let m = head.len() as int;
        assert(0 <= o * o <= range * o) by (nonlinear_arith)
            requires
                0 <= o <= range,
        ;
        assert(range * (sh + o) == range * sh + range * o) by (nonlinear_arith);
        assert((m + 1) * range == m * range + range) by (nonlinear_arith);
        if some_inside(w, lo, hi) {
            let i = choose|i: int| 0 <= i < w.len() && lo < #[trigger] w[i] < hi;
            if i < head.len() {
                assert(head[i] == w[i]);
                assert(some_inside(head, lo, hi));
            } else {
                assert(o * o < range * o) by (nonlinear_arith)
                    requires
                        0 < o < range,
                ;
            }
        }
    } else {
        assert(w.len() * (hi - lo) == 0) by (nonlinear_arith)
            requires
                w.len() == 0,
        ;
        assert((hi - lo) * 0 == 0) by (nonlinear_arith);
    }
}

/// Values within a range have at most the variance of values that sit
/// half at each end, a quarter of the squared range; and less than that
/// as soon as one of them lies strictly inside.
pub proof fn lemma_spread_within_range(w: Seq<i64>, lo: int, hi: int)
    requires
        forall|i: int| 0 <= i < w.len() ==> lo <= #[trigger] w[i] <= hi,
    ensures
        4 * spread(w) <= (w.len() * w.len()) * ((hi - lo) * (hi - lo)),
        some_inside(w, lo, hi) ==> 4 * spread(w) < (w.len() * w.len()) * ((hi - lo) * (hi - lo)),
{
    lemma_offsets_within(w, lo, hi);
    lemma_spread_shifted(w, lo);
    let n = w.len() as int;
    let s = total_from(w, lo);
    let q = total_sq_from(w, lo);
    let range = hi - lo;
    assert(4 * (n * q - s * s) <= (n * n) * (range * range)) by (nonlinear_arith)
        requires
            0 <= n,
            q <= range * s,
    {
        assert(n * q <= n * (range * s));
        assert((n * range - 2 * s) * (n * range - 2 * s) >= 0);
        assert((n * n) * (range * range) - 4 * (n * (range * s)) + 4 * (s * s) == (n * range - 2
            * s) * (n * range - 2 * s));
    }
    if some_inside(w, lo, hi) {
        assert(n > 0);
        assert(4 * (n * q - s * s) < (n * n) * (range * range)) by (nonlinear_arith)
            requires
                0 < n,
                q < range * s,
        {
            assert(n * q < n * (range * s));
            assert((n * range - 2 * s) * (n * range - 2 * s) >= 0);
            assert((n * n) * (range * range) - 4 * (n * (range * s)) + 4 * (s * s) == (n * range
                - 2 * s) * (n * range - 2 * s));
        }
    }
}

/// Feeding one value often enough leaves a window of that value alone,
/// which scores 1: after at least [`WINDOW`] observations of `value`,
/// whatever the window held before.
pub proof fn lemma_constant_feed_is_stable(w: Seq<i64>, value: i64, times: nat, k: u64)
    requires
        w.len() <= WINDOW,
        times >= WINDOW,
    ensures
        fed(w, value, times).len() == WINDOW,
        forall|i: int| 0 <= i < WINDOW ==> #[trigger] fed(w, value, times)[i] == value,
        stability(fed(w, value, times), k) == UNIT,
{
    lemma_fed(w, value, times);
    lemma_constant_is_stable(fed(w, value, times), value, k);
}

/// How long the window is after `times` observations, and that its
/// newest `times` values are the one that was fed.
proof fn lemma_fed(w: Seq<i64>, value: i64, times: nat)
    requires
        w.len() <= WINDOW,
    ensures
        fed(w, value, times).len() == if w.len() + times <= WINDOW {
            w.len() + times
        } else {
            WINDOW as nat
        },
        forall|i: int|
            0 <= i < fed(w, value, times).len() && i >= fed(w, value, times).len() - times
                ==> #[trigger] fed(w, value, times)[i] == value,
    decreases times,
{
    if times > 0 {
        lemma_fed(w, value, (times - 1) as nat);
    }
}

/// Rolling-variance estimator over the last [`WINDOW`] values.
pub struct ConfidenceEstimator {
    window: VecDeque<i64>,
    k: u64,
    score: i64,
}

/// The spread of a window, or `None` where two of its values lie so far
/// apart that the score is 0 whatever the positive `k`.
fn measure(window: &VecDeque<i64>) -> (r: Option<u128>)
    requires
        0 < window@.len() <= WINDOW,
    ensures
        match r {
            Some(s) => s == spread(window@),
            None => spread(window@) >= REACH_SQ,
        },
{
    let n = window.len();
    let first = window[0];
    let mut sum: i128 = 0;
    let mut squares: u128 = 0;
    let mut i: usize = 0;
    while i < n
        invariant
            i <= n,
            n == window@.len(),
            n <= WINDOW,
            first == window@[0],
            sum == total_from(window@.take(i as int), first as int),
            squares == total_sq_from(window@.take(i as int), first as int),
            -(i * REACH) <= sum <= i * REACH,
            squares <= i * REACH_SQ,
        decreases n - i,
    {
        let offset: i128 = window[i] as i128 - first as i128;
        if offset >= REACH || offset <= -REACH {
            proof {
                assert(offset * offset >= REACH_SQ) by (nonlinear_arith)
                    requires
                        offset >= 0x4000_0000_0000 || offset <= -0x4000_0000_0000,
                        REACH_SQ == 0x4000_0000_0000 * 0x4000_0000_0000,
                ;
                assert(i > 0);
                lemma_spread_covers_pair(window@, 0, i as int);
                assert((window@[0] - window@[i as int]) * (window@[0] - window@[i as int])
                    == offset * offset) by (nonlinear_arith)
                    requires
                        offset == window@[i as int] - window@[0],
                ;
            }
            return None;
        }
        proof {
            assert(0 <= offset * offset <= REACH_SQ) by (nonlinear_arith)
                requires
                    -0x4000_0000_0000 < offset < 0x4000_0000_0000,
                    REACH_SQ == 0x4000_0000_0000 * 0x4000_0000_0000,
            ;
            assert(window@.take(i + 1).drop_last() =~= window@.take(i as int));
            assert(window@.take(i + 1).last() == window@[i as int]);
        }
        sum = sum + offset;
        squares = squares + (offset * offset) as u128;
        i += 1;
    }
    proof {
        assert(window@.take(n as int) =~= window@);
        lemma_spread_shifted(window@, first as int);
        lemma_spread_nonnegative(window@);
        assert(sum * sum <= (n * REACH) * (n * REACH)) by (nonlinear_arith)
            requires
                -(n * REACH) <= sum <= n * REACH,
        ;
        assert(n * squares <= n * (n * REACH_SQ)) by (nonlinear_arith)
            requires
                squares <= n * REACH_SQ,
                n >= 0,
        ;
        assert((n * REACH) * (n * REACH) <= 0x1000 * 0x1000_0000_0000_0000_0000_0000
            && n * (n * REACH_SQ) <= 0x1000 * 0x1000_0000_0000_0000_0000_0000)
            by (nonlinear_arith)
            requires
                0 <= n <= 64,
                REACH == 0x4000_0000_0000,
                REACH_SQ == 0x1000_0000_0000_0000_0000_0000,
        ;
    }
    proof {
        assert(0 <= sum * sum) by (nonlinear_arith);
        assert(sum * sum <= 0x1000 * 0x1000_0000_0000_0000_0000_0000);
        assert(n * squares <= 0x1000 * 0x1000_0000_0000_0000_0000_0000);
        assert(spread(window@) == n * squares - sum * sum);
    }
    let whole: u128 = n as u128 * squares;
    let square: u128 = (sum * sum) as u128;
    Some(whole - square)
}

/// The score of a window that holds at least one value.
fn score_of(window: &VecDeque<i64>, k: u64) -> (score: i64)
    requires
        0 < window@.len() <= WINDOW,
    ensures
        score == stability(window@, k),
{
    let n = window.len() as u128;
    proof {
        assert(1 <= n * n <= 4096) by (nonlinear_arith)
            requires
                1 <= n <= 64,
        ;
        lemma_spread_nonnegative(window@);
    }
    let n2: u128 = n * n;
    let num: u128 = QUAD * n2;
    let base: u128 = CUBE * n2;
    let ghost s = spread(window@);
    if k == 0 {
        proof {
            assert(k as int * s == 0) by (nonlinear_arith)
                requires
                    k == 0,
            ;
            assert((1_000_000_000_000_000_000_000_000 * n2) / (1_000_000_000_000_000_000 * n2)
                == 1_000_000) by (nonlinear_arith)
                requires
                    n2 >= 1,
            ;
        }
        return UNIT;
    }
    match measure(window) {
        None => {
            proof {
                assert(k as int * s >= s) by (nonlinear_arith)
                    requires
                        k >= 1,
                        s >= 0,
                ;
                lemma_small_quotient(num as int, base as int + k as int * s);
            }
            0
        },
        Some(found) => {
            if found > num / (k as u128) {
                proof {
                    assert(k as int * s > num) by (nonlinear_arith)
                        requires
                            k >= 1,
                            s > num as int / k as int,
                            num >= 0,
                    ;
                    lemma_small_quotient(num as int, base as int + k as int * s);
                }
                0
            } else {
                proof {
                    assert(k as int * s <= num) by (nonlinear_arith)
                        requires
                            k >= 1,
                            0 <= s <= num as int / k as int,
                            num >= 0,
                    ;
                    assert(0 <= num as int / (base as int + k as int * s) <= 1_000_000)
                        by (nonlinear_arith)
                        requires
                            num == 1_000_000_000_000_000_000_000_000 * n2,
                            base == 1_000_000_000_000_000_000 * n2,
                            k as int * s >= 0,
                            n2 >= 1,
                    ;
                }
                let den: u128 = base + k as u128 * found;
                (num / den) as i64
            }
        },
    }
}

/// A quotient below 1 rounds down to 0.
proof fn lemma_small_quotient(num: int, den: int)
    requires
        0 <= num < den,
    ensures
        num / den == 0,
{
    assert(num / den == 0) by (nonlinear_arith)
        requires
            0 <= num < den,
    ;
}

impl ConfidenceEstimator {
    /// The values in the window, oldest first.
    pub closed spec fn window(&self) -> Seq<i64> {
        self.window@
    }

    /// The factor `k` of the score, in millionths.
    pub closed spec fn stiffness(&self) -> u64 {
        self.k
    }

    /// The score that `confidence` reports.
    pub closed spec fn current(&self) -> i64 {
        self.score
    }

    /// An estimator with an empty window. Until the first observation it
    /// reports `initial`.
    pub fn new(k: u64, initial: i64) -> (estimator: ConfidenceEstimator)
        ensures
            estimator.window() == Seq::<i64>::empty(),
            estimator.stiffness() == k,
            estimator.current() == initial,
    {
        ConfidenceEstimator { window: VecDeque::with_capacity(WINDOW), k, score: initial }
    }

    /// Takes one smoothed value into the window and returns the score of
    /// the window as it then stands.
    pub fn observe(&mut self, value: i64) -> (score: i64)
        ensures
            final(self).window() == pushed(old(self).window(), value),
            0 < final(self).window().len() <= WINDOW,
            score == stability(final(self).window(), old(self).stiffness()),
            0 <= score <= UNIT,
            final(self).current() == score,
            final(self).stiffness() == old(self).stiffness(),
    {
        let ghost before = self.window@;
        while self.window.len() >= WINDOW
            invariant
                self.window@.len() <= before.len(),
                self.window@ == before.skip(before.len() - self.window@.len()),
                self.k == old(self).k,
                before.len() < WINDOW ==> self.window@ == before,
                before.len() >= WINDOW ==> self.window@.len() >= WINDOW - 1,
            decreases self.window@.len(),
        {
            self.window.pop_front();
            assert(self.window@ =~= before.skip(before.len() - self.window@.len()));
        }
        self.window.push_back(value);
        let score = score_of(&self.window, self.k);
        proof {
            lemma_stability_in_unit_interval(self.window@, self.k);
        }
        self.score = score;
        score
    }

    /// The score of the last observation.
    pub fn confidence(&self) -> (score: i64)
        ensures
            score == self.current(),
    {
        self.score
    }
}

} // verus!
