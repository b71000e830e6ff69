//! The hinge sensor behind HID feature reports: which devices to try, how
//! a report is read, and how a report number is chosen when none is known.

use vstd::prelude::*;
use crate::confidence::{lemma_spread_nonnegative, spread, total, total_sq};
use crate::units::UNIT;

verus! {

/// The usage page of sensors.
pub const SENSOR_PAGE: u16 = 0x20;

/// The usage of an orientation sensor.
pub const ORIENTATION_USAGE: u16 = 0x8A;

/// Apple's vendor number.
pub const APPLE_VENDOR: u16 = 0x05AC;

/// The product number under which the hinge sensor is commonly seen.
pub const HINGE_PRODUCT: u16 = 0x8104;

/// The largest angle that a hinge reports, in degrees.
pub const MAX_ANGLE: u16 = 180;

/// The least range of angles that shows movement, in degrees.
pub const MIN_RANGE: u16 = 10;

/// The most samples that one score is computed from.
pub const MAX_SAMPLES: usize = 65_536;

/// What a device says of itself.
#[derive(Clone, Copy, Debug, PartialEq, Eq, Structural)]
pub struct HidDescriptor {
    pub vendor_id: u16,
    pub product_id: u16,
    pub usage_page: u16,
    pub usage: u16,
}

/// The three rounds of the search, from the surest sign to the weakest.
#[derive(Clone, Copy, Debug, PartialEq, Eq, Structural)]
pub enum Round {
    /// The device declares itself an orientation sensor.
    Orientation,
    /// The device has the vendor and product number of the hinge sensor.
    KnownHinge,
    /// The device is Apple's; it counts only if it answers.
    AnyApple,
}

/// One device to try.
#[derive(Clone, Copy, Debug, PartialEq, Eq, Structural)]
pub struct Visit {
    /// Its place in the list of devices.
    pub device: usize,
    /// Whether it has to answer a feature report before it is taken.
    pub probe: bool,
}

/// Whether a device is tried in a round.
pub open spec fn fits(d: HidDescriptor, round: Round) -> bool {
    match round {
        Round::Orientation => d.usage_page == SENSOR_PAGE && d.usage == ORIENTATION_USAGE,
        Round::KnownHinge => d.vendor_id == APPLE_VENDOR && d.product_id == HINGE_PRODUCT,
        Round::AnyApple => d.vendor_id == APPLE_VENDOR,
    }
}

/// The visits of one round among the first `n` devices, in list order.
pub open spec fn round_visits(devices: Seq<HidDescriptor>, round: Round, n: nat) -> Seq<Visit>
    decreases n,
{
    if n == 0 {
        Seq::empty()
    } else {
        let earlier = round_visits(devices, round, (n - 1) as nat);
        if fits(devices[n - 1], round) {
            earlier.push(Visit { device: (n - 1) as usize, probe: round == Round::AnyApple })
        } else {
            earlier
        }
    }
}

/// The order in which devices are tried: the three rounds one after the
/// other. A device that fits several rounds is tried in each.
pub open spec fn search_plan(devices: Seq<HidDescriptor>) -> Seq<Visit> {
    round_visits(devices, Round::Orientation, devices.len()) + round_visits(
        devices,
        Round::KnownHinge,
        devices.len(),
    ) + round_visits(devices, Round::AnyApple, devices.len())
}

fn device_fits(d: &HidDescriptor, round: Round) -> (yes: bool)
    ensures
        yes == fits(*d, round),
{
    match round {
        Round::Orientation => d.usage_page == SENSOR_PAGE && d.usage == ORIENTATION_USAGE,
        Round::KnownHinge => d.vendor_id == APPLE_VENDOR && d.product_id == HINGE_PRODUCT,
        Round::AnyApple => d.vendor_id == APPLE_VENDOR,
    }
}

fn add_round(devices: &Vec<HidDescriptor>, round: Round, plan: &mut Vec<Visit>)
    ensures
        final(plan)@ == old(plan)@ + round_visits(devices@, round, devices@.len()),
{
    let ghost before = plan@;
    let mut i: usize = 0;
    assert(plan@ =~= before + round_visits(devices@, round, 0));
    while i < devices.len()
        invariant
            i <= devices.len(),
            plan@ == before + round_visits(devices@, round, i as nat),
        decreases devices.len() - i,
    {
        if device_fits(&devices[i], round) {
            plan.push(Visit { device: i, probe: round == Round::AnyApple });
        }
        i += 1;
        assert(plan@ =~= before + round_visits(devices@, round, i as nat));
    }
}

/// Lays out the search for the hinge sensor among `devices`. The caller
/// opens the devices in this order and keeps the first that opens and,
/// where the visit says so, answers a feature report.
pub fn plan_search(devices: &Vec<HidDescriptor>) -> (plan: Vec<Visit>)
    ensures
        plan@ == search_plan(devices@),
{
    let mut plan: Vec<Visit> = Vec::new();
    add_round(devices, Round::Orientation, &mut plan);
    add_round(devices, Round::KnownHinge, &mut plan);
    add_round(devices, Round::AnyApple, &mut plan);
    assert(plan@ =~= search_plan(devices@));
    plan
}

/// The angle in a feature report, in millionths of a degree: the two
/// bytes after the report number, the low one first, count degrees.
pub fn decode_report(report: [u8; 3]) -> (angle: i64)
    ensures
        angle == (report[1] + 256 * report[2]) * UNIT,
{
    let low = report[1] as i64;
    let high = report[2] as i64;
    (low + 256 * high) * UNIT
}

/// The degrees in a feature report.
pub fn report_degrees(report: [u8; 3]) -> (degrees: u16)
    ensures
        degrees == report[1] + 256 * report[2],
{
    report[1] as u16 + 256 * (report[2] as u16)
}

/// The smallest of the samples.
pub open spec fn lowest(s: Seq<u16>) -> int
    decreases s.len(),
{
    if s.len() == 0 {
        0
    } else if s.len() == 1 {
        s[0] as int
    } else if s.last() < lowest(s.drop_last()) {
        s.last() as int
    } else {
        lowest(s.drop_last())
    }
}

/// The largest of the samples.
pub open spec fn highest(s: Seq<u16>) -> int
    decreases s.len(),
{
    if s.len() == 0 {
        0
    } else if s.len() == 1 {
        s[0] as int
    } else if s.last() > highest(s.drop_last()) {
        s.last() as int
    } else {
        highest(s.drop_last())
    }
}

/// The samples as values.
pub open spec fn values(s: Seq<u16>) -> Seq<i64> {
    s.map_values(|v: u16| v as i64)
}

/// Whether samples can be those of a hinge that was moved: there are
/// some, none is above 180 degrees, and they span at least 10.
pub open spec fn usable(s: Seq<u16>) -> bool {
    s.len() > 0 && highest(s) <= MAX_ANGLE && highest(s) - lowest(s) >= MIN_RANGE
}

/// What the samples of one report number show.
#[derive(Clone, Copy, Debug)]
pub struct Score {
    range: u16,
    spread: u128,
    count: usize,
}

impl Score {
    #[verifier::type_invariant]
    spec fn bounded(&self) -> bool {
        0 < self.count <= MAX_SAMPLES && self.spread <= 0x1_0000_0000_0000_0000
    }

    /// The distance from the smallest to the largest sample.
    pub closed spec fn span(&self) -> int {
        self.range as int
    }

    /// The variance of the samples, times the square of their number.
    pub closed spec fn mass(&self) -> int {
        self.spread as int
    }

    /// The number of samples.
    pub closed spec fn size(&self) -> int {
        self.count as int
    }

    /// Whether the variance of `self` is above that of `other`: the
    /// variances are `mass / size^2`, compared exactly.
    pub open spec fn exceeds(&self, other: &Score) -> bool {
        self.mass() * (other.size() * other.size()) > other.mass() * (self.size() * self.size())
    }

    /// The distance from the smallest to the largest sample, in degrees.
    pub fn range(&self) -> (range: u16)
        ensures
            range == self.span(),
    {
        self.range
    }

    /// Whether the samples of `self` vary more than those of `other`.
    pub fn varies_more_than(&self, other: &Score) -> (more: bool)
        ensures
            more == self.exceeds(other),
    {
        proof {
            use_type_invariant(self);
            use_type_invariant(other);
        }
        let mine = self.count as u128;
        let theirs = other.count as u128;
        assert(mine * mine <= 0x1_0000_0000 && theirs * theirs <= 0x1_0000_0000)
            by (nonlinear_arith)
            requires
                mine <= 65_536,
                theirs <= 65_536,
        ;
        let mine_sq: u128 = mine * mine;
        let theirs_sq: u128 = theirs * theirs;
        assert(self.spread * theirs_sq <= 0x1_0000_0000_0000_0000 * 0x1_0000_0000
            && other.spread * mine_sq <= 0x1_0000_0000_0000_0000 * 0x1_0000_0000)
            by (nonlinear_arith)
            requires
                self.spread <= 0x1_0000_0000_0000_0000,
                other.spread <= 0x1_0000_0000_0000_0000,
                theirs_sq <= 0x1_0000_0000,
                mine_sq <= 0x1_0000_0000,
        ;
        self.spread * theirs_sq > other.spread * mine_sq
    }
}

/// One more sample adds itself to the sum and its square to the squares.
proof fn lemma_values_step(s: Seq<u16>, i: int)
    requires
        0 <= i < s.len(),
    ensures
        values(s).take(i + 1).drop_last() == values(s).take(i),
        values(s).take(i + 1).last() == s[i] as i64,
        total(values(s).take(i + 1)) == total(values(s).take(i)) + s[i],
        total_sq(values(s).take(i + 1)) == total_sq(values(s).take(i)) + s[i] * s[i],
{
    assert(values(s).take(i + 1).drop_last() =~= values(s).take(i));
}

/// One more sample moves the extremes only if it lies outside them.
proof fn lemma_extremes_step(s: Seq<u16>, i: int)
    requires
        0 < i < s.len(),
    ensures
        lowest(s.take(i + 1)) == if s[i] < lowest(s.take(i)) {
            s[i] as int
        } else {
            lowest(s.take(i))
        },
        highest(s.take(i + 1)) == if s[i] > highest(s.take(i)) {
            s[i] as int
        } else {
            highest(s.take(i))
        },
{
    assert(s.take(i + 1).drop_last() =~= s.take(i));
}

/// Scores the samples of one report number. There is no score where the
/// samples cannot be those of a hinge that was moved.
pub fn score(samples: &Vec<u16>) -> (r: Option<Score>)
    requires
        samples@.len() <= MAX_SAMPLES,
    ensures
        r is Some <==> usable(samples@),
        r matches Some(s) ==> {
            &&& s.span() == highest(samples@) - lowest(samples@)
            &&& s.mass() == spread(values(samples@))
            &&& s.size() == samples@.len()
        },
{
    let n = samples.len();
    if n == 0 {
        return None;
    }
    let first = samples[0] as u128;
    assert(first * first <= 4_294_836_225) by (nonlinear_arith)
        requires
            0 <= first <= 0xFFFF,
    ;
    let mut low: u16 = samples[0];
    let mut high: u16 = samples[0];
    let mut sum: u128 = first;
    let mut squares: u128 = first * first;
    let mut i: usize = 1;
    proof {
        assert(samples@.take(1).len() == 1);
        assert(values(samples@).take(0) =~= Seq::<i64>::empty());
        lemma_values_step(samples@, 0);
    }
    while i < n
        invariant
            1 <= i <= n,
            n == samples@.len(),
            n <= MAX_SAMPLES,
            low == lowest(samples@.take(i as int)),
            high == highest(samples@.take(i as int)),
            sum == total(values(samples@).take(i as int)),
            squares == total_sq(values(samples@).take(i as int)),
            sum <= i * 0xFFFF,
            squares <= i * 4_294_836_225,
        decreases n - i,
    {
        let v = samples[i];
        let wide = v as u128;
        assert(wide * wide <= 4_294_836_225) by (nonlinear_arith)
            requires
                0 <= wide <= 0xFFFF,
        ;
        proof {
            lemma_values_step(samples@, i as int);
            lemma_extremes_step(samples@, i as int);
        }
        if v < low {
            low = v;
        }
        if v > high {
            high = v;
        }
        sum = sum + wide;
        squares = squares + wide * wide;
        i += 1;
    }
    proof {
        assert(samples@.take(n as int) =~= samples@);
        assert(values(samples@).take(n as int) =~= values(samples@));
        lemma_extremes_ordered(samples@);
    }
    if high > MAX_ANGLE || high - low < MIN_RANGE {
        return None;
    }
    proof {
        lemma_spread_nonnegative(values(samples@));
        assert(n * squares <= 65_536 * (65_536 * 4_294_836_225)) by (nonlinear_arith)
            requires
                squares <= n * 4_294_836_225,
                0 <= n <= 65_536,
        ;
        assert(sum * sum <= (65_536 * 0xFFFF) * (65_536 * 0xFFFF)) by (nonlinear_arith)
            requires
                0 <= sum <= n * 0xFFFF,
                0 <= n <= 65_536,
        ;
        assert(values(samples@).len() == n);
    }
    let whole: u128 = n as u128 * squares;
    let square: u128 = sum * sum;
    Some(Score { range: high - low, spread: whole - square, count: n })
}

/// The smallest sample is not above the largest.
proof fn lemma_extremes_ordered(s: Seq<u16>)
    requires
        s.len() > 0,
    ensures
        lowest(s) <= highest(s),
    decreases s.len(),
{
    if s.len() > 1 {
        lemma_extremes_ordered(s.drop_last());
    }
}

/// The report number that is kept so far, with its score.
#[derive(Clone, Copy, Debug)]
pub struct Best {
    pub id: u8,
    pub score: Score,
}

/// Weighs the samples of report number `id` against the best so far. A
/// number without a score never wins; one with a score wins where nothing
/// was kept yet or its samples vary more than those kept. On a tie the
/// earlier number stays.
pub fn consider(best: Option<Best>, id: u8, found: Option<Score>) -> (kept: Option<Best>)
    ensures
        kept == match (best, found) {
            (None, Some(s)) => Some(Best { id, score: s }),
            (Some(b), Some(s)) => if s.exceeds(&b.score) {
                Some(Best { id, score: s })
            } else {
                best
            },
            (_, None) => best,
        },
{
    match found {
        None => best,
        Some(s) => match best {
            None => Some(Best { id, score: s }),
            Some(b) => if s.varies_more_than(&b.score) {
                Some(Best { id, score: s })
            } else {
                best
            },
        },
    }
}

/// The report number to read from, once every candidate was weighed: the
/// best one, or number 1 where none had a score.
pub fn chosen_report(best: Option<Best>) -> (id: u8)
    ensures
        id == match best {
            Some(b) => b.id,
            None => 1u8,
        },
{
    match best {
        Some(b) => b.id,
        None => 1,
    }
}

} // verus!
