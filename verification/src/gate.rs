//! The liveness gate: whether the latest sample is shown, decided with
//! hysteresis over the confidence score.

use vstd::prelude::*;
use crate::device::AngleDevice;
use crate::hub::AngleStream;
use crate::types::{AngleSample, DeviceInfo};
use crate::units::{clamp, UNIT};

verus! {

/// How far below the threshold the score has to fall before a live gate
/// closes: 0.05.
pub const HYSTERESIS: i64 = 50_000;

/// The score below which a live gate goes dormant.
pub open spec fn drop_threshold(min: i64) -> i64 {
    clamp(min - HYSTERESIS, 0, UNIT as int) as i64
}

/// The state after one reading of the score: a dormant gate goes live at
/// `min` or above, a live one goes dormant below `drop`.
pub open spec fn next_live(live: bool, confidence: i64, min: i64, drop: i64) -> bool {
    if !live && confidence >= min {
        true
    } else if live && confidence < drop {
        false
    } else {
        live
    }
}

/// The band lies at or below the threshold: for a threshold that is not
/// negative, the score that closes the liveness gate is between 0 and the threshold.
pub proof fn lemma_band_below_threshold(min: i64)
    requires
        min >= 0,
    ensures
        0 <= drop_threshold(min) <= min,
        drop_threshold(min) <= UNIT,
{
}

/// No flapping: a second reading of the same score leaves the state where
/// the first one put it.
pub proof fn lemma_same_score_settles(live: bool, confidence: i64, min: i64)
    requires
        min >= 0,
    ensures
        next_live(
            next_live(live, confidence, min, drop_threshold(min)),
            confidence,
            min,
            drop_threshold(min),
        ) == next_live(live, confidence, min, drop_threshold(min)),
{
}

/// Inside the band nothing moves: a score from the closing score up to,
/// but not including, the threshold leaves the state as it is.
pub proof fn lemma_band_holds_state(live: bool, confidence: i64, min: i64)
    requires
        drop_threshold(min) <= confidence < min,
    ensures
        next_live(live, confidence, min, drop_threshold(min)) == live,
{
}

/// The two scores of a liveness gate: the threshold, which is not
/// negative, and the closing score that follows from it.
struct Band {
    min: i64,
    drop: i64,
}

impl Band {
    #[verifier::type_invariant]
    spec fn ordered(&self) -> bool {
        0 <= self.min && self.drop == drop_threshold(self.min)
    }
}

/// A device behind a liveness gate, which starts dormant.
pub struct Gated<D: AngleDevice> {
    inner: D,
    live: bool,
    band: Band,
}

impl<D: AngleDevice> Gated<D> {
    /// Whether the liveness gate is live.
    pub closed spec fn is_live(&self) -> bool {
        self.live
    }

    /// The score at which the liveness gate goes live.
    pub closed spec fn threshold(&self) -> i64 {
        self.band.min
    }

    /// The score below which the liveness gate goes dormant.
    pub closed spec fn floor(&self) -> i64 {
        self.band.drop
    }

    /// The device behind the liveness gate.
    pub closed spec fn device(&self) -> D {
        self.inner
    }

    /// Puts `inner` behind a dormant gate that goes live at `min`, a
    /// score that is not negative.
    pub fn wrap(inner: D, min: i64) -> (gated: Gated<D>)
        requires
            0 <= min,
        ensures
            !gated.is_live(),
            gated.threshold() == min,
            gated.floor() == drop_threshold(min),
            gated.device() == inner,
    {
        let drop = if min <= HYSTERESIS {
            0
        } else if min - HYSTERESIS > UNIT {
            UNIT
        } else {
            min - HYSTERESIS
        };
        Gated { inner, live: false, band: Band { min, drop } }
    }

    /// Whether the liveness gate is live.
    pub fn live(&self) -> (live: bool)
        ensures
            live == self.is_live(),
    {
        self.live
    }

    /// Moves the liveness gate by one reading of the score and returns
    /// its state.
    pub fn observe(&mut self, confidence: i64) -> (live: bool)
        ensures
            live == next_live(
                old(self).is_live(),
                confidence,
                old(self).threshold(),
                old(self).floor(),
            ),
            final(self).is_live() == live,
            final(self).threshold() == old(self).threshold(),
            final(self).floor() == old(self).floor(),
            final(self).device() == old(self).device(),
    {
        if !self.live && confidence >= self.band.min {
            self.live = true;
        } else if self.live && confidence < self.band.drop {
            self.live = false;
        }
        self.live
    }

    /// Reads the device's score and moves the liveness gate by it.
    pub fn bump(&mut self)
        ensures
            final(self).is_live() == next_live(
                old(self).is_live(),
                old(self).device().reading(),
                old(self).threshold(),
                old(self).floor(),
            ),
            final(self).threshold() == old(self).threshold(),
            final(self).floor() == old(self).floor(),
            final(self).device() == old(self).device(),
    {
        let confidence = self.inner.confidence();
        self.observe(confidence);
    }

    /// The device behind the liveness gate, for its producer.
    pub fn inner_mut(&mut self) -> (inner: &mut D)
        ensures
            *inner == old(self).device(),
            final(self).device() == *final(inner),
            final(self).is_live() == old(self).is_live(),
            final(self).threshold() == old(self).threshold(),
            final(self).floor() == old(self).floor(),
    {
        &mut self.inner
    }
}

impl<D: AngleDevice> AngleDevice for Gated<D> {
    open spec fn reading(&self) -> i64 {
        self.device().reading()
    }

    open spec fn visible(&self) -> Option<AngleSample> {
        if next_live(self.is_live(), self.device().reading(), self.threshold(), self.floor()) {
            self.device().visible()
        } else {
            None
        }
    }

    open spec fn metadata(&self) -> DeviceInfo {
        self.device().metadata()
    }

    open spec fn smoothing(&self) -> i64 {
        self.device().smoothing()
    }

    open spec fn issued(&self) -> nat {
        self.device().issued()
    }

    /// Moves the liveness gate by the device's score, once, then hands
    /// out the device's sample if it is live and nothing if it is
    /// dormant. A dormant gate does not ask the device. Either way the
    /// device's latest sample, score and count stay as they are, so a
    /// second poll at the same score finds the same.
    fn latest(&mut self) -> (sample: Option<AngleSample>)
        ensures
            final(self).is_live() == next_live(
                old(self).is_live(),
                old(self).device().reading(),
                old(self).threshold(),
                old(self).floor(),
            ),
            sample == if final(self).is_live() {
                old(self).device().visible()
            } else {
                None
            },
            !final(self).is_live() ==> final(self).device() == old(self).device(),
            final(self).device().visible() == old(self).device().visible(),
            final(self).device().reading() == old(self).device().reading(),
            final(self).device().issued() == old(self).device().issued(),
            final(self).threshold() == old(self).threshold(),
            final(self).floor() == old(self).floor(),
    {
        proof {
            use_type_invariant(&self.band);
        }
        self.bump();
        if self.live {
            self.inner.latest()
        } else {
            None
        }
    }

    /// The device's own stream: it begins where the device's publications
    /// stand, live or dormant. The liveness gate does not filter it.
    fn subscribe(&self) -> (stream: AngleStream)
        ensures
            stream.position() == self.device().issued(),
    {
        self.inner.subscribe()
    }

    fn set_smoothing(&mut self, alpha: i64)
        ensures
            final(self).is_live() == old(self).is_live(),
            final(self).threshold() == old(self).threshold(),
            final(self).floor() == old(self).floor(),
    {
        self.inner.set_smoothing(alpha)
    }

    fn confidence(&self) -> (score: i64) {
        self.inner.confidence()
    }

    fn info(&self) -> (info: DeviceInfo) {
        self.inner.info()
    }
}

} // verus!
