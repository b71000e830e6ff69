//! A device: one raw source's values, conditioned and handed out.

use vstd::prelude::*;
use crate::confidence::{pushed, stability, ConfidenceEstimator};
use crate::filter::{smoothed, SmoothingFilter};
use crate::hub::{last_of, AngleStream, SampleHub};
use crate::types::{AngleSample, DeviceInfo, Source};
use crate::units::UNIT;

verus! {

/// What every device offers its caller. The five spec functions say what
/// a device would report; an implementation that does not define them has
/// nothing proved of it.
pub trait AngleDevice {
    /// The score that `confidence` reports.
    open spec fn reading(&self) -> i64 {
        0
    }

    /// The sample that `latest` hands out.
    open spec fn visible(&self) -> Option<AngleSample> {
        None
    }

    /// The metadata that `info` reports.
    open spec fn metadata(&self) -> DeviceInfo {
        DeviceInfo { source: Source::Mock, note: "" }
    }

    /// The smoothing factor as it was set.
    open spec fn smoothing(&self) -> i64 {
        0
    }

    /// How many samples the device has published.
    open spec fn issued(&self) -> nat {
        0
    }

    /// The current sample, if the device hands one out at this moment.
    /// Asking changes nothing that the device reports: a second call finds
    /// the same sample.
    fn latest(&mut self) -> (sample: Option<AngleSample>)
        ensures
            sample == old(self).visible(),
            final(self).visible() == old(self).visible(),
            final(self).reading() == old(self).reading(),
            final(self).metadata() == old(self).metadata(),
            final(self).smoothing() == old(self).smoothing(),
            final(self).issued() == old(self).issued(),
    ;

    /// A stream of the samples published from now on: it begins behind
    /// every sample that the device has published.
    fn subscribe(&self) -> (stream: AngleStream)
        ensures
            stream.position() == self.issued(),
    ;

    /// Sets the smoothing factor, in millionths. What the device reports
    /// at this moment stays.
    fn set_smoothing(&mut self, alpha: i64)
        ensures
            final(self).smoothing() == alpha,
            final(self).reading() == old(self).reading(),
            final(self).visible() == old(self).visible(),
            final(self).metadata() == old(self).metadata(),
            final(self).issued() == old(self).issued(),
    ;

    /// The stability score, in millionths.
    fn confidence(&self) -> (score: i64)
        ensures
            score == self.reading(),
    ;

    /// The device's metadata.
    fn info(&self) -> (info: DeviceInfo)
        ensures
            info == self.metadata(),
    ;
}

/// The smoothing factor that a device starts with: a quarter.
pub const DEFAULT_ALPHA: i64 = 250_000;

/// The signal path of one raw source: filter, estimator and hub.
pub struct Pipeline {
    filter: SmoothingFilter,
    estimator: ConfidenceEstimator,
    hub: SampleHub,
    info: DeviceInfo,
}

impl Pipeline {
    /// The smoothing factor as it was set.
    pub closed spec fn alpha(&self) -> i64 {
        self.filter.factor()
    }

    /// The running estimate of the filter.
    pub closed spec fn estimate(&self) -> Option<i64> {
        self.filter.state()
    }

    /// The estimator's window.
    pub closed spec fn window(&self) -> Seq<i64> {
        self.estimator.window()
    }

    /// The estimator's factor.
    pub closed spec fn stiffness(&self) -> u64 {
        self.estimator.stiffness()
    }

    /// The reported score.
    pub closed spec fn score(&self) -> i64 {
        self.estimator.current()
    }

    /// Every sample that was published, in order.
    pub closed spec fn published(&self) -> Seq<AngleSample> {
        self.hub.published()
    }

    /// The latest published sample.
    pub open spec fn current(&self) -> Option<AngleSample> {
        last_of(self.published())
    }

    /// The metadata.
    pub closed spec fn details(&self) -> DeviceInfo {
        self.info
    }

    /// A path on which nothing has been seen. It reports the score
    /// `initial` until its first value; `k` is the factor of its score.
    pub fn new(info: DeviceInfo, k: u64, initial: i64) -> (path: Pipeline)
        ensures
            path.details() == info,
            path.alpha() == DEFAULT_ALPHA,
            path.estimate() is None,
            path.window() == Seq::<i64>::empty(),
            path.stiffness() == k,
            path.score() == initial,
            path.published() == Seq::<AngleSample>::empty(),
    {
        Pipeline {
            filter: SmoothingFilter::new(DEFAULT_ALPHA),
            estimator: ConfidenceEstimator::new(k, initial),
            hub: SampleHub::new(),
            info,
        }
    }

    /// Takes one raw value read at `timestamp`: smooths it, scores the
    /// window with the smoothed value in it, and publishes the sample.
    pub fn ingest(&mut self, raw: i64, timestamp: u64) -> (sample: AngleSample)
        ensures
            sample.angle_micro == smoothed(old(self).estimate(), raw, old(self).alpha()),
            sample.timestamp == timestamp,
            sample.source == old(self).details().source,
            final(self).estimate() == Some(sample.angle_micro),
            final(self).window() == pushed(old(self).window(), sample.angle_micro),
            final(self).score() == stability(final(self).window(), old(self).stiffness()),
            0 <= final(self).score() <= UNIT,
            final(self).published() == old(self).published().push(sample),
            final(self).alpha() == old(self).alpha(),
            final(self).stiffness() == old(self).stiffness(),
            final(self).details() == old(self).details(),
    {
        let value = self.filter.update(raw);
        self.estimator.observe(value);
        let sample = AngleSample { angle_micro: value, timestamp, source: self.info.source };
        self.hub.publish(sample);
        sample
    }
}

impl AngleDevice for Pipeline {
    open spec fn reading(&self) -> i64 {
        self.score()
    }

    open spec fn visible(&self) -> Option<AngleSample> {
        self.current()
    }

    open spec fn metadata(&self) -> DeviceInfo {
        self.details()
    }

    open spec fn smoothing(&self) -> i64 {
        self.alpha()
    }

    open spec fn issued(&self) -> nat {
        self.published().len()
    }

    /// The latest published sample.
    fn latest(&mut self) -> (sample: Option<AngleSample>)
        ensures
            sample == old(self).current(),
            *final(self) == *old(self),
    {
        self.hub.latest()
    }

    /// A subscription to the path's hub. It begins behind everything that
    /// the path has published.
    fn subscribe(&self) -> (stream: AngleStream)
        ensures
            stream.position() == self.published().len(),
    {
        self.hub.subscribe()
    }

    /// Sets the factor that the next value is smoothed with.
    fn set_smoothing(&mut self, alpha: i64)
        ensures
            final(self).alpha() == alpha,
            final(self).estimate() == old(self).estimate(),
            final(self).window() == old(self).window(),
            final(self).stiffness() == old(self).stiffness(),
            final(self).score() == old(self).score(),
            final(self).published() == old(self).published(),
            final(self).details() == old(self).details(),
    {
        self.filter.set_alpha(alpha);
    }

    fn confidence(&self) -> (score: i64)
        ensures
            score == self.score(),
    {
        self.estimator.confidence()
    }

    fn info(&self) -> (info: DeviceInfo)
        ensures
            info == self.details(),
    {
        self.info
    }
}


} // verus!
