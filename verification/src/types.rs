//! The data model: source tags, samples, device metadata and errors.

use vstd::prelude::*;

verus! {

/// Where a sample comes from, and with it the unit of its value: the hinge
/// and tilt sources report degrees, the ambient-light sources a normalized
/// value between 0 and 1.
#[derive(Clone, Copy, Debug, PartialEq, Eq, Hash, Structural)]
pub enum Source {
    HingeFeature,
    HingeHid,
    HingeIOKit,
    ALS,
    WinHinge,
    WinTilt,
    WinALS,
    LinuxTilt,
    LinuxALS,
    Mock,
}

/// One conditioned reading.
#[derive(Clone, Copy, Debug, PartialEq, Eq, Structural)]
pub struct AngleSample {
    /// The smoothed value in millionths of the source's unit.
    pub angle_micro: i64,
    /// Reading of the producer's monotonic clock, in nanoseconds.
    pub timestamp: u64,
    pub source: Source,
}

/// Static metadata of a selected device.
#[derive(Clone, Copy, Debug)]
pub struct DeviceInfo {
    pub source: Source,
    pub note: &'static str,
}

/// What arbitration and validation fail with.
#[derive(Debug)]
pub enum Error {
    /// A backend could not be used at all.
    Backend(String),
    /// The configuration was rejected.
    Other(String),
    /// Every candidate was walked and none came up. A synthetic source
    /// that was not allowed is not among the tried.
    NoBackend { tried: Vec<Source> },
}

} // verus!
