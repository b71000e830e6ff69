//! What a backend does to a raw reading before it is smoothed: the hinge
//! sensor of Windows drops readings that cannot be angles, the tilt
//! sensors limit theirs to half a turn either way, and the ambient-light
//! sensors turn lux into a value between 0 and 1 around a slow baseline.

use vstd::prelude::*;
use crate::backend::Backend;
use crate::confidence::{pushed, stability};
use crate::device::Pipeline;
use crate::filter::{blend, lemma_step_between, smoothed, step_toward};
use crate::types::AngleSample;
use crate::units::{clamp, UNIT};

verus! {

/// The factor with which the baseline follows the light: 0.005.
pub const BASELINE_ALPHA: i64 = 5_000;

/// The value that a reading on the baseline maps to: one half.
pub const HALF: i64 = 500_000;

/// The lowest reading that the hinge sensor of Windows lets through.
pub const HINGE_MIN: i64 = -5_000_000;

/// The highest reading that the hinge sensor of Windows lets through.
pub const HINGE_MAX: i64 = 365_000_000;

/// Half a turn, in millionths of a degree.
pub const HALF_TURN: i64 = 180_000_000;

/// Whether a backend reads ambient light.
pub open spec fn is_ambient(backend: Backend) -> bool {
    backend == Backend::MacAls || backend == Backend::WinAls || backend == Backend::LinuxProxyAls
        || backend == Backend::LinuxSysAls
}

/// How strongly a departure from the baseline shows, in millionths.
pub open spec fn gain_of(backend: Backend) -> i64 {
    match backend {
        Backend::MacAls => 3_000_000,
        Backend::WinAls => 20_000,
        Backend::LinuxProxyAls => 20_000,
        Backend::LinuxSysAls => 20_000,
        _ => 0,
    }
}

/// The baseline that a backend starts from.
pub open spec fn initial_baseline_of(backend: Backend) -> i64 {
    match backend {
        Backend::MacAls => 500_000,
        Backend::WinAls => 10_000_000,
        Backend::LinuxProxyAls => 10_000_000,
        Backend::LinuxSysAls => 10_000_000,
        _ => 0,
    }
}

/// `value` times `factor`, the factor counted in millionths, rounded toward
/// zero.
pub open spec fn scaled(value: int, factor: int) -> int {
    if value >= 0 {
        (value * factor) / (UNIT as int)
    } else {
        -(((-value) * factor) / (UNIT as int))
    }
}

/// A light reading as a value in the unit interval: one half on the
/// baseline, more above it and less below.
pub open spec fn normalized(reading: int, baseline: int, gain: int) -> int {
    clamp(HALF + scaled(reading - baseline, gain), 0, UNIT as int)
}

/// The baseline after a reading: it follows the light slowly.
pub open spec fn baseline_after(backend: Backend, baseline: i64, reading: i64) -> int {
    if is_ambient(backend) {
        step_toward(baseline as int, reading as int, BASELINE_ALPHA as int)
    } else {
        baseline as int
    }
}

/// The value that goes on to the filter for a reading, if any does.
pub open spec fn accepted(backend: Backend, baseline: i64, reading: i64) -> Option<int> {
    if backend == Backend::WinHinge {
        if HINGE_MIN <= reading <= HINGE_MAX {
            Some(reading as int)
        } else {
            None
        }
    } else if backend == Backend::WinTilt || backend == Backend::LinuxSysTilt {
        Some(clamp(reading as int, -HALF_TURN, HALF_TURN as int))
    } else if is_ambient(backend) {
        Some(
            normalized(
                reading as int,
                baseline_after(backend, baseline, reading),
                gain_of(backend) as int,
            ),
        )
    } else {
        Some(reading as int)
    }
}

/// The entry of one backend's signal path.
pub struct Intake {
    backend: Backend,
    baseline: i64,
}

fn scale(value: i128, factor: i64) -> (r: i128)
    requires
        -0x1_0000_0000_0000_0000 < value < 0x1_0000_0000_0000_0000,
        0 <= factor <= 3_000_000,
    ensures
        r == scaled(value as int, factor as int),
        -0x30_0000_0000_0000_0000 < r < 0x30_0000_0000_0000_0000,
{
    let size: u128 = if value >= 0 {
        value as u128
    } else {
        (-value) as u128
    };
    assert(size * factor as u128 <= 0x1_0000_0000_0000_0000 * 3_000_000) by (nonlinear_arith)
        requires
            size <= 0x1_0000_0000_0000_0000,
            0 <= factor <= 3_000_000,
    ;
    let part: u128 = (size * factor as u128) / 1_000_000;
    if value >= 0 {
        part as i128
    } else {
        -(part as i128)
    }
}

impl Intake {
    /// The backend whose readings enter here.
    pub closed spec fn kind(&self) -> Backend {
        self.backend
    }

    /// The baseline of the light so far.
    pub closed spec fn level(&self) -> i64 {
        self.baseline
    }

    /// The entry of `backend`, with the baseline it starts from.
    pub fn new(backend: Backend) -> (intake: Intake)
        ensures
            intake.kind() == backend,
            intake.level() == initial_baseline_of(backend),
    {
        let baseline = match backend {
            Backend::MacAls => 500_000,
            Backend::WinAls => 10_000_000,
            Backend::LinuxProxyAls => 10_000_000,
            Backend::LinuxSysAls => 10_000_000,
            _ => 0,
        };
        Intake { backend, baseline }
    }

    /// Takes one raw reading and returns the value to smooth, or nothing
    /// where the reading is dropped.
    pub fn accept(&mut self, reading: i64) -> (value: Option<i64>)
        ensures
            final(self).kind() == old(self).kind(),
            final(self).level() == baseline_after(old(self).kind(), old(self).level(), reading),
            match value {
                Some(v) => accepted(old(self).kind(), old(self).level(), reading) == Some(v as int),
                None => accepted(old(self).kind(), old(self).level(), reading) is None,
            },
    {
        match self.backend {
            Backend::WinHinge => {
                if HINGE_MIN <= reading && reading <= HINGE_MAX {
                    Some(reading)
                } else {
                    None
                }
            },
            Backend::WinTilt | Backend::LinuxSysTilt => {
                if reading < -HALF_TURN {
                    Some(-HALF_TURN)
                } else if reading > HALF_TURN {
                    Some(HALF_TURN)
                } else {
                    Some(reading)
                }
            },
            Backend::MacAls | Backend::WinAls | Backend::LinuxProxyAls | Backend::LinuxSysAls => {
                let gain: i64 = match self.backend {
                    Backend::MacAls => 3_000_000,
                    _ => 20_000,
                };
                proof {
                    lemma_step_between(self.baseline as int, reading as int, BASELINE_ALPHA as int);
                }
                let baseline = blend(self.baseline, reading, BASELINE_ALPHA);
                self.baseline = baseline;
                let shown: i128 = HALF as i128 + scale(reading as i128 - baseline as i128, gain);
                if shown < 0 {
                    Some(0)
                } else if shown > UNIT as i128 {
                    Some(UNIT)
                } else {
                    Some(shown as i64)
                }
            },
            _ => Some(reading),
        }
    }

    /// One tick of a backend's producer: the reading read at `timestamp`
    /// enters here and, unless it is dropped, goes down `path`, where it
    /// is smoothed, scored and published.
    pub fn feed(&mut self, path: &mut Pipeline, reading: i64, timestamp: u64) -> (sample: Option<
        AngleSample,
    >)
        ensures
            final(self).kind() == old(self).kind(),
            final(self).level() == baseline_after(old(self).kind(), old(self).level(), reading),
            final(path).alpha() == old(path).alpha(),
            final(path).stiffness() == old(path).stiffness(),
            final(path).details() == old(path).details(),
            match accepted(old(self).kind(), old(self).level(), reading) {
                None => sample is None && *final(path) == *old(path),
                Some(value) => {
                    &&& sample matches Some(s)
                    &&& s.angle_micro == smoothed(
                        old(path).estimate(),
                        value as i64,
                        old(path).alpha(),
                    )
                    &&& s.timestamp == timestamp
                    &&& s.source == old(path).details().source
                    &&& final(path).estimate() == Some(s.angle_micro)
                    &&& final(path).window() == pushed(old(path).window(), s.angle_micro)
                    &&& final(path).score() == stability(
                        final(path).window(),
                        old(path).stiffness(),
                    )
                    &&& final(path).published() == old(path).published().push(s)
                },
            },
    {
        match self.accept(reading) {
            None => None,
            Some(value) => Some(path.ingest(value, timestamp)),
        }
    }
}

} // verus!
