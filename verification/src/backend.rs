//! The raw sources that can stand behind a source tag, and the constants
//! each of them is conditioned with.

use vstd::prelude::*;
use crate::types::{DeviceInfo, Source};
use crate::units::UNIT;

verus! {

/// One way of reading a sensor.
#[derive(Clone, Copy, Debug, PartialEq, Eq, Hash, Structural)]
pub enum Backend {
    MacHid,
    MacAls,
    WinHinge,
    WinTilt,
    WinAls,
    LinuxProxyTilt,
    LinuxSysTilt,
    LinuxProxyAls,
    LinuxSysAls,
    Mock,
}

/// How a backend's values are conditioned.
#[derive(Clone, Copy, Debug)]
pub struct Profile {
    /// The tag and note that the device reports.
    pub info: DeviceInfo,
    /// The factor `k` of the stability score, in millionths. With 0 the
    /// score is 1 whatever the values.
    pub stiffness: u64,
    /// The score reported before the first value.
    pub initial_confidence: i64,
    /// The lowest sampling rate, in millionths of a hertz.
    pub rate_floor: i64,
}

/// One hertz, in millionths.
pub const HERTZ: i64 = 1_000_000;

/// The rate that the hinge sensor falls back to: 60 Hz.
pub const HID_RATE: i64 = 60_000_000;

/// Nanoseconds per second, times [`HERTZ`].
pub const PERIOD_SCALE: u64 = 1_000_000_000_000_000;

/// The tag that a backend's samples carry.
pub open spec fn reported(backend: Backend) -> Source {
    match backend {
        Backend::MacHid => Source::HingeFeature,
        Backend::MacAls => Source::ALS,
        Backend::WinHinge => Source::WinHinge,
        Backend::WinTilt => Source::WinTilt,
        Backend::WinAls => Source::WinALS,
        Backend::LinuxProxyTilt => Source::LinuxTilt,
        Backend::LinuxSysTilt => Source::LinuxTilt,
        Backend::LinuxProxyAls => Source::LinuxALS,
        Backend::LinuxSysAls => Source::LinuxALS,
        Backend::Mock => Source::Mock,
    }
}

/// The note that a backend's device carries.
pub open spec fn note_of(backend: Backend) -> Seq<char> {
    match backend {
        Backend::MacHid => "mac_hid_feature"@,
        Backend::MacAls => "mac_als"@,
        Backend::WinHinge => "win_hinge"@,
        Backend::WinTilt => "win_tilt"@,
        Backend::WinAls => "win_als"@,
        Backend::LinuxProxyTilt => "linux_proxy_tilt"@,
        Backend::LinuxSysTilt => "linux_sys_tilt"@,
        Backend::LinuxProxyAls => "linux_proxy_als"@,
        Backend::LinuxSysAls => "linux_sys_als"@,
        Backend::Mock => "mock"@,
    }
}

/// The factor of a backend's stability score: small for sources in
/// degrees, whose values move when the lid does, large for the normalized
/// ambient-light sources, and 0 for the hinge sensor and the synthetic
/// source, which are always trusted.
pub open spec fn stiffness_of(backend: Backend) -> u64 {
    match backend {
        Backend::MacHid => 0,
        Backend::Mock => 0,
        Backend::WinHinge => 20_000,
        Backend::WinTilt => 50_000,
        Backend::LinuxProxyTilt => 50_000,
        Backend::LinuxSysTilt => 50_000,
        Backend::MacAls => 20_000_000,
        Backend::WinAls => 20_000_000,
        Backend::LinuxProxyAls => 20_000_000,
        Backend::LinuxSysAls => 20_000_000,
    }
}

/// The score that a backend reports before its first value.
pub open spec fn initial_confidence_of(backend: Backend) -> i64 {
    match backend {
        Backend::MacHid => UNIT,
        Backend::Mock => UNIT,
        _ => 200_000,
    }
}

/// The lowest rate at which a backend samples, in millionths of a hertz.
pub open spec fn rate_floor_of(backend: Backend) -> i64 {
    match backend {
        Backend::MacHid => 0,
        Backend::Mock => 1_000_000,
        Backend::MacAls => 10_000_000,
        Backend::WinAls => 10_000_000,
        Backend::LinuxProxyAls => 10_000_000,
        Backend::LinuxSysAls => 10_000_000,
        Backend::WinHinge => 20_000_000,
        Backend::WinTilt => 20_000_000,
        Backend::LinuxProxyTilt => 20_000_000,
        Backend::LinuxSysTilt => 60_000_000,
    }
}

/// The backends that can serve a source tag, in the order in which they
/// are tried.
pub open spec fn routes(source: Source) -> Seq<Backend> {
    match source {
        Source::HingeFeature => seq![Backend::MacHid],
        Source::HingeHid => seq![Backend::MacHid],
        Source::HingeIOKit => Seq::empty(),
        Source::ALS => seq![Backend::MacAls],
        Source::WinHinge => seq![Backend::WinHinge],
        Source::WinTilt => seq![Backend::WinTilt],
        Source::WinALS => seq![Backend::WinAls],
        Source::LinuxTilt => seq![Backend::LinuxProxyTilt, Backend::LinuxSysTilt],
        Source::LinuxALS => seq![Backend::LinuxProxyAls, Backend::LinuxSysAls],
        Source::Mock => seq![Backend::Mock],
    }
}

/// The rate at which a backend samples when `hz` is asked for: `hz`, but
/// not below the backend's floor. The hinge sensor has no floor; it falls
/// back to 60 Hz where `hz` is not positive.
pub open spec fn effective_rate(backend: Backend, hz: i64) -> i64 {
    if backend == Backend::MacHid {
        if hz > 0 {
            hz
        } else {
            HID_RATE
        }
    } else if hz < rate_floor_of(backend) {
        rate_floor_of(backend)
    } else {
        hz
    }
}

/// The time between two samples in nanoseconds, rounded down.
pub open spec fn period_of(backend: Backend, hz: i64) -> int {
    PERIOD_SCALE as int / effective_rate(backend, hz) as int
}

/// The conditioning constants of a backend.
pub fn profile(backend: Backend) -> (p: Profile)
    ensures
        p.info.source == reported(backend),
        p.info.note@ == note_of(backend),
        p.stiffness == stiffness_of(backend),
        p.initial_confidence == initial_confidence_of(backend),
        p.rate_floor == rate_floor_of(backend),
{
    match backend {
        Backend::MacHid => Profile {
            info: DeviceInfo { source: Source::HingeFeature, note: "mac_hid_feature" },
            stiffness: 0,
            initial_confidence: UNIT,
            rate_floor: 0,
        },
        Backend::MacAls => Profile {
            info: DeviceInfo { source: Source::ALS, note: "mac_als" },
            stiffness: 20_000_000,
            initial_confidence: 200_000,
            rate_floor: 10 * HERTZ,
        },
        Backend::WinHinge => Profile {
            info: DeviceInfo { source: Source::WinHinge, note: "win_hinge" },
            stiffness: 20_000,
            initial_confidence: 200_000,
            rate_floor: 20 * HERTZ,
        },
        Backend::WinTilt => Profile {
            info: DeviceInfo { source: Source::WinTilt, note: "win_tilt" },
            stiffness: 50_000,
            initial_confidence: 200_000,
            rate_floor: 20 * HERTZ,
        },
        Backend::WinAls => Profile {
            info: DeviceInfo { source: Source::WinALS, note: "win_als" },
            stiffness: 20_000_000,
            initial_confidence: 200_000,
            rate_floor: 10 * HERTZ,
        },
        Backend::LinuxProxyTilt => Profile {
            info: DeviceInfo { source: Source::LinuxTilt, note: "linux_proxy_tilt" },
            stiffness: 50_000,
            initial_confidence: 200_000,
            rate_floor: 20 * HERTZ,
        },
        Backend::LinuxSysTilt => Profile {
            info: DeviceInfo { source: Source::LinuxTilt, note: "linux_sys_tilt" },
            stiffness: 50_000,
            initial_confidence: 200_000,
            rate_floor: 60 * HERTZ,
        },
        Backend::LinuxProxyAls => Profile {
            info: DeviceInfo { source: Source::LinuxALS, note: "linux_proxy_als" },
            stiffness: 20_000_000,
            initial_confidence: 200_000,
            rate_floor: 10 * HERTZ,
        },
        Backend::LinuxSysAls => Profile {
            info: DeviceInfo { source: Source::LinuxALS, note: "linux_sys_als" },
            stiffness: 20_000_000,
            initial_confidence: 200_000,
            rate_floor: 10 * HERTZ,
        },
        Backend::Mock => Profile {
            info: DeviceInfo { source: Source::Mock, note: "mock" },
            stiffness: 0,
            initial_confidence: UNIT,
            rate_floor: HERTZ,
        },
    }
}

/// The backends to try for a source tag, in order.
pub fn backends_for(source: Source) -> (list: Vec<Backend>)
    ensures
        list@ == routes(source),
{
    let mut list: Vec<Backend> = Vec::new();
    match source {
        Source::HingeFeature => list.push(Backend::MacHid),
        Source::HingeHid => list.push(Backend::MacHid),
        Source::HingeIOKit => {},
        Source::ALS => list.push(Backend::MacAls),
        Source::WinHinge => list.push(Backend::WinHinge),
        Source::WinTilt => list.push(Backend::WinTilt),
        Source::WinALS => list.push(Backend::WinAls),
        Source::LinuxTilt => {
            list.push(Backend::LinuxProxyTilt);
            list.push(Backend::LinuxSysTilt);
        },
        Source::LinuxALS => {
            list.push(Backend::LinuxProxyAls);
            list.push(Backend::LinuxSysAls);
        },
        Source::Mock => list.push(Backend::Mock),
    }
    assert(list@ =~= routes(source));
    list
}

/// The time between two samples of a backend in nanoseconds, when `hz`
/// millionths of a hertz are asked for.
pub fn sample_period(backend: Backend, hz: i64) -> (nanos: u64)
    ensures
        nanos == period_of(backend, hz),
        effective_rate(backend, hz) > 0,
{
    let floor = profile(backend).rate_floor;
    let rate: i64 = match backend {
        Backend::MacHid => if hz > 0 {
            hz
        } else {
            HID_RATE
        },
        _ => if hz < floor {
            floor
        } else {
            hz
        },
    };
    PERIOD_SCALE / (rate as u64)
}

/// The first of several places at which something was found: `present`
/// says of each place, in the order of preference, whether it was. The
/// raw sources under `/sys` look for their files this way.
pub fn first_existing(present: &Vec<bool>) -> (found: Option<usize>)
    ensures
        match found {
            Some(i) => i < present@.len() && present@[i as int] && forall|j: int|
                0 <= j < i ==> !present@[j],
            None => forall|j: int| 0 <= j < present@.len() ==> !present@[j],
        },
{
    let mut i: usize = 0;
    while i < present.len()
        invariant
            i <= present.len(),
            forall|j: int| 0 <= j < i ==> !present@[j],
        decreases present.len() - i,
    {
        if present[i] {
            return Some(i);
        }
        i += 1;
    }
    None
}

} // verus!
