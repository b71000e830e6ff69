//! Lid-angle signal conditioning and backend arbitration.
//!
//! One of several sensors stands behind a single "lid angle" signal. This
//! crate holds what decides and computes; reading the sensors, keeping the
//! time and storing the record are left to the program around it.
//!
//! - [`order`] and [`arbiter`]: which source is tried when, and what a
//!   success hands over.
//! - [`intake`], [`filter`], [`confidence`] and [`hub`]: what happens to a
//!   reading, assembled in [`device`].
//! - [`gate`]: whether the latest sample is shown.
//! - [`backend`] and [`hid`]: the constants and rules of the raw sources.
//! - [`config`], [`persist`], [`types`] and [`units`]: the data around them.
//!
//! Every real-valued quantity is carried in fixed point: a signed 64-bit
//! count of millionths (see [`units::UNIT`]).

pub mod arbiter;
pub mod backend;
pub mod confidence;
pub mod config;
pub mod device;
pub mod filter;
pub mod gate;
pub mod hid;
pub mod hub;
pub mod intake;
pub mod order;
pub mod persist;
pub mod types;
pub mod units;

pub use crate::config::OpenConfig;
pub use crate::device::AngleDevice;
pub use crate::gate::Gated;
pub use crate::hub::AngleStream;
pub use crate::persist::{clear_persisted_state, PersistedState};
pub use crate::types::{AngleSample, DeviceInfo, Error, Source};
