//! Home sensor telemetry: the reading ontology, the wire codec, the fan-out
//! bus bookkeeping, the affector registry and the bit-packed series layout.
use vstd::prelude::*;

pub mod affector;
pub mod bitspec;
pub mod cobs;
pub mod codec;
pub mod error_log;
pub mod fanout;
pub mod large_bedroom;
pub mod publisher;
pub mod reading;
pub mod rpc;
pub mod series;
pub mod subscriber;
pub mod tui;

pub use reading::{Device, DeviceInfo, Error, Reading};

verus! {

} // verus!
