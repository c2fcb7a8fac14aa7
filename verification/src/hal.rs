//! Capability contracts implemented by the platform, not by this crate:
//! the byte-duplex bus, the digital lines, and the countdown timer the
//! panel driver is wired to.

use vstd::prelude::*;

use crate::{Hertz, NotReady};

verus! {

/// A byte-duplex bus: sends one byte and receives one byte in a single
/// full-duplex exchange. Exchange faults are currently swallowed by the
/// platform implementation; the driver discards the received byte.
pub trait DuplexBus {
    fn exchange(&mut self, byte: u8) -> u8;
}

/// A digital input level; for the panel's busy line, low means busy and
/// high means idle.
pub trait DigitalInput {
    fn is_low(&mut self) -> bool;
}

/// A digital output with two levels, used for the reset, data/command
/// select, and chip-select lines.
pub trait DigitalOutput {
    fn set_low(&mut self);

    fn set_high(&mut self);
}

/// A countdown timer: started at a frequency, it expires after one
/// period.
pub trait Countdown {
    fn start(&mut self, rate: Hertz);

    /// Polls for expiry without blocking.
    fn wait(&mut self) -> Result<(), NotReady>;

    /// Blocks until the started countdown expires.
    fn wait_blocking(&mut self);
}

} // verus!
