//! Controller that manages a cooler to keep a constant temperature.

use vstd::prelude::*;

use crate::onewire::error::{Error, PinFault};
use crate::thermometer::Temperature;

pub mod pid;

verus! {

/// A control law bound to a target temperature: each tick maps a measured
/// temperature to an actuator duty.
pub trait Controller: Sized {
    /// Set the target temperature in degrees Celsius.
    fn set_target(&mut self, target: Temperature);

    /// Get the target temperature in degrees Celsius.
    fn get_target(&self) -> Temperature;

    /// Run the controller for a single tick.
    ///
    /// Returns 0 if the cooler should be completely off, 255 if it should be
    /// completely on, or somewhere in between.
    fn run(&mut self, temp: Temperature) -> Result<u8, Error<PinFault>>;
}

} // verus!
