//! Thermo-electric cooler (TEC) driver interface.

use vstd::prelude::*;

use crate::onewire::error::PinFault;

verus! {

/// A binary actuator with readable state. Concrete variants are selected at
/// construction: a GPIO-pin-backed cooler on hardware, a fixed test double
/// here.
pub trait Cooler: Sized {
    /// Whether the cooler is currently commanded on.
    spec fn is_on(&self) -> bool;

    /// Command the cooler on.
    fn set_high(&mut self) -> (r: Result<(), PinFault>)
        ensures
            r is Ok ==> final(self).is_on(),
    ;

    /// Command the cooler off.
    fn set_low(&mut self) -> (r: Result<(), PinFault>)
        ensures
            r is Ok ==> !final(self).is_on(),
    ;

    /// Whether the cooler is commanded on.
    fn is_set_high(&self) -> (r: Result<bool, PinFault>)
        ensures
            r is Ok ==> r->Ok_0 == self.is_on(),
    ;

    /// Whether the cooler is commanded off.
    fn is_set_low(&self) -> (r: Result<bool, PinFault>)
        ensures
            r is Ok ==> r->Ok_0 == !self.is_on(),
    ;
}

/// A cooler test double that just remembers its commanded state.
pub struct SimCooler {
    on: bool,
}

impl SimCooler {
    pub fn new() -> (r: SimCooler)
        ensures
            !r.is_on(),
    {
        SimCooler { on: false }
    }
}

impl Cooler for SimCooler {
    closed spec fn is_on(&self) -> bool {
        self.on
    }

    fn set_high(&mut self) -> (r: Result<(), PinFault>)
        ensures
            r is Ok,
            final(self).is_on(),
    {
        self.on = true;
        Ok(())
    }

    fn set_low(&mut self) -> (r: Result<(), PinFault>)
        ensures
            r is Ok,
            !final(self).is_on(),
    {
        self.on = false;
        Ok(())
    }

    fn is_set_high(&self) -> (r: Result<bool, PinFault>)
        ensures
            r == Ok::<bool, PinFault>(self.is_on()),
    {
        Ok(self.on)
    }

    fn is_set_low(&self) -> (r: Result<bool, PinFault>)
        ensures
            r == Ok::<bool, PinFault>(!self.is_on()),
    {
        Ok(!self.on)
    }
}

} // verus!
