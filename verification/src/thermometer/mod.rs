//! Temperature sensor interface and the shared fixed-point temperature type.

pub mod ds18b20;

use vstd::prelude::*;

use crate::onewire::error::{Error, PinFault};

verus! {

/// Clamp a mathematical integer into the `i32` range.
pub open spec fn sat_i32(v: int) -> int {
    if v > i32::MAX {
        i32::MAX as int
    } else if v < i32::MIN {
        i32::MIN as int
    } else {
        v
    }
}

/// A fixed-point temperature in degrees Celsius with 4 fractional bits.
///
/// The raw value counts 1/16-degree units, the native unit of the sensor's
/// conversion result. This gives a precision of 0.0625 degrees Celsius and a
/// range far exceeding the device limits. It is the unit of exchange across
/// every layer above the sensor driver.
#[derive(Debug, Copy, Clone, PartialEq, Eq, Structural)]
pub struct Temperature {
    /// Raw count of 1/16-degree units.
    pub bits: i32,
}

impl Temperature {
    /// Build a temperature from a raw count of 1/16-degree units.
    pub fn from_bits(bits: i32) -> (r: Temperature)
        ensures
            r.bits == bits,
    {
        Temperature { bits }
    }

    /// The raw count of 1/16-degree units.
    pub fn to_bits(self) -> (r: i32)
        ensures
            r == self.bits,
    {
        self.bits
    }

    /// Build a temperature from a whole number of degrees.
    pub fn from_int(v: i32) -> (r: Temperature)
        requires
            -0x800_0000 <= v < 0x800_0000,
        ensures
            r.bits == 16 * v,
    {
        Temperature { bits: 16 * v }
    }

    /// Saturating addition on the underlying 1/16-degree counts.
    pub fn saturating_add(self, other: Temperature) -> (r: Temperature)
        ensures
            r.bits == sat_i32(self.bits + other.bits),
    {
        let wide: i64 = self.bits as i64 + other.bits as i64;
        Temperature { bits: clamp_to_i32(wide) }
    }
}

/// Clamp a 64-bit value into the `i32` range.
pub fn clamp_to_i32(v: i64) -> (r: i32)
    ensures
        r == sat_i32(v as int),
{
    if v > i32::MAX as i64 {
        i32::MAX
    } else if v < i32::MIN as i64 {
        i32::MIN
    } else {
        v as i32
    }
}

/// A temperature source: something that can produce the current temperature
/// in degrees Celsius. Concrete variants are selected at construction; the
/// bus-backed sensor driver and a fixed test double both implement it.
pub trait Thermometer: Sized {
    /// Read the current temperature.
    fn read(&mut self) -> Result<Temperature, Error<PinFault>>;
}

/// A fake thermometer that always returns the same temperature.
pub struct FakeThermometer {
    /// The temperature the fake reports.
    pub reported: Temperature,
}

impl FakeThermometer {
    pub fn new(temp: Temperature) -> (r: FakeThermometer)
        ensures
            r.reported == temp,
    {
        FakeThermometer { reported: temp }
    }

    /// Get the current temperature.
    pub fn temp(&self) -> (r: Temperature)
        ensures
            r == self.reported,
    {
        self.reported
    }

    /// Replace the reported temperature.
    pub fn set_temp(&mut self, temp: Temperature)
        ensures
            final(self).reported == temp,
    {
        self.reported = temp;
    }
}

impl Thermometer for FakeThermometer {
    fn read(&mut self) -> (r: Result<Temperature, Error<PinFault>>)
        ensures
            r == Ok::<Temperature, Error<PinFault>>(old(self).reported),
            final(self).reported == old(self).reported,
    {
        Ok(self.reported)
    }
}

} // verus!
