//! A three-term (proportional/integral/derivative) control law on the
//! fixed-point temperature type.
//!
//! Each tick computes the error against the setpoint, clamps the three terms
//! to their individual limits and their sum to the output limit, and maps
//! the continuous output into an 8-bit actuator duty.

use vstd::prelude::*;

use crate::controller::Controller;
use crate::onewire::error::{Error, PinFault};
use crate::thermometer::{sat_i32, Temperature};

verus! {

/// Clamp `v` to the band `[-limit, limit]`.
pub open spec fn clamp_abs(v: int, limit: int) -> int {
    if v > limit {
        limit
    } else if v < -limit {
        -limit
    } else {
        v
    }
}

/// The fixed-point product of two 1/16-degree counts: the wide product
/// scaled back down, rounding toward negative infinity.
pub open spec fn fx_mul(a: int, b: int) -> int {
    (a * b) / 16
}

/// A PID controller: target temperature plus accumulator and gain state.
/// Owned exclusively by the control-integration activity; mutated only by
/// that activity or by an explicit set-target request arriving through the
/// shared-resource lock.
#[derive(Debug, Copy, Clone, PartialEq, Eq, Structural)]
pub struct PidController {
    /// Proportional gain.
    pub kp: Temperature,
    /// Integral gain.
    pub ki: Temperature,
    /// Derivative gain.
    pub kd: Temperature,
    /// Limit on the proportional term's contribution.
    pub p_limit: Temperature,
    /// Limit on the integral term's contribution.
    pub i_limit: Temperature,
    /// Limit on the derivative term's contribution.
    pub d_limit: Temperature,
    /// Limit on the final output.
    pub output_limit: Temperature,
    /// The target temperature.
    pub setpoint: Temperature,
    /// The accumulated integral contribution.
    pub integral_term: Temperature,
    /// The previous measurement, for the derivative term.
    pub prev_measurement: Option<Temperature>,
}

/// The clamped proportional contribution for measurement `m`.
pub open spec fn p_term(c: PidController, m: int) -> int {
    clamp_abs(fx_mul(c.kp.bits as int, c.setpoint.bits - m), c.p_limit.bits as int)
}

/// The clamped integral accumulator after folding in measurement `m`.
pub open spec fn next_integral(c: PidController, m: int) -> int {
    sat_i32(
        clamp_abs(
            c.integral_term.bits + fx_mul(c.ki.bits as int, c.setpoint.bits - m),
            c.i_limit.bits as int,
        ),
    )
}

/// The clamped derivative contribution for measurement `m` (of the
/// measurement, not of the error, to avoid derivative kick).
pub open spec fn d_term(c: PidController, m: int) -> int {
    match c.prev_measurement {
        Some(pm) => clamp_abs(fx_mul(c.kd.bits as int, pm.bits - m), c.d_limit.bits as int),
        None => clamp_abs(0, c.d_limit.bits as int),
    }
}

/// The clamped controller output for measurement `m`.
pub open spec fn spec_output(c: PidController, m: int) -> int {
    clamp_abs(p_term(c, m) + next_integral(c, m) + d_term(c, m), c.output_limit.bits as int)
}

/// Map a controller output from the band (-128, 128) degrees into an 8-bit
/// duty: shift up by 128 degrees (2048 counts), drop the fractional bits,
/// and saturate into 0..=255.
pub open spec fn duty_of(output: int) -> int {
    let d = sat_i32(output + 2048) / 16;
    if d < 0 {
        0
    } else if d > 255 {
        255
    } else {
        d
    }
}

/// Clamp a wide value to the band `[-limit, limit]`.
fn clamp_abs_i128(v: i128, limit: i32) -> (r: i128)
    ensures
        r == clamp_abs(v as int, limit as int),
        i32::MIN <= -(limit as int) ==> i32::MIN <= r,
{
    let wide = limit as i128;
    if v > wide {
        wide
    } else if v < -wide {
        -wide
    } else {
        v
    }
}

/// The fixed-point product of a gain and a wide error value.
fn mul_fx(a: i32, b: i128) -> (r: i128)
    requires
        -0x1_0000_0000 <= b <= 0x1_0000_0000,
    ensures
        r == fx_mul(a as int, b as int),
        -0x8000_0000_0000_0000 <= r <= 0x8000_0000_0000_0000,
{
    proof {
        assert(-0x8000_0000_0000_0000 <= (a as int) * (b as int) <= 0x8000_0000_0000_0000)
            by (nonlinear_arith)
            requires
                -0x8000_0000 <= a as int <= 0x7fff_ffff,
                -0x1_0000_0000 <= b as int <= 0x1_0000_0000,
        ;
    }
    let wide = (a as i128) * b;
    let r = match wide.checked_div_euclid(16) {
        Some(q) => q,
        None => 0,  // unreachable: the quotient of an in-range value fits
    };
    proof {
        vstd::arithmetic::div_mod::lemma_div_is_ordered(-0x8000_0000_0000_0000, wide as int, 16);
        vstd::arithmetic::div_mod::lemma_div_is_ordered(wide as int, 0x8000_0000_0000_0000, 16);
    }
    r
}

impl PidController {
    /// Build a controller with the given target and gains; every limit is
    /// set to 128 degrees.
    pub fn new(target: Temperature, kp: Temperature, ki: Temperature, kd: Temperature) -> (r:
        PidController)
        ensures
            r.setpoint == target,
            r.kp == kp,
            r.ki == ki,
            r.kd == kd,
            r.p_limit.bits == 2048,
            r.i_limit.bits == 2048,
            r.d_limit.bits == 2048,
            r.output_limit.bits == 2048,
            r.integral_term.bits == 0,
            r.prev_measurement is None,
    {
        let limit = Temperature { bits: 2048 };
        PidController {
            kp,
            ki,
            kd,
            p_limit: limit,
            i_limit: limit,
            d_limit: limit,
            output_limit: limit,
            setpoint: target,
            integral_term: Temperature { bits: 0 },
            prev_measurement: None,
        }
    }
}

impl Controller for PidController {
    fn set_target(&mut self, target: Temperature)
        ensures
            *final(self) == (PidController { setpoint: target, ..*old(self) }),
    {
        self.setpoint = target;
    }

    fn get_target(&self) -> (r: Temperature)
        ensures
            r == self.setpoint,
    {
        self.setpoint
    }

    fn run(&mut self, temp: Temperature) -> (r: Result<u8, Error<PinFault>>)
        ensures
            r is Ok,
            r->Ok_0 as int == duty_of(spec_output(*old(self), temp.bits as int)),
            final(self).integral_term.bits as int == next_integral(*old(self), temp.bits as int),
            final(self).prev_measurement == Some(temp),
            *final(self) == (PidController {
                integral_term: final(self).integral_term,
                prev_measurement: final(self).prev_measurement,
                ..*old(self)
            }),
    {
        let m: i128 = temp.bits as i128;
        let e: i128 = self.setpoint.bits as i128 - m;

        let p = clamp_abs_i128(mul_fx(self.kp.bits, e), self.p_limit.bits);

        let i_unb = self.integral_term.bits as i128 + mul_fx(self.ki.bits, e);
        let i2 = clamp_abs_i128(i_unb, self.i_limit.bits);
        self.integral_term = Temperature { bits: crate::thermometer::clamp_to_i32(i2 as i64) };

        let d_unb: i128 = match self.prev_measurement {
            Some(pm) => mul_fx(self.kd.bits, pm.bits as i128 - m),
            None => 0,
        };
        let d = clamp_abs_i128(d_unb, self.d_limit.bits);
        self.prev_measurement = Some(temp);

        let stored = self.integral_term.bits as i128;
        let output = clamp_abs_i128(p + stored + d, self.output_limit.bits);

        let shifted: i32 = crate::thermometer::clamp_to_i32((output + 2048) as i64);
        let duty_wide = match shifted.checked_div_euclid(16) {
            Some(q) => q,
            None => 0,  // unreachable: dividing by 16 cannot leave the range
        };
        let duty: u8 = if duty_wide < 0 {
            0
        } else if duty_wide > 255 {
            255
        } else {
            duty_wide as u8
        };
        Ok(duty)
    }
}

} // verus!
