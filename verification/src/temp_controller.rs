//! The temperature-controller activity's decisions.
//!
//! The activity runs one cycle per period: reconcile the shared resolution
//! request with the sensor, measure, run the control law, command the
//! actuator, and publish the reading. The decisions are pure functions
//! here; the scheduler layer performs the bus operations and waits between
//! cycles, advancing each deadline by the period from the previous deadline
//! so no drift accumulates.

use vstd::prelude::*;

use crate::controller::pid::{duty_of, next_integral, spec_output, PidController};
use crate::controller::Controller;
use crate::ds18b20::Resolution;
use crate::onewire::error::{Error, PinFault};
use crate::storage::EventCode;
use crate::thermometer::Temperature;

verus! {

/// The target water temperature, in 1/16-degree counts (5 degrees Celsius).
pub const TARGET_TEMP_BITS: i32 = 80;

/// Proportional gain, in 1/16-degree counts (1.0).
pub const KP_BITS: i32 = 16;

/// Integral gain, in 1/16-degree counts (0.25).
pub const KI_BITS: i32 = 4;

/// Derivative gain, in 1/16-degree counts (0.125).
pub const KD_BITS: i32 = 2;

/// The control period, in microseconds (one cycle every two seconds).
pub const CYCLE_PERIOD_US: u64 = 2_000_000;

/// The controller the activity starts with: the default target and gains.
pub fn new_pid() -> (r: PidController)
    ensures
        r.setpoint.bits == TARGET_TEMP_BITS,
        r.kp.bits == KP_BITS,
        r.ki.bits == KI_BITS,
        r.kd.bits == KD_BITS,
        r.p_limit.bits == 2048,
        r.i_limit.bits == 2048,
        r.d_limit.bits == 2048,
        r.output_limit.bits == 2048,
        r.integral_term.bits == 0,
        r.prev_measurement is None,
{
    PidController::new(
        Temperature::from_bits(TARGET_TEMP_BITS),
        Temperature::from_bits(KP_BITS),
        Temperature::from_bits(KI_BITS),
        Temperature::from_bits(KD_BITS),
    )
}

/// Reduce a control duty to the binary actuator decision: the output band
/// is centered on 128, and outputs below it (a too-warm measurement drives
/// the output negative) command the cooler on.
pub fn cooler_command(duty: u8) -> (on: bool)
    ensures
        on <==> duty < 128,
{
    duty < 128
}

/// What the resolution-reconciliation step does, given the resolution last
/// applied successfully (if any) and the shared request: apply the request
/// when it is not known to be in force already.
pub fn resolution_action(last_res: Option<Resolution>, requested: Resolution) -> (r: Option<
    Resolution,
>)
    ensures
        last_res == Some(requested) ==> r is None,
        last_res != Some(requested) ==> r == Some(requested),
{
    match last_res {
        Some(lr) if lr == requested => None,
        _ => Some(requested),
    }
}

/// Fold the outcome of an attempted resolution apply back into the carried
/// state: on success the request is in force and a resolution-changed event
/// is logged; on failure nothing is in force (so the write is retried every
/// following cycle until it succeeds) and a sensor-error event is logged.
pub fn apply_outcome(requested: Resolution, success: bool) -> (r: (Option<Resolution>, EventCode))
    ensures
        success ==> r == (Some(requested), EventCode::TempSensorResolutionChanged),
        !success ==> r == (None::<Resolution>, EventCode::TempSensorError),
{
    if success {
        (Some(requested), EventCode::TempSensorResolutionChanged)
    } else {
        (None, EventCode::TempSensorError)
    }
}

/// What one control cycle decided.
#[derive(Debug, Copy, Clone, PartialEq, Eq, Structural)]
pub struct CycleDecision {
    /// Command the actuator, or leave it alone.
    pub cooler_on: Option<bool>,
    /// Publish this reading to the storage and console collaborators.
    pub record: Option<Temperature>,
    /// Log this event.
    pub event: Option<EventCode>,
}

/// Run one control cycle against a measurement outcome.
///
/// A successful measurement is fed to the control law and reduced to an
/// actuator command, and the reading is published. A failed measurement
/// leaves the controller and actuator untouched and logs a sensor-error
/// event; the activity proceeds to its next period rather than retrying
/// within the cycle.
pub fn control_cycle(pid: &mut PidController, measurement: Result<Temperature, Error<PinFault>>)
    -> (r: CycleDecision)
    ensures
        measurement matches Ok(t) ==> ({
            let duty = duty_of(spec_output(*old(pid), t.bits as int));
            &&& r.cooler_on == Some(duty < 128)
            &&& r.record == Some(t)
            &&& r.event is None
            &&& final(pid).integral_term.bits as int == next_integral(*old(pid), t.bits as int)
            &&& final(pid).prev_measurement == Some(t)
            &&& final(pid).setpoint == old(pid).setpoint
            &&& final(pid).kp == old(pid).kp
            &&& final(pid).ki == old(pid).ki
            &&& final(pid).kd == old(pid).kd
        }),
        measurement is Err ==> r == (CycleDecision {
            cooler_on: None,
            record: None,
            event: Some(EventCode::TempSensorError),
        }) && *final(pid) == *old(pid),
{
    match measurement {
        Ok(temp) => {
            let duty = match pid.run(temp) {
                Ok(d) => d,
                Err(_) => 0,  // unreachable: the control law is total
            };
            CycleDecision {
                cooler_on: Some(cooler_command(duty)),
                record: Some(temp),
                event: None,
            }
        },
        Err(_) => CycleDecision { cooler_on: None, record: None, event: Some(
            EventCode::TempSensorError,
        ) },
    }
}

} // verus!
