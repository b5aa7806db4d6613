use tec_controller::controller::pid::PidController;
use tec_controller::controller::Controller;
use tec_controller::onewire::error::{Error, PinFault};
use tec_controller::storage::EventCode;
use tec_controller::temp_controller::{
    apply_outcome, control_cycle, cooler_command, new_pid, resolution_action, TARGET_TEMP_BITS,
};
use tec_controller::ds18b20::Resolution;
use tec_controller::thermometer::Temperature;

#[test]
fn target_above_measurement_commands_cooler_on() {
    // Target 5.0, measured 10.0: the water is too warm, so the cooler is
    // commanded on.
    let mut pid = new_pid();
    let duty = pid.run(Temperature::from_bits(10 * 16)).unwrap();
    assert!(cooler_command(duty));
}

#[test]
fn cold_measurement_converges_to_cooler_off() {
    // Measured 4.0 with the default gains: after the loop converges the
    // cooler is commanded off.
    let mut pid = new_pid();
    let _ = pid.run(Temperature::from_bits(10 * 16)).unwrap();
    let mut last_on = true;
    for _ in 0..50 {
        let duty = pid.run(Temperature::from_bits(4 * 16)).unwrap();
        last_on = cooler_command(duty);
    }
    assert!(!last_on);
}

#[test]
fn duty_is_proportional_only_on_first_tick_with_p_gain() {
    // kp = 1.0, no prior measurement: error -5.0 gives p = -5.0 and an
    // integral step of -1.25, so the output is -6.25 degrees -> duty 121.
    let mut pid = new_pid();
    let duty = pid.run(Temperature::from_bits(160)).unwrap();
    assert_eq!(duty, 121);
}

#[test]
fn set_target_round_trips() {
    let mut pid = new_pid();
    assert_eq!(pid.get_target().to_bits(), TARGET_TEMP_BITS);
    pid.set_target(Temperature::from_bits(7 * 16));
    assert_eq!(pid.get_target().to_bits(), 7 * 16);
}

#[test]
fn control_cycle_on_measurement_commands_and_records() {
    let mut pid = new_pid();
    let d = control_cycle(&mut pid, Ok(Temperature::from_bits(10 * 16)));
    assert_eq!(d.cooler_on, Some(true));
    assert_eq!(d.record, Some(Temperature::from_bits(10 * 16)));
    assert_eq!(d.event, None);
}

#[test]
fn control_cycle_on_error_logs_and_leaves_actuator_alone() {
    let mut pid = new_pid();
    let before = pid;
    let d = control_cycle(&mut pid, Err::<Temperature, Error<PinFault>>(Error::CrcMismatch));
    assert_eq!(d.cooler_on, None);
    assert_eq!(d.record, None);
    assert_eq!(d.event, Some(EventCode::TempSensorError));
    assert_eq!(pid, before);
}

#[test]
fn resolution_is_applied_only_when_not_in_force() {
    assert_eq!(resolution_action(None, Resolution::Bits12), Some(Resolution::Bits12));
    assert_eq!(resolution_action(Some(Resolution::Bits9), Resolution::Bits12), Some(
        Resolution::Bits12,
    ));
    assert_eq!(resolution_action(Some(Resolution::Bits12), Resolution::Bits12), None);
}

#[test]
fn failed_resolution_apply_is_retried_and_logged() {
    assert_eq!(apply_outcome(Resolution::Bits10, true), (
        Some(Resolution::Bits10),
        EventCode::TempSensorResolutionChanged,
    ));
    assert_eq!(apply_outcome(Resolution::Bits10, false), (None, EventCode::TempSensorError));
}

#[test]
fn duty_band_is_centered() {
    // An exactly met target (zero error, no history) sits at the middle of
    // the duty band, which counts as off.
    let mut pid = PidController::new(
        Temperature::from_bits(80),
        Temperature::from_bits(16),
        Temperature::from_bits(0),
        Temperature::from_bits(0),
    );
    let duty = pid.run(Temperature::from_bits(80)).unwrap();
    assert_eq!(duty, 128);
    assert!(!cooler_command(duty));
}
