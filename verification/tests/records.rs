use tec_controller::onewire::error::{Error, PinFault};
use tec_controller::storage::{EventCode, Storage, StoredEvent, StoredTemp};
use tec_controller::thermometer::Temperature;

#[test]
fn stored_temp_packs_low_24_bits_of_seconds() {
    let rec = StoredTemp::new(0x01_BB_CC_DD, 5);
    assert_eq!(rec.secs(), 0x00_BB_CC_DD);
    let rec = StoredTemp::new(42, -3);
    assert_eq!(rec.secs(), 42);
}

#[test]
fn stored_temp_reduces_to_quarter_degrees() {
    // 5.0625 degrees = 81 sixteenths: floor to quarter degrees, widen back.
    let rec = StoredTemp::now_from_temp(0, Temperature::from_bits(81));
    assert_eq!(rec.value_q, 20);
    assert_eq!(rec.value().to_bits(), 80);

    // Negative values round toward negative infinity.
    let rec = StoredTemp::now_from_temp(0, Temperature::from_bits(-81));
    assert_eq!(rec.value_q, -21);

    // Out-of-range values saturate.
    let rec = StoredTemp::now_from_temp(0, Temperature::from_bits(100_000));
    assert_eq!(rec.value_q, 127);
    let rec = StoredTemp::now_from_temp(0, Temperature::from_bits(-100_000));
    assert_eq!(rec.value_q, -128);
}

#[test]
fn stored_event_message_truncates_and_terminates() {
    let e = StoredEvent::new_str(9, EventCode::Unknown, b"hi");
    assert_eq!(e.secs(), 9);
    assert_eq!(e.msg_bytes(), b"hi".to_vec());
    assert_eq!(e.msg[2], 0);

    let e = StoredEvent::new_str(9, EventCode::Unknown, b"a very long message indeed");
    assert_eq!(e.msg_bytes(), b"a very long ".to_vec());
}

#[test]
fn event_message_round_trips_through_msg_bytes() {
    // A short NUL-free message comes back unchanged; a full-length message
    // comes back whole.
    let e = StoredEvent::new_str(3, EventCode::Unknown, b"stuck");
    assert_eq!(e.msg_bytes(), b"stuck".to_vec());
    let e = StoredEvent::new_str(3, EventCode::Unknown, b"exactly12byt");
    assert_eq!(e.msg_bytes(), b"exactly12byt".to_vec());
}

#[test]
fn event_codes_render_as_text() {
    assert_eq!(EventCode::Unknown.as_str(), "Unknown");
    assert_eq!(EventCode::TempSensorError.as_str(), "Temperature sensor error");
    assert_eq!(
        EventCode::TempSensorResolutionChanged.as_str(),
        "Temperature sensor resolution changed"
    );
    assert_eq!(EventCode::PidError.as_str(), "PID controller error");
    assert_eq!(EventCode::PidTargetChanged.as_str(), "PID controller target changed");
    assert_eq!(EventCode::PidParamsChanged.as_str(), "PID parameters changed");
}

#[test]
fn errors_render_as_text() {
    assert_eq!(Error::<PinFault>::BusNotHigh.as_str(), "Bus not high");
    assert_eq!(Error::Pin(PinFault).as_str(), "Pin error");
    assert_eq!(Error::<PinFault>::UnexpectedResponse.as_str(), "Unexpected response");
    assert_eq!(Error::<PinFault>::FamilyCodeMismatch.as_str(), "Family code mismatch");
    assert_eq!(Error::<PinFault>::CrcMismatch.as_str(), "CRC mismatch");
    assert_eq!(Error::<PinFault>::Timeout.as_str(), "Timeout");
}

#[test]
fn storage_records_and_publishes_latest() {
    let mut storage = Storage::new();
    assert_eq!(storage.temp_recent(), None);
    assert!(storage.event_recent().is_none());

    storage.write(10, Temperature::from_bits(80));
    storage.write(12, Temperature::from_bits(96));
    let recent = storage.temp_recent().unwrap();
    assert_eq!(recent.secs(), 12);
    assert_eq!(recent.value_q, 24);

    // The mailbox is latest-wins: only the newest record is pending.
    let latest = storage.take_latest().unwrap();
    assert_eq!(latest.secs(), 12);
    assert_eq!(storage.take_latest(), None);

    let all = storage.temp_oldest();
    assert_eq!(all.len(), 2);
    assert_eq!(all[0].secs(), 10);
    assert_eq!(all[1].secs(), 12);
}

#[test]
fn temperature_ring_keeps_the_newest_hundred() {
    let mut storage = Storage::new();
    for k in 0..150u32 {
        storage.write(k, Temperature::from_bits(0));
    }
    let all = storage.temp_oldest();
    assert_eq!(all.len(), 100);
    assert_eq!(all[0].secs(), 50);
    assert_eq!(all[99].secs(), 149);
    assert_eq!(storage.temp_recent().unwrap().secs(), 149);
}

#[test]
fn event_ring_keeps_the_newest_sixteen() {
    let mut storage = Storage::new();
    for k in 0..20u32 {
        storage.write_event(StoredEvent::new_str(k, EventCode::Unknown, b"x"));
    }
    let all = storage.event_oldest();
    assert_eq!(all.len(), 16);
    assert_eq!(all[0].secs(), 4);
    assert_eq!(all[15].secs(), 19);
    assert_eq!(storage.event_recent().unwrap().secs(), 19);
}
