use tec_controller::onewire::error::Error;
use tec_controller::onewire::sim::SimLine;
use tec_controller::onewire::{Address, OneWire};

fn wire_with(levels: Vec<bool>) -> OneWire<SimLine> {
    OneWire::new(SimLine::new(levels))
}

#[test]
fn reset_sees_presence_pulse() {
    // One poll sample (line released high), then a low presence sample.
    let mut wire = wire_with(vec![true, false]);
    assert!(wire.reset().is_ok());
}

#[test]
fn reset_without_presence_is_unexpected_response() {
    let mut wire = wire_with(vec![true, true]);
    assert_eq!(wire.reset(), Err(Error::UnexpectedResponse));
}

#[test]
fn reset_on_stuck_line_is_bus_not_high() {
    let mut wire = wire_with(vec![false; 126]);
    assert_eq!(wire.reset(), Err(Error::BusNotHigh));
}

#[test]
fn write_then_read_bit_round_trip() {
    // A loopback harness reflects the written level back at the next read
    // slot: both bit values survive the round trip.
    for bit in [false, true] {
        let mut wire = wire_with(vec![bit]);
        assert!(wire.write_bit(bit).is_ok());
        assert_eq!(wire.read_bit(), Ok(bit));
    }
}

#[test]
fn read_byte_assembles_lsb_first() {
    // 0xB4 = 1011_0100: bits arrive least significant first.
    let bits = vec![false, false, true, false, true, true, false, true];
    let mut wire = wire_with(bits);
    assert_eq!(wire.read_byte(), Ok(0xB4));
}

#[test]
fn read_bytes_in_order() {
    let mut levels = Vec::new();
    for byte in [0x50u8, 0x05u8] {
        for i in 0..8 {
            levels.push((byte >> i) & 1 == 1);
        }
    }
    let mut wire = wire_with(levels);
    let got = wire.read_bytes(2).unwrap();
    assert_eq!(got, vec![0x50, 0x05]);
}

#[test]
fn write_operations_accept_any_value() {
    let mut wire = wire_with(vec![]);
    assert!(wire.write_bit(true).is_ok());
    assert!(wire.write_bit(false).is_ok());
    assert!(wire.write_byte(0xCC).is_ok());
    assert!(wire.write_bytes(&[1, 2, 3]).is_ok());
}

#[test]
fn send_command_broadcast_and_targeted() {
    let mut wire = wire_with(vec![true, false]);
    assert!(wire.send_command(None, 0x44).is_ok());
    let mut wire = wire_with(vec![true, false]);
    let addr = Address(0x05_00_00_0F_83_FB_60_28);
    assert!(wire.send_command(Some(&addr), 0xBE).is_ok());
}
