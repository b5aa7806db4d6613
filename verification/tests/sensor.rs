use tec_controller::ds18b20::{decode_temperature, Ds18b20, Resolution};
use tec_controller::onewire::error::Error;
use tec_controller::onewire::sim::SimLine;
use tec_controller::onewire::{Address, OneWire};

/// Reference CRC-8 (reflected x^8 + x^5 + x^4 + 1), written independently of
/// the library so scratchpad scripts carry honestly computed check bytes.
fn ref_crc8(data: &[u8]) -> u8 {
    let mut crc: u8 = 0;
    for &byte in data {
        let mut b = byte;
        for _ in 0..8 {
            let mix = (crc ^ b) & 1;
            crc >>= 1;
            if mix == 1 {
                crc ^= 0x8C;
            }
            b >>= 1;
        }
    }
    crc
}

/// The line levels of one scratchpad read: reset slot, then the nine bytes
/// bit by bit, least significant first.
fn scratchpad_script(payload: [u8; 8], crc: Option<u8>) -> Vec<bool> {
    let mut bytes = payload.to_vec();
    bytes.push(crc.unwrap_or_else(|| ref_crc8(&payload)));
    let mut levels = vec![true, false];
    for byte in bytes {
        for i in 0..8 {
            levels.push((byte >> i) & 1 == 1);
        }
    }
    levels
}

const ADDR: Address = Address(0x05_00_00_0F_83_FB_60_28);

#[test]
fn power_on_default_scratchpad_decodes_to_85_degrees() {
    // Raw bytes [0x50, 0x05, ...] at 12-bit resolution: +85.0000 degrees.
    let t = decode_temperature(0x50, 0x05, Resolution::Bits12);
    assert_eq!(t.to_bits(), 85 * 16);
}

#[test]
fn negative_scratchpad_decodes_to_small_negative_value() {
    // Raw bytes [0x91, 0xFF]: two's-complement 1/16-degree units, -6.9375.
    let t = decode_temperature(0x91, 0xFF, Resolution::Bits12);
    assert_eq!(t.to_bits(), -111);
}

#[test]
fn decode_masks_insignificant_bits_per_resolution() {
    assert_eq!(decode_temperature(0x57, 0x05, Resolution::Bits9).to_bits(), 0x550);
    assert_eq!(decode_temperature(0x57, 0x05, Resolution::Bits10).to_bits(), 0x554);
    assert_eq!(decode_temperature(0x57, 0x05, Resolution::Bits11).to_bits(), 0x556);
    assert_eq!(decode_temperature(0x57, 0x05, Resolution::Bits12).to_bits(), 0x557);
}

#[test]
fn config_register_round_trips_all_resolutions() {
    for r in [Resolution::Bits9, Resolution::Bits10, Resolution::Bits11, Resolution::Bits12] {
        assert_eq!(Resolution::from_config_register(r.to_config_register()), Some(r));
    }
    assert_eq!(Resolution::from_config_register(0x00), None);
    assert_eq!(Resolution::from_config_register(0xFF), None);
}

#[test]
fn conversion_times_match_resolutions() {
    assert_eq!(Resolution::Bits9.conversion_time(), 94);
    assert_eq!(Resolution::Bits10.conversion_time(), 188);
    assert_eq!(Resolution::Bits11.conversion_time(), 375);
    assert_eq!(Resolution::Bits12.conversion_time(), 750);
}

#[test]
fn resolution_reads_config_byte() {
    let script = scratchpad_script([0x50, 0x05, 0x4B, 0x46, 0x3F, 0xFF, 0xFF, 0xFF], None);
    let mut wire = OneWire::new(SimLine::new(script));
    let sensor = Ds18b20::new(ADDR);
    assert_eq!(sensor.resolution(&mut wire), Ok(Resolution::Bits10));
}

#[test]
fn unrecognized_config_byte_is_unexpected_response() {
    let script = scratchpad_script([0x50, 0x05, 0x4B, 0x46, 0x00, 0xFF, 0xFF, 0xFF], None);
    let mut wire = OneWire::new(SimLine::new(script));
    let sensor = Ds18b20::new(ADDR);
    assert_eq!(sensor.resolution(&mut wire), Err(Error::UnexpectedResponse));
}

#[test]
fn corrupted_scratchpad_is_crc_mismatch() {
    let script = scratchpad_script([0x50, 0x05, 0x4B, 0x46, 0x7F, 0xFF, 0xFF, 0xFF], Some(0x00));
    let mut wire = OneWire::new(SimLine::new(script));
    let sensor = Ds18b20::new(ADDR);
    assert_eq!(sensor.read_data(&mut wire), Err(Error::CrcMismatch));
}

#[test]
fn set_resolution_then_resolution_round_trips() {
    for r in [Resolution::Bits9, Resolution::Bits10, Resolution::Bits11, Resolution::Bits12] {
        // set_resolution reads the scratchpad, then writes TH, TL and the
        // new configuration byte (a reset slot before and after the write);
        // the following read returns the configuration the device now has.
        let mut script = scratchpad_script([0x50, 0x05, 0x4B, 0x46, 0x7F, 0xFF, 0xFF, 0xFF], None);
        script.extend([true, false]); // reset before the scratchpad write
        script.extend([true, false]); // reset terminating the write
        script.extend(scratchpad_script(
            [0x50, 0x05, 0x4B, 0x46, r.to_config_register(), 0xFF, 0xFF, 0xFF],
            None,
        ));
        let mut wire = OneWire::new(SimLine::new(script));
        let mut sensor = Ds18b20::new(ADDR);
        assert!(sensor.set_resolution(&mut wire, r).is_ok());
        assert_eq!(sensor.resolution(&mut wire), Ok(r));
    }
}

#[test]
fn read_data_decodes_at_the_configured_resolution() {
    let script = scratchpad_script([0x91, 0xFF, 0x4B, 0x46, 0x7F, 0xFF, 0xFF, 0xFF], None);
    let mut wire = OneWire::new(SimLine::new(script));
    let sensor = Ds18b20::new(ADDR);
    let t = sensor.read_data(&mut wire).unwrap();
    assert_eq!(t.to_bits(), -111);
}

#[test]
fn measure_runs_the_full_conversion_sequence() {
    // measure: read resolution, broadcast-free convert command (one reset),
    // wait, and read the result.
    let mut script = scratchpad_script([0x50, 0x05, 0x4B, 0x46, 0x7F, 0xFF, 0xFF, 0xFF], None);
    script.extend([true, false]); // reset of the convert command
    script.extend(scratchpad_script([0x50, 0x05, 0x4B, 0x46, 0x7F, 0xFF, 0xFF, 0xFF], None));
    let mut wire = OneWire::new(SimLine::new(script));
    let mut sensor = Ds18b20::new(ADDR);
    let t = sensor.measure(&mut wire).unwrap();
    assert_eq!(t.to_bits(), 85 * 16);
}
