use tec_controller::onewire::address::Address;
use tec_controller::onewire::crc::{check_crc8, crc8};
use tec_controller::onewire::error::{Error, PinFault};

#[test]
fn crc8_of_empty_is_zero() {
    assert_eq!(crc8(&[]), 0);
}

#[test]
fn crc8_standard_check_value() {
    // The familiar check input "123456789" for the reflected polynomial.
    assert_eq!(crc8(b"123456789"), 0xA1);
}

#[test]
fn crc8_known_address_bytes() {
    assert_eq!(crc8(&[0x28, 0x60, 0xFB, 0x83, 0x0F, 0x00, 0x00]), 0x05);
    assert_eq!(crc8(&[0x28, 0x61, 0x64, 0x12, 0x3C, 0x7E, 0x1F]), 0x08);
}

#[test]
fn check_crc8_accepts_valid_block() {
    let block = [0x28u8, 0x60, 0xFB, 0x83, 0x0F, 0x00, 0x00, 0x05];
    let r: Result<(), Error<PinFault>> = check_crc8(&block);
    assert!(r.is_ok());
}

#[test]
fn check_crc8_rejects_corrupt_block() {
    let block = [0x28u8, 0x60, 0xFB, 0x83, 0x0F, 0x00, 0x00, 0x06];
    let r: Result<(), Error<PinFault>> = check_crc8(&block);
    assert_eq!(r, Err(Error::CrcMismatch));
}

#[test]
fn valid_address_passes_validation() {
    assert!(Address(0x05_00_00_0F_83_FB_60_28).is_valid());
    assert!(Address(0x08_1F_7E_3C_12_64_61_28).is_valid());
}

#[test]
fn every_single_bit_corruption_is_detected() {
    let a = Address(0x05_00_00_0F_83_FB_60_28);
    assert!(a.is_valid());
    for i in 0..64u64 {
        let corrupted = Address(a.0 ^ (1u64 << i));
        assert!(!corrupted.is_valid(), "flip of bit {} went undetected", i);
    }
}

#[test]
fn family_code_is_low_byte() {
    assert_eq!(Address(0x05_00_00_0F_83_FB_60_28).family_code(), 0x28);
    assert_eq!(Address(0xFF).family_code(), 0xFF);
}
