use tec_controller::terminal::{
    console_overflow, format_uint, get_line, is_newline, is_whitespace, temp_display_parts,
    BUFFER_SIZE,
};
use tec_controller::thermometer::Temperature;

#[test]
fn newline_and_whitespace_classification() {
    assert!(is_newline(b'\n'));
    assert!(is_newline(b'\r'));
    assert!(!is_newline(b'x'));
    assert!(is_whitespace(b' '));
    assert!(is_whitespace(b'\t'));
    assert!(is_whitespace(b'\n'));
    assert!(!is_whitespace(b'-'));
}

#[test]
fn get_line_pops_one_complete_line() {
    let mut buffer = b"help\rtemp".to_vec();
    let line = get_line(&mut buffer).unwrap();
    assert_eq!(line, b"help\r".to_vec());
    assert_eq!(buffer, b"temp".to_vec());
    assert_eq!(get_line(&mut buffer), None);
    assert_eq!(buffer, b"temp".to_vec());
}

#[test]
fn get_line_handles_leading_newline() {
    let mut buffer = b"\nrest".to_vec();
    assert_eq!(get_line(&mut buffer), Some(b"\n".to_vec()));
    assert_eq!(buffer, b"rest".to_vec());
}

#[test]
fn console_buffer_overflow_is_fatal() {
    // A full console input buffer is a programming-invariant violation: the
    // receive path must treat one more byte as fatal, not drop it silently.
    assert!(!console_overflow(0, BUFFER_SIZE));
    assert!(!console_overflow(BUFFER_SIZE - 1, BUFFER_SIZE));
    assert!(console_overflow(BUFFER_SIZE, BUFFER_SIZE));
    assert!(console_overflow(BUFFER_SIZE + 1, BUFFER_SIZE));
}

#[test]
fn format_uint_renders_decimal() {
    assert_eq!(format_uint(0), b"0".to_vec());
    assert_eq!(format_uint(7), b"7".to_vec());
    assert_eq!(format_uint(120), b"120".to_vec());
    assert_eq!(format_uint(100500), b"100500".to_vec());
    assert_eq!(format_uint(u32::MAX), b"4294967295".to_vec());
}

#[test]
fn temp_display_parts_split_sign_degrees_and_fraction() {
    assert_eq!(temp_display_parts(Temperature::from_bits(85 * 16)), (false, 85, 0));
    assert_eq!(temp_display_parts(Temperature::from_bits(-111)), (true, 6, 9375));
    assert_eq!(temp_display_parts(Temperature::from_bits(1)), (false, 0, 625));
    assert_eq!(temp_display_parts(Temperature::from_bits(0)), (false, 0, 0));
}
