use roxy_can::decode::{extract_raw, fit_to_width, pack_raw, read_through_double, signed_value};

fn to_physical(raw: u64, size: u64, signed: bool, factor: f64, offset: f64) -> f64 {
    signed_value(raw, size, signed) as f64 * factor + offset
}

fn from_physical(phys: f64, size: u64, signed: bool, factor: f64, offset: f64) -> u64 {
    let raw = ((phys - offset) / factor).round();
    fit_to_width(raw as i64, size, signed)
}

#[test]
fn intel_16bit() {
    let data = [0x34, 0x12, 0, 0, 0, 0, 0, 0];
    assert_eq!(extract_raw(&data, 0, 16, false), 0x1234);
}

#[test]
fn motorola_16bit_aligned() {
    let data = [0x12, 0x34, 0, 0, 0, 0, 0, 0];
    assert_eq!(extract_raw(&data, 7, 16, true), 0x1234);
}

#[test]
fn motorola_cross_byte_nibble() {
    let data = [0x05, 0xA0, 0, 0, 0, 0, 0, 0];
    assert_eq!(extract_raw(&data, 4, 8, true), 0x2D);
}

#[test]
fn signed_extend() {
    assert_eq!(to_physical(0xFFF, 12, true, 1.0, 0.0), -1.0);
    assert_eq!(to_physical(0x7FF, 12, true, 1.0, 0.0), 2047.0);
    // As a plain number and scaled by two with one added, minus one stays minus one.
    assert_eq!(to_physical(0xFF, 8, true, 2.0, 1.0), -1.0);
    assert_eq!(signed_value(0xFFF, 12, true), -1);
    assert_eq!(signed_value(0xFFF, 12, false), 4095);
}

#[test]
fn pack_extract_roundtrip() {
    for &big in &[false, true] {
        let start = if big { 7 } else { 0 };
        let mut data = [0u8; 8];
        pack_raw(&mut data, start, 16, big, 0xBEEF);
        assert_eq!(extract_raw(&data, start, 16, big), 0xBEEF);
    }
    let mut data = [0xFF; 8];
    pack_raw(&mut data, 4, 8, true, 0x2D);
    assert_eq!(extract_raw(&data, 4, 8, true), 0x2D);
}

#[test]
fn physical_roundtrip() {
    let raw = from_physical(3000.0, 16, false, 0.25, 0.0);
    assert_eq!(raw, 12000);
    assert!((to_physical(raw, 16, false, 0.25, 0.0) - 3000.0).abs() < 0.25);
}

#[test]
fn fd_signal_past_byte_8() {
    // A 16-bit signal at byte 8 (bit 64) lives only in CAN FD payloads.
    let mut data = [0u8; 16];
    pack_raw(&mut data, 64, 16, false, 0xCAFE);
    assert_eq!(extract_raw(&data, 64, 16, false), 0xCAFE);
    // Reading the same bits from an 8-byte buffer yields 0 (out of range).
    let short = [0u8; 8];
    assert_eq!(extract_raw(&short, 64, 16, false), 0);
}

#[test]
fn packing_leaves_the_other_bits_alone() {
    let mut data = [0xFFu8; 4];
    pack_raw(&mut data, 4, 8, false, 0);
    assert_eq!(data, [0x0F, 0xF0, 0xFF, 0xFF]);
}

#[test]
fn values_are_held_to_the_width_of_their_signal() {
    assert_eq!(fit_to_width(300, 8, false), 255);
    assert_eq!(fit_to_width(-5, 8, false), 0);
    assert_eq!(fit_to_width(-200, 8, true), 0x80);
    assert_eq!(fit_to_width(200, 8, true), 0x7F);
    assert_eq!(fit_to_width(-1, 12, true), 0xFFF);
    assert_eq!(fit_to_width(-1, 64, true), u64::MAX);
}

#[test]
fn wide_values_read_as_the_nearest_double() {
    let v: i128 = 9_007_199_254_740_993;
    assert_eq!(read_through_double(v), v as f64 as i64);
    assert_eq!(read_through_double(-1), -1);
    assert_eq!(read_through_double(u64::MAX as i128), u64::MAX as f64 as i64);
}
