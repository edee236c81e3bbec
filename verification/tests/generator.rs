use roxy_can::generator::{cycle_from_ms_text, hex_text, parse_hex_bytes};

#[test]
fn the_cycle_box_accepts_only_whole_milliseconds_in_range() {
    assert_eq!(cycle_from_ms_text("100"), Some(100_000));
    assert_eq!(cycle_from_ms_text("  133 "), Some(133_000));
    assert_eq!(cycle_from_ms_text("0"), Some(0), "0 is event-triggered");
    assert_eq!(cycle_from_ms_text("60000"), Some(60_000_000), "top of the range");
    assert_eq!(cycle_from_ms_text(""), None, "half-deleted text");
    assert_eq!(cycle_from_ms_text("1.5"), None, "no sub-millisecond step");
    assert_eq!(cycle_from_ms_text("-1"), None);
    assert_eq!(cycle_from_ms_text("60001"), None, "past the ceiling");
    assert_eq!(cycle_from_ms_text("abc"), None);
}

#[test]
fn hex_texts_read_and_print_bytes() {
    assert_eq!(parse_hex_bytes("01 fF a"), Some(vec![0x01, 0xFF, 0x0A]));
    assert_eq!(parse_hex_bytes(""), None);
    assert_eq!(parse_hex_bytes("xyz"), None);
    assert_eq!(parse_hex_bytes("100"), None);
    let mut data = [0u8; 64];
    data[0] = 0xAB;
    data[1] = 0x05;
    assert_eq!(hex_text(&data, 2), "AB 05");
}

#[test]
fn a_payload_reads_back_from_its_text() {
    let mut data = [0u8; 64];
    for (i, b) in data.iter_mut().enumerate() {
        *b = (i * 37 % 256) as u8;
    }
    for len in 1..=64u8 {
        let text = hex_text(&data, len);
        assert_eq!(text.len(), 3 * usize::from(len) - 1);
        assert!(text.split(' ').all(|w| w.len() == 2 && w == w.to_uppercase()));
        assert_eq!(parse_hex_bytes(&text), Some(data[..usize::from(len)].to_vec()));
    }
    assert_eq!(hex_text(&data, 0), "");
}
