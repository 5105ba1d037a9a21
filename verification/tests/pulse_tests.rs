use dcf77_core::bitrep::Bit;
use dcf77_core::pulse_decoder::decode_pulse;

#[test]
fn test_decode() {
    assert_eq!(decode_pulse(0b0), Bit::Skipped);
    assert_eq!(decode_pulse(0b1), Bit::Value(false));
    assert_eq!(decode_pulse(0b10), Bit::Unknown);
    assert_eq!(decode_pulse(0b11), Bit::Value(false));
    assert_eq!(decode_pulse(0b100), Bit::Unknown);
    assert_eq!(decode_pulse(0b101), Bit::Unknown);
    assert_eq!(decode_pulse(0b110), Bit::Unknown);
    assert_eq!(decode_pulse(0b111), Bit::Value(false));
    assert_eq!(decode_pulse(0b1111), Bit::Value(false));
    assert_eq!(decode_pulse(0b11111), Bit::Value(true));
    assert_eq!(decode_pulse(0b111110), Bit::Unknown);
    assert_eq!(decode_pulse(0b111111), Bit::Value(true));
    assert_eq!(decode_pulse(0xFF), Bit::Value(true));
}

#[test]
fn test_decode_total_and_deterministic() {
    // Every byte value decodes without panicking, and a second decode of
    // the same sample gives the same bit.
    for p in 0..=255u8 {
        let first = decode_pulse(p);
        let second = decode_pulse(p);
        assert_eq!(first, second);
    }
}

#[test]
fn test_decode_non_contiguous_patterns() {
    assert_eq!(decode_pulse(0b1010), Bit::Unknown);
    assert_eq!(decode_pulse(0b1000_0000), Bit::Unknown);
    assert_eq!(decode_pulse(0b1011_1111), Bit::Unknown);
    assert_eq!(decode_pulse(0b0111_1111), Bit::Value(true));
}
