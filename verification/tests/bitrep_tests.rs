use dcf77_core::bitrep::{Bit, FromBits, MaybeBit, MaybeBits, to_bit};

#[test]
fn test_frombits_i8() {
    let mut i: i8 = FromBits::from_bits_msb(&[true, false]);
    assert_eq!(i, 2);
    i = FromBits::from_bits_msb(&[true, false, false, false, false, false, false, false]);
    assert_eq!(i, -128);
}

#[test]
fn test_frombits_u32() {
    let mut i: u32 = FromBits::from_bits_msb(&[true, false]);
    assert_eq!(i, 2);
    i = FromBits::from_bits_msb(&[true, false, true]);
    assert_eq!(i, 5);
}

#[test]
fn test_frombits_lsb() {
    let i: u8 = FromBits::from_bits_lsb(&[true, false, true]);
    assert_eq!(i, 0b101);
    let j: u8 = FromBits::from_bits_msb(&[true, false, true]);
    assert_eq!(j, 0b101);
    let k: u8 = FromBits::from_bits_lsb(&[true, true, false]);
    assert_eq!(k, 0b011);
}

#[test]
fn test_frombits_truncates() {
    // Nine bits folded into eight: the high-order bit falls off.
    let i: u8 = FromBits::from_bits_msb(&[true, false, false, false, false, false, false, false, true]);
    assert_eq!(i, 1);
}

#[test]
fn test_round_trip_u8() {
    for v in 0..=255u8 {
        let bits = v.to_bit_vector();
        assert_eq!(bits.len(), 8);
        let back: u8 = FromBits::from_bits_lsb(&bits);
        assert_eq!(back, v);
    }
}

#[test]
fn test_round_trip_u16() {
    for v in [0u16, 1, 2, 0x1234, 0x8000, 0xFFFF] {
        let bits = v.to_bit_vector();
        assert_eq!(bits.len(), 16);
        let back: u16 = FromBits::from_bits_lsb(&bits);
        assert_eq!(back, v);
    }
}

#[test]
fn test_round_trip_u32() {
    for v in [0u32, 1, 0xDEAD_BEEF, 0x8000_0000, 0xFFFF_FFFF] {
        let bits = v.to_bit_vector();
        assert_eq!(bits.len(), 32);
        let back: u32 = FromBits::from_bits_lsb(&bits);
        assert_eq!(back, v);
    }
}

#[test]
fn test_nth_bit() {
    let v: u8 = 0b0010_1100;
    assert_eq!(v.bit_len(), 8);
    assert_eq!(v.nth_bit(0), false);
    assert_eq!(v.nth_bit(2), true);
    assert_eq!(v.nth_bit(3), true);
    assert_eq!(v.nth_bit(5), true);
    assert_eq!(v.nth_bit(7), false);
    let s: i8 = -1;
    for n in 0..8 {
        assert_eq!(s.nth_bit(n), true);
    }
    let t: i16 = -2;
    assert_eq!(t.nth_bit(0), false);
    assert_eq!(t.nth_bit(15), true);
    let w: i32 = 6;
    assert_eq!(w.bit_len(), 32);
    assert_eq!(w.nth_bit(1), true);
    assert_eq!(w.nth_bit(2), true);
    assert_eq!(w.nth_bit(3), false);
}

#[test]
fn test_from_maybebits() {
    let definite = [Bit::Value(true), Bit::Value(false)];
    let r: Option<u8> = FromBits::from_maybebits_msb(&definite);
    assert_eq!(r, Some(2));
    let r: Option<u8> = FromBits::from_maybebits_lsb(&definite);
    assert_eq!(r, Some(1));
    let with_unknown = [Bit::Value(true), Bit::Unknown];
    let r: Option<u8> = FromBits::from_maybebits_msb(&with_unknown);
    assert_eq!(r, None);
    let with_skipped = [Bit::Skipped, Bit::Value(true)];
    let r: Option<u8> = FromBits::from_maybebits_lsb(&with_skipped);
    assert_eq!(r, None);
}

#[test]
fn test_to_bit() {
    assert_eq!(to_bit(true), Bit::Value(true));
    assert_eq!(to_bit(false), Bit::Value(false));
    assert_eq!(to_bit(Bit::Unknown), Bit::Unknown);
    assert_eq!(to_bit(Bit::Skipped), Bit::Unknown);
    assert_eq!(to_bit(Bit::Value(false)), Bit::Value(false));
    assert_eq!(Bit::Value(true).to_bit(), Some(true));
    assert_eq!(Bit::Unknown.to_bit(), None);
    assert_eq!(Bit::Skipped.to_bit(), None);
}

#[test]
fn test_glyphs() {
    assert_eq!(Bit::Unknown.glyph(), '?');
    assert_eq!(Bit::Skipped.glyph(), '_');
    assert_eq!(Bit::Value(false).glyph(), '0');
    assert_eq!(Bit::Value(true).glyph(), '1');
}
