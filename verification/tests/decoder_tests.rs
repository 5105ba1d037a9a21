use dcf77_core::bitrep::{Bit, FromBits, MaybeBits, to_bit};
use dcf77_core::dcf77_decoder::{
    check_parity, decode_bcd, decode_bits, Dcf77DateTime, Dcf77Error, Dcf77Tz, Decoder,
    DecodingFailure, ParityBitName, DECODE_HEADER,
};

fn push_value_bits(v: &mut Vec<Bit>, count: usize, value: i32) {
    let bits = value.to_bit_vector();
    for i in 0..count {
        v.push(to_bit(bits[i]));
    }
}

/// The synthetic window of the original debug session: unknown free
/// bits, timezone MEZ, minute 0, hour 0, day 1, Monday, January, year 16.
fn build_valid_signal() -> Vec<Bit> {
    let mut buffer: Vec<Bit> = Vec::new();

    // 0-10 varied, 11-14 free
    for _ in 0..15 {
        buffer.push(Bit::Unknown);
    }

    // 15, 16 not interpreted
    buffer.push(to_bit(false));
    buffer.push(to_bit(false));
    // 17, 18 time zone
    buffer.push(to_bit(false));
    buffer.push(to_bit(true));
    // 19 not interpreted
    buffer.push(to_bit(false));
    // 20 start of time code
    buffer.push(to_bit(true));

    // 21-28 minutes + parity
    push_value_bits(&mut buffer, 4, 0);
    push_value_bits(&mut buffer, 3, 0);
    buffer.push(to_bit(false));

    // 29-35 hours + parity
    push_value_bits(&mut buffer, 4, 0);
    push_value_bits(&mut buffer, 2, 0);
    buffer.push(to_bit(false));

    // 36-41 days
    push_value_bits(&mut buffer, 4, 1);
    push_value_bits(&mut buffer, 2, 0);

    // 42-44 day of week
    push_value_bits(&mut buffer, 3, 1);

    // 45-49 month
    push_value_bits(&mut buffer, 4, 1);
    push_value_bits(&mut buffer, 1, 0);

    // 50-57 years
    push_value_bits(&mut buffer, 4, 6);
    push_value_bits(&mut buffer, 4, 1);

    // 58 date parity
    buffer.push(to_bit(false));

    // 59 missing
    buffer.push(Bit::Skipped);
    assert_eq!(buffer.len(), 60);

    buffer
}

fn even_parity_of(bits: &[Bit]) -> Bit {
    let mut p = false;
    for b in bits {
        if *b == Bit::Value(true) {
            p = !p;
        }
    }
    Bit::Value(p)
}

fn lsb_bits(value: u32, count: usize) -> Vec<Bit> {
    let mut out = Vec::new();
    for i in 0..count {
        out.push(Bit::Value((value >> i) & 1 == 1));
    }
    out
}

/// A window with the given calendar fields, correct parity bits, and the
/// minute mark at position 59.
fn build_window(
    minute: u32,
    hour: u32,
    day: u32,
    dow: u32,
    month: u32,
    year2: u32,
    bit17: bool,
    bit18: bool,
) -> Vec<Bit> {
    let mut w: Vec<Bit> = Vec::new();
    for _ in 0..17 {
        w.push(Bit::Value(false));
    }
    w.push(Bit::Value(bit17));
    w.push(Bit::Value(bit18));
    w.push(Bit::Value(false));
    w.push(Bit::Value(true));
    w.extend(lsb_bits(minute % 10, 4));
    w.extend(lsb_bits(minute / 10, 3));
    let p1 = even_parity_of(&w[21..28]);
    w.push(p1);
    w.extend(lsb_bits(hour % 10, 4));
    w.extend(lsb_bits(hour / 10, 2));
    let p2 = even_parity_of(&w[29..35]);
    w.push(p2);
    w.extend(lsb_bits(day % 10, 4));
    w.extend(lsb_bits(day / 10, 2));
    w.extend(lsb_bits(dow, 3));
    w.extend(lsb_bits(month % 10, 4));
    w.extend(lsb_bits(month / 10, 1));
    w.extend(lsb_bits(year2 % 10, 4));
    w.extend(lsb_bits(year2 / 10, 4));
    let p3 = even_parity_of(&w[36..58]);
    w.push(p3);
    w.push(Bit::Skipped);
    assert_eq!(w.len(), 60);
    w
}

fn decode_window(w: &[Bit]) -> Result<Dcf77DateTime, Dcf77Error> {
    let mut decoder = Decoder::new();
    decoder.add_bit_slice(w);
    assert_eq!(decoder.len(), 60);
    decoder.decode_dcf77()
}

fn failure_of(r: Result<Dcf77DateTime, Dcf77Error>) -> DecodingFailure {
    match r {
        Err(e) => e.decoding_failure().expect("expected a decoding failure"),
        Ok(dt) => panic!("unexpected successful decode: {:?}", dt),
    }
}

#[test]
fn test_decoder_valid_signal() {
    let signal = build_valid_signal();
    let mut decoder: Decoder = Decoder::new();
    assert_eq!(decoder.len(), 0);

    decoder.add_bit_slice(&signal[0..59]);
    assert_eq!(decoder.len(), 59);

    // Check that this does not decode
    assert_eq!(decoder.is_full(), false);
    let decoded = decoder.decode_dcf77();
    assert!(matches!(
        decoded,
        Err(Dcf77Error::DecodingError(DecodingFailure::NotEnoughBits))
    ));

    println!("{:>60}", DECODE_HEADER);

    // 59 missing
    decoder.add_bit(Bit::Skipped);
    assert_eq!(decoder.len(), 60);

    assert_eq!(decoder.is_full(), true);
    let decoded = decoder.decode_dcf77().expect("Could not decode dcf77 time");
    assert_eq!(
        decoded,
        Dcf77DateTime {
            year: 2016,
            month: 1,
            day: 1,
            hour: 0,
            minute: 0,
            tz: Dcf77Tz::MEZ,
        }
    );

    // Adding more bits will desync
    decoder.add_bit(Bit::Unknown);
    let decoded = decoder.decode_dcf77();
    assert!(matches!(
        decoded,
        Err(Dcf77Error::DecodingError(DecodingFailure::NotSync))
    ));
}

#[test]
fn test_decoder_do_not_panic() {
    // The decoder should not panic if fields are out of range
    let mut signal = build_valid_signal();
    signal[21..29].copy_from_slice(&[
        // 1101 (11, lsb)
        Bit::Value(true),
        Bit::Value(true),
        Bit::Value(false),
        Bit::Value(true),
        // 101 (5, lsb)
        Bit::Value(true),
        Bit::Value(false),
        Bit::Value(true),
        // 1 (even parity)
        Bit::Value(true),
    ]);
    let mut decoder: Decoder = Decoder::new();

    decoder.add_bit_slice(&signal);
    assert_eq!(decoder.len(), 60);

    let decoded = decoder.decode_dcf77();
    println!("{:?}", decoded);
    assert!(matches!(decoded, Err(Dcf77Error::JiffError(_))));
}

#[test]
fn test_decode_specific_date() {
    // 2024-01-15 10:05 MEZ, Monday.
    let w = build_window(5, 10, 15, 1, 1, 24, false, true);
    let decoded = decode_window(&w).expect("window should decode");
    assert_eq!(
        decoded,
        Dcf77DateTime {
            year: 2024,
            month: 1,
            day: 15,
            hour: 10,
            minute: 5,
            tz: Dcf77Tz::MEZ,
        }
    );
    assert_eq!(decoded.tz.to_utc_offset_hours(), 1);
}

#[test]
fn test_parity_flip() {
    let w = build_window(5, 10, 15, 1, 1, 24, false, true);
    for i in 21..59 {
        let mut flipped = w.clone();
        flipped[i] = match w[i] {
            Bit::Value(v) => Bit::Value(!v),
            _ => panic!("span positions are definite"),
        };
        let expected = if i < 29 {
            ParityBitName::Minute
        } else if i < 36 {
            ParityBitName::Hour
        } else {
            ParityBitName::Date
        };
        assert_eq!(
            failure_of(decode_window(&flipped)),
            DecodingFailure::ParityError(expected),
        );
    }
}

#[test]
fn test_not_sync() {
    let w = build_window(5, 10, 15, 1, 1, 24, false, true);
    for replacement in [Bit::Value(false), Bit::Value(true), Bit::Unknown] {
        let mut broken = w.clone();
        broken[59] = replacement;
        assert_eq!(failure_of(decode_window(&broken)), DecodingFailure::NotSync);
    }
}

#[test]
fn test_timezone_bits() {
    let both_zero = build_window(5, 10, 15, 1, 1, 24, false, false);
    assert_eq!(
        failure_of(decode_window(&both_zero)),
        DecodingFailure::InvalidTimezoneBits
    );
    let both_one = build_window(5, 10, 15, 1, 1, 24, true, true);
    assert_eq!(
        failure_of(decode_window(&both_one)),
        DecodingFailure::InvalidTimezoneBits
    );
    // Code 10 (value 2, bit 18 set) is MEZ, and only that code.
    let mez = decode_window(&build_window(5, 10, 15, 1, 1, 24, false, true)).unwrap();
    assert_eq!(mez.tz, Dcf77Tz::MEZ);
    assert_eq!(mez.tz.to_utc_offset_hours(), 1);
    // Code 01 (value 1, bit 17 set) is MESZ.
    let mesz = decode_window(&build_window(5, 10, 15, 1, 1, 24, true, false)).unwrap();
    assert_eq!(mesz.tz, Dcf77Tz::MESZ);
    assert_eq!(mesz.tz.to_utc_offset_hours(), 2);
}

#[test]
fn test_missing_start_of_time_code() {
    let mut w = build_window(5, 10, 15, 1, 1, 24, false, true);
    w[20] = Bit::Value(false);
    assert_eq!(
        failure_of(decode_window(&w)),
        DecodingFailure::MissingStartOfTimeCode
    );
}

#[test]
fn test_unknown_bit_gives_missing_bit() {
    let w = build_window(5, 10, 15, 1, 1, 24, false, true);
    for i in [17usize, 18, 23, 28, 33, 35, 40, 47, 57, 58] {
        let mut blanked = w.clone();
        blanked[i] = Bit::Unknown;
        assert_eq!(
            failure_of(decode_window(&blanked)),
            DecodingFailure::MissingBit,
            "position {}",
            i
        );
    }
}

#[test]
fn test_invalid_calendar_values() {
    // Day zero passes every structural check but is no calendar date.
    let day_zero = build_window(5, 10, 0, 1, 1, 24, false, true);
    let r = decode_window(&day_zero);
    match r {
        Err(e) => {
            assert!(e.jiff_error().is_some());
            assert_eq!(e.decoding_failure(), None);
        },
        Ok(dt) => panic!("day zero must not decode: {:?}", dt),
    }
    // Month 13 likewise.
    let month_13 = build_window(5, 10, 15, 1, 13, 24, false, true);
    assert!(matches!(decode_window(&month_13), Err(Dcf77Error::JiffError(_))));
    // 2023 is no leap year, so February 29 is out of range.
    let feb_29 = build_window(5, 10, 29, 1, 2, 23, false, true);
    assert!(matches!(decode_window(&feb_29), Err(Dcf77Error::JiffError(_))));
    // 2024 is one, so the same window with year 24 decodes.
    let feb_29_leap = build_window(5, 10, 29, 1, 2, 24, false, true);
    assert!(decode_window(&feb_29_leap).is_ok());
}

#[test]
fn test_window_sliding() {
    let w = build_window(5, 10, 15, 1, 1, 24, false, true);
    let mut decoder = Decoder::new();
    for i in 0..60 {
        assert_eq!(decoder.is_full(), i == 60);
        decoder.add_bit(w[i]);
        assert_eq!(decoder.len(), i + 1);
    }
    assert!(decoder.is_full());
    assert_eq!(decoder.to_vec(), w);

    // The 61st bit drops the oldest one and keeps the length at 60.
    decoder.add_bit(Bit::Value(true));
    assert_eq!(decoder.len(), 60);
    assert!(decoder.is_full());
    let mut expected: Vec<Bit> = w[1..60].to_vec();
    expected.push(Bit::Value(true));
    assert_eq!(decoder.to_vec(), expected);
}

#[test]
fn test_not_enough_bits() {
    let mut decoder = Decoder::new();
    assert_eq!(
        failure_of(decoder.decode_dcf77()),
        DecodingFailure::NotEnoughBits
    );
    let w = build_window(5, 10, 15, 1, 1, 24, false, true);
    decoder.add_bit_slice(&w[0..59]);
    assert_eq!(
        failure_of(decoder.decode_dcf77()),
        DecodingFailure::NotEnoughBits
    );
}

#[test]
fn test_get_bit() {
    let w = build_window(5, 10, 15, 1, 1, 24, false, true);
    let mut decoder = Decoder::new();
    decoder.add_bit_slice(&w);
    for i in 0..60 {
        assert_eq!(decoder.get_bit(i), w[i]);
    }
}

#[test]
fn test_add_variants() {
    let mut decoder = Decoder::new();
    decoder.add_maybe_bit(true);
    decoder.add_maybe_bit(Bit::Unknown);
    // The low four bits of 5, least significant first: 1, 0, 1, 0.
    decoder.add_bits(4, 5i32);
    let bits = vec![Bit::Skipped, Bit::Value(true), Bit::Value(false)];
    decoder.add_bitvec(2, &bits);
    assert_eq!(
        decoder.to_vec(),
        vec![
            Bit::Value(true),
            Bit::Unknown,
            Bit::Value(true),
            Bit::Value(false),
            Bit::Value(true),
            Bit::Value(false),
            Bit::Skipped,
            Bit::Value(true),
        ]
    );
}

#[test]
fn test_add_signal_byte() {
    let mut decoder = Decoder::new();
    decoder.add_signal_byte(0x00);
    decoder.add_signal_byte(0x01);
    decoder.add_signal_byte(0xFF);
    decoder.add_signal_byte(0b101);
    assert_eq!(
        decoder.to_vec(),
        vec![Bit::Skipped, Bit::Value(false), Bit::Value(true), Bit::Unknown]
    );
}

#[test]
fn test_header_alignment() {
    assert_eq!(DECODE_HEADER.len(), 60);
}

#[test]
fn test_check_parity() {
    let even = [Bit::Value(true), Bit::Value(false), Bit::Value(true)];
    assert!(check_parity(ParityBitName::Minute, &even).is_ok());
    let odd = [Bit::Value(true), Bit::Value(false), Bit::Value(false)];
    assert_eq!(
        check_parity(ParityBitName::Hour, &odd)
            .unwrap_err()
            .decoding_failure(),
        Some(DecodingFailure::ParityError(ParityBitName::Hour))
    );
    let missing = [Bit::Value(true), Bit::Unknown];
    assert_eq!(
        check_parity(ParityBitName::Date, &missing)
            .unwrap_err()
            .decoding_failure(),
        Some(DecodingFailure::MissingBit)
    );
}

#[test]
fn test_decode_bits_and_bcd() {
    let field = [Bit::Value(true), Bit::Value(false), Bit::Value(true)];
    let v: u8 = decode_bits(&field).unwrap();
    assert_eq!(v, 0b101);
    let broken = [Bit::Value(true), Bit::Skipped];
    let r: Result<u8, Dcf77Error> = decode_bits(&broken);
    assert_eq!(
        r.unwrap_err().decoding_failure(),
        Some(DecodingFailure::MissingBit)
    );

    // Ones digit 5, tens digit 1: the field value is fifteen.
    let ones = lsb_bits(5, 4);
    let tens = lsb_bits(1, 2);
    assert_eq!(decode_bcd(&ones, &tens).unwrap(), 15);
}

#[test]
fn test_timezone_from_bits() {
    // LSB-first: position 17 first, position 18 second.
    let mez: Result<Dcf77Tz, Dcf77Error> =
        FromBits::from_bits_lsb(&[false, true]);
    assert_eq!(mez.unwrap(), Dcf77Tz::MEZ);
    let mesz: Result<Dcf77Tz, Dcf77Error> =
        FromBits::from_bits_lsb(&[true, false]);
    assert_eq!(mesz.unwrap(), Dcf77Tz::MESZ);
    let invalid: Result<Dcf77Tz, Dcf77Error> =
        FromBits::from_bits_lsb(&[true, true]);
    assert_eq!(
        invalid.unwrap_err().decoding_failure(),
        Some(DecodingFailure::InvalidTimezoneBits)
    );
}
