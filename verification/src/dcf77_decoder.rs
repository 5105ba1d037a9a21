//! The DCF77 telegram decoder: a 60-slot sample window and the bit-exact
//! interpretation of one broadcast minute.
//!
//! Encoding of the 60 positions (least significant bit first in every
//! numeric field):
//!
//! | second  | contents                                              |
//! |---------|-------------------------------------------------------|
//! | 0 - 14  | not interpreted here                                  |
//! | 15      | R: irregularity call bit                              |
//! | 16      | A1: zone change expected                              |
//! | 17 - 18 | Z1, Z2: time zone (Z2 set = MEZ, Z1 set = MESZ)       |
//! | 19      | A2: leap second expected                              |
//! | 20      | S: start of time code, always 1                       |
//! | 21 - 24 | minutes, ones digit                                   |
//! | 25 - 27 | minutes, tens digit                                   |
//! | 28      | P1: minute parity (even)                              |
//! | 29 - 32 | hours, ones digit                                     |
//! | 33 - 34 | hours, tens digit                                     |
//! | 35      | P2: hour parity (even)                                |
//! | 36 - 39 | day of month, ones digit                              |
//! | 40 - 41 | day of month, tens digit                              |
//! | 42 - 44 | day of week (1 Monday .. 7 Sunday)                    |
//! | 45 - 48 | month, ones digit                                     |
//! | 49      | month, tens digit                                     |
//! | 50 - 53 | year minus 2000, ones digit                           |
//! | 54 - 57 | year minus 2000, tens digit                           |
//! | 58      | P3: date parity (even) over 36 - 58                   |
//! | 59      | no signal (minute mark)                               |

use vstd::prelude::*;
use vstd::arithmetic::power2::{pow2, lemma_pow2_unfold, lemma2_to64};
use vstd::arithmetic::div_mod::lemma_small_mod;
use crate::bitrep::{
    Bit, MaybeBit, MaybeBits, FromBits, all_definite, definite_values, spec_lift_bit, to_bit,
    fold_msb,
};
use crate::calendar::{valid_civil_datetime, civil_check};
use crate::frame::{
    ring_contents, ring_capacity, ring_new, ring_len, ring_is_full, ring_enqueue, ring_to_vec,
    ring_get,
};

verus! {

/// Printable header whose columns line up with the 60 bit positions.
pub const DECODE_HEADER: &'static str =
    "---------------RADMLS1248124P124812P1248121241248112481248P_";

/// Which even-parity group a parity failure belongs to.
#[derive(Clone, Copy, Debug, PartialEq, Eq, Structural)]
pub enum ParityBitName {
    Minute,
    Hour,
    Date,
}

/// A structural or protocol violation detected against the 60-bit window.
#[derive(Clone, Copy, Debug, PartialEq, Eq, Structural)]
pub enum DecodingFailure {
    NotEnoughBits,
    MissingBit,
    ParityError(ParityBitName),
    MissingStartOfTimeCode,
    /// Bit 59 does not carry the minute mark.
    NotSync,
    InvalidTimezoneBits,
    /// The numeric type is too narrow for the tens multiplier; defensive,
    /// never produced by the widths used here.
    BCDNotBigenough,
}

/// Any failure of one decode attempt: a protocol violation, or a decoded
/// field combination that does not form a valid calendar date-time.
#[derive(Debug)]
pub enum Dcf77Error {
    DecodingError(DecodingFailure),
    JiffError(jiff::Error),
}

impl Dcf77Error {
    /// The decoding failure held by this error, if it is one.
    pub fn decoding_failure(&self) -> (r: Option<DecodingFailure>)
        ensures
            r == (match *self {
                Dcf77Error::DecodingError(e) => Some(e),
                Dcf77Error::JiffError(_) => None::<DecodingFailure>,
            }),
    {
        match self {
            Dcf77Error::DecodingError(e) => Some(*e),
            _ => None,
        }
    }

    /// The calendar-construction error held by this error, if it is one.
    pub fn jiff_error(&self) -> (r: Option<&jiff::Error>)
        ensures
            r is Some <==> self matches Dcf77Error::JiffError(_),
    {
        match self {
            Dcf77Error::JiffError(e) => Some(e),
            _ => None,
        }
    }
}

/// The two broadcast time zones: MEZ is UTC+1, MESZ is UTC+2.
#[derive(Clone, Copy, Debug, PartialEq, Eq, Structural)]
pub enum Dcf77Tz {
    MEZ,
    MESZ,
}

impl Dcf77Tz {
    /// The UTC offset of this zone, in whole hours.
    pub open spec fn spec_utc_offset_hours(self) -> i8 {
        match self {
            Dcf77Tz::MEZ => 1,
            Dcf77Tz::MESZ => 2,
        }
    }

    /// Returns the UTC offset of this zone, in whole hours.
    pub fn to_utc_offset_hours(&self) -> (r: i8)
        ensures
            r == self.spec_utc_offset_hours(),
    {
        match *self {
            Dcf77Tz::MEZ => 1,
            Dcf77Tz::MESZ => 2,
        }
    }
}

/// The zone selected by the two-bit value read LSB-first from positions
/// 17-18: value 2 (bit 18 set) is MEZ, value 1 (bit 17 set) is MESZ, and
/// both-zero or both-set are invalid.
pub open spec fn spec_tz_of(v: u8) -> Result<Dcf77Tz, Dcf77Error> {
    if v == 2 {
        Ok(Dcf77Tz::MEZ)
    } else if v == 1 {
        Ok(Dcf77Tz::MESZ)
    } else {
        Err(Dcf77Error::DecodingError(DecodingFailure::InvalidTimezoneBits))
    }
}

impl FromBits for Result<Dcf77Tz, Dcf77Error> {
    open spec fn spec_from_msb(s: Seq<bool>) -> Result<Dcf77Tz, Dcf77Error> {
        spec_tz_of(<u8 as FromBits>::spec_from_msb(s))
    }

    fn from_bits_msb(bits: &[bool]) -> (r: Result<Dcf77Tz, Dcf77Error>) {
        let v: u8 = u8::from_bits_msb(bits);
        if v == 2 {
            Ok(Dcf77Tz::MEZ)
        } else if v == 1 {
            Ok(Dcf77Tz::MESZ)
        } else {
            Err(Dcf77Error::DecodingError(DecodingFailure::InvalidTimezoneBits))
        }
    }
}

/// The exclusive-or fold of a bit sequence, non-definite slots counted
/// as zero; the even-parity test once all slots are known definite.
pub open spec fn parity_fold(s: Seq<Bit>) -> bool
    decreases s.len(),
{
    if s.len() == 0 {
        false
    } else {
        parity_fold(s.drop_last()) != (s.last() == Bit::Value(true))
    }
}

/// What checking an even-parity group yields: the first non-definite slot
/// fails with `MissingBit`, an odd count of ones with `ParityError`.
pub open spec fn spec_check_parity(name: ParityBitName, s: Seq<Bit>) -> Result<(), Dcf77Error> {
    if !all_definite(s) {
        Err(Dcf77Error::DecodingError(DecodingFailure::MissingBit))
    } else if parity_fold(s) {
        Err(Dcf77Error::DecodingError(DecodingFailure::ParityError(name)))
    } else {
        Ok(())
    }
}

/// Checks one even-parity group: every slot must be definite and the
/// exclusive-or of all values must be zero.
pub fn check_parity(name: ParityBitName, bits: &[Bit]) -> (r: Result<(), Dcf77Error>)
    ensures
        r == spec_check_parity(name, bits@),
{
    let mut parity = false;
    let n = bits.len();
    proof {
        assert(bits@.take(0) =~= Seq::<Bit>::empty());
    }
    for i in 0..n
        invariant
            n == bits@.len(),
            forall|j: int| 0 <= j < i ==> (#[trigger] bits@[j]) is Value,
            parity == parity_fold(bits@.take(i as int)),
    {
        proof {
            assert(bits@.take(i as int + 1).drop_last() =~= bits@.take(i as int));
            assert(bits@.take(i as int + 1).last() == bits@[i as int]);
        }
        match bits[i] {
            Bit::Value(v) => {
                parity = parity != v;
            },
            _ => {
                return Err(Dcf77Error::DecodingError(DecodingFailure::MissingBit));
            },
        }
    }
    proof {
        assert(bits@.take(n as int) =~= bits@);
    }
    if parity {
        Err(Dcf77Error::DecodingError(DecodingFailure::ParityError(name)))
    } else {
        Ok(())
    }
}

/// Decodes a bit field read least-significant-bit first; any non-definite
/// slot fails the whole field with `MissingBit`.
pub fn decode_bits<T: FromBits>(bits: &[Bit]) -> (r: Result<T, Dcf77Error>)
    ensures
        all_definite(bits@) ==> (r matches Ok(v) && v == T::spec_from_msb(
            definite_values(bits@.reverse()),
        )),
        !all_definite(bits@) ==> r == Err::<T, Dcf77Error>(
            Dcf77Error::DecodingError(DecodingFailure::MissingBit),
        ),
{
    match T::from_maybebits_lsb(bits) {
        Some(v) => Ok(v),
        None => Err(Dcf77Error::DecodingError(DecodingFailure::MissingBit)),
    }
}

/// The numeric value of a definite bit field read least-significant-bit
/// first.
pub open spec fn field_value(s: Seq<Bit>) -> nat {
    fold_msb(definite_values(s.reverse()))
}

/// What decoding a two-digit BCD field yields: ten times the tens digit
/// plus the ones digit, exactly; a non-definite slot in either digit
/// fails with `MissingBit`.
pub open spec fn spec_decode_bcd(lower: Seq<Bit>, higher: Seq<Bit>) -> Result<i16, Dcf77Error> {
    if all_definite(lower) && all_definite(higher) {
        Ok((10 * field_value(higher) + field_value(lower)) as i16)
    } else {
        Err(Dcf77Error::DecodingError(DecodingFailure::MissingBit))
    }
}

/// A definite bit field of width `w` holds a value below `2^w`.
pub proof fn lemma_field_value_bound(s: Seq<Bit>)
    ensures
        field_value(s) < pow2(s.len()),
{
    lemma_fold_msb_bound(definite_values(s.reverse()));
}

proof fn lemma_fold_msb_bound(s: Seq<bool>)
    ensures
        fold_msb(s) < pow2(s.len()),
    decreases s.len(),
{
    if s.len() == 0 {
        lemma2_to64();
    } else {
        lemma_fold_msb_bound(s.drop_last());
        lemma_pow2_unfold(s.len());
    }
}

/// Decodes a two-digit BCD field: each digit read LSB-first as a signed
/// 8-bit value, combined as exactly ten times the tens digit plus the
/// ones digit.
pub fn decode_bcd(lower_bits: &[Bit], higher_bits: &[Bit]) -> (r: Result<i16, Dcf77Error>)
    requires
        lower_bits@.len() <= 4,
        higher_bits@.len() <= 4,
    ensures
        r == spec_decode_bcd(lower_bits@, higher_bits@),
        r matches Ok(v) ==> 0 <= v
            && v == 10 * field_value(higher_bits@) + field_value(lower_bits@),
{
    proof {
        lemma_field_value_bound(lower_bits@);
        lemma_field_value_bound(higher_bits@);
        lemma2_to64();
        lemma_pow2_bound_le_4(lower_bits@.len());
        lemma_pow2_bound_le_4(higher_bits@.len());
        lemma_small_mod(field_value(lower_bits@), 256);
        lemma_small_mod(field_value(higher_bits@), 256);
    }
    let lower: i8 = match decode_bits::<i8>(lower_bits) {
        Ok(v) => v,
        Err(e) => {
            return Err(e);
        },
    };
    let higher: i8 = match decode_bits::<i8>(higher_bits) {
        Ok(v) => v,
        Err(e) => {
            return Err(e);
        },
    };
    Ok((higher as i16) * 10 + (lower as i16))
}

proof fn lemma_pow2_bound_le_4(w: nat)
    requires
        w <= 4,
    ensures
        pow2(w) <= 16,
{
    lemma2_to64();
}

/// The capacity of the sample window: one bit per second of a minute.
pub const WINDOW_SIZE: usize = 60;

/// The window after appending one bit: the oldest sample leaves once the
/// 60-slot capacity is reached.
pub open spec fn window_push(s: Seq<Bit>, b: Bit) -> Seq<Bit> {
    if s.len() < 60 {
        s.push(b)
    } else {
        s.skip(1).push(b)
    }
}

/// The window after appending a sequence of bits in order.
pub open spec fn window_push_seq(s: Seq<Bit>, bits: Seq<Bit>) -> Seq<Bit>
    decreases bits.len(),
{
    if bits.len() == 0 {
        s
    } else {
        window_push_seq(window_push(s, bits[0]), bits.drop_first())
    }
}

/// One decoded broadcast minute: the calendar fields and the zone whose
/// UTC offset they are expressed in.
#[derive(Clone, Copy, Debug, PartialEq, Eq, Structural)]
pub struct Dcf77DateTime {
    pub year: i16,
    pub month: i8,
    pub day: i8,
    pub hour: i8,
    pub minute: i8,
    pub tz: Dcf77Tz,
}

/// The two-digit BCD value whose ones digit sits at positions `lo..mid`
/// and tens digit at `mid..hi`, each digit LSB-first.
pub open spec fn spec_bcd_at(s: Seq<Bit>, lo: int, mid: int, hi: int) -> int {
    10 * field_value(s.subrange(mid, hi)) + field_value(s.subrange(lo, mid)) as int
}

/// The calendar fields read from a window that passed every check.
pub open spec fn spec_decoded_fields(s: Seq<Bit>) -> Dcf77DateTime {
    Dcf77DateTime {
        year: (2000 + spec_bcd_at(s, 50, 54, 58)) as i16,
        month: spec_bcd_at(s, 45, 49, 50) as i8,
        day: spec_bcd_at(s, 36, 40, 42) as i8,
        hour: spec_bcd_at(s, 29, 33, 35) as i8,
        minute: spec_bcd_at(s, 21, 25, 28) as i8,
        tz: if field_value(s.subrange(17, 19)) == 2 {
            Dcf77Tz::MEZ
        } else {
            Dcf77Tz::MESZ
        },
    }
}

/// The whole decode pipeline over a window, up to calendar validation:
/// the checks run in this order and the first failure wins.
pub open spec fn spec_decode_fields(s: Seq<Bit>) -> Result<Dcf77DateTime, DecodingFailure> {
    if s.len() < 60 {
        Err(DecodingFailure::NotEnoughBits)
    } else if s[59] != Bit::Skipped {
        Err(DecodingFailure::NotSync)
    } else if !all_definite(s.subrange(17, 19)) {
        Err(DecodingFailure::MissingBit)
    } else if field_value(s.subrange(17, 19)) != 1 && field_value(s.subrange(17, 19)) != 2 {
        Err(DecodingFailure::InvalidTimezoneBits)
    } else if s[20] != Bit::Value(true) {
        Err(DecodingFailure::MissingStartOfTimeCode)
    } else if !all_definite(s.subrange(21, 29)) {
        Err(DecodingFailure::MissingBit)
    } else if parity_fold(s.subrange(21, 29)) {
        Err(DecodingFailure::ParityError(ParityBitName::Minute))
    } else if !all_definite(s.subrange(29, 36)) {
        Err(DecodingFailure::MissingBit)
    } else if parity_fold(s.subrange(29, 36)) {
        Err(DecodingFailure::ParityError(ParityBitName::Hour))
    } else if !all_definite(s.subrange(36, 59)) {
        Err(DecodingFailure::MissingBit)
    } else if parity_fold(s.subrange(36, 59)) {
        Err(DecodingFailure::ParityError(ParityBitName::Date))
    } else {
        Ok(spec_decoded_fields(s))
    }
}

/// Definiteness carries over to any inner subrange.
proof fn lemma_definite_subrange(s: Seq<Bit>, lo: int, hi: int, lo2: int, hi2: int)
    requires
        0 <= lo <= lo2 <= hi2 <= hi <= s.len(),
        all_definite(s.subrange(lo, hi)),
    ensures
        all_definite(s.subrange(lo2, hi2)),
{
    assert forall|i: int| 0 <= i < hi2 - lo2 implies (#[trigger] s.subrange(lo2, hi2)[i])
        is Value by {
        assert(s.subrange(lo2, hi2)[i] == s.subrange(lo, hi)[i + lo2 - lo]);
    }
}

/// Appending grows the window by one sample until 60 are stored; one
/// more append keeps the length at 60 and drops exactly the oldest
/// previously stored sample, shifting the rest by one.
pub proof fn lemma_window_push_len(s: Seq<Bit>, b: Bit)
    ensures
        s.len() < 60 ==> window_push(s, b).len() == s.len() + 1,
        s.len() >= 60 ==> window_push(s, b).len() == s.len(),
        s.len() == 60 ==> window_push(s, b) =~= s.subrange(1, 60).push(b),
{
}

/// Appending a run of samples fills the window up to 60 and no further.
pub proof fn lemma_window_push_seq_len(s: Seq<Bit>, bits: Seq<Bit>)
    requires
        s.len() <= 60,
    ensures
        s.len() + bits.len() <= 60 ==> window_push_seq(s, bits).len() == s.len() + bits.len(),
        s.len() + bits.len() > 60 ==> window_push_seq(s, bits).len() == 60,
    decreases bits.len(),
{
    if bits.len() != 0 {
        lemma_window_push_seq_len(window_push(s, bits[0]), bits.drop_first());
    }
}

/// A window of fewer than 60 samples never decodes: the attempt fails
/// with `NotEnoughBits`.
pub proof fn lemma_decode_needs_full_window(s: Seq<Bit>)
    requires
        s.len() < 60,
    ensures
        spec_decode_fields(s) == Err::<Dcf77DateTime, DecodingFailure>(
            DecodingFailure::NotEnoughBits,
        ),
{
}

/// A full window whose position 59 carries anything but the minute mark
/// fails with `NotSync`, whatever the other positions hold.
pub proof fn lemma_not_sync(s: Seq<Bit>)
    requires
        s.len() == 60,
        s[59] != Bit::Skipped,
    ensures
        spec_decode_fields(s) == Err::<Dcf77DateTime, DecodingFailure>(DecodingFailure::NotSync),
{
}

/// Unfolds the two-bit timezone field: its LSB-first value over the
/// definite bits at positions 17 and 18.
proof fn lemma_tz_field_value(s: Seq<Bit>)
    requires
        s.len() == 60,
        s[17] is Value,
        s[18] is Value,
    ensures
        all_definite(s.subrange(17, 19)),
        field_value(s.subrange(17, 19)) == 2 * (if s[18] == Bit::Value(true) {
            1int
        } else {
            0int
        }) + (if s[17] == Bit::Value(true) {
            1int
        } else {
            0int
        }),
{
    let sub = s.subrange(17, 19);
    assert(all_definite(sub)) by {
        assert(forall|i: int| 0 <= i < 2 ==> (#[trigger] sub[i]) == s[17 + i]);
    }
    let r = definite_values(sub.reverse());
    assert(r.len() == 2);
    assert(r[0] == (s[18] == Bit::Value(true)));
    assert(r[1] == (s[17] == Bit::Value(true)));
    assert(r.drop_last().drop_last() =~= Seq::<bool>::empty());
    assert(r.drop_last().last() == r[0]);
    assert(fold_msb(r.drop_last().drop_last()) == 0);
    assert(fold_msb(r.drop_last()) == (if r[0] {
        1nat
    } else {
        0nat
    }));
    assert(r.last() == r[1]);
    assert(fold_msb(r) == 2 * fold_msb(r.drop_last()) + (if r[1] {
        1nat
    } else {
        0nat
    }));
}

/// The timezone codes, exact in both directions: both-zero and both-set
/// are rejected as `InvalidTimezoneBits`; a window that decodes carries
/// MEZ exactly when bit 18 is set (code `10`, value 2) and MESZ exactly
/// when bit 17 is set (code `01`, value 1).
pub proof fn lemma_timezone_bits(s: Seq<Bit>)
    requires
        s.len() == 60,
        s[59] == Bit::Skipped,
        s[17] is Value,
        s[18] is Value,
    ensures
        s[17] == s[18] ==> spec_decode_fields(s) == Err::<Dcf77DateTime, DecodingFailure>(
            DecodingFailure::InvalidTimezoneBits,
        ),
        (spec_decode_fields(s) matches Ok(dt) ==> (dt.tz == Dcf77Tz::MEZ <==> s[18]
            == Bit::Value(true))),
        (spec_decode_fields(s) matches Ok(dt) ==> (dt.tz == Dcf77Tz::MESZ <==> s[17]
            == Bit::Value(true))),
{
    lemma_tz_field_value(s);
}

/// A window that gets as far as the start marker fails with
/// `MissingStartOfTimeCode` whenever position 20 does not hold a
/// definite one.
pub proof fn lemma_missing_start_marker(s: Seq<Bit>)
    requires
        s.len() == 60,
        s[59] == Bit::Skipped,
        s[17] is Value,
        s[18] is Value,
        s[17] != s[18],
        s[20] != Bit::Value(true),
    ensures
        spec_decode_fields(s) == Err::<Dcf77DateTime, DecodingFailure>(
            DecodingFailure::MissingStartOfTimeCode,
        ),
{
    lemma_tz_field_value(s);
}

/// Updating one slot leaves any subrange that does not contain it
/// unchanged.
proof fn lemma_subrange_update_outside(s: Seq<Bit>, lo: int, hi: int, i: int, b: Bit)
    requires
        0 <= lo <= hi <= s.len(),
        0 <= i < s.len(),
        i < lo || i >= hi,
    ensures
        s.update(i, b).subrange(lo, hi) =~= s.subrange(lo, hi),
{
}

/// Updating one slot inside a subrange updates the subrange at the
/// shifted position.
proof fn lemma_subrange_update_inside(s: Seq<Bit>, lo: int, hi: int, i: int, b: Bit)
    requires
        0 <= lo <= i < hi <= s.len(),
    ensures
        s.update(i, b).subrange(lo, hi) =~= s.subrange(lo, hi).update(i - lo, b),
{
}

/// Replacing one definite bit by the opposite definite bit flips the
/// exclusive-or fold.
proof fn lemma_parity_fold_flip(s: Seq<Bit>, i: int, b: Bit)
    requires
        0 <= i < s.len(),
        s[i] is Value,
        b is Value,
        b != s[i],
    ensures
        parity_fold(s.update(i, b)) == !parity_fold(s),
    decreases s.len(),
{
    let s2 = s.update(i, b);
    if i == s.len() - 1 {
        assert(s2.drop_last() =~= s.drop_last());
    } else {
        assert(s2.drop_last() =~= s.drop_last().update(i, b));
        lemma_parity_fold_flip(s.drop_last(), i, b);
    }
}

/// Definiteness of a span survives replacing one slot by a definite bit.
proof fn lemma_definite_update(s: Seq<Bit>, b: Bit)
    requires
        b is Value,
        forall|j: int| 0 <= j < s.len() ==> (#[trigger] s[j]) is Value,
    ensures
        forall|i: int|
            0 <= i < s.len() ==> all_definite(#[trigger] s.update(i, b)),
{
    assert forall|i: int| 0 <= i < s.len() implies all_definite(#[trigger] s.update(i, b)) by {
        assert(forall|j: int|
            0 <= j < s.len() ==> (#[trigger] s.update(i, b)[j]) == (if j == i {
                b
            } else {
                s[j]
            }));
    }
}

/// Flipping any single definite bit of one parity-covered span of a
/// window that decodes, without touching its parity bit or anything
/// else, makes the decode fail with exactly that span's parity error.
pub proof fn lemma_parity_flip(s: Seq<Bit>, i: int, b: Bit)
    requires
        s.len() == 60,
        spec_decode_fields(s) is Ok,
        21 <= i < 59,
        b is Value,
        b != s[i],
    ensures
        21 <= i < 29 ==> spec_decode_fields(s.update(i, b)) == Err::<
            Dcf77DateTime,
            DecodingFailure,
        >(DecodingFailure::ParityError(ParityBitName::Minute)),
        29 <= i < 36 ==> spec_decode_fields(s.update(i, b)) == Err::<
            Dcf77DateTime,
            DecodingFailure,
        >(DecodingFailure::ParityError(ParityBitName::Hour)),
        36 <= i < 59 ==> spec_decode_fields(s.update(i, b)) == Err::<
            Dcf77DateTime,
            DecodingFailure,
        >(DecodingFailure::ParityError(ParityBitName::Date)),
{
    let s2 = s.update(i, b);
    lemma_subrange_update_outside(s, 17, 19, i, b);
    assert(s2[59] == s[59]);
    assert(s2[20] == s[20]);
    let (lo, hi): (int, int) = if i < 29 {
        (21int, 29int)
    } else if i < 36 {
        (29int, 36int)
    } else {
        (36int, 59int)
    };
    assert(s[i] == s.subrange(lo, hi)[i - lo]);
    lemma_subrange_update_inside(s, lo, hi, i, b);
    lemma_parity_fold_flip(s.subrange(lo, hi), i - lo, b);
    assert(all_definite(s2.subrange(lo, hi))) by {
        assert(forall|j: int|
            0 <= j < hi - lo ==> (#[trigger] s2.subrange(lo, hi)[j]) == (if j == i - lo {
                b
            } else {
                s.subrange(lo, hi)[j]
            }));
    }
    if 29 <= i {
        lemma_subrange_update_outside(s, 21, 29, i, b);
    }
    if 36 <= i {
        lemma_subrange_update_outside(s, 29, 36, i, b);
    }
}

/// Blanking any slot of the timezone field or of a parity-covered span
/// of a window that decodes makes the decode fail with `MissingBit`:
/// an unknown bit is reported, never silently folded into a number.
pub proof fn lemma_unknown_bit(s: Seq<Bit>, i: int)
    requires
        s.len() == 60,
        spec_decode_fields(s) is Ok,
        17 <= i <= 18 || 21 <= i < 59,
    ensures
        spec_decode_fields(s.update(i, Bit::Unknown)) == Err::<Dcf77DateTime, DecodingFailure>(
            DecodingFailure::MissingBit,
        ),
{
    let s2 = s.update(i, Bit::Unknown);
    assert(s2[59] == s[59]);
    if i <= 18 {
        lemma_subrange_update_inside(s, 17, 19, i, Bit::Unknown);
        assert(s2.subrange(17, 19)[i - 17] == Bit::Unknown);
    } else {
        lemma_subrange_update_outside(s, 17, 19, i, Bit::Unknown);
        assert(s2[20] == s[20]);
        let (lo, hi): (int, int) = if i < 29 {
            (21int, 29int)
        } else if i < 36 {
            (29int, 36int)
        } else {
            (36int, 59int)
        };
        lemma_subrange_update_inside(s, lo, hi, i, Bit::Unknown);
        assert(s2.subrange(lo, hi)[i - lo] == Bit::Unknown);
        assert(!all_definite(s2.subrange(lo, hi)));
        if 29 <= i {
            lemma_subrange_update_outside(s, 21, 29, i, Bit::Unknown);
        }
        if 36 <= i {
            lemma_subrange_update_outside(s, 29, 36, i, Bit::Unknown);
        }
    }
}

/// The sliding 60-slot window of the most recent samples, plus the decode
/// attempt over it.
pub struct Decoder {
    buffer: ringbuffer::AllocRingBuffer<Bit>,
}

impl View for Decoder {
    type V = Seq<Bit>;

    /// The stored samples, oldest first.
    closed spec fn view(&self) -> Seq<Bit> {
        ring_contents(self.buffer)
    }
}

impl Decoder {
    /// The window's capacity is fixed at 60 and its length never passes it.
    pub closed spec fn wf(&self) -> bool {
        ring_capacity(self.buffer) == 60 && ring_contents(self.buffer).len() <= 60
    }

    /// An empty window.
    pub fn new() -> (r: Decoder)
        ensures
            r.wf(),
            r@ == Seq::<Bit>::empty(),
    {
        Decoder { buffer: ring_new(WINDOW_SIZE) }
    }

    /// How many samples the window holds.
    pub fn len(&self) -> (r: usize)
        ensures
            r as nat == self@.len(),
    {
        ring_len(&self.buffer)
    }

    /// Whether a full minute of samples has been gathered.
    pub fn is_full(&self) -> (r: bool)
        requires
            self.wf(),
        ensures
            r == (self@.len() == 60),
    {
        ring_is_full(&self.buffer)
    }

    /// A snapshot of the window, oldest sample first.
    pub fn to_vec(&self) -> (r: Vec<Bit>)
        ensures
            r@ == self@,
    {
        ring_to_vec(&self.buffer)
    }

    /// Appends one sample, evicting the oldest one once the window is full.
    pub fn add_bit(&mut self, value: Bit)
        requires
            old(self).wf(),
        ensures
            final(self).wf(),
            final(self)@ == window_push(old(self)@, value),
    {
        ring_enqueue(&mut self.buffer, value);
    }

    /// Classifies a maybe-bit source and appends it.
    pub fn add_maybe_bit<V: MaybeBit>(&mut self, value: V)
        requires
            old(self).wf(),
        ensures
            final(self).wf(),
            final(self)@ == window_push(old(self)@, spec_lift_bit(value.spec_bit())),
    {
        let b = to_bit(value);
        self.add_bit(b);
    }

    /// Decodes one raw sample byte and appends the resulting bit.
    pub fn add_signal_byte(&mut self, raw: u8)
        requires
            old(self).wf(),
        ensures
            final(self).wf(),
            final(self)@ == window_push(old(self)@, crate::pulse_decoder::spec_decode_pulse(raw)),
    {
        let b = crate::pulse_decoder::decode_pulse(raw);
        self.add_bit(b);
    }

    /// Appends the low `count` bits of a fixed-width value, least
    /// significant first, each classified as a `Bit`.
    pub fn add_bits<V: MaybeBits>(&mut self, count: usize, value: V)
        requires
            old(self).wf(),
            count as nat <= value.spec_bit_len(),
        ensures
            final(self).wf(),
            final(self)@ == window_push_seq(
                old(self)@,
                Seq::new(count as nat, |i: int| spec_lift_bit(value.spec_nth_bit(i).spec_bit())),
            ),
    {
        let ghost target = Seq::new(
            count as nat,
            |i: int| spec_lift_bit(value.spec_nth_bit(i).spec_bit()),
        );
        let bitvec = value.to_bit_vector();
        proof {
            assert(target.skip(0) =~= target);
        }
        for i in 0..count
            invariant
                count as nat <= value.spec_bit_len(),
                bitvec@.len() == value.spec_bit_len(),
                forall|j: int| 0 <= j < bitvec@.len() ==> bitvec@[j] == value.spec_nth_bit(j),
                target.len() == count as nat,
                forall|j: int|
                    0 <= j < count ==> target[j] == spec_lift_bit(value.spec_nth_bit(j).spec_bit()),
                self.wf(),
                window_push_seq(self@, target.skip(i as int)) == window_push_seq(
                    old(self)@,
                    target,
                ),
        {
            proof {
                assert(target.skip(i as int).drop_first() =~= target.skip(i as int + 1));
                assert(target.skip(i as int)[0] == target[i as int]);
            }
            let b = to_bit(bitvec[i]);
            self.add_bit(b);
        }
        proof {
            assert(target.skip(count as int) =~= Seq::<Bit>::empty());
        }
    }

    /// Appends the first `count` bits of the given vector, in order.
    pub fn add_bitvec(&mut self, count: usize, bitvec: &Vec<Bit>)
        requires
            old(self).wf(),
            count as nat <= bitvec@.len(),
        ensures
            final(self).wf(),
            final(self)@ == window_push_seq(old(self)@, bitvec@.take(count as int)),
    {
        let ghost target = bitvec@.take(count as int);
        proof {
            assert(target.skip(0) =~= target);
        }
        for i in 0..count
            invariant
                count as nat <= bitvec@.len(),
                target == bitvec@.take(count as int),
                self.wf(),
                window_push_seq(self@, target.skip(i as int)) == window_push_seq(
                    old(self)@,
                    target,
                ),
        {
            proof {
                assert(target.skip(i as int).drop_first() =~= target.skip(i as int + 1));
                assert(target.skip(i as int)[0] == target[i as int]);
            }
            self.add_bit(bitvec[i]);
        }
        proof {
            assert(target.skip(count as int) =~= Seq::<Bit>::empty());
        }
    }

    /// Appends every bit of the slice, in order.
    pub fn add_bit_slice(&mut self, bits: &[Bit])
        requires
            old(self).wf(),
        ensures
            final(self).wf(),
            final(self)@ == window_push_seq(old(self)@, bits@),
    {
        let n = bits.len();
        proof {
            assert(bits@.skip(0) =~= bits@);
        }
        for i in 0..n
            invariant
                n == bits@.len(),
                self.wf(),
                window_push_seq(self@, bits@.skip(i as int)) == window_push_seq(
                    old(self)@,
                    bits@,
                ),
        {
            proof {
                assert(bits@.skip(i as int).drop_first() =~= bits@.skip(i as int + 1));
                assert(bits@.skip(i as int)[0] == bits@[i as int]);
            }
            self.add_bit(bits[i]);
        }
        proof {
            assert(bits@.skip(n as int) =~= Seq::<Bit>::empty());
        }
    }

    /// The sample at the given position, oldest first. The position must
    /// lie within the stored length; anything else is a caller error.
    pub fn get_bit(&self, index: usize) -> (r: Bit)
        requires
            self.wf(),
            (index as nat) < self@.len(),
        ensures
            r == self@[index as int],
    {
        ring_get(&self.buffer, index)
    }

    /// One decode attempt over the current window.
    ///
    /// The pipeline of `spec_decode_fields` runs first and its first
    /// failure is returned as a `DecodingError`. A window that passes
    /// every structural check yields its calendar fields exactly when
    /// they form a valid civil date-time; otherwise the calendar
    /// construction's own range error is passed through.
    pub fn decode_dcf77(&self) -> (r: Result<Dcf77DateTime, Dcf77Error>)
        requires
            self.wf(),
        ensures
            (match spec_decode_fields(self@) {
                Ok(dt) => {
                    if valid_civil_datetime(
                        dt.year as int,
                        dt.month as int,
                        dt.day as int,
                        dt.hour as int,
                        dt.minute as int,
                    ) {
                        r == Ok::<Dcf77DateTime, Dcf77Error>(dt)
                    } else {
                        (r matches Err(e) && e matches Dcf77Error::JiffError(_))
                    }
                },
                Err(f) => r == Err::<Dcf77DateTime, Dcf77Error>(Dcf77Error::DecodingError(f)),
            }),
    {
        let ghost s = self@;
        if !self.is_full() {
            return Err(Dcf77Error::DecodingError(DecodingFailure::NotEnoughBits));
        }
        let bitvec = self.to_vec();

        // Sync: bit 59 must carry the minute mark.
        if bitvec[59] != Bit::Skipped {
            return Err(Dcf77Error::DecodingError(DecodingFailure::NotSync));
        }

        proof {
            lemma_field_value_bound(s.subrange(17, 19));
            lemma2_to64();
            lemma_small_mod(field_value(s.subrange(17, 19)), 256);
        }
        let tz_res: Result<Result<Dcf77Tz, Dcf77Error>, Dcf77Error> = decode_bits(
            &bitvec[17..19],
        );
        let tz = match tz_res {
            Ok(inner) => match inner {
                Ok(t) => t,
                Err(e) => {
                    return Err(e);
                },
            },
            Err(e) => {
                return Err(e);
            },
        };

        if bitvec[20] != Bit::Value(true) {
            return Err(Dcf77Error::DecodingError(DecodingFailure::MissingStartOfTimeCode));
        }

        match check_parity(ParityBitName::Minute, &bitvec[21..29]) {
            Ok(()) => {},
            Err(e) => {
                return Err(e);
            },
        }
        proof {
            lemma_definite_subrange(s, 21, 29, 21, 25);
            lemma_definite_subrange(s, 21, 29, 25, 28);
        }
        let minute_v: i16 = match decode_bcd(&bitvec[21..25], &bitvec[25..28]) {
            Ok(v) => v,
            Err(e) => {
                return Err(e);
            },
        };

        match check_parity(ParityBitName::Hour, &bitvec[29..36]) {
            Ok(()) => {},
            Err(e) => {
                return Err(e);
            },
        }
        proof {
            lemma_definite_subrange(s, 29, 36, 29, 33);
            lemma_definite_subrange(s, 29, 36, 33, 35);
        }
        let hour_v: i16 = match decode_bcd(&bitvec[29..33], &bitvec[33..35]) {
            Ok(v) => v,
            Err(e) => {
                return Err(e);
            },
        };

        match check_parity(ParityBitName::Date, &bitvec[36..59]) {
            Ok(()) => {},
            Err(e) => {
                return Err(e);
            },
        }
        proof {
            lemma_definite_subrange(s, 36, 59, 36, 40);
            lemma_definite_subrange(s, 36, 59, 40, 42);
            lemma_definite_subrange(s, 36, 59, 45, 49);
            lemma_definite_subrange(s, 36, 59, 49, 50);
            lemma_definite_subrange(s, 36, 59, 50, 54);
            lemma_definite_subrange(s, 36, 59, 54, 58);
        }
        let day_v: i16 = match decode_bcd(&bitvec[36..40], &bitvec[40..42]) {
            Ok(v) => v,
            Err(e) => {
                return Err(e);
            },
        };
        let month_v: i16 = match decode_bcd(&bitvec[45..49], &bitvec[49..50]) {
            Ok(v) => v,
            Err(e) => {
                return Err(e);
            },
        };
        let year_v: i16 = match decode_bcd(&bitvec[50..54], &bitvec[54..58]) {
            Ok(v) => v,
            Err(e) => {
                return Err(e);
            },
        };

        proof {
            lemma_field_value_bound(s.subrange(21, 25));
            lemma_field_value_bound(s.subrange(25, 28));
            lemma_field_value_bound(s.subrange(29, 33));
            lemma_field_value_bound(s.subrange(33, 35));
            lemma_field_value_bound(s.subrange(36, 40));
            lemma_field_value_bound(s.subrange(40, 42));
            lemma_field_value_bound(s.subrange(45, 49));
            lemma_field_value_bound(s.subrange(49, 50));
            lemma_field_value_bound(s.subrange(50, 54));
            lemma_field_value_bound(s.subrange(54, 58));
        }

        let full_year: i16 = 2000 + year_v;
        let decoded = Dcf77DateTime {
            year: full_year,
            month: month_v as i8,
            day: day_v as i8,
            hour: hour_v as i8,
            minute: minute_v as i8,
            tz,
        };

        match civil_check(decoded.year, decoded.month, decoded.day, decoded.hour, decoded.minute) {
            Ok(()) => Ok(decoded),
            Err(e) => Err(Dcf77Error::JiffError(e)),
        }
    }
}

} // verus!
