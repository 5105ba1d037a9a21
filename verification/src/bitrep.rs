//! Tri-state signal bits and conversions between bit sequences and
//! fixed-width integers.

use vstd::prelude::*;
use vstd::arithmetic::power2::{pow2, lemma_pow2_unfold, lemma_pow2_pos, lemma2_to64};
use vstd::arithmetic::div_mod::{
    lemma_mul_mod_noop_right, lemma_add_mod_noop, lemma_mod_breakdown, lemma_div_denominator,
    lemma_small_mod,
};
use vstd::bits::{lemma_u8_shr_is_div, lemma_u16_shr_is_div, lemma_u32_shr_is_div};

verus! {

/// One received signal sample: a definite bit, an unclassifiable sample,
/// or a position that intentionally carries no signal.
#[derive(Clone, Copy, Debug, PartialEq, Eq, Structural)]
pub enum Bit {
    Unknown,
    Skipped,
    Value(bool),
}

/// A source that yields an optional boolean: `None` where the bit is not
/// definite.
pub trait MaybeBit {
    spec fn spec_bit(&self) -> Option<bool>;

    fn to_bit(&self) -> (r: Option<bool>)
        ensures
            r == self.spec_bit(),
    ;
}

/// A source that always yields a definite boolean.
pub trait PureBit {
    spec fn spec_bool(&self) -> bool;

    fn to_bool(&self) -> (r: bool)
        ensures
            r == self.spec_bool(),
    ;
}

impl<PB: PureBit> PureBit for &PB {
    open spec fn spec_bool(&self) -> bool {
        (**self).spec_bool()
    }

    fn to_bool(&self) -> (r: bool) {
        (**self).to_bool()
    }
}

/// Any always-definite source is a maybe-source that never yields `None`.
impl<PB: PureBit> MaybeBit for PB {
    open spec fn spec_bit(&self) -> Option<bool> {
        Some(self.spec_bool())
    }

    fn to_bit(&self) -> (r: Option<bool>) {
        Some(self.to_bool())
    }
}

impl PureBit for bool {
    open spec fn spec_bool(&self) -> bool {
        *self
    }

    fn to_bool(&self) -> (r: bool) {
        *self
    }
}

impl MaybeBit for Bit {
    open spec fn spec_bit(&self) -> Option<bool> {
        match *self {
            Bit::Value(v) => Some(v),
            _ => None,
        }
    }

    fn to_bit(&self) -> (r: Option<bool>) {
        match *self {
            Bit::Value(v) => Some(v),
            _ => None,
        }
    }
}

impl MaybeBit for &Bit {
    open spec fn spec_bit(&self) -> Option<bool> {
        match **self {
            Bit::Value(v) => Some(v),
            _ => None,
        }
    }

    fn to_bit(&self) -> (r: Option<bool>) {
        match **self {
            Bit::Value(v) => Some(v),
            _ => None,
        }
    }
}

/// The `Bit` that stands for an optional boolean: a definite value where
/// one is present, `Unknown` otherwise.
pub open spec fn spec_lift_bit(o: Option<bool>) -> Bit {
    match o {
        Some(v) => Bit::Value(v),
        None => Bit::Unknown,
    }
}

/// Classifies any maybe-bit source as a `Bit`.
pub fn to_bit<B: MaybeBit>(b: B) -> (r: Bit)
    ensures
        r == spec_lift_bit(b.spec_bit()),
{
    match b.to_bit() {
        Some(v) => Bit::Value(v),
        None => Bit::Unknown,
    }
}

impl Bit {
    /// The fixed glyph that renders this sample: `?`, `_`, `0` or `1`.
    pub open spec fn spec_glyph(self) -> char {
        match self {
            Bit::Unknown => '?',
            Bit::Skipped => '_',
            Bit::Value(false) => '0',
            Bit::Value(true) => '1',
        }
    }

    /// Renders this sample as one of four fixed glyphs.
    pub fn glyph(&self) -> (r: char)
        ensures
            r == self.spec_glyph(),
    {
        match *self {
            Bit::Unknown => '?',
            Bit::Skipped => '_',
            Bit::Value(false) => '0',
            Bit::Value(true) => '1',
        }
    }
}

/// The n-th binary digit of `v`, counting from the least significant.
pub open spec fn nth_bit_of(v: nat, n: nat) -> bool {
    (v / pow2(n)) % 2 == 1
}

/// The `w` low-order bits of `v`, least significant first.
pub open spec fn bits_of(v: nat, w: nat) -> Seq<bool> {
    Seq::new(w, |i: int| nth_bit_of(v, i as nat))
}

/// The value assembled by consuming a bit sequence most-significant-first
/// with repeated shift-left-and-or, without any width bound.
pub open spec fn fold_msb(s: Seq<bool>) -> nat
    decreases s.len(),
{
    if s.len() == 0 {
        0
    } else {
        2 * fold_msb(s.drop_last()) + (if s.last() {
            1nat
        } else {
            0nat
        })
    }
}

/// Reads a residue `m < full` as a two's-complement value with `half`
/// the smallest weight that turns negative.
pub open spec fn signed_of(m: nat, half: nat, full: nat) -> int {
    if m < half {
        m as int
    } else {
        m - full
    }
}

/// The two's-complement residue of `x` modulo `full`, for `-full <= 2*x < 2*full`.
pub open spec fn to_unsigned(x: int, full: nat) -> nat {
    if x >= 0 {
        x as nat
    } else {
        (x + full) as nat
    }
}

/// A fixed-width value whose bits can be read by index, least significant
/// bit first.
pub trait MaybeBits: Sized {
    type BitElem: MaybeBit + Copy;

    spec fn spec_bit_len(&self) -> nat;

    spec fn spec_nth_bit(&self, n: int) -> Self::BitElem;

    fn bit_len(&self) -> (r: usize)
        ensures
            r as nat == self.spec_bit_len(),
    ;

    fn nth_bit(&self, n: usize) -> (r: Self::BitElem)
        requires
            (n as nat) < self.spec_bit_len(),
        ensures
            r == self.spec_nth_bit(n as int),
    ;

    /// All bits of the value, index 0 the least significant.
    fn to_bit_vector(&self) -> (r: Vec<Self::BitElem>)
        ensures
            r@.len() == self.spec_bit_len(),
            forall|i: int| 0 <= i < r@.len() ==> r@[i] == self.spec_nth_bit(i),
    {
        let mut result: Vec<Self::BitElem> = Vec::new();
        let n = self.bit_len();
        for i in 0..n
            invariant
                n as nat == self.spec_bit_len(),
                result@.len() == i,
                forall|j: int| 0 <= j < i ==> result@[j] == self.spec_nth_bit(j),
        {
            result.push(self.nth_bit(i));
        }
        result
    }
}

/// A `MaybeBits` type whose width does not depend on the value.
pub trait FixedLengthMaybeBits: MaybeBits {
    spec fn spec_bit_count() -> nat;

    proof fn lemma_fixed_len(&self)
        ensures
            self.spec_bit_len() == Self::spec_bit_count(),
    ;
}

/// Every slot of `s` holds a definite bit.
pub open spec fn all_definite(s: Seq<Bit>) -> bool {
    forall|i: int| 0 <= i < s.len() ==> (#[trigger] s[i]) is Value
}

/// The boolean carried by each slot; meaningful where `all_definite` holds.
pub open spec fn definite_values(s: Seq<Bit>) -> Seq<bool> {
    s.map_values(|b: Bit| b == Bit::Value(true))
}

/// A fixed-width numeric value that can be assembled from a sequence of
/// bits. Assembling from more bits than the width silently truncates to
/// the low-order bits, as the shift-and-or fold does.
pub trait FromBits: Sized {
    /// The value assembled from `s`, first element most significant.
    spec fn spec_from_msb(s: Seq<bool>) -> Self;

    fn from_bits_msb(bits: &[bool]) -> (r: Self)
        ensures
            r == Self::spec_from_msb(bits@),
    ;

    fn from_bits_lsb(bits: &[bool]) -> (r: Self)
        ensures
            r == Self::spec_from_msb(bits@.reverse()),
    {
        let rev = collect_reversed(bits);
        Self::from_bits_msb(rev.as_slice())
    }

    /// Fails whenever any input bit is not definite.
    fn from_maybebits_msb(bits: &[Bit]) -> (r: Option<Self>)
        ensures
            r matches Some(v) ==> all_definite(bits@) && v == Self::spec_from_msb(
                definite_values(bits@),
            ),
            r is None <==> !all_definite(bits@),
    {
        match collect_definite(bits) {
            Some(vals) => Some(Self::from_bits_msb(vals.as_slice())),
            None => None,
        }
    }

    /// Fails whenever any input bit is not definite.
    fn from_maybebits_lsb(bits: &[Bit]) -> (r: Option<Self>)
        ensures
            r matches Some(v) ==> all_definite(bits@) && v == Self::spec_from_msb(
                definite_values(bits@.reverse()),
            ),
            r is None <==> !all_definite(bits@),
    {
        let rev = collect_reversed(bits);
        proof {
            assert(all_definite(bits@.reverse()) <==> all_definite(bits@)) by {
                assert(forall|i: int|
                    0 <= i < bits@.len() ==> bits@.reverse()[bits@.len() - 1 - i] == #[trigger] bits@[i]);
            }
        }
        Self::from_maybebits_msb(rev.as_slice())
    }
}

/// The input slice in reverse order.
fn collect_reversed<T: Copy>(items: &[T]) -> (r: Vec<T>)
    ensures
        r@ == items@.reverse(),
{
    let mut out: Vec<T> = Vec::new();
    let n = items.len();
    for i in 0..n
        invariant
            n == items@.len(),
            out@.len() == i,
            forall|j: int| 0 <= j < i ==> out@[j] == items@[n - 1 - j],
    {
        out.push(items[n - 1 - i]);
    }
    proof {
        assert(out@ =~= items@.reverse());
    }
    out
}

/// The booleans behind a definite slice, or `None` on the first
/// non-definite slot.
fn collect_definite(bits: &[Bit]) -> (r: Option<Vec<bool>>)
    ensures
        r matches Some(v) ==> all_definite(bits@) && v@ == definite_values(bits@),
        r is None <==> !all_definite(bits@),
{
    let mut out: Vec<bool> = Vec::new();
    let n = bits.len();
    for i in 0..n
        invariant
            n == bits@.len(),
            out@.len() == i,
            forall|j: int| 0 <= j < i ==> (#[trigger] bits@[j]) is Value,
            forall|j: int| 0 <= j < i ==> out@[j] == (bits@[j] == Bit::Value(true)),
    {
        match bits[i] {
            Bit::Value(v) => out.push(v),
            _ => {
                return None;
            },
        }
    }
    proof {
        assert(out@ =~= definite_values(bits@));
    }
    Some(out)
}

/// Folds `bits` most-significant-first into a residue modulo `modulus`,
/// the arithmetic shadow of shift-left-and-or on a word of that size.
fn fold_bits_mod(bits: &[bool], modulus: u64) -> (r: u64)
    requires
        2 <= modulus <= 0x1_0000_0000u64,
    ensures
        r as nat == fold_msb(bits@) % (modulus as nat),
        r < modulus,
{
    let mut acc: u64 = 0;
    let n = bits.len();
    proof {
        assert(bits@.take(0) =~= Seq::<bool>::empty());
        lemma_small_mod(0, modulus as nat);
    }
    for i in 0..n
        invariant
            n == bits@.len(),
            2 <= modulus <= 0x1_0000_0000u64,
            acc < modulus,
            acc as nat == fold_msb(bits@.take(i as int)) % (modulus as nat),
    {
        let b: u64 = if bits[i] {
            1
        } else {
            0
        };
        proof {
            let f = fold_msb(bits@.take(i as int)) as int;
            let m = modulus as int;
            assert(bits@.take(i as int + 1).drop_last() =~= bits@.take(i as int));
            assert(bits@.take(i as int + 1).last() == bits@[i as int]);
            lemma_add_mod_noop(2 * (f % m), b as int, m);
            lemma_mul_mod_noop_right(2, f, m);
            lemma_add_mod_noop(2 * f, b as int, m);
            lemma_small_mod(b as nat, modulus as nat);
        }
        acc = (acc * 2 + b) % modulus;
    }
    proof {
        assert(bits@.take(n as int) =~= bits@);
    }
    acc
}

impl MaybeBits for u8 {
    type BitElem = bool;

    open spec fn spec_bit_len(&self) -> nat {
        8
    }

    open spec fn spec_nth_bit(&self, n: int) -> bool {
        nth_bit_of(*self as nat, n as nat)
    }

    fn bit_len(&self) -> (r: usize) {
        8
    }

    fn nth_bit(&self, n: usize) -> (r: bool) {
        let sh = n as u8;
        let shifted: u8 = *self >> sh;
        proof {
            lemma_u8_shr_is_div(*self, sh);
            assert(shifted & 1 == shifted % 2) by (bit_vector);
        }
        (shifted & 1) == 1
    }
}

impl FixedLengthMaybeBits for u8 {
    open spec fn spec_bit_count() -> nat {
        8
    }

    proof fn lemma_fixed_len(&self) {
    }
}

impl MaybeBits for u16 {
    type BitElem = bool;

    open spec fn spec_bit_len(&self) -> nat {
        16
    }

    open spec fn spec_nth_bit(&self, n: int) -> bool {
        nth_bit_of(*self as nat, n as nat)
    }

    fn bit_len(&self) -> (r: usize) {
        16
    }

    fn nth_bit(&self, n: usize) -> (r: bool) {
        let sh = n as u16;
        let shifted: u16 = *self >> sh;
        proof {
            lemma_u16_shr_is_div(*self, sh);
            assert(shifted & 1 == shifted % 2) by (bit_vector);
        }
        (shifted & 1) == 1
    }
}

impl MaybeBits for u32 {
    type BitElem = bool;

    open spec fn spec_bit_len(&self) -> nat {
        32
    }

    open spec fn spec_nth_bit(&self, n: int) -> bool {
        nth_bit_of(*self as nat, n as nat)
    }

    fn bit_len(&self) -> (r: usize) {
        32
    }

    fn nth_bit(&self, n: usize) -> (r: bool) {
        let sh = n as u32;
        let shifted: u32 = *self >> sh;
        proof {
            lemma_u32_shr_is_div(*self, sh);
            assert(shifted & 1 == shifted % 2) by (bit_vector);
        }
        (shifted & 1) == 1
    }
}

impl MaybeBits for i8 {
    type BitElem = bool;

    open spec fn spec_bit_len(&self) -> nat {
        8
    }

    open spec fn spec_nth_bit(&self, n: int) -> bool {
        nth_bit_of(to_unsigned(*self as int, 256), n as nat)
    }

    fn bit_len(&self) -> (r: usize) {
        8
    }

    fn nth_bit(&self, n: usize) -> (r: bool) {
        let u: u8 = if *self >= 0 {
            *self as u8
        } else {
            ((*self as i16) + 256) as u8
        };
        let sh = n as u8;
        let shifted: u8 = u >> sh;
        proof {
            lemma_u8_shr_is_div(u, sh);
            assert(shifted & 1 == shifted % 2) by (bit_vector);
        }
        (shifted & 1) == 1
    }
}

impl MaybeBits for i16 {
    type BitElem = bool;

    open spec fn spec_bit_len(&self) -> nat {
        16
    }

    open spec fn spec_nth_bit(&self, n: int) -> bool {
        nth_bit_of(to_unsigned(*self as int, 0x1_0000), n as nat)
    }

    fn bit_len(&self) -> (r: usize) {
        16
    }

    fn nth_bit(&self, n: usize) -> (r: bool) {
        let u: u16 = if *self >= 0 {
            *self as u16
        } else {
            ((*self as i32) + 0x1_0000) as u16
        };
        let sh = n as u16;
        let shifted: u16 = u >> sh;
        proof {
            lemma_u16_shr_is_div(u, sh);
            assert(shifted & 1 == shifted % 2) by (bit_vector);
        }
        (shifted & 1) == 1
    }
}

impl MaybeBits for i32 {
    type BitElem = bool;

    open spec fn spec_bit_len(&self) -> nat {
        32
    }

    open spec fn spec_nth_bit(&self, n: int) -> bool {
        nth_bit_of(to_unsigned(*self as int, 0x1_0000_0000), n as nat)
    }

    fn bit_len(&self) -> (r: usize) {
        32
    }

    fn nth_bit(&self, n: usize) -> (r: bool) {
        let u: u32 = if *self >= 0 {
            *self as u32
        } else {
            ((*self as i64) + 0x1_0000_0000) as u32
        };
        let sh = n as u32;
        let shifted: u32 = u >> sh;
        proof {
            lemma_u32_shr_is_div(u, sh);
            assert(shifted & 1 == shifted % 2) by (bit_vector);
        }
        (shifted & 1) == 1
    }
}

impl FromBits for u8 {
    open spec fn spec_from_msb(s: Seq<bool>) -> u8 {
        (fold_msb(s) % 256) as u8
    }

    fn from_bits_msb(bits: &[bool]) -> (r: u8) {
        let m = fold_bits_mod(bits, 256);
        m as u8
    }
}

impl FromBits for u16 {
    open spec fn spec_from_msb(s: Seq<bool>) -> u16 {
        (fold_msb(s) % 0x1_0000) as u16
    }

    fn from_bits_msb(bits: &[bool]) -> (r: u16) {
        let m = fold_bits_mod(bits, 0x1_0000);
        m as u16
    }
}

impl FromBits for u32 {
    open spec fn spec_from_msb(s: Seq<bool>) -> u32 {
        (fold_msb(s) % 0x1_0000_0000) as u32
    }

    fn from_bits_msb(bits: &[bool]) -> (r: u32) {
        let m = fold_bits_mod(bits, 0x1_0000_0000);
        m as u32
    }
}

impl FromBits for i8 {
    open spec fn spec_from_msb(s: Seq<bool>) -> i8 {
        signed_of(fold_msb(s) % 256, 128, 256) as i8
    }

    fn from_bits_msb(bits: &[bool]) -> (r: i8) {
        let m = fold_bits_mod(bits, 256);
        if m < 128 {
            m as i8
        } else {
            ((m as i64) - 256) as i8
        }
    }
}

impl FromBits for i16 {
    open spec fn spec_from_msb(s: Seq<bool>) -> i16 {
        signed_of(fold_msb(s) % 0x1_0000, 0x8000, 0x1_0000) as i16
    }

    fn from_bits_msb(bits: &[bool]) -> (r: i16) {
        let m = fold_bits_mod(bits, 0x1_0000);
        if m < 0x8000 {
            m as i16
        } else {
            ((m as i64) - 0x1_0000) as i16
        }
    }
}

impl FromBits for i32 {
    open spec fn spec_from_msb(s: Seq<bool>) -> i32 {
        signed_of(fold_msb(s) % 0x1_0000_0000, 0x8000_0000, 0x1_0000_0000) as i32
    }

    fn from_bits_msb(bits: &[bool]) -> (r: i32) {
        let m = fold_bits_mod(bits, 0x1_0000_0000);
        if m < 0x8000_0000 {
            m as i32
        } else {
            ((m as i64) - 0x1_0000_0000) as i32
        }
    }
}

/// Bit `n + 1` of a value is bit `n` of its half.
proof fn lemma_nth_bit_shift(v: nat, k: nat)
    ensures
        nth_bit_of(v, k + 1) == nth_bit_of(v / 2, k),
{
    lemma_pow2_pos(k);
    lemma_div_denominator(v as int, 2, pow2(k) as int);
    lemma_pow2_unfold(k + 1);
}

/// Folding the low `w` bits of `v`, most significant first, recovers
/// `v` modulo `2^w`.
proof fn lemma_fold_of_bits(v: nat, w: nat)
    ensures
        fold_msb(bits_of(v, w).reverse()) == v % pow2(w),
    decreases w,
{
    if w == 0 {
        assert(bits_of(v, 0).reverse() =~= Seq::<bool>::empty());
        assert(pow2(0) == 1) by {
            lemma2_to64();
        }
        lemma_small_mod(0, 1);
        assert(v % 1 == 0) by (nonlinear_arith);
    } else {
        let s = bits_of(v, w);
        let r = s.reverse();
        let w1 = (w - 1) as nat;
        assert(r.drop_last() =~= bits_of(v / 2, w1).reverse()) by {
            assert forall|j: int| 0 <= j < w - 1 implies r.drop_last()[j] == bits_of(
                v / 2,
                w1,
            ).reverse()[j] by {
                lemma_nth_bit_shift(v, (w - 2 - j) as nat);
            }
        }
        lemma_fold_of_bits(v / 2, w1);
        assert(r.last() == nth_bit_of(v, 0));
        assert(pow2(0) == 1) by {
            lemma2_to64();
        }
        assert(v / 1 == v) by (nonlinear_arith);
        lemma_pow2_unfold(w);
        lemma_pow2_pos(w1);
        lemma_mod_breakdown(v as int, 2, pow2(w1) as int);
    }
}

/// Round trip for `u8`: reading the bits of `v` least-significant-first
/// and folding them back most-significant-first (as `from_bits_lsb` of
/// `to_bit_vector` does) reconstructs `v` exactly.
pub proof fn lemma_round_trip_u8(v: u8, s: Seq<bool>)
    requires
        s.len() == v.spec_bit_len(),
        forall|i: int| 0 <= i < s.len() ==> s[i] == v.spec_nth_bit(i),
    ensures
        <u8 as FromBits>::spec_from_msb(s.reverse()) == v,
{
    assert(s =~= bits_of(v as nat, 8));
    lemma_fold_of_bits(v as nat, 8);
    assert(pow2(8) == 256) by {
        lemma2_to64();
    }
    lemma_small_mod(v as nat, 256);
}

/// Round trip for `u16`, as for `u8`.
pub proof fn lemma_round_trip_u16(v: u16, s: Seq<bool>)
    requires
        s.len() == v.spec_bit_len(),
        forall|i: int| 0 <= i < s.len() ==> s[i] == v.spec_nth_bit(i),
    ensures
        <u16 as FromBits>::spec_from_msb(s.reverse()) == v,
{
    assert(s =~= bits_of(v as nat, 16));
    lemma_fold_of_bits(v as nat, 16);
    assert(pow2(16) == 0x1_0000) by {
        lemma2_to64();
    }
    lemma_small_mod(v as nat, 0x1_0000);
}

/// Round trip for `u32`, as for `u8`.
pub proof fn lemma_round_trip_u32(v: u32, s: Seq<bool>)
    requires
        s.len() == v.spec_bit_len(),
        forall|i: int| 0 <= i < s.len() ==> s[i] == v.spec_nth_bit(i),
    ensures
        <u32 as FromBits>::spec_from_msb(s.reverse()) == v,
{
    assert(s =~= bits_of(v as nat, 32));
    lemma_fold_of_bits(v as nat, 32);
    assert(pow2(32) == 0x1_0000_0000) by {
        lemma2_to64();
    }
    lemma_small_mod(v as nat, 0x1_0000_0000);
}

} // verus!
