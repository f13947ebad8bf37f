use vstd::prelude::*;

use crate::byte_codec::{le_u32_at, le_u32_bytes};
use crate::order::{int_order, ValueOrder};

verus! {

/// The largest scale a decimal can have: at most 28 digits after the point.
pub const MAX_SCALE: u32 = 28;

/// 2^32.
pub const WORD_SPAN: u128 = 0x1_0000_0000;

/// The parts of a decimal number: a 96-bit magnitude split in three 32-bit words, a sign and
/// a power-of-ten scale. The number is `(-1)^negative * (hi * 2^64 + mid * 2^32 + lo) / 10^scale`.
#[derive(Clone, Copy, Debug, PartialEq, Eq, Structural)]
pub struct DecimalParts {
    pub lo: u32,
    pub mid: u32,
    pub hi: u32,
    pub negative: bool,
    pub scale: u32,
}

/// 10^n.
pub open spec fn pow10(n: nat) -> nat
    decreases n,
{
    if n == 0 {
        1
    } else {
        10 * pow10((n - 1) as nat)
    }
}

/// The magnitude of a decimal, without its sign or scale.
pub open spec fn parts_mantissa(d: DecimalParts) -> nat {
    (d.lo + d.mid * 0x1_0000_0000 + d.hi * 0x1_0000_0000_0000_0000) as nat
}

/// The magnitude with the sign applied.
pub open spec fn signed_mantissa(d: DecimalParts) -> int {
    if d.negative {
        -(parts_mantissa(d) as int)
    } else {
        parts_mantissa(d) as int
    }
}

/// Numeric order of two decimals: `a / 10^sa` against `b / 10^sb`, compared over a common
/// denominator. Zero is zero whatever its sign.
pub open spec fn decimal_order(a: DecimalParts, b: DecimalParts) -> ValueOrder {
    int_order(
        signed_mantissa(a) * pow10(b.scale as nat),
        signed_mantissa(b) * pow10(a.scale as nat),
    )
}

/// The sign the number keeps once it is built: a zero magnitude is never negative.
pub open spec fn normal_negative(d: DecimalParts) -> bool {
    d.negative && parts_mantissa(d) != 0
}

/// The parts with the sign of a zero cleared.
pub open spec fn normalized(d: DecimalParts) -> DecimalParts {
    DecimalParts { negative: normal_negative(d), ..d }
}

/// The sixteen bytes of a decimal: the flags word (scale in byte 2, sign in the top bit of
/// byte 3), then the low, middle and high words, each little-endian.
pub open spec fn decimal_bytes(d: DecimalParts) -> Seq<u8> {
    seq![0u8, 0u8, d.scale as u8, if normal_negative(d) { 128u8 } else { 0u8 }] + le_u32_bytes(
        d.lo as int,
    ) + le_u32_bytes(d.mid as int) + le_u32_bytes(d.hi as int)
}

/// The scale field of sixteen serialized bytes (five bits of byte 2).
pub open spec fn bytes_scale(b: Seq<u8>) -> int {
    b[2] as int % 32
}

/// The parts that sixteen serialized bytes hold, read field by field.
pub open spec fn parts_of_bytes(b: Seq<u8>) -> DecimalParts {
    DecimalParts {
        lo: le_u32_at(b, 4) as u32,
        mid: le_u32_at(b, 8) as u32,
        hi: le_u32_at(b, 12) as u32,
        negative: b[3] >= 128,
        scale: bytes_scale(b) as u32,
    }
}

/// The parts of a magnitude below 2^96 with the given sign and scale.
pub open spec fn parts_with_mantissa(m: nat, negative: bool, scale: u32) -> DecimalParts {
    DecimalParts {
        lo: (m % 0x1_0000_0000) as u32,
        mid: ((m / 0x1_0000_0000) % 0x1_0000_0000) as u32,
        hi: ((m / 0x1_0000_0000_0000_0000) % 0x1_0000_0000) as u32,
        negative,
        scale,
    }
}

/// The decimal that `rust_decimal::Decimal::deserialize` builds from sixteen bytes: the
/// parts read field by field; a scale above 28 (29 to 31 fit in the five scale bits) is
/// brought to 28 by dividing the magnitude by the power of ten of the excess, adding one when
/// the remainder is at least 5, and keeping the sign.
#[verifier::opaque]
pub open spec fn deserialized_decimal(bytes: Seq<u8>) -> DecimalParts {
    let p = parts_of_bytes(bytes);
    if p.scale <= MAX_SCALE {
        p
    } else {
        let k = (p.scale - MAX_SCALE) as nat;
        let q = parts_mantissa(p) / pow10(k);
        let m = if parts_mantissa(p) % pow10(k) >= 5 { q + 1 } else { q };
        parts_with_mantissa(m, p.negative, MAX_SCALE)
    }
}

/// The number of decimal digits of a positive integer.
pub open spec fn digit_count(n: nat) -> nat
    decreases n,
{
    if n < 10 {
        1
    } else {
        1 + digit_count(n / 10)
    }
}

/// A decimal number with up to 28 digits after the point, as `rust_decimal` represents it.
#[derive(Clone, Copy, Debug)]
pub struct Decimal {
    lo: u32,
    mid: u32,
    hi: u32,
    negative: bool,
    scale: u32,
}

impl View for Decimal {
    type V = DecimalParts;

    closed spec fn view(&self) -> DecimalParts {
        DecimalParts { lo: self.lo, mid: self.mid, hi: self.hi, negative: self.negative, scale: self.scale }
    }
}

pub proof fn lemma_pow10_positive(n: nat)
    ensures
        pow10(n) >= 1,
    decreases n,
{
    if n > 0 {
        lemma_pow10_positive((n - 1) as nat);
    }
}

/// Dividing `k` more times by ten divides by 10^k.
pub proof fn lemma_div_pow10_step(m: nat, k: nat)
    ensures
        (m / pow10(k)) / 10 == m / pow10(k + 1),
{
    lemma_pow10_positive(k);
    vstd::arithmetic::div_mod::lemma_div_denominator(m as int, pow10(k) as int, 10);
    assert(pow10(k + 1) == 10 * pow10(k));
}

impl Decimal {
    #[verifier::type_invariant]
    spec fn scale_in_range(self) -> bool {
        self.scale <= MAX_SCALE
    }

    /// Builds a decimal from its parts; a zero magnitude is never negative.
    pub fn from_parts(lo: u32, mid: u32, hi: u32, negative: bool, scale: u32) -> (r: Decimal)
        requires
            scale <= MAX_SCALE,
        ensures
            r@ == normalized(DecimalParts { lo, mid, hi, negative, scale }),
    {
        let is_zero = lo == 0 && mid == 0 && hi == 0;
        Decimal { lo, mid, hi, negative: negative && !is_zero, scale }
    }

    /// The scale: the number of digits after the point.
    pub fn scale(&self) -> (r: u32)
        ensures
            r == self@.scale,
            r <= MAX_SCALE,
    {
        proof {
            use_type_invariant(self);
        }
        self.scale
    }

    /// The magnitude of the integer part: the mantissa divided by 10^scale, rounded toward zero.
    pub fn integer_part(&self) -> (r: u128)
        ensures
            r == parts_mantissa(self@) / pow10(self@.scale as nat),
    {
        let m: u128 = self.lo as u128 + (self.mid as u128) * WORD_SPAN + (self.hi as u128) * WORD_SPAN * WORD_SPAN;
        let mut q: u128 = m;
        let mut k: u32 = 0;
        proof {
            assert(pow10(0) == 1);
        }
        while k < self.scale
            invariant
                0 <= k <= self.scale,
                m == parts_mantissa(self@),
                q == (m as nat) / pow10(k as nat),
            decreases self.scale - k,
        {
            proof {
                lemma_div_pow10_step(m as nat, k as nat);
            }
            q = q / 10;
            k = k + 1;
        }
        q
    }

    /// Compares two decimals by their numeric values.
    pub fn compare(&self, other: &Decimal) -> (r: ValueOrder)
        ensures
            r == decimal_order(self@, other@),
    {
        proof {
            use_type_invariant(self);
            use_type_invariant(other);
        }
        numeric_order(self, other)
    }

    /// The sixteen bytes of the decimal: flags, then low, middle and high words, little-endian.
    pub fn to_bytes(&self) -> (r: [u8; 16])
        ensures
            r@ == decimal_bytes(self@),
    {
        proof {
            use_type_invariant(self);
        }
        serialize_decimal(self)
    }

    /// Reads a decimal from its sixteen bytes. A scale above 28 is rounded to 28 digits.
    pub fn from_bytes(bytes: [u8; 16]) -> (r: Decimal)
        ensures
            r@ == deserialized_decimal(bytes@),
            bytes_scale(bytes@) <= MAX_SCALE ==> r@ == parts_of_bytes(bytes@),
    {
        deserialize_decimal(bytes)
    }
}

/// Compares two decimals with `Ord::cmp` of `rust_decimal::Decimal`, which orders them by
/// numeric value (zero equals zero whatever its sign). Claimed: the result is `decimal_order`
/// of the parts.
#[verifier::external_body]
fn numeric_order(a: &Decimal, b: &Decimal) -> (r: ValueOrder)
    requires
        a@.scale <= MAX_SCALE,
        b@.scale <= MAX_SCALE,
    ensures
        r == decimal_order(a@, b@),
{
    let x = rust_decimal::Decimal::from_parts(a.lo, a.mid, a.hi, a.negative, a.scale);
    let y = rust_decimal::Decimal::from_parts(b.lo, b.mid, b.hi, b.negative, b.scale);
    match x.cmp(&y) {
        core::cmp::Ordering::Less => ValueOrder::Less,
        core::cmp::Ordering::Equal => ValueOrder::Equal,
        core::cmp::Ordering::Greater => ValueOrder::Greater,
    }
}

/// Serializes the decimal with `rust_decimal::Decimal::from_parts` and `serialize`. Claimed:
/// the bytes are the flags word (`scale << 16`, sign in bit 31, cleared for a zero magnitude),
/// then `lo`, `mid` and `hi`, each little-endian, as the `serialize` source writes them.
#[verifier::external_body]
fn serialize_decimal(d: &Decimal) -> (r: [u8; 16])
    requires
        d@.scale <= MAX_SCALE,
    ensures
        r@ == decimal_bytes(d@),
{
    rust_decimal::Decimal::from_parts(d.lo, d.mid, d.hi, d.negative, d.scale).serialize()
}

/// Reads sixteen bytes with `rust_decimal::Decimal::deserialize` and takes the parts back with
/// `unpack`. Claimed: the result is `deserialized_decimal` of the bytes. The source masks the
/// flags to the sign bit and five scale bits; at a scale of at most 28 it keeps the fields
/// as read, and at 29 to 31 it divides the 96-bit magnitude by 10, 100 or 1000, adds one
/// when the remainder is at least 5, and sets the scale to 28 with the sign kept.
#[verifier::external_body]
fn deserialize_decimal(bytes: [u8; 16]) -> (r: Decimal)
    ensures
        r@ == deserialized_decimal(bytes@),
        bytes_scale(bytes@) <= MAX_SCALE ==> r@ == parts_of_bytes(bytes@),
{
    let u = rust_decimal::Decimal::deserialize(bytes).unpack();
    Decimal { lo: u.lo, mid: u.mid, hi: u.hi, negative: u.negative, scale: u.scale }
}

/// Hashes the decimal with the `Hash` of `rust_decimal::Decimal`, which hashes the number
/// with trailing zeros removed, so that numerically equal decimals hash alike. Nothing is
/// claimed of the hasher's state.
#[verifier::external_body]
fn hash_decimal<H: core::hash::Hasher>(d: &Decimal, state: &mut H)
    requires
        d@.scale <= MAX_SCALE,
{
    core::hash::Hash::hash(&rust_decimal::Decimal::from_parts(d.lo, d.mid, d.hi, d.negative, d.scale), state)
}

impl core::hash::Hash for Decimal {
    fn hash<H: core::hash::Hasher>(&self, state: &mut H) {
        proof {
            use_type_invariant(self);
        }
        hash_decimal(self, state);
    }
}

impl PartialEq for Decimal {
    fn eq(&self, other: &Self) -> (r: bool) {
        match self.compare(other) {
            ValueOrder::Equal => true,
            _ => false,
        }
    }
}

impl vstd::std_specs::cmp::PartialEqSpecImpl for Decimal {
    open spec fn obeys_eq_spec() -> bool {
        true
    }

    open spec fn eq_spec(&self, other: &Self) -> bool {
        decimal_order(self@, other@) == ValueOrder::Equal
    }
}

impl Eq for Decimal {

}

} // verus!
