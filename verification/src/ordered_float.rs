use vstd::prelude::*;

use crate::order::{int_order, ValueOrder};

verus! {

/// 2^52: the weight of the lowest exponent bit of an IEEE 754 double.
pub const FRACTION_SPAN: u64 = 0x10_0000_0000_0000;

/// 2^63: the weight of the sign bit of an IEEE 754 double.
pub const SIGN_BIT: u64 = 0x8000_0000_0000_0000;

/// The bit pattern of the canonical quiet NaN, the one `f64::NAN` has.
pub const CANONICAL_NAN_BITS: u64 = 0x7FF8_0000_0000_0000;

/// The double with these bits is a NaN: all exponent bits set and a nonzero fraction.
pub open spec fn float_is_nan(bits: u64) -> bool {
    (bits / FRACTION_SPAN) % 2048 == 2047 && bits % FRACTION_SPAN != 0
}

/// Where a double that is not a NaN lies on the number line, as an integer that is ordered the
/// same way: the magnitude bits, negated when the sign bit is set. Both zeros have rank 0 and
/// the infinities the largest ranks.
pub open spec fn float_rank(bits: u64) -> int {
    if bits >= SIGN_BIT {
        -((bits - SIGN_BIT) as int)
    } else {
        bits as int
    }
}

/// Equality of doubles where every NaN equals every NaN, and otherwise IEEE 754 equality
/// (so `0.0 == -0.0`).
pub open spec fn float_equal(a: u64, b: u64) -> bool {
    if float_is_nan(a) || float_is_nan(b) {
        float_is_nan(a) && float_is_nan(b)
    } else {
        float_rank(a) == float_rank(b)
    }
}

/// The total order on doubles: IEEE 754 order on numbers, every NaN equal to every other NaN
/// and greater than every number, infinity included.
pub open spec fn float_order(a: u64, b: u64) -> ValueOrder {
    if float_is_nan(a) {
        if float_is_nan(b) {
            ValueOrder::Equal
        } else {
            ValueOrder::Greater
        }
    } else if float_is_nan(b) {
        ValueOrder::Less
    } else {
        int_order(float_rank(a), float_rank(b))
    }
}

/// The bits that stand for a double when it is hashed: the canonical NaN for every NaN, the
/// bits of `0.0` for both zeros, the double's own bits otherwise. Equal doubles get equal bits.
pub open spec fn float_hash_bits(bits: u64) -> u64 {
    if float_is_nan(bits) {
        CANONICAL_NAN_BITS
    } else if float_rank(bits) == 0 {
        0
    } else {
        bits
    }
}

/// A double that can be compared and hashed: NaN equals NaN and is greater than every other
/// value. The double is held by its IEEE 754 bit pattern (`f64::to_bits`).
#[derive(Clone, Copy, Debug)]
pub struct OrderedFloat(pub u64);

impl OrderedFloat {
    /// The value is a NaN.
    pub fn is_nan(&self) -> (r: bool)
        ensures
            r == float_is_nan(self.0),
    {
        (self.0 / FRACTION_SPAN) % 2048 == 2047 && self.0 % FRACTION_SPAN != 0
    }

    fn rank(&self) -> (r: i128)
        requires
            !float_is_nan(self.0),
        ensures
            r == float_rank(self.0),
    {
        if self.0 >= SIGN_BIT {
            -((self.0 - SIGN_BIT) as i128)
        } else {
            self.0 as i128
        }
    }

    /// Compares two values in the total order of `float_order`.
    pub fn compare(&self, other: &Self) -> (r: ValueOrder)
        ensures
            r == float_order(self.0, other.0),
    {
        if self.is_nan() {
            if other.is_nan() {
                ValueOrder::Equal
            } else {
                ValueOrder::Greater
            }
        } else if other.is_nan() {
            ValueOrder::Less
        } else {
            let a = self.rank();
            let b = other.rank();
            if a < b {
                ValueOrder::Less
            } else if a == b {
                ValueOrder::Equal
            } else {
                ValueOrder::Greater
            }
        }
    }

    /// The bits to hash for this value, so that equal values hash alike.
    pub fn hash_bits(&self) -> (r: u64)
        ensures
            r == float_hash_bits(self.0),
    {
        if self.is_nan() {
            CANONICAL_NAN_BITS
        } else if self.rank() == 0 {
            0
        } else {
            self.0
        }
    }
}

impl PartialEq for OrderedFloat {
    fn eq(&self, other: &Self) -> (r: bool) {
        match self.compare(other) {
            ValueOrder::Equal => true,
            _ => false,
        }
    }
}

impl vstd::std_specs::cmp::PartialEqSpecImpl for OrderedFloat {
    open spec fn obeys_eq_spec() -> bool {
        true
    }

    open spec fn eq_spec(&self, other: &Self) -> bool {
        float_equal(self.0, other.0)
    }
}

impl Eq for OrderedFloat {

}

/// Equal values are those that compare equal.
pub proof fn lemma_float_equal_iff_order_equal(a: u64, b: u64)
    ensures
        float_equal(a, b) <==> float_order(a, b) == ValueOrder::Equal,
        float_equal(a, b) ==> float_hash_bits(a) == float_hash_bits(b),
{
}


impl core::hash::Hash for OrderedFloat {
    fn hash<H: core::hash::Hasher>(&self, state: &mut H) {
        hash_word(self.hash_bits(), state);
    }
}

/// Feeds a word to a hasher through `u64`'s `Hash` (nothing is claimed of the hasher's state).
#[verifier::external_body]
fn hash_word<H: core::hash::Hasher>(bits: u64, state: &mut H) {
    core::hash::Hash::hash(&bits, state)
}

} // verus!
