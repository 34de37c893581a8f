//! Floating-point cells.
//!
//! A cell of a float column is carried as the 64 bits of an IEEE 754
//! double. Moving, comparing, ordering and hashing such cells is plain
//! integer work and is done here. Arithmetic, and the conversion from and to
//! text, are supplied by the embedding program through [`FloatMath`].

use vstd::prelude::*;
use crate::order::Order;

verus! {

/// One double-precision number, by its bit pattern.
#[derive(Debug, Clone, Copy)]
pub struct Float {
    pub bits: u64,
}

/// The arithmetic that the engine needs on floats but cannot do on bit
/// patterns. Nothing is assumed of an implementation: every function that
/// takes one is verified for whatever it returns.
pub trait FloatMath {
    /// The number written in `field`, if it is one.
    fn parse(&self, field: &str) -> Option<Float>;

    /// The text under which `value` is shown and written.
    fn format(&self, value: Float) -> String;

    /// The float nearest to an integer.
    fn from_int(&self, value: i64) -> Float;

    fn add(&self, a: Float, b: Float) -> Float;

    fn subtract(&self, a: Float, b: Float) -> Float;

    fn multiply(&self, a: Float, b: Float) -> Float;

    fn divide(&self, a: Float, b: Float) -> Float;

    fn remainder(&self, a: Float, b: Float) -> Float;
}

pub const EXPONENT_MASK: u64 = 0x7ff0_0000_0000_0000;

pub const FRACTION_MASK: u64 = 0x000f_ffff_ffff_ffff;

pub const MAGNITUDE_MASK: u64 = 0x7fff_ffff_ffff_ffff;

pub const SIGN_MASK: u64 = 0x8000_0000_0000_0000;

/// The bit pattern that stands for every not-a-number when rows are hashed.
pub const CANONICAL_NAN: u64 = 0x7ff8_0000_0000_0000;

/// Whether the pattern is a not-a-number: all exponent bits set and a
/// fraction that is not zero.
pub open spec fn is_nan(bits: u64) -> bool {
    (bits & EXPONENT_MASK) == EXPONENT_MASK && (bits & FRACTION_MASK) != 0
}

/// An integer that orders the patterns as IEEE 754 orders the numbers they
/// stand for: the magnitude bits, negated under a set sign bit. Both zeros
/// have key 0. It is meant for patterns that are not a not-a-number.
pub open spec fn key(bits: u64) -> int {
    if (bits & SIGN_MASK) != 0 {
        -((bits & MAGNITUDE_MASK) as int)
    } else {
        (bits & MAGNITUDE_MASK) as int
    }
}

/// IEEE 754 equality: false whenever a not-a-number takes part; the two
/// zeros are equal.
pub open spec fn float_eq(a: u64, b: u64) -> bool {
    !is_nan(a) && !is_nan(b) && key(a) == key(b)
}

/// IEEE 754 `<`: false whenever a not-a-number takes part.
pub open spec fn float_lt(a: u64, b: u64) -> bool {
    !is_nan(a) && !is_nan(b) && key(a) < key(b)
}

/// The order used to sort rows: numbers by value, every not-a-number after
/// all numbers and equal to every other not-a-number.
pub open spec fn float_order(a: u64, b: u64) -> Order {
    if is_nan(a) && is_nan(b) {
        Order::Equal
    } else if is_nan(a) {
        Order::Greater
    } else if is_nan(b) {
        Order::Less
    } else if key(a) < key(b) {
        Order::Less
    } else if key(a) == key(b) {
        Order::Equal
    } else {
        Order::Greater
    }
}

/// The pattern under which a float is hashed: one pattern for every
/// not-a-number, one for both zeros, the float's own otherwise.
pub open spec fn hash_bits(bits: u64) -> u64 {
    if is_nan(bits) {
        CANONICAL_NAN
    } else if (bits & MAGNITUDE_MASK) == 0 {
        0
    } else {
        bits
    }
}

impl Float {
    pub fn from_bits(bits: u64) -> (f: Float)
        ensures
            f.bits == bits,
    {
        Float { bits }
    }

    pub fn to_bits(&self) -> (bits: u64)
        ensures
            bits == self.bits,
    {
        self.bits
    }

    pub fn is_nan(&self) -> (r: bool)
        ensures
            r == is_nan(self.bits),
    {
        (self.bits & EXPONENT_MASK) == EXPONENT_MASK && (self.bits & FRACTION_MASK) != 0
    }

    /// Whether `self < other` as numbers.
    pub fn lt(&self, other: &Float) -> (r: bool)
        ensures
            r == float_lt(self.bits, other.bits),
    {
        if self.is_nan() || other.is_nan() {
            return false;
        }
        let a: u64 = self.bits & MAGNITUDE_MASK;
        let b: u64 = other.bits & MAGNITUDE_MASK;
        let a_negative: bool = (self.bits & SIGN_MASK) != 0;
        let b_negative: bool = (other.bits & SIGN_MASK) != 0;
        if a_negative && b_negative {
            b < a
        } else if a_negative {
            a != 0 || b != 0
        } else if b_negative {
            false
        } else {
            a < b
        }
    }

    /// Whether `self == other` as numbers.
    pub fn eq(&self, other: &Float) -> (r: bool)
        ensures
            r == float_eq(self.bits, other.bits),
    {
        if self.is_nan() || other.is_nan() {
            return false;
        }
        let a: u64 = self.bits & MAGNITUDE_MASK;
        let b: u64 = other.bits & MAGNITUDE_MASK;
        let a_negative: bool = (self.bits & SIGN_MASK) != 0;
        let b_negative: bool = (other.bits & SIGN_MASK) != 0;
        if a_negative == b_negative {
            a == b
        } else {
            a == 0 && b == 0
        }
    }

    /// The place of `self` relative to `other` when rows are sorted.
    pub fn order(&self, other: &Float) -> (r: Order)
        ensures
            r == float_order(self.bits, other.bits),
    {
        if self.is_nan() {
            if other.is_nan() {
                Order::Equal
            } else {
                Order::Greater
            }
        } else if other.is_nan() {
            Order::Less
        } else if self.lt(other) {
            Order::Less
        } else if self.eq(other) {
            Order::Equal
        } else {
            Order::Greater
        }
    }

    /// The pattern that takes part in a row's hash.
    pub fn hash_bits(&self) -> (r: u64)
        ensures
            r == hash_bits(self.bits),
    {
        if self.is_nan() {
            CANONICAL_NAN
        } else if (self.bits & MAGNITUDE_MASK) == 0 {
            0
        } else {
            self.bits
        }
    }
}

/// Floats that are equal as numbers are hashed under one pattern.
pub proof fn lemma_equal_floats_hash_alike(a: u64, b: u64)
    requires
        float_eq(a, b),
    ensures
        hash_bits(a) == hash_bits(b),
{
    assert((a & 0x8000_0000_0000_0000u64) == 0 || (a & 0x8000_0000_0000_0000u64)
        == 0x8000_0000_0000_0000u64) by (bit_vector);
    assert((b & 0x8000_0000_0000_0000u64) == 0 || (b & 0x8000_0000_0000_0000u64)
        == 0x8000_0000_0000_0000u64) by (bit_vector);
    assert((a & 0x7fff_ffff_ffff_ffffu64) == (b & 0x7fff_ffff_ffff_ffffu64) && (a
        & 0x8000_0000_0000_0000u64) == (b & 0x8000_0000_0000_0000u64) ==> a == b) by (bit_vector);
}

} // verus!
