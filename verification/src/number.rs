//! Numbers of the language: binary64 values held by their bit pattern,
//! together with the decimal text that the embedding program rendered for
//! them. Order, equality and the test for zero are decided on the bits.

use vstd::prelude::*;

verus! {

/// A number, as its binary64 bit pattern and its decimal rendering.
#[derive(Debug)]
pub struct Number {
    pub bits: u64,
    pub text: String,
}

impl Clone for Number {
    fn clone(&self) -> (r: Self)
        ensures
            r == *self,
    {
        Number { bits: self.bits, text: self.text.clone() }
    }
}

pub const SIGN: u64 = 0x8000_0000_0000_0000;

pub const INFINITY: u64 = 0x7ff0_0000_0000_0000;

/// The bit pattern without its sign bit.
pub open spec fn magnitude(bits: u64) -> u64 {
    if bits >= SIGN {
        (bits - SIGN) as u64
    } else {
        bits
    }
}

/// Whether the pattern stands for no number at all.
pub open spec fn is_nan(bits: u64) -> bool {
    magnitude(bits) > INFINITY
}

/// Whether the pattern is one of the two zeros.
pub open spec fn is_zero(bits: u64) -> bool {
    magnitude(bits) == 0
}

/// The place of a pattern on the number line: patterns with the sign bit
/// count downwards, so both zeros share place 0.
pub open spec fn place(bits: u64) -> int {
    if bits >= SIGN {
        -(magnitude(bits) as int)
    } else {
        magnitude(bits) as int
    }
}

/// Numeric equality: never true of a NaN, true of the two zeros.
pub open spec fn same_number(a: u64, b: u64) -> bool {
    !is_nan(a) && !is_nan(b) && place(a) == place(b)
}

/// Numeric order: never true when either side is a NaN.
pub open spec fn smaller_number(a: u64, b: u64) -> bool {
    !is_nan(a) && !is_nan(b) && place(a) < place(b)
}

fn magnitude_of(bits: u64) -> (m: u64)
    ensures
        m == magnitude(bits),
{
    if bits >= SIGN {
        bits - SIGN
    } else {
        bits
    }
}

impl Number {
    pub fn new(bits: u64, text: String) -> (r: Self)
        ensures
            r.bits == bits,
            r.text == text,
    {
        Number { bits, text }
    }

    pub fn is_nan(&self) -> (r: bool)
        ensures
            r == is_nan(self.bits),
    {
        magnitude_of(self.bits) > INFINITY
    }

    pub fn is_zero(&self) -> (r: bool)
        ensures
            r == is_zero(self.bits),
    {
        magnitude_of(self.bits) == 0
    }

    /// `self == other` as numbers.
    pub fn equals(&self, other: &Number) -> (r: bool)
        ensures
            r == same_number(self.bits, other.bits),
    {
        if self.is_nan() || other.is_nan() {
            false
        } else if self.is_zero() && other.is_zero() {
            true
        } else {
            self.bits == other.bits
        }
    }

    /// `self < other` as numbers.
    pub fn less(&self, other: &Number) -> (r: bool)
        ensures
            r == smaller_number(self.bits, other.bits),
    {
        if self.is_nan() || other.is_nan() {
            false
        } else {
            let a = magnitude_of(self.bits);
            let b = magnitude_of(other.bits);
            if self.bits >= SIGN {
                if other.bits >= SIGN {
                    a > b
                } else {
                    a > 0 || b > 0
                }
            } else {
                if other.bits >= SIGN {
                    false
                } else {
                    a < b
                }
            }
        }
    }
}

} // verus!
