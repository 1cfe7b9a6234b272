use vstd::prelude::*;

verus! {

/// The sign bit of an IEEE-754 binary64 value.
pub const SIGN_BIT: u64 = 0x8000_0000_0000_0000;

/// The bit pattern of positive infinity; a magnitude above it is a NaN.
pub const INFINITY_BITS: u64 = 0x7ff0_0000_0000_0000;

/// A binary64 floating-point value held as its bit pattern.
///
/// The library never computes with such values; it moves them, compares them,
/// negates them, takes their absolute value and asks whether they are finite.
/// Each of these is stated below over the bit pattern, following IEEE-754:
/// a value is the sign bit and the magnitude (the other 63 bits); magnitudes
/// above `INFINITY_BITS` are NaN, and among the others the order of the real
/// values is the order of the signed magnitudes, so that `+0` and `-0` are equal.
#[derive(Debug, Clone, Copy)]
pub struct Float64 {
    pub bits: u64,
}

/// Whether the sign bit is set.
pub open spec fn sign_of(bits: u64) -> bool {
    bits >= SIGN_BIT
}

/// The 63 bits below the sign bit.
pub open spec fn magnitude_of(bits: u64) -> int {
    if sign_of(bits) { bits - SIGN_BIT } else { bits as int }
}

/// Whether the bit pattern is a NaN.
pub open spec fn nan_bits(bits: u64) -> bool {
    magnitude_of(bits) > INFINITY_BITS
}

/// Whether the bit pattern is neither infinite nor NaN.
pub open spec fn finite_bits(bits: u64) -> bool {
    magnitude_of(bits) < INFINITY_BITS
}

/// An integer with the same order as the real values of non-NaN bit patterns.
pub open spec fn order_key(bits: u64) -> int {
    if sign_of(bits) { -magnitude_of(bits) } else { magnitude_of(bits) }
}

/// IEEE `a < b`.
pub open spec fn lt_bits(a: u64, b: u64) -> bool {
    !nan_bits(a) && !nan_bits(b) && order_key(a) < order_key(b)
}

/// IEEE `a <= b`.
pub open spec fn le_bits(a: u64, b: u64) -> bool {
    !nan_bits(a) && !nan_bits(b) && order_key(a) <= order_key(b)
}

/// IEEE `a == b`.
pub open spec fn eq_bits(a: u64, b: u64) -> bool {
    !nan_bits(a) && !nan_bits(b) && order_key(a) == order_key(b)
}

/// The bit pattern of `-x`: the sign bit flipped.
pub open spec fn neg_bits(bits: u64) -> u64 {
    if sign_of(bits) { (bits - SIGN_BIT) as u64 } else { (bits + SIGN_BIT) as u64 }
}

/// The bit pattern of `x.abs()`: the sign bit cleared.
pub open spec fn abs_bits(bits: u64) -> u64 {
    magnitude_of(bits) as u64
}

impl Float64 {
    /// Positive zero.
    pub open spec fn spec_zero() -> Float64 {
        Float64 { bits: 0 }
    }

    /// The value `1.0`.
    pub open spec fn spec_one() -> Float64 {
        Float64 { bits: 0x3ff0_0000_0000_0000 }
    }

    pub fn from_bits(bits: u64) -> (r: Float64)
        ensures
            r.bits == bits,
    {
        Float64 { bits }
    }

    pub fn to_bits(&self) -> (r: u64)
        ensures
            r == self.bits,
    {
        self.bits
    }

    #[verifier::when_used_as_spec(spec_zero)]
    pub fn zero() -> (r: Float64)
        ensures
            r == Float64::spec_zero(),
    {
        Float64 { bits: 0 }
    }

    #[verifier::when_used_as_spec(spec_one)]
    pub fn one() -> (r: Float64)
        ensures
            r == Float64::spec_one(),
    {
        Float64 { bits: 0x3ff0_0000_0000_0000 }
    }

    fn magnitude(&self) -> (r: u64)
        ensures
            r == magnitude_of(self.bits),
    {
        if self.bits >= SIGN_BIT {
            self.bits - SIGN_BIT
        } else {
            self.bits
        }
    }

    pub fn is_nan(&self) -> (r: bool)
        ensures
            r == nan_bits(self.bits),
    {
        self.magnitude() > INFINITY_BITS
    }

    pub fn is_finite(&self) -> (r: bool)
        ensures
            r == finite_bits(self.bits),
    {
        self.magnitude() < INFINITY_BITS
    }

    pub fn lt(&self, other: &Float64) -> (r: bool)
        ensures
            r == lt_bits(self.bits, other.bits),
    {
        if self.is_nan() || other.is_nan() {
            return false;
        }
        let a = self.magnitude();
        let b = other.magnitude();
        let sa = self.bits >= SIGN_BIT;
        let sb = other.bits >= SIGN_BIT;
        if sa && sb {
            b < a
        } else if sa {
            !(a == 0 && b == 0)
        } else if sb {
            false
        } else {
            a < b
        }
    }

    pub fn le(&self, other: &Float64) -> (r: bool)
        ensures
            r == le_bits(self.bits, other.bits),
    {
        if self.is_nan() || other.is_nan() {
            return false;
        }
        !other.lt(self)
    }

    pub fn gt(&self, other: &Float64) -> (r: bool)
        ensures
            r == lt_bits(other.bits, self.bits),
    {
        other.lt(self)
    }

    pub fn ge(&self, other: &Float64) -> (r: bool)
        ensures
            r == le_bits(other.bits, self.bits),
    {
        other.le(self)
    }

    /// IEEE equality (not equality of bit patterns).
    pub fn num_eq(&self, other: &Float64) -> (r: bool)
        ensures
            r == eq_bits(self.bits, other.bits),
    {
        self.le(other) && other.le(self)
    }

    pub fn neg(&self) -> (r: Float64)
        ensures
            r.bits == neg_bits(self.bits),
    {
        if self.bits >= SIGN_BIT {
            Float64 { bits: self.bits - SIGN_BIT }
        } else {
            Float64 { bits: self.bits + SIGN_BIT }
        }
    }

    pub fn abs(&self) -> (r: Float64)
        ensures
            r.bits == abs_bits(self.bits),
    {
        Float64 { bits: self.magnitude() }
    }
}

/// The first value of `values` that is not finite.
pub open spec fn first_nonfinite(values: Seq<Float64>) -> Option<int> {
    if exists|i: int| 0 <= i < values.len() && !finite_bits(#[trigger] values[i].bits) {
        Some(choose|i: int| 0 <= i < values.len() && !finite_bits(#[trigger] values[i].bits)
            && forall|j: int| 0 <= j < i ==> finite_bits(#[trigger] values[j].bits))
    } else {
        None
    }
}

/// `==` on `Float64` is IEEE equality, as on `f64`: NaN equals nothing and
/// the two zeros are equal.
impl PartialEq for Float64 {
    fn eq(&self, other: &Float64) -> (r: bool) {
        self.num_eq(other)
    }
}

impl vstd::std_specs::cmp::PartialEqSpecImpl for Float64 {
    open spec fn obeys_eq_spec() -> bool {
        true
    }

    open spec fn eq_spec(&self, other: &Float64) -> bool {
        eq_bits(self.bits, other.bits)
    }
}

} // verus!
