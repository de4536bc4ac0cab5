//! Numbers of SQLScript values, held as the bit pattern of an IEEE-754
//! binary64 value.
use vstd::prelude::*;

verus! {

/// A binary64 number, held as its 64-bit pattern (sign, exponent, mantissa).
#[derive(Clone, Copy, Debug)]
pub struct Num(pub u64);

/// The exponent field is all ones and the mantissa is not zero: a NaN.
pub open spec fn is_nan_bits(b: u64) -> bool {
    (b & 0x7ff0_0000_0000_0000u64) == 0x7ff0_0000_0000_0000u64 && (b & 0x000f_ffff_ffff_ffffu64)
        != 0
}

/// Every bit but the sign is zero: positive or negative zero.
pub open spec fn is_zero_bits(b: u64) -> bool {
    (b & 0x7fff_ffff_ffff_ffffu64) == 0
}

/// IEEE-754 equality of two binary64 values given by their bits: no NaN equals
/// anything, the two zeros are equal, and otherwise equal means identical.
pub open spec fn float_eq_bits(a: u64, b: u64) -> bool {
    !is_nan_bits(a) && !is_nan_bits(b) && (a == b || (is_zero_bits(a) && is_zero_bits(b)))
}

impl Num {
    /// `==` on the numbers these bits stand for.
    pub fn float_eq(&self, other: &Num) -> (r: bool)
        ensures
            r == float_eq_bits(self.0, other.0),
    {
        let a = self.0;
        let b = other.0;
        let a_nan = (a & 0x7ff0_0000_0000_0000u64) == 0x7ff0_0000_0000_0000u64 && (a
            & 0x000f_ffff_ffff_ffffu64) != 0;
        let b_nan = (b & 0x7ff0_0000_0000_0000u64) == 0x7ff0_0000_0000_0000u64 && (b
            & 0x000f_ffff_ffff_ffffu64) != 0;
        let a_zero = (a & 0x7fff_ffff_ffff_ffffu64) == 0;
        let b_zero = (b & 0x7fff_ffff_ffff_ffffu64) == 0;
        !a_nan && !b_nan && (a == b || (a_zero && b_zero))
    }
}

/// Number equality is IEEE-754 equality. Two numbers that are not NaN are `==`
/// exactly when their bit patterns are identical or both are zeros (of either
/// sign); a NaN is `==` to nothing, itself included. In particular a non-zero
/// number and its negation (the same bits with the sign bit flipped) are never
/// `==`, and `==` is symmetric.
pub proof fn law_float_eq(a: u64, b: u64)
    ensures
        float_eq_bits(a, b) == float_eq_bits(b, a),
        ((a >> 52u64) & 0x7ffu64) == 0x7ffu64 && (a & 0xf_ffff_ffff_ffffu64) != 0
            ==> !float_eq_bits(a, b),
        !(((a >> 52u64) & 0x7ffu64) == 0x7ffu64 && (a & 0xf_ffff_ffff_ffffu64) != 0)
            ==> float_eq_bits(a, a),
        !(((a >> 52u64) & 0x7ffu64) == 0x7ffu64 && (a & 0xf_ffff_ffff_ffffu64) != 0)
            && !(((b >> 52u64) & 0x7ffu64) == 0x7ffu64 && (b & 0xf_ffff_ffff_ffffu64) != 0)
            ==> (float_eq_bits(a, b) <==> (a == b || (a << 1u64 == 0u64 && b << 1u64 == 0u64))),
        a << 1u64 != 0u64 ==> !float_eq_bits(a, a ^ 0x8000_0000_0000_0000u64),
{
    assert(((a >> 52u64) & 0x7ffu64) == 0x7ffu64 && (a & 0xf_ffff_ffff_ffffu64) != 0
        <==> is_nan_bits(a)) by (bit_vector);
    assert(((b >> 52u64) & 0x7ffu64) == 0x7ffu64 && (b & 0xf_ffff_ffff_ffffu64) != 0
        <==> is_nan_bits(b)) by (bit_vector);
    assert((a << 1u64 == 0u64) <==> is_zero_bits(a)) by (bit_vector);
    assert((b << 1u64 == 0u64) <==> is_zero_bits(b)) by (bit_vector);
    assert(a << 1u64 != 0u64 ==> a != a ^ 0x8000_0000_0000_0000u64 && !is_zero_bits(a)) by (bit_vector);
}

} // verus!
