//! IEEE 754 binary32 numbers, handled through their 32-bit encodings.
//!
//! Every finite binary32 number is an integer multiple of 2^-149, so the
//! meaning of an encoding is given here as an integer count of such units.
use vstd::arithmetic::power2::{lemma2_to64, lemma_pow2_pos, lemma_pow2_strictly_increases, pow2};
use vstd::prelude::*;

verus! {

/// Encoding of positive infinity.
pub const INFINITY: u32 = 0x7f80_0000;

/// Encoding of the quiet NaN that the operations of this module produce.
pub const QUIET_NAN: u32 = 0x7fc0_0000;

/// Encoding of negative zero; also the mask of the sign bit.
pub const NEGATIVE_ZERO: u32 = 0x8000_0000;

/// The 31 bits below the sign bit: exponent field and fraction field.
pub open spec fn magnitude_bits(b: u32) -> nat {
    (b % 0x8000_0000) as nat
}

pub open spec fn is_negative(b: u32) -> bool {
    b >= 0x8000_0000
}

pub open spec fn is_nan(b: u32) -> bool {
    magnitude_bits(b) > 0x7f80_0000
}

pub open spec fn is_infinite(b: u32) -> bool {
    magnitude_bits(b) == 0x7f80_0000
}

pub open spec fn is_finite(b: u32) -> bool {
    magnitude_bits(b) < 0x7f80_0000
}

/// Whether `b` encodes positive or negative zero.
pub open spec fn is_zero(b: u32) -> bool {
    magnitude_bits(b) == 0
}

/// Significand of the magnitude encoding `m`, with the hidden bit made
/// explicit for normal numbers.
pub open spec fn significand(m: nat) -> nat {
    if m < 0x80_0000 {
        m
    } else {
        0x80_0000 + m % 0x80_0000
    }
}

/// Power of two by which the significand of `m` is scaled, counted from the
/// smallest subnormal.
pub open spec fn scale_exponent(m: nat) -> nat {
    if m < 0x80_0000 {
        0
    } else {
        (m / 0x80_0000 - 1) as nat
    }
}

/// Absolute value, in units of 2^-149, of the number with magnitude encoding
/// `m`. Infinity counts as 2^277 units, above every finite number.
pub open spec fn magnitude_of(m: nat) -> nat {
    significand(m) * pow2(scale_exponent(m))
}

/// Absolute value of `b` in units of 2^-149.
pub open spec fn magnitude(b: u32) -> nat {
    magnitude_of(magnitude_bits(b))
}

/// Value of `b` in units of 2^-149; meaningful unless `b` is a NaN.
pub open spec fn units(b: u32) -> int {
    if is_negative(b) {
        -(magnitude(b) as int)
    } else {
        magnitude(b) as int
    }
}

/// Encoding with the magnitude bits `m` and the given sign.
pub open spec fn with_sign(negative: bool, m: nat) -> u32 {
    if negative {
        (m + 0x8000_0000) as u32
    } else {
        m as u32
    }
}

/// Up to the end of the first normal binade an encoding is its own magnitude.
pub proof fn lemma_magnitude_of_small(m: nat)
    requires
        m < 0x100_0000,
    ensures
        magnitude_of(m) == m,
{
    lemma2_to64();
    assert(scale_exponent(m) == 0);
    assert(significand(m) == m);
    assert(pow2(0) == 1);
    assert(m * 1 == m);
}

/// Larger magnitude encodings stand for larger magnitudes.
pub proof fn lemma_magnitude_of_increases(ma: nat, mb: nat)
    requires
        ma < mb,
    ensures
        magnitude_of(ma) < magnitude_of(mb),
{
    let sa = significand(ma);
    let sb = significand(mb);
    let ea = scale_exponent(ma);
    let eb = scale_exponent(mb);
    lemma_pow2_pos(ea);
    lemma_pow2_pos(eb);
    assert(sa < 0x100_0000);
    if ea == eb {
        assert(sa < sb);
        assert(sa * pow2(ea) < sb * pow2(eb)) by (nonlinear_arith)
            requires
                sa < sb,
                pow2(ea) == pow2(eb),
                pow2(ea) > 0,
        ;
    } else {
        assert(ea < eb);
        assert(sb >= 0x80_0000);
        if ea + 1 < eb {
            lemma_pow2_strictly_increases((ea + 1) as nat, eb);
        }
        assert(pow2((ea + 1) as nat) == 2 * pow2(ea)) by {
            vstd::arithmetic::power2::lemma_pow2_unfold((ea + 1) as nat);
        }
        assert(sa * pow2(ea) < sb * pow2(eb)) by (nonlinear_arith)
            requires
                sa < 0x100_0000,
                sb >= 0x80_0000,
                2 * pow2(ea) <= pow2(eb),
                pow2(ea) > 0,
        ;
    }
}

/// Magnitude encoding of `b`.
pub fn magnitude_field(b: u32) -> (m: u32)
    ensures
        m == magnitude_bits(b),
        m < 0x8000_0000,
{
    b % 0x8000_0000
}

/// Whether `b` has its sign bit set.
pub fn sign_is_set(b: u32) -> (r: bool)
    ensures
        r == is_negative(b),
{
    b >= 0x8000_0000
}

/// Whether `b` encodes a NaN.
pub fn encodes_nan(b: u32) -> (r: bool)
    ensures
        r == is_nan(b),
{
    magnitude_field(b) > INFINITY
}

/// Whether `b` encodes a zero of either sign.
pub fn encodes_zero(b: u32) -> (r: bool)
    ensures
        r == is_zero(b),
{
    magnitude_field(b) == 0
}

/// The order of two numbers, false whenever one of them is a NaN.
pub open spec fn is_below(a: u32, b: u32) -> bool {
    !is_nan(a) && !is_nan(b) && units(a) < units(b)
}

pub open spec fn is_at_least(a: u32, b: u32) -> bool {
    !is_nan(a) && !is_nan(b) && units(a) >= units(b)
}

/// `a < b` as binary32 numbers.
pub fn less_than(a: u32, b: u32) -> (r: bool)
    ensures
        r == is_below(a, b),
{
    let ma: u32 = magnitude_field(a);
    let mb: u32 = magnitude_field(b);
    if ma > INFINITY || mb > INFINITY {
        return false;
    }
    proof {
        lemma_magnitude_of_small(0);
        if ma < mb {
            lemma_magnitude_of_increases(ma as nat, mb as nat);
        }
        if mb < ma {
            lemma_magnitude_of_increases(mb as nat, ma as nat);
        }
        if 0 < ma {
            lemma_magnitude_of_increases(0, ma as nat);
        }
        if 0 < mb {
            lemma_magnitude_of_increases(0, mb as nat);
        }
    }
    let na: bool = sign_is_set(a);
    let nb: bool = sign_is_set(b);
    if na {
        if nb {
            mb < ma
        } else {
            ma != 0 || mb != 0
        }
    } else {
        if nb {
            false
        } else {
            ma < mb
        }
    }
}

/// `a >= b` as binary32 numbers.
pub fn at_least(a: u32, b: u32) -> (r: bool)
    ensures
        r == is_at_least(a, b),
{
    if encodes_nan(a) || encodes_nan(b) {
        false
    } else {
        !less_than(a, b)
    }
}

} // verus!
