//! Multiplication and subtraction of binary32 numbers on their encodings,
//! correctly rounded: the result is the binary32 number nearest to the exact
//! result, ties to the even significand.
use crate::binary32::{
    is_infinite,
    is_nan,
    is_negative,
    is_zero,
    magnitude,
    magnitude_bits,
    magnitude_field,
    magnitude_of,
    scale_exponent,
    sign_is_set,
    significand,
    units,
    with_sign,
    INFINITY,
    NEGATIVE_ZERO,
    QUIET_NAN,
};
use crate::rounding::{
    lemma_rounded_magnitude_common_factor,
    lemma_spacing_exponent,
    power_of_two,
    round_scaled,
    rounded_magnitude,
};
use vstd::arithmetic::div_mod::lemma_fundamental_div_mod_converse;
use vstd::arithmetic::power2::{
    lemma2_to64,
    lemma_pow2_adds,
    lemma_pow2_pos,
    lemma_pow2_strictly_increases,
    lemma_pow2_unfold,
    pow2,
};
use vstd::prelude::*;

verus! {

/// The product of two binary32 numbers.
///
/// A NaN operand, or zero times infinity, gives the quiet NaN. Otherwise the
/// sign is the exclusive or of the signs and the magnitude is the rounded
/// exact product.
#[verifier::opaque]
pub open spec fn product(a: u32, b: u32) -> u32 {
    if is_nan(a) || is_nan(b) || (is_infinite(a) && is_zero(b)) || (is_zero(a) && is_infinite(b)) {
        QUIET_NAN
    } else if is_infinite(a) || is_infinite(b) {
        with_sign(is_negative(a) != is_negative(b), 0x7f80_0000)
    } else {
        with_sign(
            is_negative(a) != is_negative(b),
            rounded_magnitude(magnitude(a) * magnitude(b), pow2(149)),
        )
    }
}

/// The number of the same magnitude and the opposite sign.
pub open spec fn negation(b: u32) -> u32 {
    if is_negative(b) {
        (b - 0x8000_0000) as u32
    } else {
        (b + 0x8000_0000) as u32
    }
}

/// Rounding of the exact value `s`, counted in units of 2^-149. An exact
/// zero is negative only where `negative_zero` says so.
pub open spec fn rounded_units(s: int, negative_zero: bool) -> u32 {
    if s > 0 {
        with_sign(false, rounded_magnitude(s as nat, 1))
    } else if s < 0 {
        with_sign(true, rounded_magnitude((-s) as nat, 1))
    } else if negative_zero {
        NEGATIVE_ZERO
    } else {
        0
    }
}

/// The difference `a - b` of two binary32 numbers.
///
/// A NaN operand, or the difference of two infinities of one sign, gives the
/// quiet NaN. An exact zero is negative only for `-0 - +0`.
#[verifier::opaque]
pub open spec fn difference(a: u32, b: u32) -> u32 {
    if is_nan(a) || is_nan(b) {
        QUIET_NAN
    } else if is_infinite(a) {
        if is_infinite(b) && is_negative(a) == is_negative(b) {
            QUIET_NAN
        } else {
            a
        }
    } else if is_infinite(b) {
        negation(b)
    } else {
        rounded_units(units(a) - units(b), is_negative(a) && !is_negative(b))
    }
}

/// Significand and scale exponent of a magnitude encoding.
pub(crate) fn decompose(m: u32) -> (r: (u32, u32))
    requires
        m <= INFINITY,
    ensures
        r.0 == significand(m as nat),
        r.1 == scale_exponent(m as nat),
        r.0 < 0x100_0000,
        r.1 <= 254,
        m >= 0x80_0000 ==> r.0 >= 0x80_0000,
{
    if m < 0x80_0000 {
        (m, 0)
    } else {
        (0x80_0000 + m % 0x80_0000, m / 0x80_0000 - 1)
    }
}

/// Encoding with the magnitude bits `m` and the given sign.
pub(crate) fn signed(negative: bool, m: u32) -> (r: u32)
    requires
        m < 0x8000_0000,
    ensures
        r == with_sign(negative, m as nat),
        magnitude_bits(r) == m,
        is_negative(r) == negative,
{
    if negative {
        m + 0x8000_0000
    } else {
        m
    }
}

/// `a * b`, correctly rounded.
pub fn multiply(a: u32, b: u32) -> (r: u32)
    ensures
        r == product(a, b),
{
    reveal(product);
    let ma: u32 = magnitude_field(a);
    let mb: u32 = magnitude_field(b);
    if ma > INFINITY || mb > INFINITY {
        return QUIET_NAN;
    }
    let negative: bool = sign_is_set(a) != sign_is_set(b);
    if ma == INFINITY || mb == INFINITY {
        if ma == 0 || mb == 0 {
            return QUIET_NAN;
        }
        return signed(negative, INFINITY);
    }
    let (sa, ea) = decompose(ma);
    let (sb, eb) = decompose(mb);
    proof {
        assert(sa * sb < 0x100_0000 * 0x100_0000) by (nonlinear_arith)
            requires
                sa < 0x100_0000,
                sb < 0x100_0000,
        ;
    }
    let p: u64 = sa as u64 * sb as u64;
    let e: i32 = ea as i32 + eb as i32 - 149;
    let m: u32 = round_scaled(p, e);
    proof {
        let pa = pow2(ea as nat);
        let pb = pow2(eb as nat);
        let s = (ea + eb) as nat;
        lemma_pow2_adds(ea as nat, eb as nat);
        lemma_pow2_pos(s);
        lemma_pow2_pos(149);
        assert(magnitude(a) * magnitude(b) == p * pow2(s)) by (nonlinear_arith)
            requires
                magnitude(a) == sa * pa,
                magnitude(b) == sb * pb,
                p == sa * sb,
                pow2(s) == pa * pb,
        ;
        if e >= 0 {
            lemma_pow2_adds(e as nat, 149);
            lemma_pow2_pos(e as nat);
            let n = p as nat * pow2(e as nat);
            assert(n * pow2(149) == p * pow2(s)) by (nonlinear_arith)
                requires
                    n == p * pow2(e as nat),
                    pow2(s) == pow2(e as nat) * pow2(149),
            ;
            assert(1 * pow2(149) == pow2(149));
            lemma_rounded_magnitude_common_factor(n, 1, pow2(149));
        } else {
            lemma_pow2_adds((-e) as nat, s);
            lemma_pow2_pos((-e) as nat);
            lemma_rounded_magnitude_common_factor(p as nat, pow2((-e) as nat), pow2(s));
        }
    }
    signed(negative, m)
}

/// A number keeps its encoding when something below a quarter of its
/// spacing is added to it or taken from it.
proof fn lemma_absorbs(m: nat, b: nat, take: bool)
    requires
        0x100_0000 <= m < 0x7f80_0000,
        4 * b < pow2(scale_exponent(m)),
    ensures
        b < magnitude_of(m),
        !take ==> rounded_magnitude(magnitude_of(m) + b, 1) == m,
        take ==> rounded_magnitude((magnitude_of(m) - b) as nat, 1) == m,
{
    lemma2_to64();
    let s = significand(m);
    let e = scale_exponent(m);
    let pe = pow2(e);
    let a = magnitude_of(m);
    lemma_pow2_pos(e);
    assert(e >= 1);
    assert(m == e * 0x80_0000 + s);
    assert(0x80_0000 <= s < 0x100_0000);
    assert(0x80_0000 * pe <= a && a + pe <= 0x100_0000 * pe && b < a) by (nonlinear_arith)
        requires
            a == s * pe,
            0x80_0000 <= s < 0x100_0000,
            4 * b < pe,
    ;
    if !take || b == 0 || s > 0x80_0000 {
        let x: nat = if take {
            (a - b) as nat
        } else {
            a + b
        };
        let q: int = if take && b > 0 {
            s - 1
        } else {
            s as int
        };
        let r: int = if take && b > 0 {
            pe - b
        } else {
            b as int
        };
        assert(x == q * pe + r && 0x80_0000 * pe <= x < 0x100_0000 * pe) by (nonlinear_arith)
            requires
                a == s * pe,
                x == (if take { a - b } else { (a + b) as int }),
                q == (if take && b > 0 { s - 1 } else { s as int }),
                r == (if take && b > 0 { pe - b } else { b as int }),
                0x80_0000 <= s < 0x100_0000,
                4 * b < pe,
                !take || b == 0 || s > 0x80_0000,
        ;
        lemma_spacing_exponent(x, e);
        assert(x / 1 == x);
        assert(1 * pe == pe);
        lemma_fundamental_div_mod_converse(x as int, pe as int, q, r);
    } else {
        let x = (a - b) as nat;
        let t = (e - 1) as nat;
        let pt = pow2(t);
        lemma_pow2_unfold(e);
        lemma_pow2_pos(t);
        assert(x == 0xff_ffff * pt + (pt - b) && 0x80_0000 * pt <= x < 0x100_0000 * pt && 2 * b
            < pt) by (nonlinear_arith)
            requires
                a == s * pe,
                x == a - b,
                s == 0x80_0000,
                pe == 2 * pt,
                4 * b < pe,
                b > 0,
        ;
        if t == 0 {
            assert(false);
        }
        lemma_spacing_exponent(x, t);
        assert(x / 1 == x);
        assert(1 * pt == pt);
        lemma_fundamental_div_mod_converse(x as int, pt as int, 0xff_ffff, pt - b);
    }
}

/// Value in units of 2^-149 of the finite number with the given sign and
/// magnitude encoding.
spec fn signed_units(negative: bool, m: nat) -> int {
    if negative {
        -(magnitude_of(m) as int)
    } else {
        magnitude_of(m) as int
    }
}

/// Rounded sum of two finite numbers, the first of which has the scale
/// exponent that is not the smaller one.
fn combine_ordered(na: bool, ma: u32, nb: bool, mb: u32) -> (r: u32)
    requires
        ma < INFINITY,
        mb < INFINITY,
        scale_exponent(ma as nat) >= scale_exponent(mb as nat),
    ensures
        r == rounded_units(signed_units(na, ma as nat) + signed_units(nb, mb as nat), na && nb),
{
    let (sa, ea) = decompose(ma);
    let (sb, eb) = decompose(mb);
    let gap: u32 = ea - eb;
    let ghost pb = pow2(eb as nat);
    let ghost b = magnitude_of(mb as nat);
    proof {
        lemma2_to64();
        lemma_pow2_pos(eb as nat);
    }
    if gap >= 26 {
        proof {
            lemma_pow2_adds(24, eb as nat);
            lemma_pow2_unfold((eb + 26) as nat);
            lemma_pow2_unfold((eb + 25) as nat);
            if eb + 26 < ea {
                lemma_pow2_strictly_increases((eb + 26) as nat, ea as nat);
            }
            assert(4 * b < pow2((eb + 26) as nat)) by (nonlinear_arith)
                requires
                    b == sb * pb,
                    sb < 0x100_0000,
                    pow2((eb + 26) as nat) == 4 * (0x100_0000 * pb),
                    pb > 0,
            ;
            lemma_absorbs(ma as nat, b, na != nb);
        }
        return signed(na, ma);
    }
    let f: u64 = power_of_two(gap);
    proof {
        if gap < 25 {
            lemma_pow2_strictly_increases(gap as nat, 25);
        }
        assert(pow2(25) == 0x200_0000);
        assert(sa * f < 0x100_0000 * 0x200_0000 + 1) by (nonlinear_arith)
            requires
                sa < 0x100_0000,
                f <= 0x200_0000,
        ;
        lemma_pow2_adds(gap as nat, eb as nat);
    }
    let big: u64 = sa as u64 * f;
    let ghost a = magnitude_of(ma as nat);
    proof {
        assert(a == big * pb) by (nonlinear_arith)
            requires
                a == sa * pow2(ea as nat),
                pow2(ea as nat) == f * pb,
                big == sa * f,
        ;
    }
    let small: u64 = sb as u64;
    if na == nb {
        let total: u64 = big + small;
        proof {
            assert(a + b == total * pb) by (nonlinear_arith)
                requires
                    a == big * pb,
                    b == small * pb,
                    total == big + small,
            ;
            assert(total == 0 ==> a + b == 0);
            assert(total > 0 ==> a + b > 0) by (nonlinear_arith)
                requires
                    a + b == total * pb,
                    pb > 0,
            ;
        }
        let m: u32 = round_scaled(total, eb as i32);
        signed(na, m)
    } else if big == small {
        0
    } else if big > small {
        let rest: u64 = big - small;
        proof {
            assert(a - b == rest * pb && a - b > 0) by (nonlinear_arith)
                requires
                    a == big * pb,
                    b == small * pb,
                    rest == big - small,
                    rest > 0,
                    pb > 0,
            ;
        }
        let m: u32 = round_scaled(rest, eb as i32);
        signed(na, m)
    } else {
        let rest: u64 = small - big;
        proof {
            assert(b - a == rest * pb && b - a > 0) by (nonlinear_arith)
                requires
                    a == big * pb,
                    b == small * pb,
                    rest == small - big,
                    rest > 0,
                    pb > 0,
            ;
        }
        let m: u32 = round_scaled(rest, eb as i32);
        signed(nb, m)
    }
}

/// `a - b`, correctly rounded.
pub fn subtract(a: u32, b: u32) -> (r: u32)
    ensures
        r == difference(a, b),
{
    reveal(difference);
    let ma: u32 = magnitude_field(a);
    let mb: u32 = magnitude_field(b);
    if ma > INFINITY || mb > INFINITY {
        return QUIET_NAN;
    }
    let na: bool = sign_is_set(a);
    let nb: bool = !sign_is_set(b);
    if ma == INFINITY {
        if mb == INFINITY && na != nb {
            return QUIET_NAN;
        }
        return a;
    }
    if mb == INFINITY {
        return signed(nb, mb);
    }
    let (_sa, ea) = decompose(ma);
    let (_sb, eb) = decompose(mb);
    if ea >= eb {
        combine_ordered(na, ma, nb, mb)
    } else {
        combine_ordered(nb, mb, na, ma)
    }
}

} // verus!
