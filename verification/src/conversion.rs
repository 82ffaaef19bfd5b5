//! Conversions between binary32 numbers and integers: the saturating floor
//! of a number, and the number nearest to a byte's share of 255.
use crate::arithmetic::decompose;
use crate::binary32::{
    is_nan,
    magnitude,
    magnitude_field,
    magnitude_of,
    sign_is_set,
    units,
    INFINITY,
};
use crate::rounding::{
    lemma_div_lower,
    lemma_div_mod_common_factor,
    lemma_div_upper,
    lemma_round_half_even_common_factor,
    lemma_rounded_magnitude_zero,
    lemma_spacing_exponent,
    power_of_two,
    round_half_even,
    rounded_magnitude,
};
use vstd::arithmetic::div_mod::lemma_fundamental_div_mod_converse;
use vstd::arithmetic::power2::{lemma2_to64, lemma_pow2_adds, lemma_pow2_pos, lemma_pow2_strictly_increases, pow2};
use vstd::prelude::*;

verus! {

/// The largest integer that is not above the value of `b`. Infinity counts
/// as a number beyond every fixed-width integer.
pub open spec fn floor_of(b: u32) -> int {
    units(b) / (pow2(149) as int)
}

/// The floor of `b` as an `i32`: saturating at both ends, zero for a NaN.
#[verifier::opaque]
pub open spec fn floored_i32(b: u32) -> i32 {
    if is_nan(b) {
        0
    } else if floor_of(b) < i32::MIN {
        i32::MIN
    } else if floor_of(b) > i32::MAX {
        i32::MAX
    } else {
        floor_of(b) as i32
    }
}

/// The floor of `b` as a `u32`: zero for a negative number or a NaN,
/// saturating at the upper end.
#[verifier::opaque]
pub open spec fn floored_u32(b: u32) -> u32 {
    if is_nan(b) || floor_of(b) < 0 {
        0
    } else if floor_of(b) > u32::MAX {
        u32::MAX
    } else {
        floor_of(b) as u32
    }
}

/// The binary32 number nearest to `c / 255`.
#[verifier::opaque]
pub open spec fn unit_fraction(c: u8) -> u32 {
    rounded_magnitude(c as nat * pow2(149), 255) as u32
}

/// Whole part of a magnitude, capped at 2^32, and whether the magnitude is
/// a whole number.
fn whole_part(m: u32) -> (r: (u64, bool))
    requires
        m <= INFINITY,
    ensures
        magnitude_of(m as nat) / pow2(149) >= 0x1_0000_0000 ==> r.0 == 0x1_0000_0000,
        magnitude_of(m as nat) / pow2(149) < 0x1_0000_0000 ==> r.0 == magnitude_of(m as nat) / pow2(
            149,
        ),
        r.1 == (magnitude_of(m as nat) % pow2(149) == 0),
{
    let (s, e) = decompose(m);
    let ghost unit = pow2(149);
    let ghost pe = pow2(e as nat);
    proof {
        lemma2_to64();
        lemma_pow2_pos(149);
        lemma_pow2_pos(e as nat);
    }
    if e >= 149 {
        let g: u32 = e - 149;
        let ghost pg = pow2(g as nat);
        proof {
            lemma_pow2_adds(g as nat, 149);
            lemma_pow2_pos(g as nat);
            assert(s * pe == (s * pg) * unit) by (nonlinear_arith)
                requires
                    pe == pg * unit,
            ;
            lemma_fundamental_div_mod_converse(
                (s * pe) as int,
                unit as int,
                (s * pg) as int,
                0,
            );
        }
        if g >= 9 {
            proof {
                if g > 9 {
                    lemma_pow2_strictly_increases(9, g as nat);
                }
                assert(pow2(9) == 0x200);
                assert(s * pg >= 0x1_0000_0000) by (nonlinear_arith)
                    requires
                        s >= 0x80_0000,
                        pg >= 0x200,
                ;
            }
            (0x1_0000_0000, true)
        } else {
            let f: u64 = power_of_two(g);
            proof {
                if g < 8 {
                    lemma_pow2_strictly_increases(g as nat, 8);
                }
                assert(pow2(8) == 0x100);
                assert(s * f < 0x1_0000_0000) by (nonlinear_arith)
                    requires
                        s < 0x100_0000,
                        f <= 0x100,
                ;
            }
            (s as u64 * f, true)
        }
    } else {
        let j: u32 = 149 - e;
        let ghost pj = pow2(j as nat);
        proof {
            lemma_pow2_adds(j as nat, e as nat);
            lemma_pow2_pos(j as nat);
            lemma_div_mod_common_factor(s as nat, pj, pe);
            let rest: nat = s as nat % pj;
            assert((rest * pe == 0) == (rest == 0)) by (nonlinear_arith)
                requires
                    pe > 0,
                    rest >= 0,
            ;
        }
        if j >= 24 {
            proof {
                if j > 24 {
                    lemma_pow2_strictly_increases(24, j as nat);
                }
                assert(pow2(24) == 0x100_0000);
                lemma_fundamental_div_mod_converse(s as int, pj as int, 0, s as int);
            }
            (0, s == 0)
        } else {
            let d: u64 = power_of_two(j);
            (s as u64 / d, s as u64 % d == 0)
        }
    }
}

/// The saturating floor of `b` as an `i32`; zero for a NaN.
pub fn floor_to_i32(b: u32) -> (r: i32)
    ensures
        r == floored_i32(b),
{
    reveal(floored_i32);
    let m: u32 = magnitude_field(b);
    if m > INFINITY {
        return 0;
    }
    let (q, exact) = whole_part(m);
    let ghost x = magnitude_of(m as nat) as int;
    let ghost unit = pow2(149) as int;
    proof {
        lemma_pow2_pos(149);
    }
    if !sign_is_set(b) {
        if q >= 0x8000_0000 {
            i32::MAX
        } else {
            q as i32
        }
    } else {
        proof {
            let whole = x / unit;
            let rest = x % unit;
            vstd::arithmetic::div_mod::lemma_fundamental_div_mod(x, unit);
            vstd::arithmetic::div_mod::lemma_mod_bound(x, unit);
            if rest == 0 {
                assert(-x == (-whole) * unit + 0) by (nonlinear_arith)
                    requires
                        x == unit * whole + rest,
                        rest == 0,
                ;
                lemma_fundamental_div_mod_converse(-x, unit, -whole, 0);
            } else {
                assert(-x == (-whole - 1) * unit + (unit - rest)) by (nonlinear_arith)
                    requires
                        x == unit * whole + rest,
                ;
                lemma_fundamental_div_mod_converse(-x, unit, -whole - 1, unit - rest);
            }
        }
        let w: u64 = if exact {
            q
        } else {
            q + 1
        };
        if w >= 0x8000_0000 {
            i32::MIN
        } else {
            -(w as i32)
        }
    }
}

/// The saturating floor of `b` as a `u32`; zero for a negative number or a
/// NaN.
pub fn floor_to_u32(b: u32) -> (r: u32)
    ensures
        r == floored_u32(b),
{
    reveal(floored_u32);
    let m: u32 = magnitude_field(b);
    if m > INFINITY {
        return 0;
    }
    proof {
        lemma_pow2_pos(149);
    }
    if sign_is_set(b) {
        proof {
            lemma_div_upper(units(b), pow2(149) as int, 1);
        }
        return 0;
    }
    let (q, _exact) = whole_part(m);
    if q >= 0x1_0000_0000 {
        u32::MAX
    } else {
        q as u32
    }
}

/// The binary32 number nearest to `c / 255`.
pub fn normalize_channel(c: u8) -> (r: u32)
    ensures
        r == unit_fraction(c),
{
    reveal(unit_fraction);
    if c == 0 {
        proof {
            assert(0 * pow2(149) == 0);
            lemma_rounded_magnitude_zero(255);
        }
        return 0;
    }
    let mut j: u32 = 23;
    let mut y: u64 = c as u64 * 0x80_0000;
    proof {
        lemma2_to64();
    }
    while y < 0x7f80_0000
        invariant
            23 <= j <= 31,
            c >= 1,
            y == c * pow2(j as nat),
            y < 0xff00_0000,
        decreases 32 - j,
    {
        proof {
            vstd::arithmetic::power2::lemma_pow2_unfold((j + 1) as nat);
            lemma_pow2_pos(j as nat);
            if j == 31 {
                lemma2_to64();
                assert(pow2(31) == 0x8000_0000);
                assert(c * pow2(31) >= 0x8000_0000) by (nonlinear_arith)
                    requires
                        c >= 1,
                        pow2(31) == 0x8000_0000,
                ;
            }
            assert(c * (2 * pow2(j as nat)) == 2 * (c * pow2(j as nat))) by (nonlinear_arith);
        }
        y = y * 2;
        j = j + 1;
    }
    let q: u64 = y / 255;
    let rem: u64 = y % 255;
    let m: u64 = if 2 * rem > 255 || (2 * rem == 255 && q % 2 == 1) {
        q + 1
    } else {
        q
    };
    let t: u32 = 149 - j;
    proof {
        let pt = pow2(t as nat);
        let n = c as nat * pow2(149);
        lemma_pow2_adds(j as nat, t as nat);
        lemma_pow2_pos(t as nat);
        assert(n == y * pt) by (nonlinear_arith)
            requires
                n == c * pow2(149),
                pow2(149) == pow2(j as nat) * pt,
                y == c * pow2(j as nat),
        ;
        assert((0x80_0000 * pt) * 255 <= n && n < (0x100_0000 * pt) * 255) by (nonlinear_arith)
            requires
                n == y * pt,
                0x7f80_0000 <= y < 0xff00_0000,
                pt > 0,
        ;
        lemma_div_lower(n as int, 255, (0x80_0000 * pt) as int);
        lemma_div_upper(n as int, 255, (0x100_0000 * pt) as int);
        lemma_spacing_exponent(n / 255, t as nat);
        lemma_round_half_even_common_factor(y as nat, 255, pt);
        assert(m == round_half_even(y as nat, 255));
    }
    (t as u64 * 0x80_0000 + m) as u32
}

} // verus!
