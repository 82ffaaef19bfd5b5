//! Rounding of exact quotients to binary32: to nearest, ties to even.
//!
//! A quotient `n / d` counts units of 2^-149. Its rounding is described by
//! the spacing of the binary32 numbers around it and by the nearest multiple
//! of that spacing.
use crate::binary32::INFINITY;
use vstd::arithmetic::div_mod::{
    lemma_fundamental_div_mod,
    lemma_fundamental_div_mod_converse,
    lemma_mod_bound,
};
use vstd::arithmetic::power2::{
    lemma2_to64,
    lemma2_to64_rest,
    lemma_pow2_adds,
    lemma_pow2_pos,
    lemma_pow2_strictly_increases,
    lemma_pow2_unfold,
    pow2,
};
use vstd::prelude::*;

verus! {

/// Exponent `t` of the spacing `2^t` between neighbouring binary32 numbers
/// around the magnitude `q`: zero below 2^24, then one more per doubling.
pub open spec fn spacing_exponent(q: nat) -> nat
    decreases q,
{
    if q < 0x100_0000 {
        0
    } else {
        1 + spacing_exponent(q / 2)
    }
}

/// The integer nearest to `n / d`; of two equally near ones, the even one.
pub open spec fn round_half_even(n: nat, d: nat) -> nat {
    let q = n / d;
    let r = n % d;
    if 2 * r > d || (2 * r == d && q % 2 == 1) {
        q + 1
    } else {
        q
    }
}

/// Magnitude encoding of the binary32 number nearest to `n / d` units, ties
/// to the even significand; infinity where the rounded number is too large.
pub open spec fn rounded_magnitude(n: nat, d: nat) -> nat {
    let t = spacing_exponent(n / d);
    let m = t * 0x80_0000 + round_half_even(n, d * pow2(t));
    if m >= 0x7f80_0000 {
        0x7f80_0000
    } else {
        m
    }
}

/// Rounding of `p * 2^e` units, for an exponent of either sign.
pub(crate) open spec fn scaled_rounding(p: nat, e: int) -> nat {
    if e >= 0 {
        rounded_magnitude(p * pow2(e as nat), 1)
    } else {
        rounded_magnitude(p, pow2((-e) as nat))
    }
}

pub(crate) proof fn lemma_div_lower(x: int, d: int, a: int)
    requires
        d > 0,
        a * d <= x,
    ensures
        a <= x / d,
{
    lemma_fundamental_div_mod(x, d);
    lemma_mod_bound(x, d);
    let q = x / d;
    let r = x % d;
    assert(a <= q) by (nonlinear_arith)
        requires
            x == d * q + r,
            0 <= r < d,
            a * d <= x,
            d > 0,
    ;
}

pub(crate) proof fn lemma_div_upper(x: int, d: int, a: int)
    requires
        d > 0,
        x < a * d,
    ensures
        x / d < a,
{
    lemma_fundamental_div_mod(x, d);
    lemma_mod_bound(x, d);
    let q = x / d;
    let r = x % d;
    assert(q < a) by (nonlinear_arith)
        requires
            x == d * q + r,
            0 <= r < d,
            x < a * d,
            d > 0,
    ;
}

/// Quotient and remainder of a product by a product with the same factor.
pub(crate) proof fn lemma_div_mod_common_factor(n: nat, d: nat, c: nat)
    requires
        d > 0,
        c > 0,
    ensures
        (n * c) / (d * c) == n / d,
        (n * c) % (d * c) == (n % d) * c,
{
    lemma_fundamental_div_mod(n as int, d as int);
    lemma_mod_bound(n as int, d as int);
    let q = (n / d) as int;
    let r = (n % d) as int;
    assert(n * c == q * (d * c) + r * c && 0 <= r * c < d * c) by (nonlinear_arith)
        requires
            n == d * q + r,
            0 <= r < d,
            c > 0,
    ;
    lemma_fundamental_div_mod_converse((n * c) as int, (d * c) as int, q, r * c);
}

/// Rounding sees only the quotient, not how it is written.
pub proof fn lemma_round_half_even_common_factor(n: nat, d: nat, c: nat)
    requires
        d > 0,
        c > 0,
    ensures
        round_half_even(n * c, d * c) == round_half_even(n, d),
{
    lemma_div_mod_common_factor(n, d, c);
    let r = n % d;
    assert((2 * (r * c) > d * c) == (2 * r > d) && (2 * (r * c) == d * c) == (2 * r == d))
        by (nonlinear_arith)
        requires
            c > 0,
    ;
}

/// A multiple of the divisor rounds to its exact quotient.
pub proof fn lemma_round_half_even_exact(x: nat, d: nat)
    requires
        d > 0,
    ensures
        round_half_even(x * d, d) == x,
{
    lemma_fundamental_div_mod_converse((x * d) as int, d as int, x as int, 0);
}

/// The spacing exponent of a magnitude between `2^(23+t)` and `2^(24+t)`,
/// or below `2^24` for `t == 0`.
pub proof fn lemma_spacing_exponent(q: nat, t: nat)
    requires
        q < 0x100_0000 * pow2(t),
        t > 0 ==> 0x80_0000 * pow2(t) <= q,
    ensures
        spacing_exponent(q) == t,
    decreases t,
{
    lemma2_to64();
    if t == 0 {
        assert(pow2(0) == 1);
    } else {
        lemma_pow2_unfold(t);
        lemma_pow2_pos((t - 1) as nat);
        let p = pow2((t - 1) as nat);
        assert(pow2(t) == 2 * p);
        assert(q >= 0x100_0000) by (nonlinear_arith)
            requires
                0x80_0000 * (2 * p) <= q,
                p >= 1,
        ;
        assert(q / 2 < 0x100_0000 * p) by (nonlinear_arith)
            requires
                q < 0x100_0000 * (2 * p),
        ;
        assert(0x80_0000 * p <= q / 2) by (nonlinear_arith)
            requires
                0x80_0000 * (2 * p) <= q,
        ;
        lemma_spacing_exponent(q / 2, (t - 1) as nat);
    }
}

/// A magnitude in the normal range lies between `2^23` and `2^24` times its
/// spacing.
pub proof fn lemma_spacing_bounds(q: nat)
    requires
        q >= 0x80_0000,
    ensures
        0x80_0000 * pow2(spacing_exponent(q)) <= q < 0x100_0000 * pow2(spacing_exponent(q)),
    decreases q,
{
    lemma2_to64();
    if q >= 0x100_0000 {
        let t = spacing_exponent(q / 2);
        lemma_spacing_bounds(q / 2);
        lemma_pow2_unfold(t + 1);
        let p = pow2(t);
        assert(0x80_0000 * (2 * p) <= q < 0x100_0000 * (2 * p)) by (nonlinear_arith)
            requires
                0x80_0000 * p <= q / 2 < 0x100_0000 * p,
        ;
    }
}

/// The rounded number differs from the exact quotient by at most half the
/// spacing around the quotient, for a quotient in the normal range whose
/// rounding is finite.
pub proof fn lemma_rounding_error(n: nat, d: nat)
    requires
        d > 0,
        n / d >= 0x80_0000,
        rounded_magnitude(n, d) < 0x7f80_0000,
    ensures
        ({
            let r = rounded_magnitude(n, d);
            let spacing = pow2(spacing_exponent(n / d));
            &&& 2 * (crate::binary32::magnitude_of(r) * d - n) <= d * spacing
            &&& 2 * (n - crate::binary32::magnitude_of(r) * d) <= d * spacing
            &&& 0x80_0000 * spacing * d <= n
        }),
{
    lemma2_to64();
    let q = n / d;
    let t = spacing_exponent(q);
    let p = pow2(t);
    lemma_pow2_pos(t);
    lemma_spacing_bounds(q);
    lemma_fundamental_div_mod(n as int, d as int);
    lemma_mod_bound(n as int, d as int);
    let dd = d * p;
    assert(dd > 0 && 0x80_0000 * p * d <= n && n < 0x100_0000 * dd && 0x80_0000 * dd <= n
        && 0x80_0000 * p * d == 0x80_0000 * dd) by (nonlinear_arith)
        requires
            0x80_0000 * p <= q < 0x100_0000 * p,
            n == d * q + n % d,
            0 <= n % d < d,
            d > 0,
            p > 0,
            dd == d * p,
    ;
    let whole = n / dd;
    let rest = n % dd;
    lemma_fundamental_div_mod(n as int, dd as int);
    lemma_mod_bound(n as int, dd as int);
    lemma_div_lower(n as int, dd as int, 0x80_0000);
    lemma_div_upper(n as int, dd as int, 0x100_0000);
    let m = round_half_even(n, dd);
    let r = rounded_magnitude(n, d);
    assert(r == t * 0x80_0000 + m);
    assert(0x80_0000 <= m <= 0x100_0000);
    // The encoding stands for `m` times the spacing.
    if m < 0x100_0000 {
        assert(r == (t + 1) * 0x80_0000 + (m - 0x80_0000));
        assert(r / 0x80_0000 == t + 1 && r % 0x80_0000 == m - 0x80_0000) by {
            lemma_fundamental_div_mod_converse(r as int, 0x80_0000, t as int + 1, m - 0x80_0000);
        }
        assert(crate::binary32::magnitude_of(r) == m * p);
    } else {
        assert(r == (t + 2) * 0x80_0000);
        assert(r / 0x80_0000 == t + 2 && r % 0x80_0000 == 0) by {
            lemma_fundamental_div_mod_converse(r as int, 0x80_0000, t as int + 2, 0);
        }
        lemma_pow2_unfold(t + 1);
        assert(crate::binary32::magnitude_of(r) == 0x80_0000 * pow2(t + 1));
        assert(0x80_0000 * (2 * p) == m * p) by (nonlinear_arith)
            requires
                m == 0x100_0000,
        ;
    }
    let x = crate::binary32::magnitude_of(r);
    assert(2 * (x * d - n) <= dd && 2 * (n - x * d) <= dd) by (nonlinear_arith)
        requires
            x == m * p,
            dd == d * p,
            n == dd * whole + rest,
            0 <= rest < dd,
            m == whole || m == whole + 1,
            m == whole ==> 2 * rest <= dd,
            m == whole + 1 ==> 2 * rest >= dd,
    ;
}

/// Rounding sees only the quotient, not how it is written.
pub proof fn lemma_rounded_magnitude_common_factor(n: nat, d: nat, c: nat)
    requires
        d > 0,
        c > 0,
    ensures
        rounded_magnitude(n * c, d * c) == rounded_magnitude(n, d),
{
    lemma_div_mod_common_factor(n, d, c);
    let t = spacing_exponent(n / d);
    lemma_pow2_pos(t);
    let p = pow2(t);
    assert(d * c * p == (d * p) * c) by (nonlinear_arith);
    assert(d * p > 0) by (nonlinear_arith)
        requires
            d > 0,
            p > 0,
    ;
    lemma_round_half_even_common_factor(n, d * p, c);
}

/// Zero rounds to zero.
pub proof fn lemma_rounded_magnitude_zero(d: nat)
    requires
        d > 0,
    ensures
        rounded_magnitude(0, d) == 0,
{
    lemma2_to64();
    lemma_fundamental_div_mod_converse(0, d as int, 0, 0);
    assert(spacing_exponent(0) == 0);
    assert(d * pow2(0) == d) by (nonlinear_arith)
        requires
            pow2(0) == 1,
    ;
}

/// Spacing exponent of a magnitude with `h` binary digits before the unit
/// boundary, that is of a magnitude in `[2^(h-1), 2^h)`.
pub(crate) open spec fn spacing_for(h: int) -> nat {
    if h > 24 {
        (h - 24) as nat
    } else {
        0
    }
}

/// The significand left when `p` is divided by `2^k` and rounded; for a
/// `k` that is not positive the division is an exact multiplication.
pub(crate) open spec fn significand_for(p: nat, k: int) -> nat {
    if k <= 0 {
        p * pow2((-k) as nat)
    } else {
        round_half_even(p, pow2(k as nat))
    }
}

/// Magnitude encoding made of a spacing exponent and a rounded significand.
pub(crate) open spec fn assemble(t: nat, m: nat) -> nat {
    let b = t * 0x80_0000 + m;
    if b >= 0x7f80_0000 {
        0x7f80_0000
    } else {
        b
    }
}

/// The spacing exponent of `p * 2^e`, from the number of digits of `p`.
proof fn lemma_scaled_spacing(p: nat, l: nat, e: int)
    requires
        l >= 1,
        pow2((l - 1) as nat) <= p < pow2(l),
    ensures
        e >= 0 ==> spacing_exponent((p * pow2(e as nat)) / 1) == spacing_for(l + e),
        e < 0 ==> spacing_exponent(p / pow2((-e) as nat)) == spacing_for(l + e),
{
    lemma2_to64();
    let h = l + e;
    let t = spacing_for(h);
    let q: nat = if e >= 0 {
        (p * pow2(e as nat)) / 1
    } else {
        p / pow2((-e) as nat)
    };
    // The quotient has exactly `h` digits, or is zero.
    if e >= 0 {
        let pe = pow2(e as nat);
        lemma_pow2_pos(e as nat);
        lemma_pow2_adds((l - 1) as nat, e as nat);
        lemma_pow2_adds(l, e as nat);
        assert(pow2((l - 1) as nat) * pe <= p * pe < pow2(l) * pe) by (nonlinear_arith)
            requires
                pow2((l - 1) as nat) <= p < pow2(l),
                pe > 0,
        ;
        assert(pow2((h - 1) as nat) <= q < pow2(h as nat));
    } else {
        let j = (-e) as nat;
        let pj = pow2(j);
        lemma_pow2_pos(j);
        if h >= 1 {
            lemma_pow2_adds((h - 1) as nat, j);
            lemma_pow2_adds(h as nat, j);
            lemma_div_lower(p as int, pj as int, pow2((h - 1) as nat) as int);
            lemma_div_upper(p as int, pj as int, pow2(h as nat) as int);
            assert(pow2((h - 1) as nat) <= q < pow2(h as nat));
        } else {
            if l < j {
                lemma_pow2_strictly_increases(l, j);
            }
            lemma_div_upper(p as int, pj as int, 1);
            assert(q == 0);
        }
    }
    if h <= 24 {
        if h >= 1 && h < 24 {
            lemma_pow2_strictly_increases(h as nat, 24);
        }
        assert(q < 0x100_0000);
        assert(0x100_0000 * pow2(0) == 0x100_0000);
        lemma_spacing_exponent(q, 0);
    } else {
        lemma_pow2_adds(24, t);
        lemma_pow2_adds(23, t);
        assert(pow2(24) == 0x100_0000 && pow2(23) == 0x80_0000);
        lemma_spacing_exponent(q, t);
    }
}

/// How `p * 2^e` is rounded, from the number of digits of `p`.
pub(crate) proof fn lemma_scaled_rounding(p: nat, l: nat, e: int)
    requires
        l >= 1,
        pow2((l - 1) as nat) <= p < pow2(l),
    ensures
        scaled_rounding(p, e) == assemble(
            spacing_for(l + e),
            significand_for(p, spacing_for(l + e) - e),
        ),
        spacing_for(l + e) - e <= 0 ==> significand_for(p, spacing_for(l + e) - e) < 0x100_0000,
{
    lemma2_to64();
    lemma_scaled_spacing(p, l, e);
    let h = l + e;
    let t = spacing_for(h);
    let k = t - e;
    let pt = pow2(t);
    lemma_pow2_pos(t);
    if e >= 0 {
        let pe = pow2(e as nat);
        let n = p * pe;
        assert(1 * pt == pt);
        if k <= 0 {
            let x = p * pow2((-k) as nat);
            lemma_pow2_adds((-k) as nat, t);
            assert(n == x * pt) by (nonlinear_arith)
                requires
                    n == p * pe,
                    x == p * pow2((-k) as nat),
                    pe == pow2((-k) as nat) * pt,
            ;
            lemma_round_half_even_exact(x, pt);
            // The product stays below 2^24.
            lemma_pow2_adds(l, (-k) as nat);
            lemma_pow2_pos((-k) as nat);
            if l - k < 24 {
                lemma_pow2_strictly_increases((l - k) as nat, 24);
            }
            assert(x < pow2(l) * pow2((-k) as nat)) by (nonlinear_arith)
                requires
                    x == p * pow2((-k) as nat),
                    p < pow2(l),
                    pow2((-k) as nat) > 0,
            ;
        } else {
            lemma_pow2_adds(k as nat, e as nat);
            lemma_pow2_pos(k as nat);
            lemma_pow2_pos(e as nat);
            lemma_round_half_even_common_factor(p, pow2(k as nat), pe);
        }
    } else {
        lemma_pow2_adds((-e) as nat, t);
    }
}

/// `2^k` for an exponent that a `u64` can hold.
pub(crate) fn power_of_two(k: u32) -> (p: u64)
    requires
        k < 64,
    ensures
        p == pow2(k as nat),
{
    let mut p: u64 = 1;
    let mut i: u32 = 0;
    proof {
        lemma2_to64();
    }
    while i < k
        invariant
            i <= k,
            k < 64,
            p == pow2(i as nat),
        decreases k - i,
    {
        proof {
            lemma_pow2_unfold((i + 1) as nat);
            lemma2_to64_rest();
            if i + 1 < 63 {
                lemma_pow2_strictly_increases((i + 1) as nat, 63);
            }
        }
        p = p * 2;
        i = i + 1;
    }
    p
}

/// Number of binary digits of `x`.
pub(crate) fn bit_length(x: u64) -> (l: u32)
    ensures
        l <= 64,
        x == 0 <==> l == 0,
        x < pow2(l as nat),
        l > 0 ==> pow2((l - 1) as nat) <= x,
{
    let mut y: u64 = x;
    let mut l: u32 = 0;
    proof {
        lemma2_to64();
    }
    while y > 0
        invariant
            l <= 64,
            y * pow2(l as nat) <= x,
            x < (y + 1) * pow2(l as nat),
            l > 0 ==> pow2((l - 1) as nat) <= x,
            x == 0 <==> (l == 0 && y == 0),
            l == 64 ==> y == 0,
        decreases y,
    {
        proof {
            lemma_pow2_unfold((l + 1) as nat);
            lemma_pow2_pos(l as nat);
            lemma2_to64_rest();
            let p = pow2(l as nat);
            let z = y / 2;
            assert(z * (2 * p) <= y * p && (y + 1) * p <= (z + 1) * (2 * p) && p <= y * p)
                by (nonlinear_arith)
                requires
                    z == y / 2,
                    y >= 1,
                    p > 0,
            ;
            if l >= 63 {
                assert(y == 1) by (nonlinear_arith)
                    requires
                        y >= 1,
                        y * p <= x,
                        x <= 0xffff_ffff_ffff_ffff,
                        p == 0x8000_0000_0000_0000,
                ;
            }
        }
        y = y / 2;
        l = l + 1;
    }
    proof {
        assert(x < 1 * pow2(l as nat));
        assert(1 * pow2(l as nat) == pow2(l as nat));
    }
    l
}

/// Magnitude encoding of the binary32 number nearest to `p * 2^e` units.
pub(crate) fn round_scaled(p: u64, e: i32) -> (r: u32)
    requires
        p < 0x4_0000_0000_0000,
        -200 <= e <= 400,
    ensures
        r == scaled_rounding(p as nat, e as int),
        r <= INFINITY,
{
    if p == 0 {
        proof {
            if e >= 0 {
                assert(0 * pow2(e as nat) == 0);
                lemma_rounded_magnitude_zero(1);
            } else {
                lemma_pow2_pos((-e) as nat);
                lemma_rounded_magnitude_zero(pow2((-e) as nat));
            }
        }
        return 0;
    }
    let l: u32 = bit_length(p);
    proof {
        lemma2_to64_rest();
        if l > 51 {
            lemma_pow2_strictly_increases(50, (l - 1) as nat);
        }
        assert(l <= 50);
        lemma_scaled_rounding(p as nat, l as nat, e as int);
    }
    let h: i32 = l as i32 + e;
    if h >= 279 {
        return INFINITY;
    }
    let t: i32 = if h > 24 {
        h - 24
    } else {
        0
    };
    let k: i32 = t - e;
    let m: u64;
    if k <= 0 {
        let f: u64 = power_of_two((-k) as u32);
        m = p * f;
    } else if k >= 52 {
        proof {
            lemma_pow2_strictly_increases(51, k as nat);
            assert(pow2(51) == 0x8_0000_0000_0000);
            lemma_fundamental_div_mod_converse(p as int, pow2(k as nat) as int, 0, p as int);
        }
        m = 0;
    } else {
        let d: u64 = power_of_two(k as u32);
        proof {
            lemma_pow2_pos(k as nat);
            if k < 51 {
                lemma_pow2_strictly_increases(k as nat, 51);
            }
            assert(pow2(51) == 0x8_0000_0000_0000);
        }
        let q: u64 = p / d;
        let rem: u64 = p % d;
        m = if 2 * rem > d || (2 * rem == d && q % 2 == 1) {
            q + 1
        } else {
            q
        };
    }
    let bits: u64 = (t as u64) * 0x80_0000 + m;
    if bits >= 0x7f80_0000 {
        INFINITY
    } else {
        bits as u32
    }
}

} // verus!
