//! What holds of the numbers the renderer computes: how near a normalized
//! colour channel is to the exact fraction, and that framebuffer coordinates
//! depend only on where a point lies relative to the display's origin.
use crate::arithmetic::{difference, product};
use crate::binary32::{
    is_finite,
    is_nan,
    is_negative,
    lemma_magnitude_of_small,
    magnitude_of,
    units,
};
use crate::clip::{clip_span, to_framebuffer};
use crate::conversion::unit_fraction;
use crate::rounding::{
    lemma_div_lower,
    lemma_div_upper,
    lemma_rounded_magnitude_zero,
    lemma_rounding_error,
    lemma_spacing_bounds,
    rounded_magnitude,
    spacing_exponent,
};
use vstd::arithmetic::power2::{
    lemma2_to64,
    lemma2_to64_rest,
    lemma_pow2_adds,
    lemma_pow2_pos,
    lemma_pow2_strictly_increases,
    pow2,
};
use vstd::prelude::*;

verus! {

/// Both are NaNs, or both are numbers of one value. The two zeros count as
/// one value.
pub open spec fn same_number(a: u32, b: u32) -> bool {
    ||| is_nan(a) && is_nan(b)
    ||| !is_nan(a) && !is_nan(b) && units(a) == units(b)
}

/// Colour normalization: the normalized channel is a number from 0 to 1
/// that differs from `c / 255` by at most `2^-24` times `c / 255`, which is
/// half a unit in its last place.
pub proof fn law_channel_accuracy(c: u8)
    ensures
        is_finite(unit_fraction(c)),
        !is_negative(unit_fraction(c)),
        0x100_0000 * (255 * units(unit_fraction(c)) - c * pow2(149)) <= c * pow2(149),
        0x100_0000 * (c * pow2(149) - 255 * units(unit_fraction(c))) <= c * pow2(149),
        units(unit_fraction(c)) <= pow2(149),
{
    reveal(unit_fraction);
    lemma2_to64();
    lemma2_to64_rest();
    let one = pow2(149);
    lemma_pow2_pos(149);
    if c == 0 {
        assert(0 * one == 0);
        lemma_rounded_magnitude_zero(255);
        lemma_magnitude_of_small(0);
    } else {
        let n = c as nat * one;
        let q = n / 255;
        let t = spacing_exponent(q);
        let p = pow2(t);
        lemma_pow2_pos(t);
        lemma_pow2_adds(32, 117);
        lemma_pow2_pos(117);
        assert(255 * 0x80_0000 <= n && n <= 255 * one) by (nonlinear_arith)
            requires
                n == c * one,
                1 <= c <= 255,
                one == 0x1_0000_0000 * pow2(117),
                pow2(117) >= 1,
        ;
        lemma_div_lower(n as int, 255, 0x80_0000);
        lemma_div_upper(n as int, 255, one as int + 1);
        lemma_spacing_bounds(q);
        // The spacing is at most 2^126, so the rounding is finite.
        if t > 126 {
            lemma_pow2_adds(23, 126);
            if t > 127 {
                lemma_pow2_strictly_increases(127, t);
            }
            lemma_pow2_adds(23, 127);
            lemma_pow2_strictly_increases(149, 150);
            assert(false);
        }
        let m = crate::rounding::round_half_even(n, 255 * p);
        lemma_pow2_adds(23, t);
        assert(255 * p > 0) by (nonlinear_arith)
            requires
                p > 0,
        ;
        assert(n < 0x100_0000 * (255 * p)) by (nonlinear_arith)
            requires
                q < 0x100_0000 * p,
                n / 255 == q,
                n == 255 * (n / 255) + n % 255,
                n % 255 < 255,
        ;
        lemma_div_upper(n as int, (255 * p) as int, 0x100_0000);
        assert(m <= 0x100_0000);
        let r = rounded_magnitude(n, 255);
        assert(t * 0x80_0000 + m <= 126 * 0x80_0000 + 0x100_0000);
        assert(r == t * 0x80_0000 + m);
        lemma_rounding_error(n, 255);
        let x = magnitude_of(r);
        assert(units(unit_fraction(c)) == x);
        assert(0x100_0000 * (255 * x - n) <= n && 0x100_0000 * (n - 255 * x) <= n) by (nonlinear_arith)
            requires
                2 * (x * 255 - n) <= 255 * p,
                2 * (n - x * 255) <= 255 * p,
                0x80_0000 * p * 255 <= n,
        ;
        // A fraction of at most one rounds to at most one.
        lemma_magnitude_le_one(r, n);
        assert(x <= one);
    }
}

/// A number that exceeds a value of at most one by no more than `2^-24`
/// times that value is itself at most one.
proof fn lemma_magnitude_le_one(r: nat, n: nat)
    requires
        0x100_0000 * (255 * magnitude_of(r) - n) <= n,
        n <= 255 * pow2(149),
    ensures
        magnitude_of(r) <= pow2(149),
{
    lemma2_to64();
    let p = pow2(126);
    lemma_pow2_pos(126);
    lemma_pow2_adds(23, 126);
    let above: nat = 0x3f80_0001;
    assert(crate::binary32::scale_exponent(above) == 126);
    assert(crate::binary32::significand(above) == 0x80_0001);
    assert(crate::binary32::scale_exponent(0x3f80_0000) == 126);
    assert(crate::binary32::significand(0x3f80_0000) == 0x80_0000);
    if r > above {
        crate::binary32::lemma_magnitude_of_increases(above, r);
    }
    if r < 0x3f80_0000 {
        crate::binary32::lemma_magnitude_of_increases(r, 0x3f80_0000);
    }
    if r >= above {
        let x = magnitude_of(r);
        assert(false) by (nonlinear_arith)
            requires
                x >= 0x80_0001 * p,
                n <= 255 * (0x80_0000 * p),
                0x100_0000 * (255 * x - n) <= n,
                p > 0,
        ;
    }
}

/// Where a point and the origin
/// are moved by the same amount, the framebuffer coordinate of the point
/// stays the same number.
pub proof fn law_shift_keeps_coordinate(
    c: u32,
    origin: u32,
    moved_c: u32,
    moved_origin: u32,
    scale: u32,
)
    requires
        is_finite(c),
        is_finite(origin),
        is_finite(moved_c),
        is_finite(moved_origin),
        units(moved_c) - units(c) == units(moved_origin) - units(origin),
    ensures
        same_number(to_framebuffer(moved_c, moved_origin, scale), to_framebuffer(c, origin, scale)),
{
    reveal(difference);
    reveal(product);
    lemma2_to64();
    let d = units(c) - units(origin);
    let a = difference(c, origin);
    let b = difference(moved_c, moved_origin);
    if d != 0 {
        assert(a == b);
    } else {
        lemma_magnitude_of_small(0);
        lemma_pow2_pos(149);
        assert(0 * crate::binary32::magnitude(scale) == 0);
        lemma_rounded_magnitude_zero(pow2(149));
    }
}

/// Clip-rect mapping: where the clip rectangle and the display position are
/// moved by the same amounts, the clip rectangle in framebuffer coordinates
/// stays the same.
pub proof fn law_shift_keeps_clip_span(
    clip_rect: [u32; 4],
    display_pos: [u32; 2],
    moved_rect: [u32; 4],
    moved_pos: [u32; 2],
    scale: [u32; 2],
    dx: int,
    dy: int,
)
    requires
        forall|i: int| 0 <= i < 4 ==> is_finite(clip_rect[i]) && is_finite(moved_rect[i]),
        forall|i: int| 0 <= i < 2 ==> is_finite(display_pos[i]) && is_finite(moved_pos[i]),
        units(moved_rect[0]) == units(clip_rect[0]) + dx,
        units(moved_rect[2]) == units(clip_rect[2]) + dx,
        units(moved_pos[0]) == units(display_pos[0]) + dx,
        units(moved_rect[1]) == units(clip_rect[1]) + dy,
        units(moved_rect[3]) == units(clip_rect[3]) + dy,
        units(moved_pos[1]) == units(display_pos[1]) + dy,
    ensures
        ({
            let span = clip_span(clip_rect, display_pos, scale);
            let moved = clip_span(moved_rect, moved_pos, scale);
            &&& same_number(moved.min[0], span.min[0])
            &&& same_number(moved.min[1], span.min[1])
            &&& same_number(moved.max[0], span.max[0])
            &&& same_number(moved.max[1], span.max[1])
        }),
{
    law_shift_keeps_coordinate(
        clip_rect[0],
        display_pos[0],
        moved_rect[0],
        moved_pos[0],
        scale[0],
    );
    law_shift_keeps_coordinate(
        clip_rect[1],
        display_pos[1],
        moved_rect[1],
        moved_pos[1],
        scale[1],
    );
    law_shift_keeps_coordinate(
        clip_rect[2],
        display_pos[0],
        moved_rect[2],
        moved_pos[0],
        scale[0],
    );
    law_shift_keeps_coordinate(
        clip_rect[3],
        display_pos[1],
        moved_rect[3],
        moved_pos[1],
        scale[1],
    );
}

} // verus!
