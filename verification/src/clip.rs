//! From a command's logical clip rectangle to the scissor rectangle in
//! framebuffer pixels, and the decision to skip a command that cannot show.
use crate::arithmetic::{difference, multiply, product, subtract};
use crate::binary32::{at_least, less_than, is_at_least, is_below};
use crate::canvas::Rect;
use crate::conversion::{floor_to_i32, floor_to_u32, floored_i32, floored_u32};
use vstd::prelude::*;

verus! {

/// A clip rectangle in framebuffer coordinates: upper left and lower right
/// corner, as binary32 encodings.
#[derive(Clone, Copy, Debug, PartialEq, Eq)]
pub struct ClipSpan {
    pub min: [u32; 2],
    pub max: [u32; 2],
}

/// A logical coordinate `c` seen from the origin `origin` and scaled.
pub open spec fn to_framebuffer(c: u32, origin: u32, scale: u32) -> u32 {
    product(difference(c, origin), scale)
}

/// The logical clip rectangle `clip_rect` in framebuffer coordinates.
pub open spec fn clip_span(clip_rect: [u32; 4], display_pos: [u32; 2], scale: [u32; 2]) -> ClipSpan {
    ClipSpan {
        min: [
            to_framebuffer(clip_rect[0], display_pos[0], scale[0]),
            to_framebuffer(clip_rect[1], display_pos[1], scale[1]),
        ],
        max: [
            to_framebuffer(clip_rect[2], display_pos[0], scale[0]),
            to_framebuffer(clip_rect[3], display_pos[1], scale[1]),
        ],
    }
}

/// Width and height of the framebuffer.
pub open spec fn framebuffer_extent(display_size: [u32; 2], scale: [u32; 2]) -> [u32; 2] {
    [product(display_size[0], scale[0]), product(display_size[1], scale[1])]
}

impl ClipSpan {
    /// The span lies wholly right of, below, left of or above a framebuffer
    /// of the extent `extent`.
    pub open spec fn culled(self, extent: [u32; 2]) -> bool {
        ||| is_at_least(self.min[0], extent[0])
        ||| is_at_least(self.min[1], extent[1])
        ||| is_below(self.max[0], 0)
        ||| is_below(self.max[1], 0)
    }

    /// The integer rectangle of the span: the floor of its upper left
    /// corner, and the floor of its width and of its height.
    pub open spec fn scissor(self) -> Rect {
        Rect {
            x: floored_i32(self.min[0]),
            y: floored_i32(self.min[1]),
            w: floored_u32(difference(self.max[0], self.min[0])),
            h: floored_u32(difference(self.max[1], self.min[1])),
        }
    }

    /// Whether the span lies wholly outside the framebuffer.
    pub fn is_culled(&self, extent: &[u32; 2]) -> (r: bool)
        ensures
            r == self.culled(*extent),
    {
        at_least(self.min[0], extent[0]) || at_least(self.min[1], extent[1]) || less_than(
            self.max[0],
            0,
        ) || less_than(self.max[1], 0)
    }

    /// The scissor rectangle of the span.
    pub fn scissor_rect(&self) -> (r: Rect)
        ensures
            r == self.scissor(),
    {
        Rect {
            x: floor_to_i32(self.min[0]),
            y: floor_to_i32(self.min[1]),
            w: floor_to_u32(subtract(self.max[0], self.min[0])),
            h: floor_to_u32(subtract(self.max[1], self.min[1])),
        }
    }
}

/// Maps a logical clip rectangle to framebuffer coordinates.
pub fn map_clip_rect(clip_rect: &[u32; 4], display_pos: &[u32; 2], scale: &[u32; 2]) -> (r:
    ClipSpan)
    ensures
        r == clip_span(*clip_rect, *display_pos, *scale),
{
    ClipSpan {
        min: [
            multiply(subtract(clip_rect[0], display_pos[0]), scale[0]),
            multiply(subtract(clip_rect[1], display_pos[1]), scale[1]),
        ],
        max: [
            multiply(subtract(clip_rect[2], display_pos[0]), scale[0]),
            multiply(subtract(clip_rect[3], display_pos[1]), scale[1]),
        ],
    }
}

/// Width and height of the framebuffer.
pub fn framebuffer_size(display_size: &[u32; 2], scale: &[u32; 2]) -> (r: [u32; 2])
    ensures
        r == framebuffer_extent(*display_size, *scale),
{
    [multiply(display_size[0], scale[0]), multiply(display_size[1], scale[1])]
}

} // verus!
