//! The draw data of one frame, as plain values.
//!
//! Positions, texture coordinates, clip rectangles and the display geometry
//! are binary32 numbers, held as their 32-bit encodings.
use vstd::prelude::*;

verus! {

/// A vertex index, of the width the GUI library is configured for.
pub type DrawIdx = u16;

/// A single vertex.
#[derive(Clone, Copy, Debug, PartialEq, Eq)]
pub struct DrawVert {
    /// Position in logical coordinates.
    pub pos: [u32; 2],
    /// Texture coordinates.
    pub uv: [u32; 2],
    /// Red, green, blue and alpha, straight alpha, 0 to 255 each.
    pub col: [u8; 4],
}

/// What an element command draws with.
#[derive(Clone, Copy, Debug, PartialEq, Eq)]
pub struct DrawCmdParams {
    /// Left, top, right, bottom in logical coordinates.
    pub clip_rect: [u32; 4],
    /// Handle of the texture to sample.
    pub texture_id: usize,
    /// First vertex the command's indices count from.
    pub vtx_offset: usize,
    /// First index of the command.
    pub idx_offset: usize,
}

/// A draw command.
#[derive(Clone, Copy, Debug, PartialEq, Eq)]
pub enum DrawCmd {
    /// Draw `count` indices as triangles.
    Elements { count: usize, cmd_params: DrawCmdParams },
    /// Put the renderer back into the backend's default state.
    ResetRenderState,
    /// Run the callback that the host attached to this command.
    RawCallback,
}

/// Draw commands that share one vertex buffer and one index buffer.
#[derive(Debug, PartialEq, Eq)]
pub struct DrawList {
    pub vtx_buffer: Vec<DrawVert>,
    pub idx_buffer: Vec<DrawIdx>,
    pub commands: Vec<DrawCmd>,
}

/// All draw data of one frame.
#[derive(Debug, PartialEq, Eq)]
pub struct DrawData {
    /// Logical position of the upper left corner of the display.
    pub display_pos: [u32; 2],
    /// Logical size of the display.
    pub display_size: [u32; 2],
    /// Framebuffer pixels per logical unit.
    pub framebuffer_scale: [u32; 2],
    pub draw_lists: Vec<DrawList>,
}

impl DrawCmd {
    /// Whether the command stays inside buffers of the given lengths.
    pub open spec fn fits(self, vertices: nat, indices: nat) -> bool {
        match self {
            DrawCmd::Elements { count, cmd_params } => {
                &&& cmd_params.vtx_offset <= vertices
                &&& cmd_params.idx_offset + count <= indices
            },
            _ => true,
        }
    }

    /// Whether the command stays inside buffers of the given lengths.
    pub fn check_fits(&self, vertices: usize, indices: usize) -> (r: bool)
        ensures
            r == self.fits(vertices as nat, indices as nat),
    {
        match self {
            DrawCmd::Elements { count, cmd_params } => {
                cmd_params.vtx_offset <= vertices && cmd_params.idx_offset <= indices && *count
                    <= indices - cmd_params.idx_offset
            },
            _ => true,
        }
    }
}

} // verus!
