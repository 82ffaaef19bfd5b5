//! The calls a canvas receives, as plain values, and what they do to the
//! clip rectangle and the viewport of a canvas.
use vstd::prelude::*;

verus! {

/// An integer rectangle in framebuffer pixels.
#[derive(Clone, Copy, Debug, PartialEq, Eq)]
pub struct Rect {
    pub x: i32,
    pub y: i32,
    pub w: u32,
    pub h: u32,
}

/// The clip rectangle of a canvas.
#[derive(Clone, Copy, Debug, PartialEq, Eq)]
pub enum ClippingRect {
    /// Drawing is confined to this rectangle, which may have no width or no
    /// height.
    Region(Rect),
    /// Drawing is confined to an empty rectangle.
    Zero,
    /// Drawing is not clipped.
    Unclipped,
}

/// A texture of the renderer: the handle by which the host finds it, and its
/// extent in pixels.
#[derive(Clone, Copy, Debug, PartialEq, Eq)]
pub struct Texture {
    pub handle: usize,
    pub width: u32,
    pub height: u32,
}

/// Viewport and clip rectangle of a canvas, as found when a frame starts.
#[derive(Clone, Copy, Debug, PartialEq, Eq)]
pub struct CanvasBackup {
    pub viewport: Rect,
    pub clip: ClippingRect,
}

/// One submission to the renderer's raw-geometry primitive.
#[derive(Clone, Copy, Debug, PartialEq, Eq)]
pub struct Geometry {
    /// Position of the draw list in the draw data.
    pub list: usize,
    /// Position of the command in its draw list.
    pub command: usize,
    /// The texture to bind; none draws in solid colour.
    pub texture: Option<Texture>,
    /// First vertex submitted; the indices count from it.
    pub vertex_start: usize,
    /// Number of vertices submitted: from `vertex_start` to the end of the
    /// vertex buffer.
    pub vertex_count: usize,
    /// First index submitted.
    pub index_start: usize,
    /// Number of indices submitted.
    pub index_count: usize,
}

/// A call on the canvas.
#[derive(Clone, Copy, Debug, PartialEq, Eq)]
pub enum CanvasCall {
    /// Set the clip rectangle.
    SetClipRect(ClippingRect),
    /// Set the viewport; none stands for the whole render target.
    SetViewport(Option<Rect>),
    /// Submit raw geometry.
    RenderGeometry(Geometry),
    /// Run the callback of the command at this position of this draw list.
    RunCallback { list: usize, command: usize },
}

/// Clip rectangle and viewport of a canvas.
pub struct CanvasState {
    pub viewport: Rect,
    pub clip: ClippingRect,
}

impl CanvasCall {
    pub open spec fn is_geometry(self) -> bool {
        self is RenderGeometry
    }
}

impl CanvasState {
    /// The state after `call`, on a canvas whose whole target is `target`.
    /// A callback is taken to leave viewport and clip rectangle alone.
    pub open spec fn after(self, call: CanvasCall, target: Rect) -> CanvasState {
        match call {
            CanvasCall::SetClipRect(clip) => CanvasState { viewport: self.viewport, clip },
            CanvasCall::SetViewport(Some(viewport)) => CanvasState { viewport, clip: self.clip },
            CanvasCall::SetViewport(None) => CanvasState { viewport: target, clip: self.clip },
            CanvasCall::RenderGeometry(_) => self,
            CanvasCall::RunCallback { .. } => self,
        }
    }

    /// The state after all of `calls`, in order.
    pub open spec fn after_all(self, calls: Seq<CanvasCall>, target: Rect) -> CanvasState
        decreases calls.len(),
    {
        if calls.len() == 0 {
            self
        } else {
            self.after_all(calls.drop_last(), target).after(calls.last(), target)
        }
    }
}

} // verus!
