//! The canvas calls of one frame, as a sequence: default state first, then
//! the calls of every command of every draw list in order, then the state
//! the canvas had before.
use crate::binary32::is_zero;
use crate::canvas::{CanvasBackup, CanvasCall, ClippingRect, Geometry, Texture};
use crate::clip::{clip_span, framebuffer_extent};
use crate::draw_data::{DrawCmd, DrawCmdParams, DrawData};
use vstd::prelude::*;

verus! {

/// The calls that put a canvas into the backend's default state: no clip
/// rectangle, and the whole target as viewport.
pub open spec fn default_state() -> Seq<CanvasCall> {
    seq![CanvasCall::SetClipRect(ClippingRect::Unclipped), CanvasCall::SetViewport(None)]
}

/// The calls that give a canvas its saved viewport and clip rectangle back.
pub open spec fn restored_state(backup: CanvasBackup) -> Seq<CanvasCall> {
    seq![CanvasCall::SetViewport(Some(backup.viewport)), CanvasCall::SetClipRect(backup.clip)]
}

/// The framebuffer has no width or no height: the window is minimized.
pub open spec fn minimized(data: &DrawData) -> bool {
    let extent = framebuffer_extent(data.display_size, data.framebuffer_scale);
    is_zero(extent[0]) || is_zero(extent[1])
}

/// The submission of an element command: all vertices from the command's
/// vertex offset on, its `count` indices from its index offset on, and the
/// texture registered under its texture id, if there is one.
pub open spec fn submission(
    textures: Map<usize, Texture>,
    list: nat,
    command: nat,
    vertices: nat,
    count: usize,
    params: DrawCmdParams,
) -> Geometry {
    Geometry {
        list: list as usize,
        command: command as usize,
        texture: if textures.dom().contains(params.texture_id) {
            Some(textures[params.texture_id])
        } else {
            None
        },
        vertex_start: params.vtx_offset,
        vertex_count: (vertices - params.vtx_offset) as usize,
        index_start: params.idx_offset,
        index_count: count,
    }
}

/// The calls of an element command: none where its clip rectangle lies
/// outside the framebuffer, else the scissor rectangle and the submission.
pub open spec fn elements_calls(
    textures: Map<usize, Texture>,
    data: &DrawData,
    list: nat,
    command: nat,
    count: usize,
    params: DrawCmdParams,
) -> Seq<CanvasCall> {
    let span = clip_span(params.clip_rect, data.display_pos, data.framebuffer_scale);
    if span.culled(framebuffer_extent(data.display_size, data.framebuffer_scale)) {
        Seq::empty()
    } else {
        seq![
            CanvasCall::SetClipRect(ClippingRect::Region(span.scissor())),
            CanvasCall::RenderGeometry(
                submission(
                    textures,
                    list,
                    command,
                    data.draw_lists@[list as int].vtx_buffer@.len(),
                    count,
                    params,
                ),
            ),
        ]
    }
}

/// The calls of the command at position `command` of draw list `list`.
pub open spec fn command_calls(
    textures: Map<usize, Texture>,
    data: &DrawData,
    list: nat,
    command: nat,
) -> Seq<CanvasCall> {
    match data.draw_lists@[list as int].commands@[command as int] {
        DrawCmd::Elements { count, cmd_params } => elements_calls(
            textures,
            data,
            list,
            command,
            count,
            cmd_params,
        ),
        DrawCmd::ResetRenderState => default_state(),
        DrawCmd::RawCallback => seq![
            CanvasCall::RunCallback { list: list as usize, command: command as usize },
        ],
    }
}

/// The calls of the first `commands` commands of draw list `list`.
pub open spec fn list_calls(
    textures: Map<usize, Texture>,
    data: &DrawData,
    list: nat,
    commands: nat,
) -> Seq<CanvasCall>
    decreases commands,
{
    if commands == 0 {
        Seq::empty()
    } else {
        list_calls(textures, data, list, (commands - 1) as nat) + command_calls(
            textures,
            data,
            list,
            (commands - 1) as nat,
        )
    }
}

/// The calls of the first `lists` draw lists.
pub open spec fn lists_calls(textures: Map<usize, Texture>, data: &DrawData, lists: nat) -> Seq<
    CanvasCall,
>
    decreases lists,
{
    if lists == 0 {
        Seq::empty()
    } else {
        lists_calls(textures, data, (lists - 1) as nat) + list_calls(
            textures,
            data,
            (lists - 1) as nat,
            data.draw_lists@[lists - 1].commands@.len(),
        )
    }
}

/// The calls between default state and restored state: none for a
/// minimized window, else those of all draw lists.
pub open spec fn traversal_calls(textures: Map<usize, Texture>, data: &DrawData) -> Seq<CanvasCall> {
    if minimized(data) {
        Seq::empty()
    } else {
        lists_calls(textures, data, data.draw_lists@.len())
    }
}

/// All canvas calls of a frame.
pub open spec fn frame_calls(
    textures: Map<usize, Texture>,
    data: &DrawData,
    backup: CanvasBackup,
) -> Seq<CanvasCall> {
    default_state() + traversal_calls(textures, data) + restored_state(backup)
}

/// The command at this position is an element command whose clip rectangle
/// reaches into the framebuffer.
pub open spec fn shown(data: &DrawData, list: nat, command: nat) -> bool {
    &&& list < data.draw_lists@.len()
    &&& command < data.draw_lists@[list as int].commands@.len()
    &&& data.draw_lists@[list as int].commands@[command as int] matches DrawCmd::Elements {
        cmd_params,
        ..
    }
    &&& !clip_span(cmd_params.clip_rect, data.display_pos, data.framebuffer_scale).culled(
        framebuffer_extent(data.display_size, data.framebuffer_scale),
    )
}

/// The command at this position, if it is shown, stays inside the buffers
/// of its draw list.
pub open spec fn command_renderable(data: &DrawData, list: int, command: int) -> bool {
    shown(data, list as nat, command as nat) ==> data.draw_lists@[list].commands@[command].fits(
        data.draw_lists@[list].vtx_buffer@.len(),
        data.draw_lists@[list].idx_buffer@.len(),
    )
}

/// Every shown command of this draw list stays inside the list's buffers.
pub open spec fn list_renderable(data: &DrawData, list: int) -> bool {
    forall|command: int|
        0 <= command < data.draw_lists@[list].commands@.len() ==> #[trigger] command_renderable(
            data,
            list,
            command,
        )
}

/// The draw data can be rendered: the window is minimized, so that no
/// command is looked at, or every shown command stays inside the buffers of
/// its draw list.
pub open spec fn renderable(data: &DrawData) -> bool {
    minimized(data) || forall|list: int|
        0 <= list < data.draw_lists@.len() ==> #[trigger] list_renderable(data, list)
}

/// The calls of a frame that are performed: all of them, or, where the
/// renderer rejects the submission at position `failed`, those up to and
/// with that submission.
pub open spec fn performed(calls: Seq<CanvasCall>, failed: Option<int>) -> Seq<CanvasCall> {
    match failed {
        Some(position) => calls.take(position + 1),
        None => calls,
    }
}

} // verus!
