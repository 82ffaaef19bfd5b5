//! What holds of every frame: which commands are submitted, in which order,
//! and in which state the canvas is left.
use crate::canvas::{CanvasBackup, CanvasCall, CanvasState, Geometry, Rect, Texture};
use crate::clip::{clip_span, framebuffer_extent};
use crate::draw_data::{DrawCmd, DrawData};
use crate::renderer::normalized_colors;
use crate::frame::{
    command_calls,
    command_renderable,
    list_renderable,
    performed,
    renderable,
    shown,
    default_state,
    frame_calls,
    list_calls,
    lists_calls,
    minimized,
    restored_state,
    submission,
    traversal_calls,
};
use vstd::prelude::*;

verus! {

/// The submission of the element command at this position.
pub open spec fn submission_at(
    textures: Map<usize, Texture>,
    data: &DrawData,
    list: nat,
    command: nat,
) -> Geometry {
    match data.draw_lists@[list as int].commands@[command as int] {
        DrawCmd::Elements { count, cmd_params } => submission(
            textures,
            list,
            command,
            data.draw_lists@[list as int].vtx_buffer@.len(),
            count,
            cmd_params,
        ),
        _ => arbitrary(),
    }
}

/// `a` belongs to a command that stands before the command of `b`.
pub open spec fn comes_before(a: Geometry, b: Geometry) -> bool {
    a.list < b.list || (a.list == b.list && a.command < b.command)
}

/// Every submission among `calls` is that of a shown command, of a draw list
/// below `lists` or of draw list `lists` and a command below `commands`; and
/// the submissions stand in the order of their commands.
spec fn in_command_order(
    calls: Seq<CanvasCall>,
    textures: Map<usize, Texture>,
    data: &DrawData,
    lists: nat,
    commands: nat,
) -> bool {
    &&& forall|k: int|
        0 <= k < calls.len() && (#[trigger] calls[k]) is RenderGeometry ==> {
            let g = calls[k]->RenderGeometry_0;
            &&& g.list < lists || (g.list == lists && g.command < commands)
            &&& shown(data, g.list as nat, g.command as nat)
            &&& g == submission_at(textures, data, g.list as nat, g.command as nat)
        }
    &&& forall|i: int, j: int|
        0 <= i < j < calls.len() && (#[trigger] calls[i]) is RenderGeometry && (
        #[trigger] calls[j]) is RenderGeometry ==> comes_before(
            calls[i]->RenderGeometry_0,
            calls[j]->RenderGeometry_0,
        )
}

proof fn lemma_list_calls_in_order(
    textures: Map<usize, Texture>,
    data: &DrawData,
    list: nat,
    commands: nat,
)
    requires
        list < data.draw_lists@.len(),
        commands <= data.draw_lists@[list as int].commands@.len(),
    ensures
        in_command_order(list_calls(textures, data, list, commands), textures, data, list, commands),
        forall|k: int|
            0 <= k < list_calls(textures, data, list, commands).len() && (#[trigger] list_calls(
                textures,
                data,
                list,
                commands,
            )[k]) is RenderGeometry ==> list_calls(
                textures,
                data,
                list,
                commands,
            )[k]->RenderGeometry_0.list == list,
    decreases commands,
{
    if commands > 0 {
        let last = (commands - 1) as nat;
        lemma_list_calls_in_order(textures, data, list, last);
        let before = list_calls(textures, data, list, last);
        let added = command_calls(textures, data, list, last);
        let calls = list_calls(textures, data, list, commands);
        assert(calls == before + added);
        assert(data.draw_lists@.len() == data.draw_lists.len());
        assert(data.draw_lists@[list as int].commands@.len() == data.draw_lists@[list as int].commands.len());
        assert forall|k: int| 0 <= k < calls.len() && (#[trigger] calls[k]) is RenderGeometry implies {
            let g = calls[k]->RenderGeometry_0;
            &&& g.list == list
            &&& g.command < commands
            &&& (k >= before.len() ==> g.command == last)
            &&& shown(data, g.list as nat, g.command as nat)
            &&& g == submission_at(textures, data, g.list as nat, g.command as nat)
        } by {
            if k < before.len() {
                assert(calls[k] == before[k]);
            } else {
                assert(calls[k] == added[k - before.len()]);
            }
        }
        assert forall|i: int, j: int|
            0 <= i < j < calls.len() && (#[trigger] calls[i]) is RenderGeometry && (
            #[trigger] calls[j]) is RenderGeometry implies comes_before(
            calls[i]->RenderGeometry_0,
            calls[j]->RenderGeometry_0,
        ) by {
            if j < before.len() {
                assert(calls[i] == before[i]);
                assert(calls[j] == before[j]);
            } else if i < before.len() {
                assert(calls[i] == before[i]);
            } else {
                assert(calls[i] == added[i - before.len()]);
                assert(calls[j] == added[j - before.len()]);
            }
        }
    }
}

proof fn lemma_lists_calls_in_order(textures: Map<usize, Texture>, data: &DrawData, lists: nat)
    requires
        lists <= data.draw_lists@.len(),
    ensures
        in_command_order(lists_calls(textures, data, lists), textures, data, lists, 0),
    decreases lists,
{
    if lists > 0 {
        let last = (lists - 1) as nat;
        let commands = data.draw_lists@[last as int].commands@.len();
        lemma_lists_calls_in_order(textures, data, last);
        lemma_list_calls_in_order(textures, data, last, commands);
        let before = lists_calls(textures, data, last);
        let added = list_calls(textures, data, last, commands);
        let calls = lists_calls(textures, data, lists);
        assert(calls == before + added);
        assert forall|k: int| 0 <= k < calls.len() && (#[trigger] calls[k]) is RenderGeometry implies {
            let g = calls[k]->RenderGeometry_0;
            &&& g.list < lists
            &&& (k >= before.len() ==> g.list == last)
            &&& (k < before.len() ==> g.list < last)
            &&& shown(data, g.list as nat, g.command as nat)
            &&& g == submission_at(textures, data, g.list as nat, g.command as nat)
        } by {
            if k < before.len() {
                assert(calls[k] == before[k]);
            } else {
                assert(calls[k] == added[k - before.len()]);
            }
        }
        assert forall|i: int, j: int|
            0 <= i < j < calls.len() && (#[trigger] calls[i]) is RenderGeometry && (
            #[trigger] calls[j]) is RenderGeometry implies comes_before(
            calls[i]->RenderGeometry_0,
            calls[j]->RenderGeometry_0,
        ) by {
            if j < before.len() {
                assert(calls[i] == before[i]);
                assert(calls[j] == before[j]);
            } else if i < before.len() {
                assert(calls[i] == before[i]);
                assert(calls[j] == added[j - before.len()]);
            } else {
                assert(calls[i] == added[i - before.len()]);
                assert(calls[j] == added[j - before.len()]);
            }
        }
    }
}

/// The calls of a frame, seen as the calls of the draw lists between two
/// pairs of calls that submit nothing.
proof fn lemma_frame_calls_in_order(
    textures: Map<usize, Texture>,
    data: &DrawData,
    backup: CanvasBackup,
)
    ensures
        in_command_order(
            frame_calls(textures, data, backup),
            textures,
            data,
            data.draw_lists@.len(),
            0,
        ),
{
    let lists = data.draw_lists@.len();
    let middle = traversal_calls(textures, data);
    let calls = frame_calls(textures, data, backup);
    if !minimized(data) {
        lemma_lists_calls_in_order(textures, data, lists);
    }
    assert(in_command_order(middle, textures, data, lists, 0));
    assert(calls.len() == middle.len() + 4);
    assert forall|k: int| 0 <= k < calls.len() && (#[trigger] calls[k]) is RenderGeometry implies 2
        <= k < 2 + middle.len() && calls[k] == middle[k - 2] by {
        if k < 2 {
            assert(calls[k] == default_state()[k]);
        } else if k < 2 + middle.len() {
            assert(calls[k] == middle[k - 2]);
        } else {
            assert(calls[k] == restored_state(backup)[k - 2 - middle.len()]);
        }
    }
    assert forall|i: int, j: int|
        0 <= i < j < calls.len() && (#[trigger] calls[i]) is RenderGeometry && (
        #[trigger] calls[j]) is RenderGeometry implies comes_before(
        calls[i]->RenderGeometry_0,
        calls[j]->RenderGeometry_0,
    ) by {
        assert(calls[i] == middle[i - 2]);
        assert(calls[j] == middle[j - 2]);
    }
}

/// Order preservation: of two submissions of a frame, the earlier one
/// belongs to the earlier command.
pub proof fn law_submissions_follow_command_order(
    textures: Map<usize, Texture>,
    data: &DrawData,
    backup: CanvasBackup,
    i: int,
    j: int,
)
    requires
        0 <= i < j < frame_calls(textures, data, backup).len(),
        frame_calls(textures, data, backup)[i] is RenderGeometry,
        frame_calls(textures, data, backup)[j] is RenderGeometry,
    ensures
        comes_before(
            frame_calls(textures, data, backup)[i]->RenderGeometry_0,
            frame_calls(textures, data, backup)[j]->RenderGeometry_0,
        ),
{
    lemma_frame_calls_in_order(textures, data, backup);
}

/// Every submission of a frame is the submission of an element command of
/// the draw data whose clip rectangle reaches into the framebuffer.
pub proof fn law_submission_is_of_shown_command(
    textures: Map<usize, Texture>,
    data: &DrawData,
    backup: CanvasBackup,
    k: int,
)
    requires
        0 <= k < frame_calls(textures, data, backup).len(),
        frame_calls(textures, data, backup)[k] is RenderGeometry,
    ensures
        ({
            let g = frame_calls(textures, data, backup)[k]->RenderGeometry_0;
            &&& shown(data, g.list as nat, g.command as nat)
            &&& g == submission_at(textures, data, g.list as nat, g.command as nat)
        }),
{
    lemma_frame_calls_in_order(textures, data, backup);
}

proof fn lemma_list_calls_hold_shown(
    textures: Map<usize, Texture>,
    data: &DrawData,
    list: nat,
    commands: nat,
    command: nat,
)
    requires
        shown(data, list, command),
        command < commands <= data.draw_lists@[list as int].commands@.len(),
    ensures
        exists|k: int|
            0 <= k < list_calls(textures, data, list, commands).len() && #[trigger] list_calls(
                textures,
                data,
                list,
                commands,
            )[k] == CanvasCall::RenderGeometry(submission_at(textures, data, list, command)),
    decreases commands,
{
    let last = (commands - 1) as nat;
    let before = list_calls(textures, data, list, last);
    let added = command_calls(textures, data, list, last);
    let calls = list_calls(textures, data, list, commands);
    assert(calls == before + added);
    if command == last {
        assert(calls[before.len() as int + 1] == added[1]);
    } else {
        lemma_list_calls_hold_shown(textures, data, list, last, command);
        let k = choose|k: int|
            0 <= k < before.len() && #[trigger] before[k] == CanvasCall::RenderGeometry(
                submission_at(textures, data, list, command),
            );
        assert(calls[k] == before[k]);
    }
}

proof fn lemma_lists_calls_hold_shown(
    textures: Map<usize, Texture>,
    data: &DrawData,
    lists: nat,
    list: nat,
    command: nat,
)
    requires
        shown(data, list, command),
        list < lists <= data.draw_lists@.len(),
    ensures
        exists|k: int|
            0 <= k < lists_calls(textures, data, lists).len() && #[trigger] lists_calls(
                textures,
                data,
                lists,
            )[k] == CanvasCall::RenderGeometry(submission_at(textures, data, list, command)),
    decreases lists,
{
    let last = (lists - 1) as nat;
    let commands = data.draw_lists@[last as int].commands@.len();
    let before = lists_calls(textures, data, last);
    let added = list_calls(textures, data, last, commands);
    let calls = lists_calls(textures, data, lists);
    assert(calls == before + added);
    if list == last {
        lemma_list_calls_hold_shown(textures, data, list, commands, command);
        let k = choose|k: int|
            0 <= k < added.len() && #[trigger] added[k] == CanvasCall::RenderGeometry(
                submission_at(textures, data, list, command),
            );
        assert(calls[before.len() as int + k] == added[k]);
    } else {
        lemma_lists_calls_hold_shown(textures, data, last, list, command);
        let k = choose|k: int|
            0 <= k < before.len() && #[trigger] before[k] == CanvasCall::RenderGeometry(
                submission_at(textures, data, list, command),
            );
        assert(calls[k] == before[k]);
    }
}

/// Unless the window is minimized, every element command whose clip
/// rectangle reaches into the framebuffer is submitted.
pub proof fn law_shown_command_is_submitted(
    textures: Map<usize, Texture>,
    data: &DrawData,
    backup: CanvasBackup,
    list: nat,
    command: nat,
)
    requires
        !minimized(data),
        shown(data, list, command),
    ensures
        exists|k: int|
            0 <= k < frame_calls(textures, data, backup).len() && #[trigger] frame_calls(
                textures,
                data,
                backup,
            )[k] == CanvasCall::RenderGeometry(submission_at(textures, data, list, command)),
{
    let middle = traversal_calls(textures, data);
    let calls = frame_calls(textures, data, backup);
    lemma_lists_calls_hold_shown(textures, data, data.draw_lists@.len(), list, command);
    let k = choose|k: int|
        0 <= k < middle.len() && #[trigger] middle[k] == CanvasCall::RenderGeometry(
            submission_at(textures, data, list, command),
        );
    assert(calls[k + 2] == middle[k]);
}

/// Cull determinism: an element command whose clip rectangle lies outside
/// the framebuffer causes no call at all.
pub proof fn law_culled_command_draws_nothing(
    textures: Map<usize, Texture>,
    data: &DrawData,
    list: nat,
    command: nat,
)
    requires
        list < data.draw_lists@.len(),
        command < data.draw_lists@[list as int].commands@.len(),
        data.draw_lists@[list as int].commands@[command as int] is Elements,
        !shown(data, list, command),
    ensures
        command_calls(textures, data, list, command) == Seq::<CanvasCall>::empty(),
{
}

/// A frame for a minimized window, or without draw lists, consists of the
/// default state and the restored state, and submits nothing.
pub proof fn law_empty_frame_draws_nothing(
    textures: Map<usize, Texture>,
    data: &DrawData,
    backup: CanvasBackup,
)
    requires
        minimized(data) || data.draw_lists@.len() == 0,
    ensures
        frame_calls(textures, data, backup) == default_state() + restored_state(backup),
        forall|k: int|
            0 <= k < frame_calls(textures, data, backup).len() ==> !(#[trigger] frame_calls(
                textures,
                data,
                backup,
            )[k] is RenderGeometry),
{
    assert(traversal_calls(textures, data) =~= Seq::<CanvasCall>::empty());
    assert(frame_calls(textures, data, backup) =~= default_state() + restored_state(backup));
}

/// State restoration: whatever state the canvas is in when the calls of a
/// frame begin, after them it has the viewport and the clip rectangle of the
/// backup.
pub proof fn law_frame_restores_canvas(
    textures: Map<usize, Texture>,
    data: &DrawData,
    backup: CanvasBackup,
    before: CanvasState,
    target: Rect,
)
    ensures
        before.after_all(frame_calls(textures, data, backup), target).viewport == backup.viewport,
        before.after_all(frame_calls(textures, data, backup), target).clip == backup.clip,
{
    let head = default_state() + traversal_calls(textures, data);
    let calls = frame_calls(textures, data, backup);
    let viewport = CanvasCall::SetViewport(Some(backup.viewport));
    let clip = CanvasCall::SetClipRect(backup.clip);
    assert(calls =~= head.push(viewport).push(clip));
    assert(calls.drop_last() =~= head.push(viewport));
    assert(head.push(viewport).drop_last() =~= head);
    assert(before.after_all(calls, target) == before.after_all(head.push(viewport), target).after(
        clip,
        target,
    ));
    assert(before.after_all(head.push(viewport), target) == before.after_all(head, target).after(
        viewport,
        target,
    ));
}

/// The colours prepared for a submission of renderable draw data are as
/// many as the vertices it submits.
pub proof fn law_one_color_per_submitted_vertex(
    textures: Map<usize, Texture>,
    data: &DrawData,
    list: nat,
    command: nat,
)
    requires
        renderable(data),
        !minimized(data),
        shown(data, list, command),
    ensures
        normalized_colors(
            data.draw_lists@[list as int].vtx_buffer@,
            submission_at(textures, data, list, command).vertex_start as nat,
        ).len() == submission_at(textures, data, list, command).vertex_count,
{
    let draw_list = data.draw_lists@[list as int];
    assert(list_renderable(data, list as int));
    assert(command_renderable(data, list as int, command as int));
    assert(draw_list.vtx_buffer@.len() == draw_list.vtx_buffer.len());
}

/// Where the renderer rejects a submission of a frame, the frame ends with
/// that submission: no later call is performed, and so the canvas is not
/// given its saved viewport and clip rectangle back.
pub proof fn law_rejected_submission_ends_the_frame(
    textures: Map<usize, Texture>,
    data: &DrawData,
    backup: CanvasBackup,
    position: int,
)
    requires
        0 <= position < frame_calls(textures, data, backup).len(),
        frame_calls(textures, data, backup)[position] is RenderGeometry,
    ensures
        ({
            let calls = frame_calls(textures, data, backup);
            let done = performed(calls, Some(position));
            &&& done.len() == position + 1
            &&& done.len() + 2 <= calls.len()
            &&& done.last() == calls[position]
            &&& forall|k: int| 0 <= k < done.len() ==> #[trigger] done[k] == calls[k]
        }),
{
    let calls = frame_calls(textures, data, backup);
    let head = default_state() + traversal_calls(textures, data);
    assert(calls =~= head + restored_state(backup));
    if position >= head.len() {
        assert(calls[position] == restored_state(backup)[position - head.len()]);
    }
}

} // verus!
