use imgui_sdl3_renderer::canvas::{
    CanvasBackup, CanvasCall, ClippingRect, Geometry, Rect, Texture,
};
use imgui_sdl3_renderer::draw_data::{DrawCmd, DrawCmdParams, DrawData, DrawList, DrawVert};
use imgui_sdl3_renderer::renderer::{
    atlas_texture, frame_result, is_renderable, prepare_font_atlas, renderer_name,
    try_prepare_font_atlas, AtlasTexture, AtlasUpload, BlendMode, PixelFormat, ScaleMode,
    TextureAccess,
};
use imgui_sdl3_renderer::textures::TextureMap;
use imgui_sdl3_renderer::{RenderError, Renderer};

const MISSING: usize = 4242;

fn renderer() -> Renderer {
    match Renderer::new(512, 64, AtlasUpload::Uploaded { handle: 9 }) {
        Ok(r) => r,
        Err(e) => panic!("{e:?}"),
    }
}

fn backup() -> CanvasBackup {
    CanvasBackup {
        viewport: Rect { x: 3, y: 4, w: 640, h: 480 },
        clip: ClippingRect::Region(Rect { x: 1, y: 2, w: 30, h: 40 }),
    }
}

fn vertex(x: f32, y: f32, col: [u8; 4]) -> DrawVert {
    DrawVert { pos: [x.to_bits(), y.to_bits()], uv: [0, 0], col }
}

fn elements(clip: [f32; 4], texture_id: usize, vtx_offset: usize, idx_offset: usize, count: usize) -> DrawCmd {
    DrawCmd::Elements {
        count,
        cmd_params: DrawCmdParams {
            clip_rect: [clip[0].to_bits(), clip[1].to_bits(), clip[2].to_bits(), clip[3].to_bits()],
            texture_id,
            vtx_offset,
            idx_offset,
        },
    }
}

fn triangle_list(commands: Vec<DrawCmd>) -> DrawList {
    DrawList {
        vtx_buffer: vec![
            vertex(0.0, 0.0, [255, 0, 0, 255]),
            vertex(1.0, 0.0, [255, 0, 0, 255]),
            vertex(0.0, 1.0, [255, 0, 0, 255]),
        ],
        idx_buffer: vec![0, 1, 2],
        commands,
    }
}

fn frame(size: [f32; 2], scale: [f32; 2], draw_lists: Vec<DrawList>) -> DrawData {
    DrawData {
        display_pos: [0.0f32.to_bits(), 0.0f32.to_bits()],
        display_size: [size[0].to_bits(), size[1].to_bits()],
        framebuffer_scale: [scale[0].to_bits(), scale[1].to_bits()],
        draw_lists,
    }
}

fn submissions(calls: &[CanvasCall]) -> Vec<Geometry> {
    let mut v = Vec::new();
    for call in calls {
        if let CanvasCall::RenderGeometry(g) = call {
            v.push(*g);
        }
    }
    v
}

/// A canvas that keeps its viewport and clip rectangle and counts what is
/// submitted to it.
struct MockCanvas {
    target: Rect,
    viewport: Rect,
    clip: ClippingRect,
    drawn: Vec<(usize, usize)>,
    callbacks: Vec<(usize, usize)>,
}

fn mock() -> MockCanvas {
    MockCanvas {
        target: Rect { x: 0, y: 0, w: 800, h: 600 },
        viewport: backup().viewport,
        clip: backup().clip,
        drawn: Vec::new(),
        callbacks: Vec::new(),
    }
}

fn replay(canvas: &mut MockCanvas, calls: &[CanvasCall]) {
    for call in calls {
        match call {
            CanvasCall::SetClipRect(clip) => canvas.clip = *clip,
            CanvasCall::SetViewport(Some(rect)) => canvas.viewport = *rect,
            CanvasCall::SetViewport(None) => canvas.viewport = canvas.target,
            CanvasCall::RenderGeometry(g) => canvas.drawn.push((g.list, g.command)),
            CanvasCall::RunCallback { list, command } => canvas.callbacks.push((*list, *command)),
        }
    }
}

#[test]
fn minimized_window_submits_nothing_and_restores_the_canvas() {
    let data = frame(
        [800.0, 600.0],
        [0.0, 1.0],
        vec![triangle_list(vec![elements([0.0, 0.0, 800.0, 600.0], MISSING, 0, 0, 3)])],
    );
    assert!(is_renderable(&data));
    let calls = renderer().render(&data, backup());
    assert_eq!(
        calls,
        vec![
            CanvasCall::SetClipRect(ClippingRect::Unclipped),
            CanvasCall::SetViewport(None),
            CanvasCall::SetViewport(Some(backup().viewport)),
            CanvasCall::SetClipRect(backup().clip),
        ]
    );
    let mut canvas = mock();
    replay(&mut canvas, &calls);
    assert!(canvas.drawn.is_empty());
    assert_eq!(canvas.viewport, backup().viewport);
    assert_eq!(canvas.clip, backup().clip);
}

#[test]
fn minimized_in_height_submits_nothing() {
    let data = frame(
        [800.0, 0.0],
        [2.0, 2.0],
        vec![triangle_list(vec![elements([0.0, 0.0, 800.0, 600.0], MISSING, 0, 0, 3)])],
    );
    assert!(submissions(&renderer().render(&data, backup())).is_empty());
}

#[test]
fn single_triangle_without_texture() {
    let data = frame(
        [800.0, 600.0],
        [1.0, 1.0],
        vec![triangle_list(vec![elements([0.0, 0.0, 800.0, 600.0], MISSING, 0, 0, 3)])],
    );
    let mut renderer = renderer();
    let calls = renderer.render(&data, backup());
    let geometry = Geometry {
        list: 0,
        command: 0,
        texture: None,
        vertex_start: 0,
        vertex_count: 3,
        index_start: 0,
        index_count: 3,
    };
    assert_eq!(
        calls,
        vec![
            CanvasCall::SetClipRect(ClippingRect::Unclipped),
            CanvasCall::SetViewport(None),
            CanvasCall::SetClipRect(ClippingRect::Region(Rect { x: 0, y: 0, w: 800, h: 600 })),
            CanvasCall::RenderGeometry(geometry),
            CanvasCall::SetViewport(Some(backup().viewport)),
            CanvasCall::SetClipRect(backup().clip),
        ]
    );
    renderer.prepare_colors(&data.draw_lists[0].vtx_buffer, geometry.vertex_start);
    let red = [1.0f32.to_bits(), 0.0f32.to_bits(), 0.0f32.to_bits(), 1.0f32.to_bits()];
    assert_eq!(renderer.color_buffer(), &vec![red, red, red]);
    assert_eq!(renderer.color_buffer().len(), geometry.vertex_count);
}

#[test]
fn hidpi_scaling_sets_the_scaled_clip_rectangle() {
    let data = frame(
        [400.0, 300.0],
        [2.0, 2.0],
        vec![triangle_list(vec![elements([10.0, 10.0, 110.0, 110.0], MISSING, 0, 0, 3)])],
    );
    let calls = renderer().render(&data, backup());
    assert_eq!(
        calls[2],
        CanvasCall::SetClipRect(ClippingRect::Region(Rect { x: 20, y: 20, w: 200, h: 200 }))
    );
    assert_eq!(submissions(&calls).len(), 1);
}

#[test]
fn culled_command_is_skipped_and_later_commands_are_processed() {
    let data = frame(
        [800.0, 600.0],
        [1.0, 1.0],
        vec![triangle_list(vec![
            elements([900.0, 900.0, 1000.0, 1000.0], MISSING, 0, 0, 3),
            elements([5.0, 6.0, 50.0, 60.0], MISSING, 0, 0, 3),
        ])],
    );
    let calls = renderer().render(&data, backup());
    assert_eq!(calls.len(), 6);
    assert_eq!(
        calls[2],
        CanvasCall::SetClipRect(ClippingRect::Region(Rect { x: 5, y: 6, w: 45, h: 54 }))
    );
    let drawn = submissions(&calls);
    assert_eq!(drawn.len(), 1);
    assert_eq!((drawn[0].list, drawn[0].command), (0, 1));
}

#[test]
fn a_frame_of_culled_commands_only_restores_the_canvas() {
    let data = frame(
        [800.0, 600.0],
        [1.0, 1.0],
        vec![triangle_list(vec![
            elements([900.0, 0.0, 1000.0, 10.0], MISSING, 0, 0, 3),
            elements([0.0, 700.0, 10.0, 800.0], MISSING, 0, 0, 3),
            elements([-9.0, 0.0, -1.0, 10.0], MISSING, 0, 0, 3),
            elements([0.0, -9.0, 10.0, -1.0], MISSING, 0, 0, 3),
        ])],
    );
    let calls = renderer().render(&data, backup());
    assert_eq!(calls.len(), 4);
    assert!(submissions(&calls).is_empty());
}

#[test]
fn reset_render_state_between_two_draws() {
    let data = frame(
        [800.0, 600.0],
        [1.0, 1.0],
        vec![triangle_list(vec![
            elements([0.0, 0.0, 100.0, 100.0], MISSING, 0, 0, 3),
            DrawCmd::ResetRenderState,
            elements([10.0, 10.0, 20.0, 20.0], MISSING, 0, 0, 3),
        ])],
    );
    let calls = renderer().render(&data, backup());
    assert_eq!(calls.len(), 10);
    assert!(matches!(calls[3], CanvasCall::RenderGeometry(Geometry { command: 0, .. })));
    assert_eq!(calls[4], CanvasCall::SetClipRect(ClippingRect::Unclipped));
    assert_eq!(calls[5], CanvasCall::SetViewport(None));
    assert_eq!(
        calls[6],
        CanvasCall::SetClipRect(ClippingRect::Region(Rect { x: 10, y: 10, w: 10, h: 10 }))
    );
    assert!(matches!(calls[7], CanvasCall::RenderGeometry(Geometry { command: 2, .. })));
}

#[test]
fn vertex_offset_is_honored() {
    let mut vtx_buffer = Vec::new();
    for i in 0..10u8 {
        vtx_buffer.push(vertex(i as f32, 0.0, [i * 25, 255 - i, i, 255]));
    }
    let list = DrawList {
        vtx_buffer,
        idx_buffer: vec![0, 1, 2],
        commands: vec![elements([0.0, 0.0, 800.0, 600.0], MISSING, 4, 0, 3)],
    };
    let data = frame([800.0, 600.0], [1.0, 1.0], vec![list]);
    assert!(is_renderable(&data));
    let mut renderer = renderer();
    let drawn = submissions(&renderer.render(&data, backup()));
    assert_eq!(drawn.len(), 1);
    let g = drawn[0];
    assert_eq!(g.vertex_start, 4);
    assert_eq!(g.vertex_count, 6);
    assert_eq!(g.index_start, 0);
    assert_eq!(g.index_count, 3);
    let list = &data.draw_lists[0];
    let referenced: Vec<usize> = list.idx_buffer[g.index_start..g.index_start + g.index_count]
        .iter()
        .map(|&i| g.vertex_start + i as usize)
        .collect();
    assert_eq!(referenced, vec![4, 5, 6]);
    renderer.prepare_colors(&list.vtx_buffer, g.vertex_start);
    let colors = renderer.color_buffer();
    assert_eq!(colors.len(), 6);
    for (k, color) in colors.iter().enumerate() {
        let col = list.vtx_buffer[4 + k].col;
        for channel in 0..4 {
            assert_eq!(color[channel], (col[channel] as f32 / 255_f32).to_bits());
        }
    }
}

#[test]
fn index_offset_and_count_select_the_indices() {
    let list = DrawList {
        vtx_buffer: vec![vertex(0.0, 0.0, [1, 2, 3, 4]); 4],
        idx_buffer: vec![0, 1, 2, 1, 2, 3],
        commands: vec![
            elements([0.0, 0.0, 10.0, 10.0], MISSING, 0, 0, 3),
            elements([0.0, 0.0, 10.0, 10.0], MISSING, 0, 3, 3),
        ],
    };
    let data = frame([800.0, 600.0], [1.0, 1.0], vec![list]);
    let drawn = submissions(&renderer().render(&data, backup()));
    assert_eq!(drawn.len(), 2);
    assert_eq!((drawn[0].index_start, drawn[0].index_count), (0, 3));
    assert_eq!((drawn[1].index_start, drawn[1].index_count), (3, 3));
    assert_eq!(drawn[1].vertex_count, 4);
}

#[test]
fn submissions_keep_the_order_of_the_commands() {
    let shown = [0.0, 0.0, 100.0, 100.0];
    let hidden = [900.0, 0.0, 1000.0, 100.0];
    let lists = vec![
        triangle_list(vec![
            elements(shown, MISSING, 0, 0, 3),
            elements(hidden, MISSING, 0, 0, 3),
            DrawCmd::RawCallback,
            elements(shown, MISSING, 0, 0, 3),
        ]),
        triangle_list(vec![]),
        triangle_list(vec![
            DrawCmd::ResetRenderState,
            elements(shown, MISSING, 0, 0, 3),
            elements(shown, MISSING, 0, 0, 3),
            elements(hidden, MISSING, 0, 0, 3),
        ]),
        triangle_list(vec![DrawCmd::RawCallback, elements(shown, MISSING, 0, 0, 3)]),
    ];
    let data = frame([800.0, 600.0], [1.0, 1.0], lists);
    let calls = renderer().render(&data, backup());
    let mut canvas = mock();
    replay(&mut canvas, &calls);
    assert_eq!(canvas.drawn, vec![(0, 0), (0, 3), (2, 1), (2, 2), (3, 1)]);
    assert_eq!(canvas.callbacks, vec![(0, 2), (3, 0)]);
    assert_eq!(canvas.viewport, backup().viewport);
    assert_eq!(canvas.clip, backup().clip);
}

#[test]
fn callback_is_run_in_its_place() {
    let data = frame(
        [800.0, 600.0],
        [1.0, 1.0],
        vec![triangle_list(vec![
            elements([0.0, 0.0, 100.0, 100.0], MISSING, 0, 0, 3),
            DrawCmd::RawCallback,
        ])],
    );
    let calls = renderer().render(&data, backup());
    assert_eq!(calls.len(), 7);
    assert_eq!(calls[4], CanvasCall::RunCallback { list: 0, command: 1 });
}

#[test]
fn canvas_is_restored_whatever_it_was() {
    let states = [
        CanvasBackup { viewport: Rect { x: 0, y: 0, w: 1, h: 1 }, clip: ClippingRect::Unclipped },
        CanvasBackup { viewport: Rect { x: -5, y: 9, w: 77, h: 3 }, clip: ClippingRect::Zero },
        backup(),
    ];
    let data = frame(
        [800.0, 600.0],
        [1.0, 1.0],
        vec![triangle_list(vec![
            elements([0.0, 0.0, 100.0, 100.0], MISSING, 0, 0, 3),
            DrawCmd::ResetRenderState,
        ])],
    );
    for state in states {
        let calls = renderer().render(&data, state);
        let mut canvas = mock();
        canvas.viewport = state.viewport;
        canvas.clip = state.clip;
        replay(&mut canvas, &calls);
        assert_eq!(canvas.viewport, state.viewport);
        assert_eq!(canvas.clip, state.clip);
        assert_eq!(canvas.drawn.len(), 1);
    }
}

#[test]
fn no_draw_lists_submit_nothing() {
    let data = frame([800.0, 600.0], [1.0, 1.0], vec![]);
    let calls = renderer().render(&data, backup());
    assert_eq!(calls.len(), 4);
    assert!(submissions(&calls).is_empty());
    let mut canvas = mock();
    replay(&mut canvas, &calls);
    assert_eq!(canvas.viewport, backup().viewport);
    assert_eq!(canvas.clip, backup().clip);
}

#[test]
fn font_atlas_id_resolves_to_the_atlas_texture() {
    let renderer = renderer();
    assert_eq!(renderer.font_texture_id(), 0);
    assert_eq!(
        renderer.texture(renderer.font_texture_id()),
        Some(Texture { handle: 9, width: 512, height: 64 })
    );
    assert_eq!(renderer.texture(1), None);
    assert!(renderer.color_buffer().is_empty());
}

#[test]
fn registered_texture_is_bound() {
    let renderer = renderer();
    let data = frame(
        [800.0, 600.0],
        [1.0, 1.0],
        vec![triangle_list(vec![
            elements([0.0, 0.0, 100.0, 100.0], renderer.font_texture_id(), 0, 0, 3),
            elements([0.0, 0.0, 100.0, 100.0], MISSING, 0, 0, 3),
        ])],
    );
    let drawn = submissions(&renderer.render(&data, backup()));
    assert_eq!(drawn[0].texture, Some(Texture { handle: 9, width: 512, height: 64 }));
    assert_eq!(drawn[1].texture, None);
}

#[test]
fn rejected_atlas_texture_is_a_texture_value_error() {
    match Renderer::new(512, 64, AtlasUpload::Rejected("too wide".to_string())) {
        Err(e) => {
            assert_eq!(e, RenderError::TextureValue("too wide".to_string()));
            assert_eq!(e.message(), "too wide");
        }
        Ok(_) => panic!("a renderer was made"),
    }
}

#[test]
fn failed_atlas_upload_is_an_update_texture_error() {
    match Renderer::new(512, 64, AtlasUpload::UpdateFailed("lost device".to_string())) {
        Err(e) => {
            assert_eq!(e, RenderError::UpdateTexture("lost device".to_string()));
            assert_eq!(e.message(), "lost device");
        }
        Ok(_) => panic!("a renderer was made"),
    }
}

#[test]
fn unknown_pixel_format_is_a_generic_error() {
    match Renderer::new(512, 64, AtlasUpload::Unsupported("no such format".to_string())) {
        Err(e) => {
            assert_eq!(e, RenderError::GenericSDL("no such format".to_string()));
            assert_eq!(e.message(), "no such format");
        }
        Ok(_) => panic!("a renderer was made"),
    }
}

#[test]
fn rejected_submission_is_a_generic_error() {
    let calls = vec![
        CanvasCall::SetClipRect(ClippingRect::Unclipped),
        CanvasCall::RenderGeometry(Geometry {
            list: 0,
            command: 0,
            texture: None,
            vertex_start: 0,
            vertex_count: 3,
            index_start: 0,
            index_count: 3,
        }),
        CanvasCall::SetClipRect(ClippingRect::Zero),
    ];
    let (performed, result) = frame_result(&calls, Some((1, "out of memory".to_string())));
    assert_eq!(performed, 2);
    assert_eq!(result, Err(RenderError::GenericSDL("out of memory".to_string())));
    match result {
        Err(e) => assert_eq!(e.message(), "out of memory"),
        Ok(()) => unreachable!(),
    }
}

#[test]
fn atlas_texture_has_four_bytes_per_pixel() {
    assert_eq!(
        atlas_texture(512, 64),
        AtlasTexture {
            access: TextureAccess::Static,
            format: PixelFormat::Rgba32,
            width: 512,
            height: 64,
            pitch: 2048,
            blend_mode: BlendMode::Alpha,
            scale_mode: ScaleMode::Linear,
        }
    );
    assert_eq!(atlas_texture(u32::MAX, 1).pitch, 4 * (u32::MAX as u64));
    assert_eq!(atlas_texture(0, 0).pitch, 0);
}

#[test]
fn renderer_name_carries_the_version() {
    assert_eq!(renderer_name("0.1.0"), "imgui-rs-sdl3-backend 0.1.0");
    assert_eq!(renderer_name("12.3.4-rc1"), "imgui-rs-sdl3-backend 12.3.4-rc1");
    assert_eq!(renderer_name(""), "imgui-rs-sdl3-backend ");
}

#[test]
fn prepare_colors_replaces_what_was_prepared() {
    let mut renderer = renderer();
    let many = vec![vertex(0.0, 0.0, [0, 51, 102, 255]); 5];
    renderer.prepare_colors(&many, 0);
    assert_eq!(renderer.color_buffer().len(), 5);
    assert_eq!(
        renderer.color_buffer()[4],
        [0.0f32.to_bits(), 0.2f32.to_bits(), 0.4f32.to_bits(), 1.0f32.to_bits()]
    );
    let few = vec![vertex(0.0, 0.0, [255, 255, 255, 0]); 2];
    renderer.prepare_colors(&few, 1);
    assert_eq!(
        renderer.color_buffer(),
        &vec![[1.0f32.to_bits(), 1.0f32.to_bits(), 1.0f32.to_bits(), 0]]
    );
    renderer.prepare_colors(&few, 2);
    assert!(renderer.color_buffer().is_empty());
    renderer.prepare_colors(&few, 7);
    assert!(renderer.color_buffer().is_empty());
    assert_eq!(renderer.font_texture_id(), 0);
}

#[test]
fn commands_are_held_to_the_buffers_of_their_list() {
    let (vertices, indices) = (3, 3);
    assert!(!elements([0.0; 4], MISSING, 4, 0, 3).check_fits(vertices, indices));
    assert!(!elements([0.0; 4], MISSING, 0, 1, 3).check_fits(vertices, indices));
    assert!(!elements([0.0; 4], MISSING, 0, 2, usize::MAX).check_fits(vertices, indices));
    assert!(elements([0.0; 4], MISSING, 3, 3, 0).check_fits(vertices, indices));
    assert!(elements([0.0; 4], MISSING, 0, 0, 3).check_fits(vertices, indices));
    assert!(DrawCmd::ResetRenderState.check_fits(0, 0));
    assert!(DrawCmd::RawCallback.check_fits(0, 0));
}

#[test]
fn a_shown_command_outside_its_buffers_cannot_be_rendered() {
    let shown = [0.0, 0.0, 100.0, 100.0];
    let beyond_vertices = triangle_list(vec![elements(shown, MISSING, 4, 0, 3)]);
    assert!(!is_renderable(&frame([800.0, 600.0], [1.0, 1.0], vec![beyond_vertices])));
    let beyond_indices = triangle_list(vec![elements(shown, MISSING, 0, 1, 3)]);
    assert!(!is_renderable(&frame([800.0, 600.0], [1.0, 1.0], vec![beyond_indices])));
    let later = vec![
        triangle_list(vec![elements(shown, MISSING, 0, 0, 3)]),
        triangle_list(vec![DrawCmd::RawCallback, elements(shown, MISSING, 0, 2, 2)]),
    ];
    assert!(!is_renderable(&frame([800.0, 600.0], [1.0, 1.0], later)));
    let at_the_end = triangle_list(vec![elements(shown, MISSING, 3, 3, 0)]);
    assert!(is_renderable(&frame([800.0, 600.0], [1.0, 1.0], vec![at_the_end])));
}

#[test]
fn a_culled_command_outside_its_buffers_is_skipped() {
    let hidden = [900.0, 0.0, 1000.0, 100.0];
    let data = frame(
        [800.0, 600.0],
        [1.0, 1.0],
        vec![triangle_list(vec![
            elements(hidden, MISSING, 40, 50, 60),
            elements([0.0, 0.0, 100.0, 100.0], MISSING, 0, 0, 3),
        ])],
    );
    assert!(is_renderable(&data));
    let drawn = submissions(&renderer().render(&data, backup()));
    assert_eq!(drawn.len(), 1);
    assert_eq!((drawn[0].list, drawn[0].command), (0, 1));
}

#[test]
fn a_minimized_window_does_not_look_at_the_commands() {
    let data = frame(
        [800.0, 600.0],
        [1.0, 0.0],
        vec![triangle_list(vec![elements([0.0, 0.0, 100.0, 100.0], MISSING, 40, 50, 60)])],
    );
    assert!(is_renderable(&data));
    assert_eq!(renderer().render(&data, backup()).len(), 4);
}

#[test]
fn a_frame_without_rejection_ends_after_all_calls() {
    let data = frame(
        [800.0, 600.0],
        [1.0, 1.0],
        vec![triangle_list(vec![elements([0.0, 0.0, 100.0, 100.0], MISSING, 0, 0, 3)])],
    );
    let calls = renderer().render(&data, backup());
    assert_eq!(frame_result(&calls, None), (6, Ok(())));
    assert_eq!(frame_result(&Vec::new(), None), (0, Ok(())));
}

#[test]
fn a_rejected_submission_ends_the_frame() {
    let shown = [0.0, 0.0, 100.0, 100.0];
    let data = frame(
        [800.0, 600.0],
        [1.0, 1.0],
        vec![triangle_list(vec![
            elements(shown, MISSING, 0, 0, 3),
            DrawCmd::RawCallback,
            elements(shown, MISSING, 0, 0, 3),
            DrawCmd::RawCallback,
            elements(shown, MISSING, 0, 0, 3),
        ])],
    );
    let calls = renderer().render(&data, backup());
    assert_eq!(calls.len(), 12);
    // The renderer takes the first submission and rejects the second.
    let mut canvas = mock();
    let mut position = 0;
    let mut failed: Option<(usize, String)> = None;
    let result = loop {
        let (end, result) = frame_result(&calls, failed.take());
        if position >= end {
            break result;
        }
        replay(&mut canvas, &calls[position..position + 1]);
        if matches!(calls[position], CanvasCall::RenderGeometry(_)) && canvas.drawn.len() == 2 {
            failed = Some((position, "device lost".to_string()));
        }
        position += 1;
    };
    assert_eq!(result, Err(RenderError::GenericSDL("device lost".to_string())));
    assert_eq!(position, 7);
    assert_eq!(canvas.drawn, vec![(0, 0), (0, 2)]);
    assert_eq!(canvas.callbacks, vec![(0, 1)]);
    // Nothing was restored.
    assert_eq!(canvas.viewport, canvas.target);
    assert_eq!(canvas.clip, ClippingRect::Region(Rect { x: 0, y: 0, w: 100, h: 100 }));
    assert_eq!(
        frame_result(&calls, Some((6, "device lost".to_string()))),
        (7, Err(RenderError::GenericSDL("device lost".to_string())))
    );
    assert_eq!(
        frame_result(&calls, Some((3, String::new()))),
        (4, Err(RenderError::GenericSDL(String::new())))
    );
}

#[test]
fn font_atlas_is_registered_beside_earlier_textures() {
    let mut map = TextureMap::new();
    let first = Texture { handle: 70, width: 1, height: 2 };
    let second = Texture { handle: 71, width: 3, height: 4 };
    assert_eq!(map.insert(first), 0);
    assert_eq!(map.insert(second), 1);
    assert_eq!(map.get(2), None);
    let id = prepare_font_atlas(&mut map, 256, 128, AtlasUpload::Uploaded { handle: 72 });
    assert_eq!(id, Ok(2));
    assert_eq!(map.get(2), Some(Texture { handle: 72, width: 256, height: 128 }));
    assert_eq!(map.get(0), Some(first));
    assert_eq!(map.get(1), Some(second));
    assert_eq!(map.get(3), None);
}

#[test]
fn failed_upload_registers_nothing() {
    let mut map = TextureMap::new();
    let first = Texture { handle: 70, width: 1, height: 2 };
    map.insert(first);
    let outcomes = [
        (AtlasUpload::Unsupported("a".to_string()), RenderError::GenericSDL("a".to_string())),
        (AtlasUpload::Rejected("b".to_string()), RenderError::TextureValue("b".to_string())),
        (AtlasUpload::UpdateFailed("c".to_string()), RenderError::UpdateTexture("c".to_string())),
    ];
    for (upload, error) in outcomes {
        assert_eq!(prepare_font_atlas(&mut map, 256, 128, upload), Err(error));
        assert_eq!(map.get(0), Some(first));
        assert_eq!(map.get(1), None);
    }
    assert_eq!(map.insert(first), 1);
}

#[test]
fn try_prepare_font_atlas_registers_where_an_id_is_left() {
    let mut map = TextureMap::new();
    assert!(!map.is_full());
    assert_eq!(
        try_prepare_font_atlas(&mut map, 8, 9, AtlasUpload::Uploaded { handle: 5 }),
        Some(Ok(0))
    );
    assert_eq!(map.get(0), Some(Texture { handle: 5, width: 8, height: 9 }));
    assert_eq!(
        try_prepare_font_atlas(&mut map, 8, 9, AtlasUpload::Rejected("no".to_string())),
        Some(Err(RenderError::TextureValue("no".to_string())))
    );
    assert_eq!(map.get(1), None);
    assert_eq!(
        try_prepare_font_atlas(&mut map, 2, 3, AtlasUpload::Uploaded { handle: 6 }),
        Some(Ok(1))
    );
    assert_eq!(map.get(1), Some(Texture { handle: 6, width: 2, height: 3 }));
}
