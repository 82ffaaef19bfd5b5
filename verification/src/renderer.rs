//! The renderer: registration of the font atlas, and the canvas calls that
//! the draw data of a frame asks for.
use crate::binary32::encodes_zero;
use crate::canvas::{CanvasBackup, CanvasCall, ClippingRect, Geometry, Texture};
use crate::clip::{framebuffer_extent, framebuffer_size, map_clip_rect};
use crate::conversion::{normalize_channel, unit_fraction};
use crate::draw_data::{DrawCmd, DrawCmdParams, DrawData, DrawVert};
use crate::error::RenderError;
use crate::clip::clip_span;
use crate::frame::{
    command_renderable,
    default_state,
    elements_calls,
    frame_calls,
    list_calls,
    list_renderable,
    lists_calls,
    minimized,
    performed,
    renderable,
    shown,
};
use crate::textures::{no_textures, TextureMap};
use vstd::prelude::*;
use vstd::string::StringExecFns;

verus! {

/// How a texture blends with what is drawn already.
#[derive(Clone, Copy, Debug, PartialEq, Eq)]
pub enum BlendMode {
    /// The texture replaces what it covers.
    Replace,
    /// The texture is blended by its alpha channel.
    Alpha,
}

/// How a texture is sampled when it is scaled.
#[derive(Clone, Copy, Debug, PartialEq, Eq)]
pub enum ScaleMode {
    Nearest,
    Linear,
}

/// How often a texture is going to change.
#[derive(Clone, Copy, Debug, PartialEq, Eq)]
pub enum TextureAccess {
    /// Changes rarely.
    Static,
    /// Changes often.
    Streaming,
    /// Can be rendered to.
    Target,
}

/// Order of the four bytes of a pixel.
#[derive(Clone, Copy, Debug, PartialEq, Eq)]
pub enum PixelFormat {
    Rgba32,
    Argb32,
    Bgra32,
    Abgr32,
}

/// The texture that holds the font atlas, as the texture factory is asked
/// to make it.
#[derive(Clone, Copy, Debug, PartialEq, Eq)]
pub struct AtlasTexture {
    pub access: TextureAccess,
    pub format: PixelFormat,
    pub width: u32,
    pub height: u32,
    /// Bytes from one row of pixels to the next.
    pub pitch: u64,
    pub blend_mode: BlendMode,
    pub scale_mode: ScaleMode,
}

/// How creating and filling the font atlas texture ended.
#[derive(Debug, PartialEq, Eq)]
pub enum AtlasUpload {
    /// The renderer does not know the pixel format of the atlas.
    Unsupported(String),
    /// The renderer did not create the texture.
    Rejected(String),
    /// The renderer did not take the pixels.
    UpdateFailed(String),
    /// The texture holds the atlas; the host finds it by `handle`.
    Uploaded { handle: usize },
}

/// The colour of a vertex as four binary32 numbers between 0 and 1.
pub open spec fn normalized_color(col: [u8; 4]) -> [u32; 4] {
    [unit_fraction(col[0]), unit_fraction(col[1]), unit_fraction(col[2]), unit_fraction(col[3])]
}

/// The colours of the vertices from `start` on, one per vertex.
pub open spec fn normalized_colors(vertices: Seq<DrawVert>, start: nat) -> Seq<[u32; 4]> {
    Seq::new(
        if start <= vertices.len() {
            (vertices.len() - start) as nat
        } else {
            0
        },
        |i: int| normalized_color(vertices[start + i].col),
    )
}

/// The texture to create for an atlas of the given extent.
pub open spec fn atlas_texture_for(width: u32, height: u32) -> AtlasTexture {
    AtlasTexture {
        access: TextureAccess::Static,
        format: PixelFormat::Rgba32,
        width,
        height,
        pitch: (width * 4) as u64,
        blend_mode: BlendMode::Alpha,
        scale_mode: ScaleMode::Linear,
    }
}

/// The texture to create for an atlas of the given extent: static, red,
/// green, blue and alpha byte by byte, rows of four bytes per pixel, alpha
/// blending, linear filtering.
pub fn atlas_texture(width: u32, height: u32) -> (r: AtlasTexture)
    ensures
        r == atlas_texture_for(width, height),
{
    AtlasTexture {
        access: TextureAccess::Static,
        format: PixelFormat::Rgba32,
        width,
        height,
        pitch: width as u64 * 4,
        blend_mode: BlendMode::Alpha,
        scale_mode: ScaleMode::Linear,
    }
}

/// The name under which the backend presents itself to the GUI library.
pub fn renderer_name(version: &str) -> (r: String)
    ensures
        r@ == "imgui-rs-sdl3-backend "@ + version@,
{
    let mut name: String = String::from_str("imgui-rs-sdl3-backend ");
    name.append(version);
    name
}

/// Appends the calls that put a canvas into the default state.
pub fn set_up_render_state(calls: &mut Vec<CanvasCall>)
    ensures
        final(calls)@ == old(calls)@ + default_state(),
{
    calls.push(CanvasCall::SetClipRect(ClippingRect::Unclipped));
    calls.push(CanvasCall::SetViewport(None));
    assert(calls@ =~= old(calls)@ + default_state());
}

/// What registering the font atlas texture gives and does to the texture
/// map, for each way the upload can have ended.
pub open spec fn atlas_prepared(
    before: TextureMap,
    after: TextureMap,
    width: u32,
    height: u32,
    upload: AtlasUpload,
    r: Result<usize, RenderError>,
) -> bool {
    match upload {
        AtlasUpload::Unsupported(message) => {
            &&& r == Err::<usize, RenderError>(RenderError::GenericSDL(message))
            &&& after.entries() == before.entries()
            &&& after.next_id() == before.next_id()
        },
        AtlasUpload::Rejected(message) => {
            &&& r == Err::<usize, RenderError>(RenderError::TextureValue(message))
            &&& after.entries() == before.entries()
            &&& after.next_id() == before.next_id()
        },
        AtlasUpload::UpdateFailed(message) => {
            &&& r == Err::<usize, RenderError>(RenderError::UpdateTexture(message))
            &&& after.entries() == before.entries()
            &&& after.next_id() == before.next_id()
        },
        AtlasUpload::Uploaded { handle } => {
            &&& r == Ok::<usize, RenderError>(before.next_id())
            &&& !before.entries().dom().contains(before.next_id())
            &&& after.entries() == before.entries().insert(
                before.next_id(),
                Texture { handle, width, height },
            )
            &&& after.lookup(before.next_id()) == Some(Texture { handle, width, height })
            &&& after.next_id() == before.next_id() + 1
        },
    }
}

/// Registers the font atlas texture, if the renderer has created and filled
/// it, and returns its id: an id that was free, and that from now on
/// resolves to a texture of the atlas's width and height, while every other
/// id resolves as before.
pub fn prepare_font_atlas(
    texture_map: &mut TextureMap,
    width: u32,
    height: u32,
    upload: AtlasUpload,
) -> (r: Result<usize, RenderError>)
    requires
        upload is Uploaded ==> old(texture_map).next_id() < usize::MAX,
    ensures
        atlas_prepared(*old(texture_map), *final(texture_map), width, height, upload, r),
{
    match upload {
        AtlasUpload::Unsupported(message) => Err(RenderError::GenericSDL(message)),
        AtlasUpload::Rejected(message) => Err(RenderError::TextureValue(message)),
        AtlasUpload::UpdateFailed(message) => Err(RenderError::UpdateTexture(message)),
        AtlasUpload::Uploaded { handle } => {
            let id: usize = texture_map.insert(Texture { handle, width, height });
            Ok(id)
        },
    }
}

/// Registers the font atlas texture as `prepare_font_atlas` does, for a
/// texture map in any state: where the texture is there but every id has
/// been handed out, nothing is registered and nothing is returned.
pub fn try_prepare_font_atlas(
    texture_map: &mut TextureMap,
    width: u32,
    height: u32,
    upload: AtlasUpload,
) -> (r: Option<Result<usize, RenderError>>)
    ensures
        match r {
            Some(result) => {
                &&& upload is Uploaded ==> old(texture_map).next_id() < usize::MAX
                &&& atlas_prepared(
                    *old(texture_map),
                    *final(texture_map),
                    width,
                    height,
                    upload,
                    result,
                )
            },
            None => {
                &&& upload is Uploaded
                &&& old(texture_map).next_id() == usize::MAX
                &&& final(texture_map).entries() == old(texture_map).entries()
                &&& final(texture_map).next_id() == old(texture_map).next_id()
            },
        },
{
    let full: bool = texture_map.is_full();
    match upload {
        AtlasUpload::Uploaded { handle } => {
            if full {
                None
            } else {
                Some(prepare_font_atlas(texture_map, width, height, AtlasUpload::Uploaded { handle }))
            }
        },
        other => Some(prepare_font_atlas(texture_map, width, height, other)),
    }
}

/// Where the frame ends and with what result: after all calls and well,
/// or, where the renderer has rejected the submission at the position given
/// with its message, right after that submission and with the message as a
/// generic error. The first component is the number of calls to perform.
pub fn frame_result(calls: &Vec<CanvasCall>, failed: Option<(usize, String)>) -> (r: (
    usize,
    Result<(), RenderError>,
))
    requires
        failed matches Some(f) ==> f.0 < calls@.len() && calls@[f.0 as int] is RenderGeometry,
    ensures
        match failed {
            Some(f) => {
                &&& r.0 == f.0 + 1
                &&& r.0 == performed(calls@, Some(f.0 as int)).len()
                &&& r.1 == Err::<(), RenderError>(RenderError::GenericSDL(f.1))
            },
            None => {
                &&& r.0 == calls@.len()
                &&& r.0 == performed(calls@, None).len()
                &&& r.1 == Ok::<(), RenderError>(())
            },
        },
{
    let all: usize = calls.len();
    match failed {
        Some((position, message)) => (position + 1, Err(RenderError::GenericSDL(message))),
        None => (all, Ok(())),
    }
}

/// Whether the draw data can be rendered: whether every command that is
/// shown stays inside the buffers of its draw list.
pub fn is_renderable(data: &DrawData) -> (r: bool)
    ensures
        r == renderable(data),
{
    let extent = framebuffer_size(&data.display_size, &data.framebuffer_scale);
    if encodes_zero(extent[0]) || encodes_zero(extent[1]) {
        return true;
    }
    let mut li: usize = 0;
    while li < data.draw_lists.len()
        invariant
            li <= data.draw_lists@.len(),
            !minimized(data),
            extent == framebuffer_extent(data.display_size, data.framebuffer_scale),
            forall|k: int| 0 <= k < li ==> #[trigger] list_renderable(data, k),
        decreases data.draw_lists@.len() - li,
    {
        let list = &data.draw_lists[li];
        let mut ci: usize = 0;
        while ci < list.commands.len()
            invariant
                li < data.draw_lists@.len(),
                *list == data.draw_lists@[li as int],
                ci <= list.commands@.len(),
                !minimized(data),
                extent == framebuffer_extent(data.display_size, data.framebuffer_scale),
                forall|c: int| 0 <= c < ci ==> #[trigger] command_renderable(data, li as int, c),
            decreases list.commands@.len() - ci,
        {
            match &list.commands[ci] {
                DrawCmd::Elements { cmd_params, .. } => {
                    let span = map_clip_rect(
                        &cmd_params.clip_rect,
                        &data.display_pos,
                        &data.framebuffer_scale,
                    );
                    if !span.is_culled(&extent) && !list.commands[ci].check_fits(
                        list.vtx_buffer.len(),
                        list.idx_buffer.len(),
                    ) {
                        proof {
                            assert(shown(data, li as nat, ci as nat));
                            assert(!command_renderable(data, li as int, ci as int));
                            assert(!list_renderable(data, li as int));
                        }
                        return false;
                    }
                },
                _ => {},
            }
            assert(command_renderable(data, li as int, ci as int));
            ci = ci + 1;
        }
        assert(list_renderable(data, li as int));
        li = li + 1;
    }
    true
}

/// Appends the calls of one element command.
pub fn render_elements(
    texture_map: &TextureMap,
    data: &DrawData,
    list: usize,
    command: usize,
    count: usize,
    params: &DrawCmdParams,
    extent: &[u32; 2],
    calls: &mut Vec<CanvasCall>,
)
    requires
        list < data.draw_lists@.len(),
        !clip_span(params.clip_rect, data.display_pos, data.framebuffer_scale).culled(*extent)
            ==> params.vtx_offset <= data.draw_lists@[list as int].vtx_buffer@.len(),
        *extent == framebuffer_extent(data.display_size, data.framebuffer_scale),
    ensures
        final(calls)@ == old(calls)@ + elements_calls(
            texture_map.entries(),
            data,
            list as nat,
            command as nat,
            count,
            *params,
        ),
{
    let ghost expected = elements_calls(
        texture_map.entries(),
        data,
        list as nat,
        command as nat,
        count,
        *params,
    );
    let span = map_clip_rect(&params.clip_rect, &data.display_pos, &data.framebuffer_scale);
    if span.is_culled(extent) {
        assert(expected == Seq::<CanvasCall>::empty());
        assert(calls@ =~= old(calls)@ + Seq::<CanvasCall>::empty());
        return ;
    }
    let rect = span.scissor_rect();
    calls.push(CanvasCall::SetClipRect(ClippingRect::Region(rect)));
    let texture = texture_map.get(params.texture_id);
    let geometry = Geometry {
        list,
        command,
        texture,
        vertex_start: params.vtx_offset,
        vertex_count: data.draw_lists[list].vtx_buffer.len() - params.vtx_offset,
        index_start: params.idx_offset,
        index_count: count,
    };
    calls.push(CanvasCall::RenderGeometry(geometry));
    assert(expected == seq![
        CanvasCall::SetClipRect(ClippingRect::Region(rect)),
        CanvasCall::RenderGeometry(geometry),
    ]);
    assert(calls@ =~= old(calls)@ + seq![
        CanvasCall::SetClipRect(ClippingRect::Region(rect)),
        CanvasCall::RenderGeometry(geometry),
    ]);
}

/// The state of the backend between frames.
pub struct Renderer {
    texture_map: TextureMap,
    color_buffer: Vec<[u32; 4]>,
    font_texture: usize,
}

impl Renderer {
    /// The registered textures by id.
    pub closed spec fn textures(&self) -> Map<usize, Texture> {
        self.texture_map.entries()
    }

    /// The colours prepared for the next submission, one per vertex.
    pub closed spec fn colors(&self) -> Seq<[u32; 4]> {
        self.color_buffer@
    }

    /// The id under which the font atlas texture is registered.
    pub closed spec fn font_texture(&self) -> usize {
        self.font_texture
    }

    /// Makes the renderer for an atlas of the given extent, if the renderer
    /// underneath has created and filled the atlas texture.
    pub fn new(atlas_width: u32, atlas_height: u32, upload: AtlasUpload) -> (r: Result<
        Renderer,
        RenderError,
    >)
        ensures
            match upload {
                AtlasUpload::Unsupported(message) => r matches Err(e) && e
                    == RenderError::GenericSDL(message),
                AtlasUpload::Rejected(message) => r matches Err(e) && e
                    == RenderError::TextureValue(message),
                AtlasUpload::UpdateFailed(message) => r matches Err(e) && e
                    == RenderError::UpdateTexture(message),
                AtlasUpload::Uploaded { handle } => {
                    &&& r matches Ok(renderer)
                    &&& renderer.font_texture() == 0
                    &&& renderer.textures() == no_textures().insert(
                        0,
                        Texture { handle, width: atlas_width, height: atlas_height },
                    )
                    &&& renderer.colors() == Seq::<[u32; 4]>::empty()
                },
            },
    {
        let mut texture_map = TextureMap::new();
        match prepare_font_atlas(&mut texture_map, atlas_width, atlas_height, upload) {
            Ok(id) => Ok(Renderer { texture_map, color_buffer: Vec::new(), font_texture: id }),
            Err(e) => Err(e),
        }
    }

    /// The id under which the font atlas texture is registered.
    pub fn font_texture_id(&self) -> (id: usize)
        ensures
            id == self.font_texture(),
    {
        self.font_texture
    }

    /// The texture registered under `id`; none for an id that is not in use.
    pub fn texture(&self, id: usize) -> (r: Option<Texture>)
        ensures
            r == (if self.textures().dom().contains(id) {
                Some(self.textures()[id])
            } else {
                None
            }),
    {
        self.texture_map.get(id)
    }

    /// The colours prepared for the next submission.
    pub fn color_buffer(&self) -> (r: &Vec<[u32; 4]>)
        ensures
            r@ == self.colors(),
    {
        &self.color_buffer
    }

    /// Replaces the prepared colours by those of the vertices from `start`
    /// on: each channel divided by 255, alpha left as it is.
    pub fn prepare_colors(&mut self, vertices: &Vec<DrawVert>, start: usize)
        ensures
            final(self).colors() == normalized_colors(vertices@, start as nat),
            final(self).textures() == old(self).textures(),
            final(self).font_texture() == old(self).font_texture(),
    {
        self.color_buffer.clear();
        let mut i: usize = start;
        while i < vertices.len()
            invariant
                start <= i,
                start <= vertices@.len() ==> i <= vertices@.len(),
                i <= vertices@.len() || self.color_buffer@.len() == 0,
                i <= vertices@.len() ==> self.color_buffer@.len() == i - start,
                forall|k: int|
                    0 <= k < self.color_buffer@.len() ==> #[trigger] self.color_buffer@[k]
                        == normalized_color(vertices@[start + k].col),
                self.texture_map == old(self).texture_map,
                self.font_texture == old(self).font_texture,
            decreases vertices@.len() - i,
        {
            let col = &vertices[i].col;
            self.color_buffer.push(
                [
                    normalize_channel(col[0]),
                    normalize_channel(col[1]),
                    normalize_channel(col[2]),
                    normalize_channel(col[3]),
                ],
            );
            i = i + 1;
        }
        let ghost wanted = normalized_colors(vertices@, start as nat);
        assert(self.color_buffer@.len() == wanted.len());
        assert forall|k: int| 0 <= k < wanted.len() implies self.color_buffer@[k] == wanted[k] by {
            assert(wanted[k] == normalized_color(vertices@[start + k].col));
        }
        assert(self.color_buffer@ =~= wanted);
    }

    /// The canvas calls of one frame, for a canvas that had the viewport and
    /// the clip rectangle of `backup` when the frame started.
    pub fn render(&self, data: &DrawData, backup: CanvasBackup) -> (calls: Vec<CanvasCall>)
        requires
            renderable(data),
        ensures
            calls@ == frame_calls(self.textures(), data, backup),
    {
        let ghost textures = self.texture_map.entries();
        let mut calls: Vec<CanvasCall> = Vec::new();
        set_up_render_state(&mut calls);
        let extent = framebuffer_size(&data.display_size, &data.framebuffer_scale);
        if !(encodes_zero(extent[0]) || encodes_zero(extent[1])) {
            let mut li: usize = 0;
            while li < data.draw_lists.len()
                invariant
                    li <= data.draw_lists@.len(),
                    renderable(data),
                    !minimized(data),
                    textures == self.texture_map.entries(),
                    extent == framebuffer_extent(data.display_size, data.framebuffer_scale),
                    calls@ == default_state() + lists_calls(textures, data, li as nat),
                decreases data.draw_lists@.len() - li,
            {
                let list = &data.draw_lists[li];
                let ghost before = calls@;
                let mut ci: usize = 0;
                while ci < list.commands.len()
                    invariant
                        li < data.draw_lists@.len(),
                        *list == data.draw_lists@[li as int],
                        list_renderable(data, li as int),
                        ci <= list.commands@.len(),
                        textures == self.texture_map.entries(),
                        extent == framebuffer_extent(data.display_size, data.framebuffer_scale),
                        calls@ == before + list_calls(textures, data, li as nat, ci as nat),
                    decreases list.commands@.len() - ci,
                {
                    let ghost so_far = calls@;
                    assert(command_renderable(data, li as int, ci as int));
                    match &list.commands[ci] {
                        DrawCmd::Elements { count, cmd_params } => {
                            render_elements(
                                &self.texture_map,
                                data,
                                li,
                                ci,
                                *count,
                                cmd_params,
                                &extent,
                                &mut calls,
                            );
                        },
                        DrawCmd::ResetRenderState => {
                            set_up_render_state(&mut calls);
                        },
                        DrawCmd::RawCallback => {
                            calls.push(CanvasCall::RunCallback { list: li, command: ci });
                            assert(calls@ =~= so_far + seq![
                                CanvasCall::RunCallback { list: li, command: ci },
                            ]);
                        },
                    }
                    assert(calls@ =~= before + list_calls(
                        textures,
                        data,
                        li as nat,
                        (ci + 1) as nat,
                    ));
                    ci = ci + 1;
                }
                assert(calls@ =~= default_state() + lists_calls(textures, data, (li + 1) as nat));
                li = li + 1;
            }
        }
        calls.push(CanvasCall::SetViewport(Some(backup.viewport)));
        calls.push(CanvasCall::SetClipRect(backup.clip));
        assert(calls@ =~= frame_calls(textures, data, backup));
        calls
    }
}

} // verus!
