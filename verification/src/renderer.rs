//! The action renderer: dispatches rendering actions to the per-resource
//! operations of a rendering device.
//!
//! This renderer is the device-free reference: it accepts and dispatches
//! every action, and a device-backed implementation performs the same
//! operations against its buffers and targets.

use vstd::prelude::*;

verus! {

/// A colour with 8-bit red, green, blue and alpha channels.
#[derive(Clone, Copy, PartialEq, Eq, Structural, Debug)]
pub struct Rgba8 {
    pub r: u8,
    pub g: u8,
    pub b: u8,
    pub a: u8,
}

/// Identifies a 2D vertex buffer.
#[derive(Clone, Copy, PartialEq, Eq, Structural, Debug)]
pub struct VertexBufferId(pub u64);

/// Identifies a texture.
#[derive(Clone, Copy, PartialEq, Eq, Structural, Debug)]
pub struct TextureId(pub u64);

/// Identifies a render target.
#[derive(Clone, Copy, PartialEq, Eq, Structural, Debug)]
pub struct RenderTargetId(pub u64);

/// One 2D vertex, with coordinates in integer device units.
#[derive(Clone, Copy, PartialEq, Eq, Structural, Debug)]
pub struct Vertex2D {
    pub x: i64,
    pub y: i64,
}

/// How a render target stores its pixels.
#[derive(Clone, Copy, PartialEq, Eq, Structural, Debug)]
pub enum RenderTargetType {
    /// An ordinary off-screen target.
    Standard,
    /// A multisampled off-screen target.
    Multisampled,
}

/// One rendering action submitted to the renderer.
#[derive(Clone, PartialEq, Debug)]
pub enum GfxAction {
    /// Creates a 2D vertex buffer with the given vertices.
    CreateVertex2DBuffer(VertexBufferId, Vec<Vertex2D>),
    /// Frees a vertex buffer.
    FreeVertexBuffer(VertexBufferId),
    /// Creates a render target of the given size backed by a texture.
    CreateRenderTarget(RenderTargetId, TextureId, usize, usize, RenderTargetType),
    /// Frees a render target.
    FreeRenderTarget(RenderTargetId),
    /// Directs rendering at a render target.
    SelectRenderTarget(RenderTargetId),
    /// Directs rendering at the primary frame buffer.
    RenderToFrameBuffer,
    /// Presents the frame buffer; this renderer does not double-buffer, so
    /// there is nothing to do.
    ShowFrameBuffer,
    /// Creates a BGRA texture of the given size.
    CreateTextureBgra(TextureId, usize, usize),
    /// Frees a texture.
    FreeTexture(TextureId),
    /// Clears the current render target to a colour.
    Clear(Rgba8),
}

/// The action renderer.
pub struct GlRenderer {
}

impl GlRenderer {
    /// Creates a new renderer.
    pub fn new() -> (renderer: GlRenderer)
        ensures
            renderer == (GlRenderer {  }),
    {
        GlRenderer {  }
    }

    /// Performs the given actions against this renderer, dispatching each
    /// to its per-resource operation in order.
    pub fn render(&mut self, actions: Vec<GfxAction>) {
        let mut actions = actions;
        while actions.len() > 0
            decreases actions.len(),
        {
            let action = actions.remove(0);
            match action {
                GfxAction::CreateVertex2DBuffer(id, vertices) => {
                    self.create_vertex_buffer_2d(id, vertices);
                },
                GfxAction::FreeVertexBuffer(id) => {
                    self.free_vertex_buffer(id);
                },
                GfxAction::CreateRenderTarget(render_id, texture_id, width, height, render_type) => {
                    self.create_render_target(render_id, texture_id, width, height, render_type);
                },
                GfxAction::FreeRenderTarget(render_id) => {
                    self.free_render_target(render_id);
                },
                GfxAction::SelectRenderTarget(render_id) => {
                    self.select_render_target(render_id);
                },
                GfxAction::RenderToFrameBuffer => {
                    self.select_main_frame_buffer();
                },
                GfxAction::ShowFrameBuffer => {
                },
                GfxAction::CreateTextureBgra(texture_id, width, height) => {
                    self.create_bgra_texture(texture_id, width, height);
                },
                GfxAction::FreeTexture(texture_id) => {
                    self.free_texture(texture_id);
                },
                GfxAction::Clear(color) => {
                    self.clear(color);
                },
            }
        }
    }

    /// Clears the current render target.
    fn clear(&mut self, color: Rgba8) {
        let _ = color;
    }

    /// Creates a 2D vertex buffer.
    fn create_vertex_buffer_2d(&mut self, id: VertexBufferId, vertices: Vec<Vertex2D>) {
        let _ = id;
        let _ = vertices;
    }

    /// Frees the vertex buffer with the given id.
    fn free_vertex_buffer(&mut self, id: VertexBufferId) {
        let _ = id;
    }

    /// Creates a new BGRA texture.
    fn create_bgra_texture(&mut self, id: TextureId, width: usize, height: usize) {
        let _ = id;
        let _ = width;
        let _ = height;
    }

    /// Releases an existing texture.
    fn free_texture(&mut self, texture_id: TextureId) {
        let _ = texture_id;
    }

    /// Creates a new render target.
    fn create_render_target(
        &mut self,
        render_id: RenderTargetId,
        texture_id: TextureId,
        width: usize,
        height: usize,
        render_type: RenderTargetType,
    ) {
        let _ = render_id;
        let _ = texture_id;
        let _ = width;
        let _ = height;
        let _ = render_type;
    }

    /// Chooses which buffer rendering instructions will be sent to.
    fn select_render_target(&mut self, render_id: RenderTargetId) {
        let _ = render_id;
    }

    /// Sends rendering instructions to the primary frame buffer.
    fn select_main_frame_buffer(&mut self) {
    }

    /// Releases an existing render target.
    fn free_render_target(&mut self, render_id: RenderTargetId) {
        let _ = render_id;
    }

    /// Flushes all changes to the device.
    pub fn flush(&mut self) {
    }
}

} // verus!
