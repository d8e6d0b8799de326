//! Batch items: one pending quad each.

use vstd::prelude::*;
use crate::texture::Texture;
use crate::vertex::VertexPositionColorTexture;

verus! {

/// One pending draw request: a textured quad.
///
/// Items live in the batcher's pool and are reused from one draw call to the
/// next. A caller fills every field of the slot it is handed; drawing the item
/// clears its texture again.
#[derive(Clone, Copy, Debug, PartialEq, Eq)]
pub struct SpriteBatchItem {
    /// The texture the quad is drawn with; `None` is the unbound sentinel.
    pub texture: Option<Texture>,
    /// Depth of the quad, the key of the two depth orders.
    pub depth: i32,
    pub vertex_tl: VertexPositionColorTexture,
    pub vertex_tr: VertexPositionColorTexture,
    pub vertex_bl: VertexPositionColorTexture,
    pub vertex_br: VertexPositionColorTexture,
}

impl SpriteBatchItem {
    /// The item a fresh pool slot holds: no texture, depth zero, blank corners.
    pub open spec fn blank() -> SpriteBatchItem {
        SpriteBatchItem {
            texture: None,
            depth: 0,
            vertex_tl: VertexPositionColorTexture::blank(),
            vertex_tr: VertexPositionColorTexture::blank(),
            vertex_bl: VertexPositionColorTexture::blank(),
            vertex_br: VertexPositionColorTexture::blank(),
        }
    }

    /// This item with its texture cleared, as drawing leaves it.
    pub open spec fn released(self) -> SpriteBatchItem {
        SpriteBatchItem { texture: None, ..self }
    }

    /// The six vertices the quad is staged as: two triangles, top-left,
    /// top-right, bottom-left and top-right, bottom-right, bottom-left.
    pub open spec fn quad(self) -> Seq<VertexPositionColorTexture> {
        seq![
            self.vertex_tl,
            self.vertex_tr,
            self.vertex_bl,
            self.vertex_tr,
            self.vertex_br,
            self.vertex_bl,
        ]
    }

    /// A blank item.
    pub fn new() -> (item: SpriteBatchItem)
        ensures
            item == Self::blank(),
    {
        SpriteBatchItem {
            texture: None,
            depth: 0,
            vertex_tl: VertexPositionColorTexture::new(),
            vertex_tr: VertexPositionColorTexture::new(),
            vertex_bl: VertexPositionColorTexture::new(),
            vertex_br: VertexPositionColorTexture::new(),
        }
    }

    /// Binds or clears the item's texture and leaves the rest as it is.
    pub fn set_texture(&mut self, texture: Option<Texture>)
        ensures
            *final(self) == (SpriteBatchItem { texture, ..*old(self) }),
    {
        self.texture = texture;
    }

    /// Overwrites every field of the item.
    pub fn set(
        &mut self,
        texture: Texture,
        depth: i32,
        vertex_tl: VertexPositionColorTexture,
        vertex_tr: VertexPositionColorTexture,
        vertex_bl: VertexPositionColorTexture,
        vertex_br: VertexPositionColorTexture,
    )
        ensures
            *final(self) == (SpriteBatchItem {
                texture: Some(texture),
                depth,
                vertex_tl,
                vertex_tr,
                vertex_bl,
                vertex_br,
            }),
    {
        self.texture = Some(texture);
        self.depth = depth;
        self.vertex_tl = vertex_tl;
        self.vertex_tr = vertex_tr;
        self.vertex_bl = vertex_bl;
        self.vertex_br = vertex_br;
    }
}

} // verus!
