//! The render state a draw call binds textures into.

use vstd::prelude::*;
use crate::texture::Texture;

verus! {

/// What the device draws with. The batcher touches one thing in it, the bound
/// texture.
#[derive(Clone, Copy, Debug, PartialEq, Eq)]
pub struct RenderState {
    pub texture: Option<Texture>,
}

impl RenderState {
    /// A render state with no texture bound.
    pub fn new() -> (state: RenderState)
        ensures
            state.texture.is_none(),
    {
        RenderState { texture: None }
    }

    /// Binds `texture`, or unbinds the current one when given `None`.
    pub fn set_texture(&mut self, texture: Option<Texture>)
        ensures
            final(self).texture == texture,
    {
        self.texture = texture;
    }

    /// The texture bound at the moment.
    pub fn texture(&self) -> (texture: Option<Texture>)
        ensures
            texture == self.texture,
    {
        self.texture
    }
}

} // verus!
