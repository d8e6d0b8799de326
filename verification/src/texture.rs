//! Texture handles.
//!
//! The batcher never looks inside a texture. It only needs to know whether two
//! sprites use the same one, so a texture is represented by an opaque handle
//! whose equality is the identity of the resource it names.

use vstd::prelude::*;

verus! {

/// Handle of a texture resource. Two handles are equal exactly when they name
/// the same resource.
#[derive(Clone, Copy, Debug, PartialEq, Eq, Structural)]
pub struct Texture {
    pub id: u64,
}

impl Texture {
    /// The handle with the given identity.
    pub fn new(id: u64) -> (texture: Texture)
        ensures
            texture.id == id,
    {
        Texture { id }
    }

    /// The identity this handle carries.
    pub fn id(&self) -> (id: u64)
        ensures
            id == self.id,
    {
        self.id
    }
}

/// Whether two optional bindings name the same texture. `None`, the unbound
/// sentinel, is the same as itself and differs from every texture.
pub fn same_texture(a: Option<Texture>, b: Option<Texture>) -> (same: bool)
    ensures
        same == (a == b),
{
    match a {
        None => b.is_none(),
        Some(x) => match b {
            None => false,
            Some(y) => x.id == y.id,
        },
    }
}

} // verus!
