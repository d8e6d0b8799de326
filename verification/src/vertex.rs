//! The vertex format staged for the device.

use vstd::prelude::*;

verus! {

/// A vertex with a position, a colour and a texture coordinate.
///
/// Vertices arrive already transformed. Positions and texture coordinates are
/// in whole device units, the colour is packed RGBA. The batcher copies
/// vertices and never interprets them.
#[derive(Clone, Copy, Debug, PartialEq, Eq)]
pub struct VertexPositionColorTexture {
    pub position: (i32, i32),
    pub color: u32,
    pub texture_coordinate: (i32, i32),
}

impl VertexPositionColorTexture {
    /// The value a vertex slot holds before anything is written to it.
    pub open spec fn blank() -> VertexPositionColorTexture {
        VertexPositionColorTexture { position: (0, 0), color: 0, texture_coordinate: (0, 0) }
    }

    /// A blank vertex: origin, colour zero, texture coordinate zero.
    pub fn new() -> (vertex: VertexPositionColorTexture)
        ensures
            vertex == Self::blank(),
    {
        VertexPositionColorTexture { position: (0, 0), color: 0, texture_coordinate: (0, 0) }
    }

    /// A vertex with the given components.
    pub fn with(position: (i32, i32), color: u32, texture_coordinate: (i32, i32)) -> (vertex:
        VertexPositionColorTexture)
        ensures
            vertex == (VertexPositionColorTexture { position, color, texture_coordinate }),
    {
        VertexPositionColorTexture { position, color, texture_coordinate }
    }
}

} // verus!
