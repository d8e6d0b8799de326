//! A 2D sprite batcher.
//!
//! Sprites are submitted one by one as textured quads. A draw call puts them
//! in the order the chosen sort mode asks for, stages their vertices and cuts
//! the staged stream into as few device submissions as the order allows: one
//! for each run of sprites that share a texture, never more sprites in one
//! chunk than the index format can address.
//!
//! The batcher does not talk to a device. Drawing returns the list of draw
//! calls it decided on, each with the texture to bind and the vertices to
//! submit, and the caller hands them to whatever rasterizes.

pub mod batcher;
pub mod calls;
pub mod indices;
pub mod item;
pub mod render_state;
pub mod sort;
pub mod texture;
pub mod vertex;

pub use batcher::{SpriteBatcher, SpriteBatcherView, INITIAL_BATCH_SIZE, MAX_INDEX_VALUE};
pub use calls::{DrawCall, DrawCallView};
pub use item::SpriteBatchItem;
pub use render_state::RenderState;
pub use sort::{rank_of, sort_items, SpriteSortMode};
pub use texture::{same_texture, Texture};
pub use vertex::VertexPositionColorTexture;
