//! The index pattern of a quad.
//!
//! A quad has four corners, numbered in the order top-left, top-right,
//! bottom-left, bottom-right, and is drawn as two triangles that share the
//! diagonal from top-right to bottom-left:
//!
//! ```text
//!   0----1
//!   |   /|
//!   |  / |
//!   | /  |
//!   |/   |
//!   2----3
//! ```
//!
//! Quad `i` owns the vertex offsets `4i .. 4i + 3` and the six index entries
//! `6i .. 6i + 5`.

use vstd::prelude::*;

verus! {

/// The corner that entry `k` of a quad's six index entries refers to.
pub open spec fn corner_offset(k: int) -> int {
    if k == 0 {
        0
    } else if k == 1 {
        1
    } else if k == 2 {
        2
    } else if k == 3 {
        1
    } else if k == 4 {
        3
    } else {
        2
    }
}

/// The vertex offset that stands at position `k` of the index data.
pub open spec fn index_value(k: int) -> int {
    4 * (k / 6) + corner_offset(k % 6)
}

/// The index data that covers `quads` quads.
pub open spec fn quad_indices(quads: nat) -> Seq<i32> {
    Seq::new(6 * quads, |k: int| index_value(k) as i32)
}

/// The six index entries of quad `i` are `4i, 4i+1, 4i+2, 4i+1, 4i+3, 4i+2`,
/// whatever number of quads the data covers.
pub proof fn lemma_quad_pattern(quads: nat, i: int)
    requires
        0 <= i < quads,
        6 * quads <= i32::MAX,
    ensures
        quad_indices(quads)[6 * i] == 4 * i,
        quad_indices(quads)[6 * i + 1] == 4 * i + 1,
        quad_indices(quads)[6 * i + 2] == 4 * i + 2,
        quad_indices(quads)[6 * i + 3] == 4 * i + 1,
        quad_indices(quads)[6 * i + 4] == 4 * i + 3,
        quad_indices(quads)[6 * i + 5] == 4 * i + 2,
{
}

/// Index data for more quads begins with the index data for fewer: growing
/// never changes an entry that was already there.
pub proof fn lemma_quad_indices_prefix(fewer: nat, more: nat)
    requires
        fewer <= more,
    ensures
        quad_indices(more).subrange(0, 6 * fewer as int) == quad_indices(fewer),
{
}

/// Appending the six entries of quad `quads` to the data for `quads` quads
/// gives the data for one quad more.
pub proof fn lemma_quad_indices_step(quads: nat)
    requires
        6 * (quads + 1) <= i32::MAX,
    ensures
        quad_indices(quads + 1) == quad_indices(quads)
            .push((4 * quads) as i32)
            .push((4 * quads + 1) as i32)
            .push((4 * quads + 2) as i32)
            .push((4 * quads + 1) as i32)
            .push((4 * quads + 3) as i32)
            .push((4 * quads + 2) as i32),
{
    let grown = quad_indices(quads)
        .push((4 * quads) as i32)
        .push((4 * quads + 1) as i32)
        .push((4 * quads + 2) as i32)
        .push((4 * quads + 1) as i32)
        .push((4 * quads + 3) as i32)
        .push((4 * quads + 2) as i32);
    assert(grown.len() == 6 * (quads + 1));
    assert forall|k: int| 0 <= k < grown.len() implies grown[k] == quad_indices(quads + 1)[k] by {
        if k >= 6 * quads {
            assert(k / 6 == quads);
        }
    }
    assert(grown =~= quad_indices(quads + 1));
}

} // verus!
