//! The sprite batcher: item pool, staging buffers and the draw call.

use vstd::prelude::*;
use crate::calls::{
    call_views, calls_of_chunks, chunk_calls, chunk_count, chunk_items, draw_calls,
    lemma_chunk_calls_run, lemma_chunk_count, lemma_chunk_count_bounds, lemma_draw_calls_count,
    staged, DrawCall, DrawCallView,
};
use crate::indices::{
    lemma_quad_indices_prefix, lemma_quad_indices_step, lemma_quad_pattern, quad_indices,
};
use crate::item::SpriteBatchItem;
use crate::render_state::RenderState;
use crate::sort::{lemma_sorted_items, sort_items, sorted_items, SpriteSortMode};
use crate::texture::{same_texture, Texture};
use crate::vertex::VertexPositionColorTexture;

verus! {

/// Items the pool holds when it is created.
pub const INITIAL_BATCH_SIZE: usize = 256;

/// Largest value an index entry can hold.
pub const MAX_INDEX_VALUE: i32 = 2147483647;

/// Batches sprites for drawing.
pub struct SpriteBatcher {
    /// Most items one chunk may take.
    max_batch_size: usize,
    /// The pool of items. Its first `batch_item_count` slots are pending.
    batch_item_list: Vec<SpriteBatchItem>,
    /// Number of pending items; the next free slot of the pool.
    batch_item_count: usize,
    /// Index data. An entry never changes once it is written.
    index: Vec<i32>,
    /// Staging buffer for vertices, as long as the index data.
    vertex_array: Vec<VertexPositionColorTexture>,
}

/// What a batcher holds, as mathematical values.
pub struct SpriteBatcherView {
    /// Every slot of the pool, pending or not.
    pub pool: Seq<SpriteBatchItem>,
    /// How many leading slots of the pool are pending.
    pub pending: nat,
    /// The index data.
    pub index: Seq<i32>,
    /// The vertex staging buffer.
    pub vertices: Seq<VertexPositionColorTexture>,
    /// Most items one chunk may take.
    pub max_batch_size: nat,
}

impl SpriteBatcherView {
    /// Number of quads the staging buffers cover.
    pub open spec fn covered(self) -> nat {
        self.index.len() / 6
    }

    /// The pending items, in the order they were submitted.
    pub open spec fn pending_items(self) -> Seq<SpriteBatchItem> {
        self.pool.subrange(0, self.pending as int)
    }

    /// The invariant of a batcher.
    ///
    /// The pending items are slots of the pool. A full chunk needs no index
    /// beyond the largest an entry can hold, and the buffers never cover more
    /// than a full chunk. The index data is the quad pattern for the quads
    /// covered, and the vertex buffer has one slot for each index entry.
    pub open spec fn wf(self) -> bool {
        &&& self.pending <= self.pool.len()
        &&& 1 <= self.max_batch_size
        &&& 6 * self.max_batch_size <= i32::MAX
        &&& self.covered() <= self.max_batch_size
        &&& self.index == quad_indices(self.covered())
        &&& self.vertices.len() == self.index.len()
    }

    /// A new batcher: a pool of `initial_batch_size` blank items, nothing
    /// pending, and blank staging buffers that cover the pool, or one full
    /// batch where the pool is larger.
    pub open spec fn fresh(initial_batch_size: nat, max_batch_size: nat) -> SpriteBatcherView {
        let covered = if initial_batch_size < max_batch_size {
            initial_batch_size
        } else {
            max_batch_size
        };
        SpriteBatcherView {
            pool: Seq::new(initial_batch_size, |i: int| SpriteBatchItem::blank()),
            pending: 0,
            index: quad_indices(covered),
            vertices: Seq::new(6 * covered, |i: int| VertexPositionColorTexture::blank()),
            max_batch_size,
        }
    }

    /// The buffers after making room for `quads` quads: unchanged where they
    /// already cover as many, else the index data for `quads` quads and the
    /// vertex buffer extended by blank slots to the same length.
    pub open spec fn with_capacity(self, quads: nat) -> SpriteBatcherView {
        if quads <= self.covered() {
            self
        } else {
            SpriteBatcherView {
                index: quad_indices(quads),
                vertices: self.vertices + Seq::new(
                    (6 * quads - self.vertices.len()) as nat,
                    |i: int| VertexPositionColorTexture::blank(),
                ),
                ..self
            }
        }
    }

    /// The batcher after one chunk was staged: the buffers cover the chunk,
    /// and the vertex buffer begins with the chunk's staged vertices.
    pub open spec fn staging(self, chunk: Seq<SpriteBatchItem>) -> SpriteBatcherView {
        let grown = self.with_capacity(chunk.len());
        SpriteBatcherView {
            vertices: staged(chunk) + grown.vertices.subrange(
                6 * chunk.len() as int,
                grown.vertices.len() as int,
            ),
            ..grown
        }
    }

    /// The batcher after the first `chunks` chunks of `items` were staged,
    /// one after the other.
    pub open spec fn staging_chunks(self, items: Seq<SpriteBatchItem>, chunks: nat) -> SpriteBatcherView
        decreases chunks,
    {
        if chunks == 0 {
            self
        } else {
            self.staging_chunks(items, (chunks - 1) as nat).staging(
                chunk_items(items, self.max_batch_size, (chunks - 1) as nat),
            )
        }
    }

    /// The pool with the texture cleared in the slots from `begin` up to
    /// `end`.
    pub open spec fn releasing(self, begin: int, end: int) -> SpriteBatcherView {
        SpriteBatcherView {
            pool: Seq::new(
                self.pool.len(),
                |i: int|
                    if begin <= i < end {
                        self.pool[i].released()
                    } else {
                        self.pool[i]
                    },
            ),
            ..self
        }
    }

    /// The batcher after its pending items were drawn in the order of `mode`:
    /// the items stand sorted in their slots with their textures cleared,
    /// nothing is pending, and the buffers are as staging the chunks one
    /// after the other leaves them.
    pub open spec fn drawn(self, mode: SpriteSortMode) -> SpriteBatcherView {
        let sorted = sorted_items(mode, self.pending_items());
        let staged = self.staging_chunks(sorted, chunk_count(self.pending, self.max_batch_size));
        SpriteBatcherView {
            pool: sorted.map_values(|item: SpriteBatchItem| item.released()) + self.pool.subrange(
                self.pending as int,
                self.pool.len() as int,
            ),
            pending: 0,
            ..staged
        }
    }

    /// Every quad the buffers cover has the index entries of the quad
    /// pattern: quad `i` refers to the corners `4i, 4i+1, 4i+2` and
    /// `4i+1, 4i+3, 4i+2`.
    pub proof fn lemma_index_pattern(self, i: int)
        requires
            self.wf(),
            0 <= i < self.covered(),
        ensures
            self.index[6 * i] == 4 * i,
            self.index[6 * i + 1] == 4 * i + 1,
            self.index[6 * i + 2] == 4 * i + 2,
            self.index[6 * i + 3] == 4 * i + 1,
            self.index[6 * i + 4] == 4 * i + 3,
            self.index[6 * i + 5] == 4 * i + 2,
    {
        lemma_quad_pattern(self.covered(), i);
    }

    /// Making room keeps the invariant, never shrinks a buffer and never
    /// changes an entry that was there: the old buffers are the beginnings of
    /// the new ones.
    pub proof fn lemma_with_capacity(self, quads: nat)
        requires
            self.wf(),
            quads <= self.max_batch_size,
        ensures
            self.with_capacity(quads).wf(),
            self.with_capacity(quads).covered() == (if quads <= self.covered() {
                self.covered()
            } else {
                quads
            }),
            self.with_capacity(quads).index.subrange(0, self.index.len() as int) == self.index,
            self.with_capacity(quads).vertices.subrange(0, self.vertices.len() as int)
                == self.vertices,
    {
        if quads > self.covered() {
            lemma_quad_indices_prefix(self.covered(), quads);
        }
    }

    /// Making room twice is making room once for the larger of the two: what
    /// the buffers hold depends on how many quads they cover, not on the
    /// steps in which they grew. Asking again for as much or less changes
    /// nothing.
    pub proof fn lemma_with_capacity_twice(self, first: nat, second: nat)
        requires
            self.wf(),
            first <= self.max_batch_size,
            second <= self.max_batch_size,
        ensures
            self.with_capacity(first).with_capacity(second) == self.with_capacity(
                if first <= second {
                    second
                } else {
                    first
                },
            ),
            second <= first ==> self.with_capacity(first).with_capacity(second)
                == self.with_capacity(first),
    {
        self.lemma_with_capacity(first);
        let once = self.with_capacity(first);
        let twice = once.with_capacity(second);
        let larger = if first <= second {
            second
        } else {
            first
        };
        assert(twice.vertices =~= self.with_capacity(larger).vertices);
    }

    /// Staging chunks keeps the invariant and the pool, and leaves the
    /// buffers covering the largest chunk staged, or what they covered before
    /// if that was more.
    pub proof fn lemma_staging_chunks(self, items: Seq<SpriteBatchItem>, chunks: nat)
        requires
            self.wf(),
            chunks <= chunk_count(items.len(), self.max_batch_size),
        ensures
            self.staging_chunks(items, chunks).wf(),
            self.staging_chunks(items, chunks).pool == self.pool,
            self.staging_chunks(items, chunks).pending == self.pending,
            self.staging_chunks(items, chunks).max_batch_size == self.max_batch_size,
            self.staging_chunks(items, chunks).index.subrange(0, self.index.len() as int)
                == self.index,
            self.staging_chunks(items, chunks).covered() == (if chunks == 0 {
                self.covered()
            } else if self.covered() >= items.len() || self.covered() >= self.max_batch_size {
                self.covered()
            } else if items.len() <= self.max_batch_size {
                items.len()
            } else {
                self.max_batch_size
            }),
        decreases chunks,
    {
        if chunks > 0 {
            let m = self.max_batch_size;
            let k = (chunks - 1) as nat;
            let cc = chunk_count(items.len(), m);
            self.lemma_staging_chunks(items, k);
            let before = self.staging_chunks(items, k);
            let chunk = chunk_items(items, m, k);
            lemma_chunk_count_bounds(items.len(), m);
            assert(k * m <= (cc - 1) * m) by (nonlinear_arith)
                requires
                    k <= cc - 1,
                    m >= 1,
            ;
            assert(k > 0 ==> k * m >= m) by (nonlinear_arith)
                requires
                    m >= 1,
            ;
            assert(k == 0 ==> k * m == 0);
            before.lemma_with_capacity(chunk.len());
            let after = before.staging(chunk);
            assert(after.index.subrange(0, self.index.len() as int) =~= self.index) by {
                assert(before.index.subrange(0, self.index.len() as int) == self.index);
                assert(before.with_capacity(chunk.len()).index.subrange(
                    0,
                    before.index.len() as int,
                ) == before.index);
            }
        }
    }
}

impl View for SpriteBatcher {
    type V = SpriteBatcherView;

    closed spec fn view(&self) -> SpriteBatcherView {
        SpriteBatcherView {
            pool: self.batch_item_list@,
            pending: self.batch_item_count as nat,
            index: self.index@,
            vertices: self.vertex_array@,
            max_batch_size: self.max_batch_size as nat,
        }
    }
}

impl SpriteBatcher {
    /// Whether the batcher's invariant holds.
    pub open spec fn wf(&self) -> bool {
        self@.wf()
    }

    /// A batcher with a pool of `initial_batch_size` blank items, nothing
    /// pending, a batch limit of `max_batch_size`, and staging buffers that
    /// cover the pool, or one full batch where the pool is larger.
    fn build(initial_batch_size: usize, max_batch_size: usize) -> (batcher: SpriteBatcher)
        requires
            1 <= max_batch_size,
            6 * max_batch_size <= i32::MAX,
        ensures
            batcher.wf(),
            batcher@ == SpriteBatcherView::fresh(initial_batch_size as nat, max_batch_size as nat),
    {
        let mut bil: Vec<SpriteBatchItem> = Vec::new();
        let mut i: usize = 0;
        while i < initial_batch_size
            invariant
                i <= initial_batch_size,
                bil@ == Seq::new(i as nat, |k: int| SpriteBatchItem::blank()),
            decreases initial_batch_size - i,
        {
            bil.push(SpriteBatchItem::new());
            i = i + 1;
        }
        let mut sb = SpriteBatcher {
            max_batch_size,
            batch_item_list: bil,
            batch_item_count: 0,
            index: Vec::new(),
            vertex_array: Vec::new(),
        };
        assert(sb.index@ == quad_indices(0));
        let covered: usize = if initial_batch_size < max_batch_size {
            initial_batch_size
        } else {
            max_batch_size
        };
        sb.ensure_array_capacity(covered);
        assert(sb@.vertices =~= SpriteBatcherView::fresh(
            initial_batch_size as nat,
            max_batch_size as nat,
        ).vertices);
        sb
    }

    /// A batcher with a pool of `INITIAL_BATCH_SIZE` blank items, nothing
    /// pending, staging buffers that cover as many quads, and the batch limit
    /// that `MAX_INDEX_VALUE` allows.
    pub fn new() -> (batcher: SpriteBatcher)
        ensures
            batcher.wf(),
            batcher@ == SpriteBatcherView::fresh(
                INITIAL_BATCH_SIZE as nat,
                (MAX_INDEX_VALUE / 6) as nat,
            ),
            batcher@.pool == Seq::new(INITIAL_BATCH_SIZE as nat, |i: int| SpriteBatchItem::blank()),
            batcher@.pending == 0,
            batcher@.max_batch_size == MAX_INDEX_VALUE / 6,
            batcher@.index == quad_indices(INITIAL_BATCH_SIZE as nat),
            batcher@.vertices.len() == 6 * INITIAL_BATCH_SIZE,
    {
        Self::build(INITIAL_BATCH_SIZE, (MAX_INDEX_VALUE / 6) as usize)
    }

    /// A batcher for a device whose index entries hold values up to
    /// `max_index_value`, with a pool of `initial_batch_size` blank items.
    ///
    /// The batch limit is a sixth of `max_index_value`, rounded down. There
    /// is no batcher where that leaves no room for a single quad.
    pub fn with_limits(initial_batch_size: usize, max_index_value: i32) -> (batcher: Option<
        SpriteBatcher,
    >)
        ensures
            batcher.is_some() <==> max_index_value >= 6,
            batcher.is_some() ==> batcher.unwrap().wf() && batcher.unwrap()@
                == SpriteBatcherView::fresh(
                initial_batch_size as nat,
                (max_index_value / 6) as nat,
            ),
    {
        if max_index_value < 6 {
            return None;
        }
        Some(Self::build(initial_batch_size, (max_index_value / 6) as usize))
    }

    /// Number of pending items.
    pub fn batch_item_count(&self) -> (count: usize)
        ensures
            count == self@.pending,
    {
        self.batch_item_count
    }

    /// Most items one chunk may take.
    pub fn max_batch_size(&self) -> (limit: usize)
        ensures
            limit == self@.max_batch_size,
    {
        self.max_batch_size
    }

    /// The pool, pending slots first.
    pub fn batch_item_list(&self) -> (pool: &Vec<SpriteBatchItem>)
        ensures
            pool@ == self@.pool,
    {
        &self.batch_item_list
    }

    /// The index data.
    pub fn index(&self) -> (index: &Vec<i32>)
        ensures
            index@ == self@.index,
    {
        &self.index
    }

    /// The vertex staging buffer.
    pub fn vertex_array(&self) -> (vertices: &Vec<VertexPositionColorTexture>)
        ensures
            vertices@ == self@.vertices,
    {
        &self.vertex_array
    }

    /// Hands out the next free slot of the pool for the caller to fill, and
    /// counts it as pending.
    ///
    /// The slot is the first one that is not pending. Where every slot is
    /// pending the pool first grows by a blank one. The pool afterwards holds
    /// whatever the caller leaves in the slot.
    pub fn create_batch_item(&mut self) -> (slot: &mut SpriteBatchItem)
        requires
            old(self).wf(),
        ensures
            final(self).wf(),
            *slot == (if old(self)@.pending < old(self)@.pool.len() {
                old(self)@.pool[old(self)@.pending as int]
            } else {
                SpriteBatchItem::blank()
            }),
            final(self)@ == (SpriteBatcherView {
                pool: (if old(self)@.pending < old(self)@.pool.len() {
                    old(self)@.pool
                } else {
                    old(self)@.pool.push(SpriteBatchItem::blank())
                }).update(old(self)@.pending as int, *final(slot)),
                pending: old(self)@.pending + 1,
                ..old(self)@
            }),
    {
        if self.batch_item_count == self.batch_item_list.len() {
            self.batch_item_list.push(SpriteBatchItem::new());
        }
        let slot_index: usize = self.batch_item_count;
        assert(slot_index < self.batch_item_list.len());
        self.batch_item_count = slot_index + 1;
        &mut self.batch_item_list[slot_index]
    }

    /// Grows the staging buffers until they cover `num_batch_items` quads.
    ///
    /// Does nothing where they already do. Otherwise the index entries of the
    /// quads that were covered stay as they are, the entries of the new quads
    /// are appended, and the vertex buffer gets a blank slot for each new
    /// index entry.
    pub fn ensure_array_capacity(&mut self, num_batch_items: usize)
        requires
            old(self).wf(),
            num_batch_items <= old(self)@.max_batch_size,
        ensures
            final(self).wf(),
            final(self)@ == old(self)@.with_capacity(num_batch_items as nat),
            num_batch_items <= old(self)@.covered() ==> *final(self) == *old(self),
            final(self)@.covered() >= num_batch_items,
            final(self)@.covered() >= old(self)@.covered(),
            final(self)@.index.subrange(0, old(self)@.index.len() as int) == old(self)@.index,
            final(self)@.vertices.subrange(0, old(self)@.vertices.len() as int) == old(
                self,
            )@.vertices,
    {
        let needed_capacity: usize = 6 * num_batch_items;
        if needed_capacity <= self.index.len() {
            // Enough capacity already.
            return ;
        }
        let start: usize = self.index.len() / 6;
        let mut i: usize = start;
        while i < num_batch_items
            invariant
                start <= i <= num_batch_items,
                6 * num_batch_items <= i32::MAX,
                self.index@ == quad_indices(i as nat),
                self.vertex_array@ == old(self).vertex_array@ + Seq::new(
                    (6 * i - old(self).vertex_array@.len()) as nat,
                    |k: int| VertexPositionColorTexture::blank(),
                ),
                old(self).vertex_array@.len() == 6 * start,
                self.max_batch_size == old(self).max_batch_size,
                self.batch_item_list == old(self).batch_item_list,
                self.batch_item_count == old(self).batch_item_count,
            decreases num_batch_items - i,
        {
            proof {
                lemma_quad_indices_step(i as nat);
            }
            let base: i32 = (4 * i) as i32;
            // First triangle.
            self.index.push(base);
            self.index.push(base + 1);
            self.index.push(base + 2);
            // Second triangle.
            self.index.push(base + 1);
            self.index.push(base + 3);
            self.index.push(base + 2);
            let mut k: usize = 0;
            while k < 6
                invariant
                    k <= 6,
                    self.vertex_array@ == old(self).vertex_array@ + Seq::new(
                        (6 * i + k - old(self).vertex_array@.len()) as nat,
                        |k: int| VertexPositionColorTexture::blank(),
                    ),
                    old(self).vertex_array@.len() == 6 * start,
                    start <= i,
                    self.index@ == quad_indices((i + 1) as nat),
                    self.max_batch_size == old(self).max_batch_size,
                    self.batch_item_list == old(self).batch_item_list,
                    self.batch_item_count == old(self).batch_item_count,
                decreases 6 - k,
            {
                self.vertex_array.push(VertexPositionColorTexture::new());
                k = k + 1;
            }
            i = i + 1;
        }
        proof {
            lemma_quad_indices_prefix(start as nat, num_batch_items as nat);
        }
    }

    /// Draws the pending items in the order of `sort_mode` and returns them
    /// to the pool.
    ///
    /// With nothing pending this does nothing at all. Otherwise the pending
    /// slots are sorted, taken in chunks of at most the batch limit, staged
    /// and submitted: the result lists the draw calls in the order they were
    /// made, and `render_state` is left with the texture of the last one
    /// bound. Afterwards nothing is pending and every drawn item has its
    /// texture cleared.
    pub fn draw_batch(&mut self, sort_mode: SpriteSortMode, render_state: &mut RenderState) -> (calls:
        Vec<DrawCall>)
        requires
            old(self).wf(),
        ensures
            final(self).wf(),
            call_views(calls@) == draw_calls(
                sorted_items(sort_mode, old(self)@.pending_items()),
                old(self)@.max_batch_size,
            ),
            final(self)@ == old(self)@.drawn(sort_mode),
            final(render_state).texture == (if calls.len() == 0 {
                old(render_state).texture
            } else {
                calls@.last().texture
            }),
            old(self)@.pending == 0 ==> calls.len() == 0 && *final(self) == *old(self)
                && *final(render_state) == *old(render_state),
            chunk_count(old(self)@.pending, old(self)@.max_batch_size) <= calls.len() <= old(
                self,
            )@.pending,
            old(self)@.pending > 0 ==> calls.len() >= 1,
            final(self)@.pending == 0,
            forall|i: int|
                0 <= i < old(self)@.pending ==> (#[trigger] final(self)@.pool[i]).texture.is_none(),
            final(self)@.pool.len() == old(self)@.pool.len(),
            final(self)@.covered() >= old(self)@.covered(),
            final(self)@.covered() >= old(self)@.pending || final(self)@.covered() >= old(
                self,
            )@.max_batch_size,
            final(self)@.index.subrange(0, old(self)@.index.len() as int) == old(self)@.index,
    {
        let mut calls: Vec<DrawCall> = Vec::new();
        let ghost sorted = sorted_items(sort_mode, self@.pending_items());
        let ghost m = self.max_batch_size as nat;
        proof {
            lemma_sorted_items(sort_mode, self@.pending_items());
            lemma_draw_calls_count(sorted, m);
        }
        // Nothing to do.
        if self.batch_item_count == 0 {
            proof {
                lemma_chunk_count(0, m, 0);
                assert(self@.index.subrange(0, self@.index.len() as int) =~= self@.index);
                assert(self@.pool =~= self@.drawn(sort_mode).pool);
            }
            return calls;
        }
        // Sort the batch items.
        let item_count: usize = self.batch_item_count;
        sort_items(&mut self.batch_item_list, item_count, sort_mode);
        let ghost sorted_pool = self@.pool;
        // Work through the items, one chunk of at most the batch limit at a time.
        let mut batch_index: usize = 0;
        let mut batch_count: usize = item_count;
        let ghost chunks: nat = 0;
        assert(call_views(calls@) =~= calls_of_chunks(sorted, m, 0));
        assert(self@.pool =~= self@.releasing(0, 0).pool);
        while batch_count > 0
            invariant
                self.wf(),
                m == old(self)@.max_batch_size,
                m == self@.max_batch_size,
                item_count == old(self)@.pending,
                item_count > 0,
                sorted == sorted_items(sort_mode, old(self)@.pending_items()),
                sorted.len() == item_count,
                sorted_pool == sorted + old(self)@.pool.subrange(
                    item_count as int,
                    old(self)@.pool.len() as int,
                ),
                sorted_pool.len() == old(self)@.pool.len(),
                item_count <= old(self)@.pool.len(),
                batch_index + batch_count == item_count,
                batch_index == (if chunks * m < item_count {
                    chunks * m
                } else {
                    item_count as nat
                }),
                chunks > 0 ==> (chunks - 1) * m < item_count,
                chunks <= calls.len(),
                self@ == (SpriteBatcherView {
                    pool: sorted_pool,
                    ..old(self)@.staging_chunks(sorted, chunks)
                }).releasing(0, batch_index as int),
                call_views(calls@) == calls_of_chunks(sorted, m, chunks),
                calls.len() == 0 ==> *render_state == *old(render_state),
                calls.len() > 0 ==> render_state.texture == calls@.last().texture,
            decreases batch_count,
        {
            let mut num_batches_to_process: usize = batch_count;
            if num_batches_to_process > self.max_batch_size {
                num_batches_to_process = self.max_batch_size;
            }
            let ghost before = self@;
            let ghost chunk = chunk_items(sorted, m, chunks);
            proof {
                assert((chunks + 1) * m == chunks * m + m) by (nonlinear_arith);
                assert(batch_index == chunks * m);
                assert(chunk.len() == num_batches_to_process);
                assert forall|j: int| 0 <= j < chunk.len() implies chunk[j] == before.pool[batch_index
                    + j] by {
                    assert(chunk[j] == sorted[batch_index + j]);
                    assert(sorted_pool[batch_index + j] == sorted[batch_index + j]);
                }
                assert(chunk =~= before.pool.subrange(
                    batch_index as int,
                    batch_index + num_batches_to_process,
                ));
            }
            self.draw_chunk(batch_index, num_batches_to_process, render_state, &mut calls);
            proof {
                let next = (SpriteBatcherView {
                    pool: sorted_pool,
                    ..old(self)@.staging_chunks(sorted, chunks + 1)
                }).releasing(0, batch_index + num_batches_to_process);
                assert(self@.pool =~= next.pool);
                assert(self@ == next);
            }
            // Go on with what is left of a large batch.
            batch_index = batch_index + num_batches_to_process;
            batch_count = batch_count - num_batches_to_process;
            proof {
                chunks = chunks + 1;
            }
        }
        // Return the items to the pool.
        self.batch_item_count = 0;
        proof {
            lemma_chunk_count(item_count as nat, m, chunks);
            old(self)@.lemma_staging_chunks(sorted, chunks);
            assert(self@.pool =~= old(self)@.drawn(sort_mode).pool);
        }
        calls
    }

    /// Stages and submits the `count` pool items from slot `first` on as one
    /// chunk, and clears their textures.
    fn draw_chunk(
        &mut self,
        first: usize,
        count: usize,
        render_state: &mut RenderState,
        calls: &mut Vec<DrawCall>,
    )
        requires
            old(self).wf(),
            1 <= count <= old(self)@.max_batch_size,
            first + count <= old(self)@.pool.len(),
        ensures
            final(self).wf(),
            final(self)@ == old(self)@.staging(
                old(self)@.pool.subrange(first as int, first + count),
            ).releasing(first as int, first + count),
            call_views(final(calls)@) == call_views(old(calls)@) + chunk_calls(
                old(self)@.pool.subrange(first as int, first + count),
            ),
            final(calls).len() > old(calls).len(),
            final(render_state).texture == final(calls)@.last().texture,
    {
        let ghost chunk = self@.pool.subrange(first as int, first + count);
        let mut start_index: usize = 0;
        let mut index: usize = 0;
        let mut tex: Option<Texture> = None;
        self.ensure_array_capacity(count);
        let ghost grown = self@;
        let ghost run_start: int = 0;
        assert(chunk_calls(chunk.subrange(0, 0)) =~= Seq::empty());
        assert(call_views(calls@) =~= call_views(old(calls)@) + chunk_calls(chunk.subrange(0, 0)));
        let mut i: usize = 0;
        while i < count
            invariant
                self.wf(),
                i <= count,
                6 * count <= i32::MAX,
                first + count <= old(self)@.pool.len(),
                chunk == old(self)@.pool.subrange(first as int, first + count),
                grown == old(self)@.with_capacity(count as nat),
                index == 6 * i,
                start_index == 6 * run_start,
                0 <= run_start <= i,
                self@.index == grown.index,
                self@.max_batch_size == grown.max_batch_size,
                self@.pending == grown.pending,
                self@.vertices.len() == grown.vertices.len(),
                grown.vertices.len() >= 6 * count,
                forall|k: int| 0 <= k < 6 * i ==> self@.vertices[k] == staged(chunk)[k],
                forall|k: int| 6 * i <= k < grown.vertices.len() ==> self@.vertices[k]
                    == grown.vertices[k],
                self@.pool.len() == old(self)@.pool.len(),
                first + count <= self.batch_item_list.len(),
                forall|p: int|
                    0 <= p < self@.pool.len() ==> self@.pool[p] == (if first <= p < first + i {
                        old(self)@.pool[p].released()
                    } else {
                        old(self)@.pool[p]
                    }),
                forall|k: int| run_start <= k < i ==> (#[trigger] chunk[k]).texture == tex,
                i == 0 ==> tex.is_none() && calls@ == old(calls)@ && *render_state == *old(
                    render_state,
                ),
                i > 0 ==> run_start < i,
                run_start == 0 || chunk[run_start - 1].texture != chunk[run_start].texture,
                call_views(calls@) == call_views(old(calls)@) + chunk_calls(
                    chunk.subrange(0, run_start),
                ),
                run_start > 0 ==> calls.len() > old(calls).len() && render_state.texture
                    == calls@.last().texture,
                calls.len() >= old(calls).len(),
            decreases count - i,
        {
            let item: SpriteBatchItem = self.batch_item_list[first + i];
            assert(item == chunk[i as int]);
            // A change of texture ends the run staged so far.
            if !same_texture(item.texture, tex) {
                let ghost before = call_views(calls@);
                if let Some(call) = self.flush_vertex_array(start_index, index, tex, render_state) {
                    proof {
                        lemma_chunk_calls_run(chunk, run_start, i as int);
                        assert(self@.vertices.subrange(6 * run_start, 6 * i) =~= staged(
                            chunk,
                        ).subrange(6 * run_start, 6 * i));
                    }
                    calls.push(call);
                    assert(call_views(calls@) =~= before.push(call@));
                    proof {
                        run_start = i as int;
                    }
                }
                tex = item.texture;
                start_index = index;
            }
            // Stage the quad as two triangles.
            self.vertex_array[index] = item.vertex_tl;
            self.vertex_array[index + 1] = item.vertex_tr;
            self.vertex_array[index + 2] = item.vertex_bl;
            self.vertex_array[index + 3] = item.vertex_tr;
            self.vertex_array[index + 4] = item.vertex_br;
            self.vertex_array[index + 5] = item.vertex_bl;
            index = index + 6;
            // Release the texture.
            self.batch_item_list[first + i].set_texture(None);
            proof {
                assert forall|k: int| 0 <= k < 6 * (i + 1) implies self@.vertices[k] == staged(
                    chunk,
                )[k] by {
                    if k >= 6 * i {
                        assert(k / 6 == i as int);
                    }
                }
            }
            i = i + 1;
        }
        proof {
            lemma_chunk_calls_run(chunk, run_start, count as int);
            assert(chunk.subrange(0, count as int) =~= chunk);
            assert(self@.vertices.subrange(6 * run_start, 6 * count) =~= staged(chunk).subrange(
                6 * run_start,
                6 * count,
            ));
        }
        let ghost before = call_views(calls@);
        if let Some(call) = self.flush_vertex_array(start_index, index, tex, render_state) {
            calls.push(call);
            assert(call_views(calls@) =~= before.push(call@));
        }
        proof {
            let expected = old(self)@.staging(chunk).releasing(first as int, first + count);
            assert(self@.pool =~= expected.pool);
            assert(self@.vertices =~= expected.vertices);
        }
    }

    /// Submits the staged vertices from `start` up to `end` with `texture`
    /// bound.
    ///
    /// An empty range submits nothing and leaves the render state alone.
    /// Otherwise `texture` is bound into the render state and the draw call
    /// for the range is returned. No item and no buffer changes.
    pub fn flush_vertex_array(
        &self,
        start: usize,
        end: usize,
        texture: Option<Texture>,
        render_state: &mut RenderState,
    ) -> (call: Option<DrawCall>)
        requires
            start <= end <= self@.vertices.len(),
        ensures
            start == end ==> call.is_none() && *final(render_state) == *old(render_state),
            start < end ==> call.is_some() && call.unwrap()@ == (DrawCallView {
                texture,
                start: start as nat,
                vertices: self@.vertices.subrange(start as int, end as int),
            }) && final(render_state).texture == texture,
    {
        if start == end {
            return None;
        }
        let vertex_count: usize = end - start;
        render_state.set_texture(texture);
        let mut vertices: Vec<VertexPositionColorTexture> = Vec::with_capacity(vertex_count);
        let mut i: usize = start;
        while i < end
            invariant
                start <= i <= end <= self.vertex_array.len(),
                vertices@ == self.vertex_array@.subrange(start as int, i as int),
            decreases end - i,
        {
            vertices.push(self.vertex_array[i]);
            i = i + 1;
        }
        Some(DrawCall { texture, start, vertices })
    }
}

} // verus!
