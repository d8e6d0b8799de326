//! Draw calls: what one draw of the pending items submits to the device.
//!
//! The items are taken in chunks of at most the batch limit. Each chunk is
//! staged from the start of the vertex buffer, six vertices per item, and
//! submitted as one draw call per run of items that share a texture.

use vstd::prelude::*;
use vstd::arithmetic::div_mod::{
    lemma_fundamental_div_mod, lemma_fundamental_div_mod_converse, lemma_mod_bound,
};
use crate::item::SpriteBatchItem;
use crate::texture::Texture;
use crate::vertex::VertexPositionColorTexture;

verus! {

/// One submission to the device: a range of staged vertices, drawn with one
/// texture bound.
#[derive(Debug, PartialEq, Eq)]
pub struct DrawCall {
    /// The texture bound for the submission.
    pub texture: Option<Texture>,
    /// Where in the staging buffer the submitted range began.
    pub start: usize,
    /// The submitted vertices.
    pub vertices: Vec<VertexPositionColorTexture>,
}

/// A draw call as mathematical values.
pub struct DrawCallView {
    pub texture: Option<Texture>,
    pub start: nat,
    pub vertices: Seq<VertexPositionColorTexture>,
}

impl DrawCallView {
    /// Where in the staging buffer the submitted range ended.
    pub open spec fn end(self) -> nat {
        self.start + self.vertices.len()
    }
}

impl View for DrawCall {
    type V = DrawCallView;

    open spec fn view(&self) -> DrawCallView {
        DrawCallView {
            texture: self.texture,
            start: self.start as nat,
            vertices: self.vertices@,
        }
    }
}

/// The draw calls of a list, each as mathematical values.
pub open spec fn call_views(calls: Seq<DrawCall>) -> Seq<DrawCallView> {
    calls.map_values(|call: DrawCall| call@)
}

/// The vertices staged for a chunk of items: the six vertices of each item's
/// quad, item after item.
pub open spec fn staged(items: Seq<SpriteBatchItem>) -> Seq<VertexPositionColorTexture> {
    Seq::new(6 * items.len(), |k: int| items[k / 6].quad()[k % 6])
}

/// Where the last texture run of a chunk begins: the first position from
/// which on every item has the texture of the last item.
pub open spec fn last_run_start(items: Seq<SpriteBatchItem>) -> int
    decreases items.len(),
{
    if items.len() <= 1 {
        0
    } else if items[items.len() - 2].texture != items[items.len() - 1].texture {
        items.len() - 1
    } else {
        last_run_start(items.drop_last())
    }
}

/// The draw call for the items of a chunk from position `start` on, which
/// share the texture of the chunk's last item.
pub open spec fn run_call(items: Seq<SpriteBatchItem>, start: int) -> DrawCallView {
    DrawCallView {
        texture: items.last().texture,
        start: (6 * start) as nat,
        vertices: staged(items).subrange(6 * start, 6 * items.len() as int),
    }
}

/// The draw calls of one chunk: one for each maximal run of consecutive items
/// with the same texture, in order. They are the calls of the items before
/// the last run, followed by the call of the last run.
pub open spec fn chunk_calls(items: Seq<SpriteBatchItem>) -> Seq<DrawCallView>
    decreases items.len(),
    via chunk_calls_decreases
{
    if items.len() == 0 {
        Seq::empty()
    } else {
        let start = last_run_start(items);
        chunk_calls(items.subrange(0, start)).push(run_call(items, start))
    }
}

#[via_fn]
proof fn chunk_calls_decreases(items: Seq<SpriteBatchItem>) {
    if items.len() > 0 {
        lemma_last_run(items);
    }
}

/// Number of chunks that `items` items are drawn in when a chunk takes at
/// most `max_batch_size`: the quotient, rounded up.
pub open spec fn chunk_count(items: nat, max_batch_size: nat) -> nat {
    ((items + max_batch_size - 1) / (max_batch_size as int)) as nat
}

/// The items of chunk `k`.
pub open spec fn chunk_items(items: Seq<SpriteBatchItem>, max_batch_size: nat, k: nat) -> Seq<
    SpriteBatchItem,
> {
    let begin: int = (k * max_batch_size) as int;
    let end: int = if begin + max_batch_size < items.len() {
        begin + max_batch_size
    } else {
        items.len() as int
    };
    items.subrange(begin, end)
}

/// The draw calls of the first `chunks` chunks, chunk after chunk.
pub open spec fn calls_of_chunks(items: Seq<SpriteBatchItem>, max_batch_size: nat, chunks: nat) -> Seq<
    DrawCallView,
>
    decreases chunks,
{
    if chunks == 0 {
        Seq::empty()
    } else {
        calls_of_chunks(items, max_batch_size, (chunks - 1) as nat) + chunk_calls(
            chunk_items(items, max_batch_size, (chunks - 1) as nat),
        )
    }
}

/// The draw calls that drawing `items` in this order makes.
pub open spec fn draw_calls(items: Seq<SpriteBatchItem>, max_batch_size: nat) -> Seq<DrawCallView> {
    calls_of_chunks(items, max_batch_size, chunk_count(items.len(), max_batch_size))
}

/// The last run of a non-empty chunk begins inside the chunk, at the start
/// of the chunk or behind an item of another texture, and every item from
/// there on has the texture of the last item.
pub proof fn lemma_last_run(items: Seq<SpriteBatchItem>)
    requires
        items.len() > 0,
    ensures
        0 <= last_run_start(items) < items.len(),
        last_run_start(items) == 0 || items[last_run_start(items) - 1].texture
            != items[last_run_start(items)].texture,
        forall|k: int|
            last_run_start(items) <= k < items.len() ==> (#[trigger] items[k]).texture
                == items.last().texture,
    decreases items.len(),
{
    if items.len() <= 1 {
    } else if items[items.len() - 2].texture != items[items.len() - 1].texture {
    } else {
        let shorter = items.drop_last();
        lemma_last_run(shorter);
        assert forall|k: int| last_run_start(items) <= k < items.len() implies (
        #[trigger] items[k]).texture == items.last().texture by {
            if k < items.len() - 1 {
                assert(shorter[k].texture == shorter.last().texture);
            }
        }
    }
}

/// A position at the start of the chunk or behind an item of another
/// texture, from which on every item has the same texture, is where the last
/// run begins.
pub proof fn lemma_last_run_start_is(items: Seq<SpriteBatchItem>, start: int)
    requires
        0 <= start < items.len(),
        start == 0 || items[start - 1].texture != items[start].texture,
        forall|k: int| start <= k < items.len() ==> (#[trigger] items[k]).texture
            == items.last().texture,
    ensures
        last_run_start(items) == start,
    decreases items.len(),
{
    if items.len() <= 1 {
    } else if items[items.len() - 2].texture != items[items.len() - 1].texture {
        if start <= items.len() - 2 {
            assert(items[items.len() - 2].texture == items.last().texture);
        }
    } else {
        let shorter = items.drop_last();
        assert(start < items.len() - 1);
        assert forall|k: int| start <= k < shorter.len() implies (#[trigger] shorter[k]).texture
            == shorter.last().texture by {
            assert(items[k].texture == items.last().texture);
        }
        lemma_last_run_start_is(shorter, start);
    }
}

/// A run of items with one texture that begins at the start of the chunk or
/// behind an item of another texture gives one draw call: the calls of the
/// items up to the end of the run are the calls of the items before the run
/// and then the call that submits the run's vertices.
pub proof fn lemma_chunk_calls_run(items: Seq<SpriteBatchItem>, start: int, end: int)
    requires
        0 <= start < end <= items.len(),
        start == 0 || items[start - 1].texture != items[start].texture,
        forall|k: int| start <= k < end ==> (#[trigger] items[k]).texture == items[start].texture,
    ensures
        chunk_calls(items.subrange(0, end)) == chunk_calls(items.subrange(0, start)).push(
            DrawCallView {
                texture: items[start].texture,
                start: (6 * start) as nat,
                vertices: staged(items).subrange(6 * start, 6 * end),
            },
        ),
{
    let prefix = items.subrange(0, end);
    assert(prefix.last() == items[end - 1]);
    assert forall|k: int| start <= k < prefix.len() implies (#[trigger] prefix[k]).texture
        == prefix.last().texture by {
        assert(items[k].texture == items[start].texture);
        assert(items[end - 1].texture == items[start].texture);
    }
    lemma_last_run_start_is(prefix, start);
    assert(prefix.subrange(0, start) =~= items.subrange(0, start));
    assert(staged(prefix).subrange(6 * start, 6 * end) =~= staged(items).subrange(
        6 * start,
        6 * end,
    ));
    assert(items[end - 1].texture == items[start].texture);
}

/// Items are drawn in as many chunks as it takes to hold them all and in no
/// more: `chunks` is the chunk count exactly when all the items fit into
/// `chunks` chunks but not into one chunk fewer.
pub proof fn lemma_chunk_count(items: nat, max_batch_size: nat, chunks: nat)
    requires
        max_batch_size >= 1,
        items <= chunks * max_batch_size,
        chunks > 0 ==> (chunks - 1) * max_batch_size < items,
    ensures
        chunk_count(items, max_batch_size) == chunks,
{
    let m = max_batch_size as int;
    let k = chunks as int;
    let x = items + m - 1;
    let r = x - k * m;
    assert(r < m);
    assert(0 <= r) by {
        if k > 0 {
            assert((k - 1) * m == k * m - m) by (nonlinear_arith);
        } else {
            assert(k * m == 0);
        }
    }
    lemma_fundamental_div_mod_converse(x, m, k, r);
}

/// The chunk count is the least number of chunks that hold all the items.
pub proof fn lemma_chunk_count_bounds(items: nat, max_batch_size: nat)
    requires
        max_batch_size >= 1,
    ensures
        items <= chunk_count(items, max_batch_size) * max_batch_size,
        chunk_count(items, max_batch_size) > 0 ==> (chunk_count(items, max_batch_size) - 1)
            * max_batch_size < items,
        items == 0 <==> chunk_count(items, max_batch_size) == 0,
{
    let m = max_batch_size as int;
    let x = items + m - 1;
    lemma_fundamental_div_mod(x, m);
    lemma_mod_bound(x, m);
    let q = x / m;
    assert(m * q == q * m) by (nonlinear_arith);
    assert((q - 1) * m == q * m - m) by (nonlinear_arith);
    if q < 0 {
        assert(q * m <= -m) by (nonlinear_arith)
            requires
                q <= -1,
                m >= 1,
        ;
    }
    if items > 0 && q == 0 {
        assert(q * m == 0);
    }
}

/// A chunk whose items all have one texture is submitted in a single call
/// that holds all its staged vertices.
pub proof fn lemma_uniform_chunk(items: Seq<SpriteBatchItem>)
    requires
        items.len() > 0,
        forall|k: int| 0 <= k < items.len() ==> (#[trigger] items[k]).texture == items[0].texture,
    ensures
        chunk_calls(items) == seq![
            DrawCallView { texture: items[0].texture, start: 0, vertices: staged(items) },
        ],
{
    lemma_chunk_calls_run(items, 0, items.len() as int);
    assert(items.subrange(0, items.len() as int) =~= items);
    assert(chunk_calls(items.subrange(0, 0)) =~= Seq::empty());
    assert(staged(items).subrange(0, 6 * items.len() as int) =~= staged(items));
}

/// Items that fit into one chunk are drawn as one chunk.
pub proof fn lemma_single_chunk(items: Seq<SpriteBatchItem>, max_batch_size: nat)
    requires
        0 < items.len() <= max_batch_size,
    ensures
        draw_calls(items, max_batch_size) == chunk_calls(items),
{
    lemma_chunk_count(items.len(), max_batch_size, 1);
    assert(chunk_items(items, max_batch_size, 0) =~= items);
    assert(calls_of_chunks(items, max_batch_size, 0) =~= Seq::empty());
    assert(calls_of_chunks(items, max_batch_size, 1) =~= chunk_calls(items));
}

/// A chunk never takes more calls than it has items, and a chunk that has
/// items takes at least one.
pub proof fn lemma_chunk_calls_count(items: Seq<SpriteBatchItem>)
    ensures
        chunk_calls(items).len() <= items.len(),
        items.len() > 0 ==> chunk_calls(items).len() >= 1,
    decreases items.len(),
{
    if items.len() > 0 {
        lemma_last_run(items);
        lemma_chunk_calls_count(items.subrange(0, last_run_start(items)));
    }
}

/// What call `j` of a chunk submits.
///
/// The call holds the staged vertices of a whole number of items, at least
/// one, all with the texture of the call. The first call begins at the start
/// of the staging buffer, every other call where the call before it ended and
/// with another texture than that one, and the last call ends where the
/// staged vertices end: the calls cut the staged vertices into the maximal
/// runs of one texture.
pub proof fn lemma_chunk_call(items: Seq<SpriteBatchItem>, j: int)
    requires
        0 <= j < chunk_calls(items).len(),
    ensures
        ({
            let calls = chunk_calls(items);
            let call = calls[j];
            &&& call.start % 6 == 0
            &&& call.vertices.len() % 6 == 0
            &&& call.vertices.len() > 0
            &&& call.end() <= 6 * items.len()
            &&& call.vertices == staged(items).subrange(call.start as int, call.end() as int)
            &&& forall|k: int|
                call.start <= 6 * k < call.end() ==> (#[trigger] items[k]).texture == call.texture
            &&& j == 0 ==> call.start == 0
            &&& j > 0 ==> call.start == calls[j - 1].end() && call.texture != calls[j - 1].texture
            &&& j == calls.len() - 1 ==> call.end() == 6 * items.len() && call.texture
                == items.last().texture
        }),
    decreases items.len(),
{
    let calls = chunk_calls(items);
    assert(items.len() > 0);
    lemma_last_run(items);
    let start = last_run_start(items);
    let prefix = items.subrange(0, start);
    let before = chunk_calls(prefix);
    assert(calls == before.push(run_call(items, start)));
    lemma_chunk_calls_count(prefix);
    if j == calls.len() - 1 {
        let call = calls[j];
        assert(call == run_call(items, start));
        if j > 0 {
            lemma_chunk_call(prefix, j - 1);
            assert(prefix.last() == items[start - 1]);
        } else {
            assert(before.len() == 0);
            assert(start == 0);
        }
    } else {
        lemma_chunk_call(prefix, j);
        let call = calls[j];
        assert(call == before[j]);
        assert(staged(prefix).subrange(call.start as int, call.end() as int) =~= staged(items).subrange(
            call.start as int,
            call.end() as int,
        ));
        assert forall|k: int| call.start <= 6 * k < call.end() implies (
        #[trigger] items[k]).texture == call.texture by {
            assert(prefix[k].texture == call.texture);
        }
        if j > 0 {
            assert(calls[j - 1] == before[j - 1]);
        }
    }
}

/// The number of draw calls that the first `chunks` chunks take: at least
/// one for each chunk, at most one for each of their items.
proof fn lemma_calls_of_chunks_count(items: Seq<SpriteBatchItem>, max_batch_size: nat, chunks: nat)
    requires
        max_batch_size >= 1,
        chunks <= chunk_count(items.len(), max_batch_size),
    ensures
        chunks <= calls_of_chunks(items, max_batch_size, chunks).len() <= items.len(),
        calls_of_chunks(items, max_batch_size, chunks).len() <= chunks * max_batch_size,
    decreases chunks,
{
    if chunks > 0 {
        let m = max_batch_size as int;
        let k = chunks - 1;
        let cc = chunk_count(items.len(), max_batch_size) as int;
        lemma_calls_of_chunks_count(items, max_batch_size, k as nat);
        lemma_chunk_count_bounds(items.len(), max_batch_size);
        assert(k * m <= (cc - 1) * m) by (nonlinear_arith)
            requires
                k <= cc - 1,
                m >= 1,
        ;
        assert((k + 1) * m == k * m + m) by (nonlinear_arith);
        let chunk = chunk_items(items, max_batch_size, k as nat);
        lemma_chunk_calls_count(chunk);
    }
}

/// Drawing takes at least one call for each chunk and at most one call for
/// each item.
pub proof fn lemma_draw_calls_count(items: Seq<SpriteBatchItem>, max_batch_size: nat)
    requires
        max_batch_size >= 1,
    ensures
        chunk_count(items.len(), max_batch_size) <= draw_calls(items, max_batch_size).len()
            <= items.len(),
{
    lemma_calls_of_chunks_count(
        items,
        max_batch_size,
        chunk_count(items.len(), max_batch_size),
    );
}

} // verus!
