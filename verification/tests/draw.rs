use spritebatcher::{
    DrawCall, RenderState, SpriteBatchItem, SpriteBatcher, SpriteSortMode, Texture,
    VertexPositionColorTexture,
};

const A: Texture = Texture { id: 10 };
const B: Texture = Texture { id: 20 };

fn corner(tag: i32, x: i32, y: i32) -> VertexPositionColorTexture {
    VertexPositionColorTexture::with((x, y), tag as u32, (x, y))
}

/// Submits a unit quad whose corners all carry `tag` as their colour.
fn submit(batcher: &mut SpriteBatcher, texture: Texture, depth: i32, tag: i32) {
    let slot = batcher.create_batch_item();
    slot.set(
        texture,
        depth,
        corner(tag, 0, 0),
        corner(tag, 1, 0),
        corner(tag, 0, 1),
        corner(tag, 1, 1),
    );
}

fn quad(tag: i32) -> Vec<VertexPositionColorTexture> {
    vec![
        corner(tag, 0, 0),
        corner(tag, 1, 0),
        corner(tag, 0, 1),
        corner(tag, 1, 0),
        corner(tag, 1, 1),
        corner(tag, 0, 1),
    ]
}

fn quads(tags: &[i32]) -> Vec<VertexPositionColorTexture> {
    let mut all = Vec::new();
    for tag in tags {
        all.extend(quad(*tag));
    }
    all
}

fn tags_of(call: &DrawCall) -> Vec<u32> {
    call.vertices.iter().step_by(6).map(|v| v.color).collect()
}

#[test]
fn deferred_flushes_once_per_texture_run() {
    let mut batcher = SpriteBatcher::new();
    let mut state = RenderState::new();
    submit(&mut batcher, A, 0, 1);
    submit(&mut batcher, A, 0, 2);
    submit(&mut batcher, B, 0, 3);
    submit(&mut batcher, B, 0, 4);
    submit(&mut batcher, A, 0, 5);
    let calls = batcher.draw_batch(SpriteSortMode::Deferred, &mut state);
    assert_eq!(calls.len(), 3);
    assert_eq!(calls[0].texture, Some(A));
    assert_eq!(calls[0].start, 0);
    assert_eq!(calls[0].vertices, quads(&[1, 2]));
    assert_eq!(calls[1].texture, Some(B));
    assert_eq!(calls[1].start, 12);
    assert_eq!(calls[1].vertices, quads(&[3, 4]));
    assert_eq!(calls[2].texture, Some(A));
    assert_eq!(calls[2].start, 24);
    assert_eq!(calls[2].vertices, quads(&[5]));
    assert_eq!(state.texture(), Some(A));
}

#[test]
fn staged_vertices_follow_the_two_triangle_layout() {
    let mut batcher = SpriteBatcher::new();
    let mut state = RenderState::new();
    let tl = VertexPositionColorTexture::with((3, 4), 0xff0000ff, (0, 0));
    let tr = VertexPositionColorTexture::with((13, 4), 0x00ff00ff, (16, 0));
    let bl = VertexPositionColorTexture::with((3, 24), 0x0000ffff, (0, 32));
    let br = VertexPositionColorTexture::with((13, 24), 0xffffffff, (16, 32));
    batcher.create_batch_item().set(A, 7, tl, tr, bl, br);
    let calls = batcher.draw_batch(SpriteSortMode::Deferred, &mut state);
    assert_eq!(calls.len(), 1);
    assert_eq!(calls[0].vertices, vec![tl, tr, bl, tr, br, bl]);
    assert_eq!(&batcher.vertex_array()[0..6], &[tl, tr, bl, tr, br, bl]);
}

#[test]
fn drawing_nothing_changes_nothing() {
    let mut batcher = SpriteBatcher::new();
    let mut state = RenderState::new();
    state.set_texture(Some(B));
    let pool_before = batcher.batch_item_list().clone();
    let index_before = batcher.index().clone();
    let vertices_before = batcher.vertex_array().clone();
    let calls = batcher.draw_batch(SpriteSortMode::Texture, &mut state);
    assert!(calls.is_empty());
    assert_eq!(batcher.batch_item_count(), 0);
    assert_eq!(batcher.batch_item_list(), &pool_before);
    assert_eq!(batcher.index(), &index_before);
    assert_eq!(batcher.vertex_array(), &vertices_before);
    assert_eq!(state.texture(), Some(B));
}

#[test]
fn drawing_returns_every_item_to_the_pool() {
    let mut batcher = SpriteBatcher::new();
    let mut state = RenderState::new();
    for i in 0..7 {
        submit(&mut batcher, if i % 2 == 0 { A } else { B }, i, i);
    }
    assert_eq!(batcher.batch_item_count(), 7);
    batcher.draw_batch(SpriteSortMode::BackToFront, &mut state);
    assert_eq!(batcher.batch_item_count(), 0);
    for i in 0..7 {
        assert_eq!(batcher.batch_item_list()[i].texture, None);
    }
    // The pool is reused from its first slot.
    submit(&mut batcher, B, 0, 99);
    assert_eq!(batcher.batch_item_count(), 1);
    assert_eq!(batcher.batch_item_list()[0].texture, Some(B));
    let calls = batcher.draw_batch(SpriteSortMode::Deferred, &mut state);
    assert_eq!(calls.len(), 1);
    assert_eq!(tags_of(&calls[0]), vec![99]);
}

#[test]
fn texture_mode_groups_textures_and_keeps_submission_order() {
    let mut batcher = SpriteBatcher::new();
    let mut state = RenderState::new();
    submit(&mut batcher, B, 0, 1);
    submit(&mut batcher, A, 0, 2);
    submit(&mut batcher, A, 0, 3);
    submit(&mut batcher, B, 0, 4);
    let calls = batcher.draw_batch(SpriteSortMode::Texture, &mut state);
    assert_eq!(calls.len(), 2);
    assert_eq!(calls[0].texture, Some(A));
    assert_eq!(calls[0].start, 0);
    assert_eq!(tags_of(&calls[0]), vec![2, 3]);
    assert_eq!(calls[1].texture, Some(B));
    assert_eq!(calls[1].start, 12);
    assert_eq!(tags_of(&calls[1]), vec![1, 4]);
    // The pending slots themselves were sorted.
    let colors: Vec<u32> =
        batcher.batch_item_list()[0..4].iter().map(|item| item.vertex_tl.color).collect();
    assert_eq!(colors, vec![2, 3, 1, 4]);
}

#[test]
fn deferred_does_not_group_textures() {
    let mut batcher = SpriteBatcher::new();
    let mut state = RenderState::new();
    submit(&mut batcher, B, 5, 1);
    submit(&mut batcher, A, 1, 2);
    submit(&mut batcher, A, 9, 3);
    submit(&mut batcher, B, 0, 4);
    let calls = batcher.draw_batch(SpriteSortMode::Deferred, &mut state);
    assert_eq!(calls.len(), 3);
    assert_eq!(tags_of(&calls[0]), vec![1]);
    assert_eq!(tags_of(&calls[1]), vec![2, 3]);
    assert_eq!(tags_of(&calls[2]), vec![4]);
}

#[test]
fn front_to_back_draws_by_ascending_depth() {
    let mut batcher = SpriteBatcher::new();
    let mut state = RenderState::new();
    submit(&mut batcher, A, 5, 1);
    submit(&mut batcher, A, -2, 2);
    submit(&mut batcher, A, 5, 3);
    submit(&mut batcher, A, 0, 4);
    submit(&mut batcher, A, -2, 5);
    let calls = batcher.draw_batch(SpriteSortMode::FrontToBack, &mut state);
    assert_eq!(calls.len(), 1);
    assert_eq!(tags_of(&calls[0]), vec![2, 5, 4, 1, 3]);
}

#[test]
fn back_to_front_draws_by_descending_depth() {
    let mut batcher = SpriteBatcher::new();
    let mut state = RenderState::new();
    submit(&mut batcher, A, 5, 1);
    submit(&mut batcher, A, -2, 2);
    submit(&mut batcher, A, 5, 3);
    submit(&mut batcher, A, 0, 4);
    submit(&mut batcher, A, -2, 5);
    submit(&mut batcher, A, i32::MIN, 6);
    submit(&mut batcher, A, i32::MAX, 7);
    let calls = batcher.draw_batch(SpriteSortMode::BackToFront, &mut state);
    assert_eq!(calls.len(), 1);
    assert_eq!(tags_of(&calls[0]), vec![7, 1, 3, 4, 2, 5, 6]);
}

#[test]
fn depth_order_can_split_a_texture_into_several_calls() {
    let mut batcher = SpriteBatcher::new();
    let mut state = RenderState::new();
    submit(&mut batcher, A, 3, 1);
    submit(&mut batcher, B, 2, 2);
    submit(&mut batcher, A, 1, 3);
    let calls = batcher.draw_batch(SpriteSortMode::FrontToBack, &mut state);
    assert_eq!(calls.len(), 3);
    assert_eq!(calls[0].texture, Some(A));
    assert_eq!(tags_of(&calls[0]), vec![3]);
    assert_eq!(calls[1].texture, Some(B));
    assert_eq!(tags_of(&calls[1]), vec![2]);
    assert_eq!(calls[2].texture, Some(A));
    assert_eq!(tags_of(&calls[2]), vec![1]);
    assert_eq!(calls[2].start, 12);
}

#[test]
fn three_hundred_items_of_one_texture_make_one_call() {
    let mut batcher = SpriteBatcher::new();
    let mut state = RenderState::new();
    assert_eq!(batcher.index().len(), 6 * 256);
    for i in 0..300 {
        submit(&mut batcher, A, 0, i);
    }
    assert_eq!(batcher.batch_item_count(), 300);
    assert!(batcher.batch_item_list().len() >= 300);
    let calls = batcher.draw_batch(SpriteSortMode::Deferred, &mut state);
    assert_eq!(calls.len(), 1);
    assert_eq!(calls[0].texture, Some(A));
    assert_eq!(calls[0].start, 0);
    assert_eq!(calls[0].vertices.len(), 6 * 300);
    assert_eq!(tags_of(&calls[0]), (0..300).collect::<Vec<u32>>());
    assert!(batcher.index().len() >= 6 * 300);
    assert!(batcher.vertex_array().len() >= 6 * 300);
    assert_eq!(batcher.index().len(), 1800);
    assert_eq!(batcher.vertex_array().len(), 1800);
    assert_eq!(batcher.batch_item_count(), 0);
}

#[test]
fn one_item_makes_one_call() {
    let mut batcher = SpriteBatcher::new();
    let mut state = RenderState::new();
    submit(&mut batcher, B, 0, 1);
    for mode in [
        SpriteSortMode::Deferred,
        SpriteSortMode::Texture,
        SpriteSortMode::FrontToBack,
        SpriteSortMode::BackToFront,
    ] {
        let calls = batcher.draw_batch(mode, &mut state);
        assert_eq!(calls.len(), 1);
        assert_eq!(calls[0].texture, Some(B));
        assert_eq!(calls[0].vertices, quad(1));
        submit(&mut batcher, B, 0, 1);
    }
}

#[test]
fn items_are_drawn_in_chunks_of_the_batch_limit() {
    // Index entries up to 12 leave room for two quads in a chunk.
    let mut batcher = SpriteBatcher::with_limits(4, 12).unwrap();
    let mut state = RenderState::new();
    assert_eq!(batcher.max_batch_size(), 2);
    for i in 0..5 {
        submit(&mut batcher, A, 0, i);
    }
    let calls = batcher.draw_batch(SpriteSortMode::Deferred, &mut state);
    // Five items in chunks of two: three chunks, each flushed on its own
    // although the texture never changes.
    assert_eq!(calls.len(), 3);
    assert_eq!(tags_of(&calls[0]), vec![0, 1]);
    assert_eq!(tags_of(&calls[1]), vec![2, 3]);
    assert_eq!(tags_of(&calls[2]), vec![4]);
    for call in &calls {
        assert_eq!(call.texture, Some(A));
        assert_eq!(call.start, 0);
    }
    // The buffers never grew beyond one chunk.
    assert_eq!(batcher.index().len(), 12);
    assert_eq!(batcher.vertex_array().len(), 12);
    // The last chunk overwrote the start of the buffer, the rest is what the
    // chunk before left there.
    assert_eq!(batcher.vertex_array(), &quads(&[4, 3]));
}

#[test]
fn chunk_count_is_the_item_count_over_the_limit_rounded_up() {
    for (items, limit, chunks) in
        [(1usize, 1usize, 1usize), (6, 3, 2), (7, 3, 3), (9, 3, 3), (10, 3, 4), (2, 5, 1), (5, 5, 1)]
    {
        let mut batcher = SpriteBatcher::with_limits(0, (6 * limit) as i32).unwrap();
        let mut state = RenderState::new();
        assert_eq!(batcher.max_batch_size(), limit);
        for i in 0..items {
            submit(&mut batcher, A, 0, i as i32);
        }
        let calls = batcher.draw_batch(SpriteSortMode::Texture, &mut state);
        assert_eq!(calls.len(), chunks);
        let drawn: usize = calls.iter().map(|call| call.vertices.len()).sum();
        assert_eq!(drawn, 6 * items);
    }
}

#[test]
fn texture_runs_are_cut_at_chunk_boundaries() {
    let mut batcher = SpriteBatcher::with_limits(8, 18).unwrap();
    let mut state = RenderState::new();
    assert_eq!(batcher.max_batch_size(), 3);
    // Chunks: [A A B] [B B A] [A]
    for (i, texture) in [A, A, B, B, B, A, A].into_iter().enumerate() {
        submit(&mut batcher, texture, 0, i as i32);
    }
    let calls = batcher.draw_batch(SpriteSortMode::Deferred, &mut state);
    let seen: Vec<(Option<Texture>, usize, Vec<u32>)> =
        calls.iter().map(|call| (call.texture, call.start, tags_of(call))).collect();
    assert_eq!(
        seen,
        vec![
            (Some(A), 0, vec![0, 1]),
            (Some(B), 12, vec![2]),
            (Some(B), 0, vec![3, 4]),
            (Some(A), 12, vec![5]),
            (Some(A), 0, vec![6]),
        ]
    );
}

#[test]
fn items_without_a_texture_are_drawn_unbound() {
    let mut batcher = SpriteBatcher::new();
    let mut state = RenderState::new();
    state.set_texture(Some(A));
    {
        let slot = batcher.create_batch_item();
        slot.set(A, 0, corner(1, 0, 0), corner(1, 1, 0), corner(1, 0, 1), corner(1, 1, 1));
        slot.set_texture(None);
    }
    submit(&mut batcher, A, 0, 2);
    {
        let slot = batcher.create_batch_item();
        slot.set(A, 0, corner(3, 0, 0), corner(3, 1, 0), corner(3, 0, 1), corner(3, 1, 1));
        slot.set_texture(None);
    }
    let calls = batcher.draw_batch(SpriteSortMode::Texture, &mut state);
    assert_eq!(calls.len(), 2);
    assert_eq!(calls[0].texture, None);
    assert_eq!(tags_of(&calls[0]), vec![1, 3]);
    assert_eq!(calls[1].texture, Some(A));
    assert_eq!(tags_of(&calls[1]), vec![2]);
    assert_eq!(state.texture(), Some(A));
}

#[test]
fn slots_beyond_the_pending_ones_are_left_alone() {
    let mut batcher = SpriteBatcher::new();
    let mut state = RenderState::new();
    submit(&mut batcher, B, 9, 1);
    submit(&mut batcher, A, 8, 2);
    submit(&mut batcher, A, 7, 3);
    batcher.draw_batch(SpriteSortMode::Deferred, &mut state);
    // Slots 1 and 2 now hold stale items with low depths.
    submit(&mut batcher, B, 100, 4);
    let stale: Vec<SpriteBatchItem> = batcher.batch_item_list()[1..].to_vec();
    let calls = batcher.draw_batch(SpriteSortMode::FrontToBack, &mut state);
    assert_eq!(calls.len(), 1);
    assert_eq!(tags_of(&calls[0]), vec![4]);
    assert_eq!(&batcher.batch_item_list()[1..], &stale[..]);
}

#[test]
fn render_state_ends_with_the_last_texture_bound() {
    let mut batcher = SpriteBatcher::new();
    let mut state = RenderState::new();
    submit(&mut batcher, A, 0, 1);
    submit(&mut batcher, B, 0, 2);
    let calls = batcher.draw_batch(SpriteSortMode::Deferred, &mut state);
    assert_eq!(calls.len(), 2);
    assert_eq!(state.texture(), Some(B));
}
