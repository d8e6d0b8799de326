use spritebatcher::{
    rank_of, sort_items, SpriteBatchItem, SpriteSortMode, Texture, VertexPositionColorTexture,
};

fn item(texture: Option<u64>, depth: i32, tag: u32) -> SpriteBatchItem {
    let mut item = SpriteBatchItem::new();
    item.texture = texture.map(Texture::new);
    item.depth = depth;
    item.vertex_tl = VertexPositionColorTexture::with((0, 0), tag, (0, 0));
    item
}

fn tags(items: &[SpriteBatchItem]) -> Vec<u32> {
    items.iter().map(|item| item.vertex_tl.color).collect()
}

#[test]
fn ranks_by_mode() {
    let it = item(Some(5), -3, 0);
    assert_eq!(rank_of(SpriteSortMode::Deferred, &it), 0);
    assert_eq!(rank_of(SpriteSortMode::Texture, &it), 5);
    assert_eq!(rank_of(SpriteSortMode::FrontToBack, &it), -3);
    assert_eq!(rank_of(SpriteSortMode::BackToFront, &it), 3);
    let none = item(None, i32::MIN, 0);
    assert_eq!(rank_of(SpriteSortMode::Deferred, &none), 0);
    assert_eq!(rank_of(SpriteSortMode::Texture, &none), -1);
    assert_eq!(rank_of(SpriteSortMode::FrontToBack, &none), -2147483648);
    assert_eq!(rank_of(SpriteSortMode::BackToFront, &none), 2147483648);
    let big = item(Some(u64::MAX), 0, 0);
    assert_eq!(rank_of(SpriteSortMode::Texture, &big), 18446744073709551615);
}

#[test]
fn texture_sort_is_stable() {
    let mut items =
        vec![item(Some(2), 0, 1), item(Some(1), 0, 2), item(Some(1), 0, 3), item(Some(2), 0, 4)];
    sort_items(&mut items, 4, SpriteSortMode::Texture);
    assert_eq!(tags(&items), vec![2, 3, 1, 4]);
}

#[test]
fn deferred_sort_keeps_the_order() {
    let mut items =
        vec![item(Some(2), 9, 1), item(Some(1), 3, 2), item(None, 7, 3), item(Some(2), 1, 4)];
    let before = items.clone();
    sort_items(&mut items, 4, SpriteSortMode::Deferred);
    assert_eq!(items, before);
}

#[test]
fn sort_touches_only_the_leading_items() {
    let mut items = vec![
        item(Some(3), 3, 1),
        item(Some(2), 2, 2),
        item(Some(1), 1, 3),
        item(Some(0), 0, 4),
        item(None, -1, 5),
    ];
    sort_items(&mut items, 3, SpriteSortMode::FrontToBack);
    assert_eq!(tags(&items), vec![3, 2, 1, 4, 5]);
    sort_items(&mut items, 0, SpriteSortMode::Texture);
    assert_eq!(tags(&items), vec![3, 2, 1, 4, 5]);
    sort_items(&mut items, 1, SpriteSortMode::Texture);
    assert_eq!(tags(&items), vec![3, 2, 1, 4, 5]);
    sort_items(&mut items, 5, SpriteSortMode::Texture);
    assert_eq!(tags(&items), vec![5, 4, 3, 2, 1]);
}

#[test]
fn depth_sorts_are_stable_in_both_directions() {
    let make = || {
        vec![
            item(Some(1), 2, 1),
            item(Some(1), 1, 2),
            item(Some(1), 2, 3),
            item(Some(1), 1, 4),
            item(Some(1), 3, 5),
            item(Some(1), 1, 6),
        ]
    };
    let mut items = make();
    sort_items(&mut items, 6, SpriteSortMode::FrontToBack);
    assert_eq!(tags(&items), vec![2, 4, 6, 1, 3, 5]);
    let mut items = make();
    sort_items(&mut items, 6, SpriteSortMode::BackToFront);
    assert_eq!(tags(&items), vec![5, 1, 3, 2, 4, 6]);
}

#[test]
fn sorting_agrees_with_a_stable_sort_by_rank() {
    // A fixed pseudo-random sequence of textures and depths.
    let mut seed: u64 = 0x2545f4914f6cdd1d;
    let mut items = Vec::new();
    for tag in 0..500u32 {
        seed ^= seed << 13;
        seed ^= seed >> 7;
        seed ^= seed << 17;
        let texture = if seed % 11 == 0 { None } else { Some(seed % 7) };
        let depth = ((seed >> 20) % 9) as i32 - 4;
        items.push(item(texture, depth, tag));
    }
    for mode in [
        SpriteSortMode::Deferred,
        SpriteSortMode::Texture,
        SpriteSortMode::FrontToBack,
        SpriteSortMode::BackToFront,
    ] {
        let mut expected = items.clone();
        expected[..400].sort_by_key(|item| rank_of(mode, item));
        let mut sorted = items.clone();
        sort_items(&mut sorted, 400, mode);
        assert_eq!(sorted, expected);
    }
}
