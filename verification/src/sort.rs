//! Sort modes and the stable order they put pending items in.
//!
//! Every mode gives an item a rank. Items are drawn in ascending rank, and
//! items of equal rank in the order they were submitted. There is exactly one
//! such arrangement of any sequence of items.

use vstd::prelude::*;
use vstd::set_lib::{lemma_int_range, lemma_len_subset, lemma_subset_equality, set_int_range};
use crate::item::SpriteBatchItem;

verus! {

/// The order in which pending items are drawn.
#[derive(Clone, Copy, Debug, PartialEq, Eq, Structural)]
pub enum SpriteSortMode {
    /// In the order of submission.
    Deferred,
    /// Grouped by texture, to bind each texture as seldom as possible.
    Texture,
    /// By ascending depth.
    FrontToBack,
    /// By descending depth.
    BackToFront,
}

/// The rank `mode` gives `item`. Lower ranks are drawn first.
///
/// `Deferred` ranks all items alike. `Texture` ranks by the identity of the
/// texture, items without one first. The depth modes rank by depth and by its
/// negation.
pub open spec fn sort_rank(mode: SpriteSortMode, item: SpriteBatchItem) -> int {
    match mode {
        SpriteSortMode::Deferred => 0,
        SpriteSortMode::Texture => match item.texture {
            None => -1,
            Some(texture) => texture.id as int,
        },
        SpriteSortMode::FrontToBack => item.depth as int,
        SpriteSortMode::BackToFront => -(item.depth as int),
    }
}

/// The ranks of a sequence of items, position by position.
pub open spec fn ranks(mode: SpriteSortMode, items: Seq<SpriteBatchItem>) -> Seq<int> {
    items.map_values(|item: SpriteBatchItem| sort_rank(mode, item))
}

/// Whether the item at position `a` is drawn before the one at position `b`:
/// its rank is lower, or the ranks are equal and it was submitted earlier.
pub open spec fn comes_before(ranks: Seq<int>, a: int, b: int) -> bool {
    ranks[a] < ranks[b] || (ranks[a] == ranks[b] && a < b)
}

/// Whether `order` lists the positions of `ranks` in stable ascending order:
/// as many entries as there are positions, each a position, and each entry
/// drawn before all later ones.
pub open spec fn is_stable_order(ranks: Seq<int>, order: Seq<int>) -> bool {
    &&& order.len() == ranks.len()
    &&& forall|i: int| 0 <= i < order.len() ==> 0 <= #[trigger] order[i] < ranks.len()
    &&& forall|i: int, j: int|
        0 <= i < j < order.len() ==> comes_before(ranks, #[trigger] order[i], #[trigger] order[j])
}

/// The stable ascending order of the positions of `ranks`.
pub open spec fn stable_order(ranks: Seq<int>) -> Seq<int> {
    choose|order: Seq<int>| is_stable_order(ranks, order)
}

/// The items at the positions that `order` lists, in that order.
pub open spec fn arranged(items: Seq<SpriteBatchItem>, order: Seq<int>) -> Seq<SpriteBatchItem> {
    Seq::new(order.len(), |i: int| items[order[i]])
}

/// The items in the order in which `mode` draws them.
pub open spec fn sorted_items(mode: SpriteSortMode, items: Seq<SpriteBatchItem>) -> Seq<
    SpriteBatchItem,
> {
    arranged(items, stable_order(ranks(mode, items)))
}

/// A list of positions as integers.
spec fn positions(order: Seq<usize>) -> Seq<int> {
    order.map_values(|p: usize| p as int)
}

/// Whether `run` lists the positions from `lo` up to `hi` in stable ascending
/// order.
spec fn is_run(ranks: Seq<int>, run: Seq<usize>, lo: int, hi: int) -> bool {
    &&& run.len() == hi - lo
    &&& forall|i: int| 0 <= i < run.len() ==> lo <= #[trigger] run[i] < hi
    &&& forall|i: int, j: int|
        0 <= i < j < run.len() ==> comes_before(
            ranks,
            #[trigger] run[i] as int,
            #[trigger] run[j] as int,
        )
}

/// A stable order lists no position twice.
pub proof fn lemma_stable_order_no_duplicates(ranks: Seq<int>, order: Seq<int>)
    requires
        is_stable_order(ranks, order),
    ensures
        order.no_duplicates(),
{
    assert forall|i: int, j: int|
        0 <= i < order.len() && 0 <= j < order.len() && i != j implies order[i] != order[j] by {
        if i < j {
            assert(comes_before(ranks, order[i], order[j]));
        } else {
            assert(comes_before(ranks, order[j], order[i]));
        }
    }
}

/// A stable order lists every position: it is a permutation of the positions.
pub proof fn lemma_stable_order_lists_all(ranks: Seq<int>, order: Seq<int>, p: int)
    requires
        is_stable_order(ranks, order),
        0 <= p < ranks.len(),
    ensures
        order.contains(p),
{
    let all = set_int_range(0, ranks.len() as int);
    lemma_stable_order_no_duplicates(ranks, order);
    order.unique_seq_to_set();
    lemma_int_range(0, ranks.len() as int);
    assert(order.to_set().subset_of(all)) by {
        assert forall|x: int| order.to_set().contains(x) implies all.contains(x) by {
            let i = choose|i: int| 0 <= i < order.len() && order[i] == x;
            assert(0 <= order[i] < ranks.len());
        }
    }
    lemma_len_subset(order.to_set(), all);
    lemma_subset_equality(order.to_set(), all);
    assert(all.contains(p));
    assert(order.to_set().contains(p));
}

/// Two stable orders of the same ranks agree on their first `k` entries.
proof fn lemma_stable_orders_agree(ranks: Seq<int>, first: Seq<int>, second: Seq<int>, k: int)
    requires
        is_stable_order(ranks, first),
        is_stable_order(ranks, second),
        0 <= k <= ranks.len(),
    ensures
        forall|i: int| 0 <= i < k ==> first[i] == second[i],
    decreases k,
{
    if k > 0 {
        lemma_stable_orders_agree(ranks, first, second, k - 1);
        let i = k - 1;
        let x = first[i];
        let y = second[i];
        assert(0 <= x < ranks.len());
        assert(0 <= y < ranks.len());
        lemma_stable_order_lists_all(ranks, second, x);
        lemma_stable_order_lists_all(ranks, first, y);
        lemma_stable_order_no_duplicates(ranks, first);
        lemma_stable_order_no_duplicates(ranks, second);
        let j = choose|j: int| 0 <= j < second.len() && second[j] == x;
        let l = choose|l: int| 0 <= l < first.len() && first[l] == y;
        if j < i {
            assert(first[j] == second[j]);
        }
        if l < i {
            assert(second[l] == first[l]);
        }
        if j > i {
            assert(comes_before(ranks, second[i], second[j]));
            if l > i {
                assert(comes_before(ranks, first[i], first[l]));
            }
        }
    }
}

/// The positions of a sequence of ranks have one stable order and no other.
pub proof fn lemma_stable_order_unique(ranks: Seq<int>, first: Seq<int>, second: Seq<int>)
    requires
        is_stable_order(ranks, first),
        is_stable_order(ranks, second),
    ensures
        first == second,
{
    lemma_stable_orders_agree(ranks, first, second, ranks.len() as int);
    assert(first =~= second);
}

/// Any arrangement that is a stable order is the stable order.
pub proof fn lemma_stable_order_is(ranks: Seq<int>, order: Seq<int>)
    requires
        is_stable_order(ranks, order),
    ensures
        stable_order(ranks) == order,
{
    lemma_stable_order_unique(ranks, stable_order(ranks), order);
}

/// Where a position of rank `rank` that follows all positions of `order`
/// belongs in it: the first entry from `k` on whose rank is higher, or the
/// end.
spec fn insertion_point(ranks: Seq<int>, order: Seq<int>, rank: int, k: int) -> int
    decreases order.len() - k,
{
    if k >= order.len() || ranks[order[k]] > rank {
        k
    } else {
        insertion_point(ranks, order, rank, k + 1)
    }
}

/// The entries before the insertion point have ranks up to `rank`, those from
/// it on have higher ranks.
proof fn lemma_insertion_point(ranks: Seq<int>, order: Seq<int>, rank: int, k: int)
    requires
        is_stable_order(ranks, order),
        0 <= k <= order.len(),
        forall|i: int| 0 <= i < k ==> ranks[#[trigger] order[i]] <= rank,
    ensures
        k <= insertion_point(ranks, order, rank, k) <= order.len(),
        forall|i: int|
            0 <= i < insertion_point(ranks, order, rank, k) ==> ranks[#[trigger] order[i]] <= rank,
        forall|i: int|
            insertion_point(ranks, order, rank, k) <= i < order.len() ==> ranks[#[trigger] order[i]]
                > rank,
    decreases order.len() - k,
{
    if k >= order.len() {
    } else if ranks[order[k]] > rank {
        assert forall|i: int| k <= i < order.len() implies ranks[#[trigger] order[i]] > rank by {
            if i > k {
                assert(comes_before(ranks, order[k], order[i]));
            }
        }
    } else {
        lemma_insertion_point(ranks, order, rank, k + 1);
    }
}

/// Every sequence of ranks has a stable order: `stable_order` is one.
pub proof fn lemma_stable_order_exists(ranks: Seq<int>)
    ensures
        is_stable_order(ranks, stable_order(ranks)),
    decreases ranks.len(),
{
    if ranks.len() == 0 {
        assert(is_stable_order(ranks, Seq::<int>::empty()));
    } else {
        let shorter = ranks.drop_last();
        let last = ranks.len() - 1;
        lemma_stable_order_exists(shorter);
        let prev = stable_order(shorter);
        let pos = insertion_point(shorter, prev, ranks[last], 0);
        lemma_insertion_point(shorter, prev, ranks[last], 0);
        let order = prev.insert(pos, last);
        prev.insert_ensures(pos, last);
        assert forall|i: int| 0 <= i < order.len() implies 0 <= #[trigger] order[i]
            < ranks.len() by {
            if i < pos {
                assert(order[i] == prev[i]);
            } else if i > pos {
                assert(order[i] == prev[i - 1]);
            }
        }
        assert forall|i: int, j: int| 0 <= i < j < order.len() implies comes_before(
            ranks,
            #[trigger] order[i],
            #[trigger] order[j],
        ) by {
            let a = if i < pos {
                i
            } else {
                i - 1
            };
            let b = if j < pos {
                j
            } else {
                j - 1
            };
            if i != pos {
                assert(order[i] == prev[a]);
                assert(0 <= prev[a] < shorter.len());
                assert(shorter[prev[a]] == ranks[prev[a]]);
            }
            if j != pos {
                assert(order[j] == prev[b]);
                assert(0 <= prev[b] < shorter.len());
                assert(shorter[prev[b]] == ranks[prev[b]]);
            }
            if i != pos && j != pos {
                assert(comes_before(shorter, prev[a], prev[b]));
            }
        }
        assert(is_stable_order(ranks, order));
    }
}

/// The rank `mode` gives `item`.
pub fn rank_of(mode: SpriteSortMode, item: &SpriteBatchItem) -> (rank: i128)
    ensures
        rank == sort_rank(mode, *item),
{
    match mode {
        SpriteSortMode::Deferred => 0,
        SpriteSortMode::Texture => match item.texture {
            None => -1,
            Some(texture) => texture.id as i128,
        },
        SpriteSortMode::FrontToBack => item.depth as i128,
        SpriteSortMode::BackToFront => -(item.depth as i128),
    }
}

/// Merges two adjacent runs into one.
fn merge_runs(
    items: &Vec<SpriteBatchItem>,
    mode: SpriteSortMode,
    left: &Vec<usize>,
    right: &Vec<usize>,
    Ghost(lo): Ghost<int>,
    Ghost(mid): Ghost<int>,
    Ghost(hi): Ghost<int>,
) -> (run: Vec<usize>)
    requires
        0 <= lo <= mid <= hi <= items.len(),
        is_run(ranks(mode, items@), left@, lo, mid),
        is_run(ranks(mode, items@), right@, mid, hi),
    ensures
        is_run(ranks(mode, items@), run@, lo, hi),
{
    let ghost r = ranks(mode, items@);
    let mut run: Vec<usize> = Vec::with_capacity(left.len() + right.len());
    let mut a: usize = 0;
    let mut b: usize = 0;
    while a < left.len() || b < right.len()
        invariant
            0 <= lo <= mid <= hi <= items.len(),
            r == ranks(mode, items@),
            is_run(r, left@, lo, mid),
            is_run(r, right@, mid, hi),
            a <= left.len(),
            b <= right.len(),
            run.len() == a + b,
            forall|i: int| 0 <= i < run.len() ==> lo <= #[trigger] run[i] < hi,
            forall|i: int, j: int|
                0 <= i < j < run.len() ==> comes_before(
                    r,
                    #[trigger] run[i] as int,
                    #[trigger] run[j] as int,
                ),
            forall|i: int, j: int|
                0 <= i < run.len() && a <= j < left.len() ==> comes_before(
                    r,
                    #[trigger] run[i] as int,
                    #[trigger] left[j] as int,
                ),
            forall|i: int, j: int|
                0 <= i < run.len() && b <= j < right.len() ==> comes_before(
                    r,
                    #[trigger] run[i] as int,
                    #[trigger] right[j] as int,
                ),
        decreases left.len() - a + right.len() - b,
    {
        let take_left: bool = if a == left.len() {
            false
        } else if b == right.len() {
            true
        } else {
            rank_of(mode, &items[left[a]]) <= rank_of(mode, &items[right[b]])
        };
        if take_left {
            let next: usize = left[a];
            proof {
                assert forall|j: int| b <= j < right.len() implies comes_before(
                    r,
                    next as int,
                    #[trigger] right[j] as int,
                ) by {
                    if j > b {
                        assert(comes_before(r, right[b as int] as int, right[j] as int));
                    }
                }
                assert forall|j: int| a < j < left.len() implies comes_before(
                    r,
                    next as int,
                    #[trigger] left[j] as int,
                ) by {
                    assert(comes_before(r, left[a as int] as int, left[j] as int));
                }
            }
            run.push(next);
            a = a + 1;
        } else {
            let next: usize = right[b];
            proof {
                assert forall|j: int| a <= j < left.len() implies comes_before(
                    r,
                    next as int,
                    #[trigger] left[j] as int,
                ) by {
                    if j > a {
                        assert(comes_before(r, left[a as int] as int, left[j] as int));
                    }
                }
                assert forall|j: int| b < j < right.len() implies comes_before(
                    r,
                    next as int,
                    #[trigger] right[j] as int,
                ) by {
                    assert(comes_before(r, right[b as int] as int, right[j] as int));
                }
            }
            run.push(next);
            b = b + 1;
        }
    }
    run
}

/// The positions from `lo` up to `hi` in stable ascending order, by merge
/// sort.
fn sorted_run(items: &Vec<SpriteBatchItem>, mode: SpriteSortMode, lo: usize, hi: usize) -> (run:
    Vec<usize>)
    requires
        lo <= hi <= items.len(),
    ensures
        is_run(ranks(mode, items@), run@, lo as int, hi as int),
    decreases hi - lo,
{
    if hi - lo <= 1 {
        let mut run: Vec<usize> = Vec::new();
        if lo < hi {
            run.push(lo);
        }
        run
    } else {
        let mid: usize = lo + (hi - lo) / 2;
        let left = sorted_run(items, mode, lo, mid);
        let right = sorted_run(items, mode, mid, hi);
        merge_runs(items, mode, &left, &right, Ghost(lo as int), Ghost(mid as int), Ghost(hi as int))
    }
}

/// Drawing in some mode keeps the number of items, draws each item exactly
/// once, never draws a higher rank before a lower one, and draws items of
/// equal rank in the order of their submission.
pub proof fn lemma_sorted_items(mode: SpriteSortMode, items: Seq<SpriteBatchItem>)
    ensures
        is_stable_order(ranks(mode, items), stable_order(ranks(mode, items))),
        stable_order(ranks(mode, items)).no_duplicates(),
        forall|p: int| 0 <= p < items.len() ==> stable_order(ranks(mode, items)).contains(p),
        sorted_items(mode, items).len() == items.len(),
        forall|i: int, j: int|
            0 <= i < j < items.len() ==> sort_rank(mode, #[trigger] sorted_items(mode, items)[i])
                <= sort_rank(mode, #[trigger] sorted_items(mode, items)[j]),
{
    let r = ranks(mode, items);
    let order = stable_order(r);
    lemma_stable_order_exists(r);
    lemma_stable_order_no_duplicates(r, order);
    assert forall|p: int| 0 <= p < items.len() implies order.contains(p) by {
        lemma_stable_order_lists_all(r, order, p);
    }
    let sorted = sorted_items(mode, items);
    assert forall|i: int, j: int| 0 <= i < j < items.len() implies sort_rank(
        mode,
        #[trigger] sorted[i],
    ) <= sort_rank(mode, #[trigger] sorted[j]) by {
        assert(comes_before(r, order[i], order[j]));
        assert(0 <= order[i] < r.len());
        assert(0 <= order[j] < r.len());
    }
}

/// `Deferred` draws items in the order of their submission.
pub proof fn lemma_deferred_keeps_order(items: Seq<SpriteBatchItem>)
    ensures
        sorted_items(SpriteSortMode::Deferred, items) == items,
{
    let r = ranks(SpriteSortMode::Deferred, items);
    let identity = Seq::new(items.len(), |i: int| i);
    assert(is_stable_order(r, identity));
    lemma_stable_order_is(r, identity);
    assert(sorted_items(SpriteSortMode::Deferred, items) =~= items);
}

/// `Texture` draws the items of one texture as one group: between two items
/// of the same texture only items of that texture are drawn.
pub proof fn lemma_texture_order_groups(items: Seq<SpriteBatchItem>, i: int, k: int, j: int)
    requires
        0 <= i <= k <= j < items.len(),
        sorted_items(SpriteSortMode::Texture, items)[i].texture == sorted_items(
            SpriteSortMode::Texture,
            items,
        )[j].texture,
    ensures
        sorted_items(SpriteSortMode::Texture, items)[k].texture == sorted_items(
            SpriteSortMode::Texture,
            items,
        )[i].texture,
{
    lemma_sorted_items(SpriteSortMode::Texture, items);
    let sorted = sorted_items(SpriteSortMode::Texture, items);
    if i < k {
        assert(sort_rank(SpriteSortMode::Texture, sorted[i]) <= sort_rank(
            SpriteSortMode::Texture,
            sorted[k],
        ));
    }
    if k < j {
        assert(sort_rank(SpriteSortMode::Texture, sorted[k]) <= sort_rank(
            SpriteSortMode::Texture,
            sorted[j],
        ));
    }
}

/// Puts the first `count` items into the order in which `mode` draws them and
/// leaves the others where they are.
pub fn sort_items(items: &mut Vec<SpriteBatchItem>, count: usize, mode: SpriteSortMode)
    requires
        count <= old(items).len(),
    ensures
        final(items)@ == sorted_items(mode, old(items)@.subrange(0, count as int)) + old(
            items,
        )@.subrange(count as int, old(items).len() as int),
{
    let ghost pending = items@.subrange(0, count as int);
    if let SpriteSortMode::Deferred = mode {
        proof {
            lemma_deferred_keeps_order(pending);
            assert(items@ =~= pending + items@.subrange(count as int, items.len() as int));
        }
        return ;
    }
    let order = sorted_run(items, mode, 0, count);
    proof {
        let r = ranks(mode, pending);
        assert forall|i: int, j: int| 0 <= i < j < count implies comes_before(
            r,
            #[trigger] positions(order@)[i],
            #[trigger] positions(order@)[j],
        ) by {
            assert(comes_before(ranks(mode, items@), order@[i] as int, order@[j] as int));
            assert(0 <= order@[i] < count);
            assert(0 <= order@[j] < count);
        }
        assert(is_stable_order(r, positions(order@)));
        lemma_stable_order_is(r, positions(order@));
    }
    let mut sorted: Vec<SpriteBatchItem> = Vec::with_capacity(count);
    let mut i: usize = 0;
    while i < count
        invariant
            i <= count <= items.len(),
            order.len() == count,
            forall|k: int| 0 <= k < count ==> 0 <= #[trigger] order[k] < count,
            sorted.len() == i,
            forall|k: int| 0 <= k < i ==> #[trigger] sorted[k] == items[order[k] as int],
        decreases count - i,
    {
        sorted.push(items[order[i]]);
        i = i + 1;
    }
    i = 0;
    while i < count
        invariant
            i <= count,
            sorted.len() == count,
            items.len() == old(items).len(),
            count <= items.len(),
            forall|k: int| 0 <= k < i ==> #[trigger] items[k] == sorted[k],
            forall|k: int| i <= k < items.len() ==> #[trigger] items[k] == old(items)[k],
        decreases count - i,
    {
        items[i] = sorted[i];
        i = i + 1;
    }
    assert(items@ =~= sorted_items(mode, pending) + old(items)@.subrange(
        count as int,
        old(items).len() as int,
    ));
}

} // verus!
