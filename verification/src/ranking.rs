//! Lists put in order, largest first.

use vstd::prelude::*;

verus! {

/// Where an item of the given weight goes into a ranked list: behind all that weigh no
/// less, among the first `count`.
pub open spec fn rank_place<T>(
    ranked: Seq<T>,
    weight: spec_fn(T) -> int,
    item_weight: int,
    count: int,
) -> int
    decreases count,
{
    if count <= 0 || weight(ranked[count - 1]) >= item_weight {
        count
    } else {
        rank_place(ranked, weight, item_weight, count - 1)
    }
}

/// A ranked list with an item more.
pub open spec fn rank_insert<T>(ranked: Seq<T>, weight: spec_fn(T) -> int, item: T) -> Seq<T> {
    ranked.insert(rank_place(ranked, weight, weight(item), ranked.len() as int), item)
}

/// The first `count` items, heaviest first; those of the same weight keep their order.
pub open spec fn ranked_prefix<T>(items: Seq<T>, weight: spec_fn(T) -> int, count: int) -> Seq<T>
    decreases count,
{
    if count <= 0 {
        Seq::empty()
    } else {
        rank_insert(ranked_prefix(items, weight, count - 1), weight, items[count - 1])
    }
}

/// Items, heaviest first; those of the same weight keep their order.
pub open spec fn ranked<T>(items: Seq<T>, weight: spec_fn(T) -> int) -> Seq<T> {
    ranked_prefix(items, weight, items.len() as int)
}

/// No item is heavier than one before it.
pub open spec fn falling<T>(items: Seq<T>, weight: spec_fn(T) -> int) -> bool {
    forall|i: int, j: int| 0 <= i < j < items.len() ==> weight(items[i]) >= weight(items[j])
}

proof fn lemma_rank_place<T>(
    ranked: Seq<T>,
    weight: spec_fn(T) -> int,
    item_weight: int,
    count: int,
)
    requires
        0 <= count <= ranked.len(),
        falling(ranked, weight),
    ensures
        0 <= rank_place(ranked, weight, item_weight, count) <= count,
        forall|i: int|
            0 <= i < rank_place(ranked, weight, item_weight, count) ==> weight(
                #[trigger] ranked[i],
            ) >= item_weight,
        forall|i: int|
            rank_place(ranked, weight, item_weight, count) <= i < count ==> weight(
                #[trigger] ranked[i],
            ) < item_weight,
    decreases count,
{
    if count > 0 && weight(ranked[count - 1]) < item_weight {
        lemma_rank_place(ranked, weight, item_weight, count - 1);
    }
}

proof fn lemma_ranked_prefix<T>(items: Seq<T>, weight: spec_fn(T) -> int, count: int)
    requires
        0 <= count <= items.len(),
    ensures
        falling(ranked_prefix(items, weight, count), weight),
        ranked_prefix(items, weight, count).len() == count,
        ranked_prefix(items, weight, count).to_multiset() == items.take(count).to_multiset(),
    decreases count,
{
    if count <= 0 {
        assert(items.take(count) =~= Seq::empty());
    } else {
        lemma_ranked_prefix(items, weight, count - 1);
        let before = ranked_prefix(items, weight, count - 1);
        let item = items[count - 1];
        let place = rank_place(before, weight, weight(item), before.len() as int);
        lemma_rank_place(before, weight, weight(item), before.len() as int);
        before.to_multiset_ensures();
        vstd::seq_lib::to_multiset_insert(before, place, item);
        items.take(count - 1).to_multiset_ensures();
        assert(items.take(count) =~= items.take(count - 1).push(item));
    }
}

/// A ranked list holds the same items, and none is heavier than one before it.
pub proof fn lemma_ranked_falls<T>(items: Seq<T>, weight: spec_fn(T) -> int)
    ensures
        falling(ranked(items, weight), weight),
        ranked(items, weight).to_multiset() == items.to_multiset(),
        ranked(items, weight).len() == items.len(),
{
    lemma_ranked_prefix(items, weight, items.len() as int);
    assert(items.take(items.len() as int) =~= items);
}

/// A list that is in order already stays as it is.
pub proof fn lemma_ranked_keeps_order<T>(items: Seq<T>, weight: spec_fn(T) -> int, count: int)
    requires
        falling(items, weight),
        0 <= count <= items.len(),
    ensures
        ranked_prefix(items, weight, count) == items.take(count),
    decreases count,
{
    if count > 0 {
        lemma_ranked_keeps_order(items, weight, count - 1);
        let before = items.take(count - 1);
        if count > 1 {
            assert(before[count - 2] == items[count - 2]);
        }
        assert(before.insert(count - 1, items[count - 1]) =~= items.take(count));
    } else {
        assert(items.take(count) =~= Seq::empty());
    }
}

} // verus!
