//! The transform that blocks are stored in: what undoing it gives back.

use crate::bzz::bwt::{
    block_bytes, block_from, block_of, bwt_inverse, earlier, occurrences, passed, smaller,
    steps_back, BlockModel,
};
use crate::bzz::mtf::{
    holds_every_byte, lemma_start_holds_every_byte, lemma_taken_holds_every_byte, mtf_start,
    mtf_taken, MtfState,
};
use crate::bzz::model::BWT_MARKER_RANK;
use crate::bzz::BzzFault;
use vstd::prelude::*;
use vstd::set_lib::{lemma_int_range, lemma_map_size, lemma_set_disjoint_lens, set_int_range};

verus! {

/// Whether the rest of a block from one place on comes before that from another, in the
/// order of a dictionary.
pub open spec fn comes_before(raw: Seq<u8>, left: int, right: int) -> bool
    decreases raw.len() - left,
{
    if right >= raw.len() {
        false
    } else if left >= raw.len() {
        true
    } else if raw[left] != raw[right] {
        raw[left] < raw[right]
    } else {
        comes_before(raw, left + 1, right + 1)
    }
}

/// A list that holds every place of a block, its end too, in the order of what follows.
pub open spec fn in_order(raw: Seq<u8>, order: Seq<int>) -> bool {
    &&& order.len() == raw.len() + 1
    &&& forall|i: int| 0 <= i < order.len() ==> 0 <= #[trigger] order[i] <= raw.len()
    &&& forall|place: int| 0 <= place <= raw.len() ==> #[trigger] order.contains(place)
    &&& forall|i: int, j: int|
        0 <= i < j < order.len() ==> comes_before(raw, #[trigger] order[i], #[trigger] order[j])
}

/// The transform of a block: of every place, in order, the byte before it, and a marker for
/// the place that has none.
pub open spec fn transformed(raw: Seq<u8>, order: Seq<int>) -> BlockModel {
    BlockModel {
        symbols: Seq::new(
            order.len(),
            |i: int|
                if order[i] == 0 {
                    0
                } else {
                    raw[order[i] - 1]
                },
        ),
        marker: order.index_of(0),
    }
}

proof fn lemma_not_before_itself(raw: Seq<u8>, place: int)
    ensures
        !comes_before(raw, place, place),
    decreases raw.len() - place,
{
    if place < raw.len() {
        lemma_not_before_itself(raw, place + 1);
    }
}

proof fn lemma_not_both_before(raw: Seq<u8>, left: int, right: int)
    requires
        comes_before(raw, left, right),
    ensures
        !comes_before(raw, right, left),
    decreases raw.len() - left,
{
    if left < raw.len() && raw[left] == raw[right] {
        lemma_not_both_before(raw, left + 1, right + 1);
    }
}

/// Places are listed in the order of what follows them, and each once.
proof fn lemma_order_tells(raw: Seq<u8>, order: Seq<int>, i: int, j: int)
    requires
        in_order(raw, order),
        0 <= i < order.len(),
        0 <= j < order.len(),
    ensures
        comes_before(raw, order[i], order[j]) <==> i < j,
        order[i] == order[j] ==> i == j,
{
    lemma_not_before_itself(raw, order[i]);
    if j < i {
        lemma_not_both_before(raw, order[j], order[i]);
    }
}

/// Where a place is listed.
proof fn lemma_listed(raw: Seq<u8>, order: Seq<int>, place: int)
    requires
        in_order(raw, order),
        0 <= place <= raw.len(),
    ensures
        0 <= order.index_of(place) < order.len(),
        order[order.index_of(place)] == place,
{
    assert(order.contains(place));
}

/// The end of a block is listed first.
proof fn lemma_end_comes_first(raw: Seq<u8>, order: Seq<int>)
    requires
        in_order(raw, order),
    ensures
        order[0] == raw.len(),
{
    lemma_listed(raw, order, raw.len() as int);
    let k = order.index_of(raw.len() as int);
    if k > 0 {
        assert(comes_before(raw, order[0], order[k]));
    }
}

/// The places, but for the marker's, of symbols less than the given one.
spec fn lesser_places(symbols: Seq<u8>, marker: int, symbol: int, n: int) -> Set<int> {
    Set::new(|j: int| 0 <= j < n && j != marker && symbols[j] < symbol)
}

/// The places, but for the marker's, of a symbol.
spec fn places_of(symbols: Seq<u8>, marker: int, symbol: int, n: int) -> Set<int> {
    Set::new(|j: int| 0 <= j < n && j != marker && symbols[j] == symbol)
}

proof fn lemma_lesser_places(symbols: Seq<u8>, marker: int, symbol: int, n: int)
    ensures
        lesser_places(symbols, marker, symbol, n).finite(),
        lesser_places(symbols, marker, symbol, n).len() == smaller(symbols, marker, symbol, n),
    decreases n,
{
    let all = lesser_places(symbols, marker, symbol, n);
    if n <= 0 {
        assert(all =~= Set::empty());
    } else {
        lemma_lesser_places(symbols, marker, symbol, n - 1);
        let before = lesser_places(symbols, marker, symbol, n - 1);
        if n - 1 != marker && symbols[n - 1] < symbol {
            assert(all =~= before.insert(n - 1));
        } else {
            assert(all =~= before);
        }
    }
}

proof fn lemma_places_of(symbols: Seq<u8>, marker: int, symbol: int, n: int)
    ensures
        places_of(symbols, marker, symbol, n).finite(),
        places_of(symbols, marker, symbol, n).len() == occurrences(symbols, marker, symbol, n),
    decreases n,
{
    let all = places_of(symbols, marker, symbol, n);
    if n <= 0 {
        assert(all =~= Set::empty());
    } else {
        lemma_places_of(symbols, marker, symbol, n - 1);
        let before = places_of(symbols, marker, symbol, n - 1);
        if n - 1 != marker && symbols[n - 1] == symbol {
            assert(all =~= before.insert(n - 1));
        } else {
            assert(all =~= before);
        }
    }
}

/// A step back leads to where the place one byte earlier is listed.
proof fn lemma_step_back(raw: Seq<u8>, order: Seq<int>, i: int)
    requires
        in_order(raw, order),
        0 <= i < order.len(),
        order[i] != 0,
    ensures
        ({
            let block = transformed(raw, order);
            let place = earlier(block.symbols, block.marker, i);
            0 <= place < order.len() && order[place] == order[i] - 1
        }),
{
    let block = transformed(raw, order);
    let symbols = block.symbols;
    let marker = block.marker;
    let n = order.len() as int;
    let q = order[i] - 1;
    let p = order.index_of(q);
    let symbol = symbols[i] as int;
    lemma_listed(raw, order, q);
    lemma_listed(raw, order, 0);
    lemma_end_comes_first(raw, order);
    assert(p != 0);
    assert(i != marker);
    let listed = set_int_range(1, p);
    lemma_int_range(1, p);
    let f = |k: int| order.index_of(order[k] + 1);
    let lesser = lesser_places(symbols, marker, symbol, n);
    let same = places_of(symbols, marker, symbol, i);
    lemma_lesser_places(symbols, marker, symbol, n);
    lemma_places_of(symbols, marker, symbol, i);
    assert forall|k: int| 1 <= k < n implies 0 <= #[trigger] f(k) < n && order[f(k)] == order[k]
        + 1 by {
        lemma_order_tells(raw, order, 0, k);
        lemma_listed(raw, order, order[k] + 1);
    }
    assert(vstd::relations::injective_on(f, listed)) by {
        assert forall|x: int, y: int|
            listed.contains(x) && listed.contains(y) && #[trigger] f(x) == #[trigger] f(
                y,
            ) implies x == y by {
            lemma_order_tells(raw, order, x, y);
        }
    }
    assert(listed.map(f) =~= lesser + same) by {
        assert forall|j: int| listed.map(f).contains(j) implies (lesser + same).contains(j) by {
            let k = choose|k: int| listed.contains(k) && f(k) == j;
            assert(order[j] == order[k] + 1);
            lemma_order_tells(raw, order, k, p);
            lemma_order_tells(raw, order, j, i);
            lemma_order_tells(raw, order, j, marker);
            assert(comes_before(raw, order[k], q));
            assert(symbols[j] == raw[order[k]]);
        }
        assert forall|j: int| (lesser + same).contains(j) implies listed.map(f).contains(j) by {
            lemma_order_tells(raw, order, j, marker);
            assert(order[j] != 0);
            let k = order.index_of(order[j] - 1);
            lemma_listed(raw, order, order[j] - 1);
            lemma_order_tells(raw, order, j, i);
            assert(comes_before(raw, order[k], q));
            lemma_order_tells(raw, order, k, p);
            assert(k != 0);
            lemma_order_tells(raw, order, f(k), j);
            assert(listed.contains(k) && f(k) == j);
        }
    }
    lemma_map_size(listed, lesser + same, f);
    assert(lesser.disjoint(same));
    lemma_set_disjoint_lens(lesser, same);
}

/// So many steps back lead to where the place so far before the end is listed.
proof fn lemma_steps_back(raw: Seq<u8>, order: Seq<int>, steps: nat)
    requires
        in_order(raw, order),
        steps <= raw.len(),
    ensures
        ({
            let block = transformed(raw, order);
            let place = steps_back(block.symbols, block.marker, steps);
            0 <= place < order.len() && order[place] == raw.len() - steps
        }),
    decreases steps,
{
    lemma_end_comes_first(raw, order);
    if steps > 0 {
        let block = transformed(raw, order);
        lemma_steps_back(raw, order, (steps - 1) as nat);
        lemma_step_back(
            raw,
            order,
            steps_back(block.symbols, block.marker, (steps - 1) as nat),
        );
    }
}

/// Undoing the transform of a block gives the block back.
pub proof fn lemma_transform_read_back(raw: Seq<u8>, order: Seq<int>)
    requires
        raw.len() > 0,
        in_order(raw, order),
    ensures
        bwt_inverse(transformed(raw, order).symbols, transformed(raw, order).marker) == Ok::<
            Seq<u8>,
            BzzFault,
        >(raw),
{
    let block = transformed(raw, order);
    lemma_listed(raw, order, 0);
    lemma_end_comes_first(raw, order);
    assert(block.marker != 0);
    lemma_steps_back(raw, order, raw.len());
    lemma_order_tells(
        raw,
        order,
        steps_back(block.symbols, block.marker, raw.len()),
        block.marker,
    );
    assert forall|i: int| 0 <= i < raw.len() implies #[trigger] passed(
        block.symbols,
        block.marker,
    )[i] == raw[i] by {
        let steps = (block.symbols.len() - 2 - i) as nat;
        lemma_steps_back(raw, order, steps);
        let place = steps_back(block.symbols, block.marker, steps);
        assert(order[place] == i + 1);
        assert(place != block.marker);
    }
    assert(passed(block.symbols, block.marker) =~= raw);
}

/// The ranks of the symbols of a block from a place on.
pub open spec fn ranks_from(mtf: MtfState, block: BlockModel, at: int) -> Seq<usize>
    decreases block.symbols.len() - at,
{
    if at >= block.symbols.len() {
        Seq::empty()
    } else if at == block.marker {
        seq![BWT_MARKER_RANK] + ranks_from(mtf, block, at + 1)
    } else {
        let rank = mtf.symbols.index_of(block.symbols[at]);
        seq![rank as usize] + ranks_from(mtf_taken(mtf, rank), block, at + 1)
    }
}

proof fn lemma_ranks_len(mtf: MtfState, block: BlockModel, at: int)
    requires
        0 <= at <= block.symbols.len(),
    ensures
        ranks_from(mtf, block, at).len() == block.symbols.len() - at,
    decreases block.symbols.len() - at,
{
    if at < block.symbols.len() {
        if at == block.marker {
            lemma_ranks_len(mtf, block, at + 1);
        } else {
            let rank = mtf.symbols.index_of(block.symbols[at]);
            lemma_ranks_len(mtf_taken(mtf, rank), block, at + 1);
        }
    }
}

proof fn lemma_ranks_read_back(
    ranks: Seq<usize>,
    mtf: MtfState,
    block: BlockModel,
    at: int,
)
    requires
        0 <= at <= block.symbols.len(),
        0 <= block.marker < block.symbols.len(),
        block.symbols[block.marker] == 0,
        ranks.len() == block.symbols.len(),
        ranks.skip(at) == ranks_from(mtf, block, at),
        holds_every_byte(mtf.symbols),
        mtf.freq.len() == 4,
    ensures
        block_from(
            ranks,
            block.symbols.len() as int,
            mtf,
            block.symbols.take(at),
            if block.marker < at {
                Some(block.marker)
            } else {
                None
            },
        ) == Ok::<BlockModel, BzzFault>(block),
    decreases block.symbols.len() - at,
{
    let symbols = block.symbols;
    if at >= symbols.len() {
        assert(symbols.take(at) =~= symbols);
    } else {
        assert(ranks.skip(at)[0] == ranks[at]);
        assert(ranks.skip(at + 1) =~= ranks.skip(at).drop_first());
        if at == block.marker {
            assert(ranks_from(mtf, block, at).drop_first() =~= ranks_from(mtf, block, at + 1));
            lemma_ranks_read_back(ranks, mtf, block, at + 1);
            assert(symbols.take(at).push(0) =~= symbols.take(at + 1));
        } else {
            assert(mtf.symbols.contains(symbols[at]));
            let rank = mtf.symbols.index_of(symbols[at]);
            let next = mtf_taken(mtf, rank);
            assert(ranks_from(mtf, block, at).drop_first() =~= ranks_from(next, block, at + 1));
            lemma_taken_holds_every_byte(mtf, rank);
            lemma_ranks_read_back(ranks, next, block, at + 1);
            assert(symbols.take(at).push(symbols[at]) =~= symbols.take(at + 1));
        }
    }
}

/// The ranks of the transform of a block stand for the block.
pub proof fn lemma_block_read_back(raw: Seq<u8>, order: Seq<int>, fshift: nat)
    requires
        raw.len() > 0,
        in_order(raw, order),
    ensures
        block_bytes(
            ranks_from(mtf_start(fshift), transformed(raw, order), 0),
            raw.len() as int + 1,
            fshift,
        ) == Ok::<Seq<u8>, BzzFault>(raw),
{
    let block = transformed(raw, order);
    let ranks = ranks_from(mtf_start(fshift), block, 0);
    lemma_listed(raw, order, 0);
    lemma_ranks_len(mtf_start(fshift), block, 0);
    lemma_start_holds_every_byte(fshift);
    assert(ranks.skip(0) =~= ranks);
    assert(block.symbols.take(0) =~= Seq::<u8>::empty());
    lemma_ranks_read_back(ranks, mtf_start(fshift), block, 0);
    assert(block_of(ranks, raw.len() as int + 1, fshift) == Ok::<BlockModel, BzzFault>(block));
    lemma_transform_read_back(raw, order);
}

} // verus!
