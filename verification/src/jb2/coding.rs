//! What the decisions of the coder say of numbers and of bitmaps.

use super::bitmaps::{
    binary, direct_bitmap, direct_context, direct_row, direct_rows, refined_bitmap,
    refined_context, refined_row, refined_rows, row_at, Coding,
};
use super::num::{
    is_power_of_two, num_child, num_decide, num_decode, num_magnitude, num_search, NumTree, NumWalk,
};
use super::symbol::{symbol_at, Symbol};
use crate::zp::{zp_context_bit, ZpState};
use vstd::prelude::*;

verus! {

/// A decision says whether the number is at least the cutoff. Where the bounds of the number
/// settle that, no bit is read; where they do not, the bit read is the answer.
pub proof fn lemma_decision(walk: NumWalk, low: int, high: int, cutoff: int)
    requires
        low <= high,
    ensures
        ({
            let (decision, next) = num_decide(walk, low, high, cutoff);
            let (bit, zp, context) = zp_context_bit(walk.zp, walk.tree.contexts[walk.node]);
            &&& cutoff <= low ==> decision && next.zp == walk.zp
            &&& high < cutoff ==> !decision && next.zp == walk.zp
            &&& low < cutoff <= high ==> decision == bit && next.zp == zp
        }),
{
}

/// In a search among a power of two of candidates, each decision says whether the number that
/// is found is at least the cutoff, and the number is one of the candidates.
pub proof fn lemma_search_answers(walk: NumWalk, low: int, high: int, cutoff: int, range: int)
    requires
        range >= 2,
        is_power_of_two(range),
    ensures
        ({
            let found = num_search(walk, low, high, cutoff, range).0;
            &&& num_decide(walk, low, high, cutoff).0 <==> found >= cutoff
            &&& cutoff - range / 2 <= found < cutoff + range / 2
        }),
    decreases range,
{
    let (decision, next) = num_decide(walk, low, high, cutoff);
    let half = range / 2;
    assert(is_power_of_two(half));
    if half != 1 {
        let moved = if decision { cutoff + half / 2 } else { cutoff - half / 2 };
        assert(half % 2 == 0);
        lemma_search_answers(next, low, high, moved, half);
    } else {
        let moved = if decision { cutoff } else { cutoff - 1 };
        assert(num_search(next, low, high, moved, half) == (moved, next));
    }
}

/// The number that is found by a walk, once it is known to be at least half of the cutoff.
pub open spec fn number_from(walk: NumWalk, low: int, high: int, cutoff: int) -> int {
    let (end, next) = num_magnitude(walk, low, high, cutoff);
    let range = (end + 1) / 2;
    if range == 1 {
        0
    } else {
        num_search(next, low, high, end - range / 2, range).0
    }
}

/// Where the cutoffs go up through 1, 3, 7, 15 and so on, each decision says whether the number
/// that is found is at least the cutoff.
pub proof fn lemma_magnitude_answers(walk: NumWalk, low: int, high: int, cutoff: int)
    requires
        low <= high,
        cutoff >= 1,
        is_power_of_two(cutoff + 1),
    ensures
        ({
            let (decision, next) = num_decide(walk, low, high, cutoff);
            let number = number_from(walk, low, high, cutoff);
            &&& decision <==> number >= cutoff
            &&& decision ==> number == number_from(next, low, high, 2 * cutoff + 1)
            &&& (cutoff - 1) / 2 <= number
        }),
    decreases 2 * high + 2 - cutoff,
{
    let (decision, next) = num_decide(walk, low, high, cutoff);
    assert(is_power_of_two((cutoff + 1) / 2) || cutoff == 0);
    if decision {
        assert(cutoff <= high);
        assert((2 * cutoff + 2) / 2 == cutoff + 1);
        assert(is_power_of_two(2 * cutoff + 2));
        lemma_magnitude_answers(next, low, high, 2 * cutoff + 1);
    } else {
        let range = (cutoff + 1) / 2;
        if range != 1 {
            lemma_search_answers(next, low, high, cutoff - range / 2, range);
            assert(range % 2 == 0);
        }
    }
}

/// A number is decoded by its sign first and its size then: the first decision says whether it
/// is 0 or more, and of numbers below 0 the others speak of how far they are below -1.
pub proof fn lemma_number_answers(zp: ZpState, tree: NumTree, low: int, high: int)
    requires
        low <= high,
    ensures
        ({
            let number = num_decode(zp, tree, low, high).0;
            let (positive, walk) = num_decide(NumWalk { zp, tree, node: 1 }, low, high, 0);
            &&& positive <==> number >= 0
            &&& positive ==> number == number_from(walk, low, high, 1) && (num_decide(
                walk,
                low,
                high,
                1,
            ).0 <==> number >= 1)
            &&& !positive ==> -1 - number == number_from(walk, -high - 1, -low - 1, 1)
                && (num_decide(walk, -high - 1, -low - 1, 1).0 <==> number <= -2)
        }),
{
    reveal(num_decode);
    assert(is_power_of_two(1));
    assert(is_power_of_two(2));
    let (positive, walk) = num_decide(NumWalk { zp, tree, node: 1 }, low, high, 0);
    if positive {
        lemma_magnitude_answers(walk, low, high, 1);
    } else {
        lemma_magnitude_answers(walk, -high - 1, -low - 1, 1);
    }
}

proof fn lemma_magnitude_reads_nothing(walk: NumWalk, only: int, cutoff: int)
    requires
        cutoff >= 1,
    ensures
        num_magnitude(walk, only, only, cutoff).1.zp == walk.zp,
    decreases 2 * only + 2 - cutoff,
{
    let (decision, next) = num_decide(walk, only, only, cutoff);
    if decision && 1 <= cutoff <= only {
        lemma_magnitude_reads_nothing(next, only, 2 * cutoff + 1);
    }
}

proof fn lemma_search_reads_nothing(walk: NumWalk, only: int, cutoff: int, range: int)
    ensures
        num_search(walk, only, only, cutoff, range).1.zp == walk.zp,
    decreases range,
{
    if range > 1 {
        let (decision, next) = num_decide(walk, only, only, cutoff);
        let half = range / 2;
        let moved = if half != 1 {
            if decision { cutoff + half / 2 } else { cutoff - half / 2 }
        } else if decision {
            cutoff
        } else {
            cutoff - 1
        };
        lemma_search_reads_nothing(next, only, moved, half);
    }
}

/// A number that its bounds leave no choice is read from nothing.
pub proof fn lemma_no_choice_reads_nothing(zp: ZpState, tree: NumTree, only: int)
    ensures
        num_decode(zp, tree, only, only).0 == only,
        num_decode(zp, tree, only, only).1 == zp,
{
    reveal(num_decode);
    super::num::lemma_num_decode_range(zp, tree, only, only);
    let (positive, walk) = num_decide(NumWalk { zp, tree, node: 1 }, only, only, 0);
    let bound = if positive { only } else { -only - 1 };
    lemma_magnitude_reads_nothing(walk, bound, 1);
    let (cutoff, next) = num_magnitude(walk, bound, bound, 1);
    let range = (cutoff + 1) / 2;
    lemma_search_reads_nothing(next, bound, cutoff - range / 2, range);
}

/// A child of a node of a tree of contexts is made once and found again; a new one has a
/// context of its own, with nothing learned, and changes neither another context nor the way
/// from another node.
pub proof fn lemma_child_is_found_again(tree: NumTree, node: int, right: bool)
    requires
        super::num::num_tree_wf(tree),
        0 <= node < tree.contexts.len(),
        tree.contexts.len() < usize::MAX,
    ensures
        ({
            let (grown, child) = num_child(tree, node, right);
            let link = if right { tree.right[node] } else { tree.left[node] };
            &&& num_child(grown, node, right) == (grown, child)
            &&& 0 < child < grown.contexts.len()
            &&& forall|i: int|
                0 <= i < tree.contexts.len() ==> #[trigger] grown.contexts[i] == tree.contexts[i]
            &&& link == 0 ==> child == tree.contexts.len() && grown.contexts[child] == 0
                && grown.left[child] == 0 && grown.right[child] == 0
            &&& forall|i: int|
                0 <= i < tree.contexts.len() && (i != node || right) ==> #[trigger] grown.left[i]
                    == tree.left[i]
            &&& forall|i: int|
                0 <= i < tree.contexts.len() && (i != node || !right) ==> #[trigger] grown.right[i]
                    == tree.right[i]
        }),
{
}

/// Two pixels of bitmaps that are coded on their own share a context exactly if the ten pixels
/// that were decoded before them agree: the two before each in its row, the five around its
/// column one row above, and the three around its column two rows above.
pub proof fn lemma_direct_contexts(
    above2: Seq<u8>,
    above1: Seq<u8>,
    row: Seq<u8>,
    x: int,
    other2: Seq<u8>,
    other1: Seq<u8>,
    other: Seq<u8>,
    z: int,
)
    requires
        binary(above2) && binary(above1) && binary(row),
        binary(other2) && binary(other1) && binary(other),
    ensures
        0 <= direct_context(above2, above1, row, x) < 1024,
        direct_context(above2, above1, row, x) == direct_context(other2, other1, other, z) <==> {
            &&& row_at(row, x - 1) == row_at(other, z - 1)
            &&& row_at(row, x - 2) == row_at(other, z - 2)
            &&& row_at(above1, x - 2) == row_at(other1, z - 2)
            &&& row_at(above1, x - 1) == row_at(other1, z - 1)
            &&& row_at(above1, x) == row_at(other1, z)
            &&& row_at(above1, x + 1) == row_at(other1, z + 1)
            &&& row_at(above1, x + 2) == row_at(other1, z + 2)
            &&& row_at(above2, x - 1) == row_at(other2, z - 1)
            &&& row_at(above2, x) == row_at(other2, z)
            &&& row_at(above2, x + 1) == row_at(other2, z + 1)
        },
{
    lemma_row_bits(above2);
    lemma_row_bits(above1);
    lemma_row_bits(row);
    lemma_row_bits(other2);
    lemma_row_bits(other1);
    lemma_row_bits(other);
}

proof fn lemma_row_bits(row: Seq<u8>)
    requires
        binary(row),
    ensures
        forall|x: int| 0 <= #[trigger] row_at(row, x) <= 1,
{
}

proof fn lemma_symbol_bits(symbol: Symbol)
    requires
        super::symbol::symbol_wf(symbol),
        binary(symbol.pixels),
    ensures
        forall|x: int, y: int| 0 <= #[trigger] symbol_at(symbol, x, y) <= 1,
{
    assert forall|x: int, y: int| 0 <= #[trigger] symbol_at(symbol, x, y) <= 1 by {
        if 0 <= x < symbol.width && 0 <= y < symbol.height {
            crate::bitonal::lemma_pixel_index(symbol.width, symbol.height, x, y);
        }
    }
}

/// Two pixels of bitmaps that are coded as changes of others share a context exactly if eleven
/// pixels agree: the one before each in its row, the three around its column one row above, and
/// of the other bitmap the one in the same place, its four neighbours, and the two beside the
/// neighbour below.
pub proof fn lemma_refined_contexts(
    above: Seq<u8>,
    row: Seq<u8>,
    x: int,
    reference: Symbol,
    u: int,
    v: int,
    other_above: Seq<u8>,
    other: Seq<u8>,
    z: int,
    other_reference: Symbol,
    s: int,
    t: int,
)
    requires
        binary(above) && binary(row) && binary(other_above) && binary(other),
        super::symbol::symbol_wf(reference) && binary(reference.pixels),
        super::symbol::symbol_wf(other_reference) && binary(other_reference.pixels),
    ensures
        0 <= refined_context(above, row, x, reference, u, v) < 2048,
        refined_context(above, row, x, reference, u, v) == refined_context(
            other_above,
            other,
            z,
            other_reference,
            s,
            t,
        ) <==> {
            &&& row_at(row, x - 1) == row_at(other, z - 1)
            &&& row_at(above, x - 1) == row_at(other_above, z - 1)
            &&& row_at(above, x) == row_at(other_above, z)
            &&& row_at(above, x + 1) == row_at(other_above, z + 1)
            &&& symbol_at(reference, u, v) == symbol_at(other_reference, s, t)
            &&& symbol_at(reference, u, v + 1) == symbol_at(other_reference, s, t + 1)
            &&& symbol_at(reference, u - 1, v) == symbol_at(other_reference, s - 1, t)
            &&& symbol_at(reference, u + 1, v) == symbol_at(other_reference, s + 1, t)
            &&& symbol_at(reference, u, v - 1) == symbol_at(other_reference, s, t - 1)
            &&& symbol_at(reference, u - 1, v - 1) == symbol_at(other_reference, s - 1, t - 1)
            &&& symbol_at(reference, u + 1, v - 1) == symbol_at(other_reference, s + 1, t - 1)
        },
{
    lemma_row_bits(above);
    lemma_row_bits(row);
    lemma_row_bits(other_above);
    lemma_row_bits(other);
    lemma_symbol_bits(reference);
    lemma_symbol_bits(other_reference);
}

/// A row of a bitmap, of which the lowest is number 0, or nothing where it has no such row.
pub open spec fn row_of(pixels: Seq<u8>, width: int, y: int) -> Seq<u8> {
    if (y + 1) * width <= pixels.len() {
        pixels.subrange(y * width, (y + 1) * width)
    } else {
        Seq::empty()
    }
}

proof fn lemma_direct_rows_split(
    coding: Coding,
    above2: Seq<u8>,
    above1: Seq<u8>,
    width: int,
    count: int,
)
    requires
        count >= 0,
        width >= 0,
    ensures
        ({
            let all = direct_rows(coding, above2, above1, width, count);
            &&& all.pixels.len() == coding.pixels.len() + width * count
            &&& forall|i: int|
                0 <= i < coding.pixels.len() ==> #[trigger] all.pixels[i + width * count]
                    == coding.pixels[i]
        }),
    decreases count,
{
    if count > 0 {
        let row = direct_row(Coding { pixels: Seq::empty(), ..coding }, above2, above1, width);
        lemma_direct_row_length(Coding { pixels: Seq::empty(), ..coding }, above2, above1, width);
        let next = Coding { pixels: row.pixels + coding.pixels, ..row };
        lemma_direct_rows_split(next, above1, row.pixels, width, count - 1);
        assert(width * (count - 1) + width == width * count) by (nonlinear_arith);
        let all = direct_rows(coding, above2, above1, width, count);
        assert forall|i: int| 0 <= i < coding.pixels.len() implies #[trigger] all.pixels[i + width
            * count] == coding.pixels[i] by {
            assert(next.pixels[i + width] == coding.pixels[i]);
            assert(all.pixels[(i + width) + width * (count - 1)] == next.pixels[i + width]);
        }
    } else {
        assert(width * count == 0) by (nonlinear_arith)
            requires
                count == 0,
        ;
    }
}

proof fn lemma_direct_row_length(coding: Coding, above2: Seq<u8>, above1: Seq<u8>, width: int)
    requires
        coding.pixels.len() <= width,
    ensures
        direct_row(coding, above2, above1, width).pixels.len() == width,
    decreases width - coding.pixels.len(),
{
    let x = coding.pixels.len() as int;
    if x < width {
        lemma_direct_row_length(
            super::bitmaps::code_pixel(
                coding,
                direct_context(above2, above1, coding.pixels, x),
            ),
            above2,
            above1,
            width,
        );
    }
}

/// A bitmap with one more row below it: that row is decoded with the lowest two rows above it.
pub open spec fn with_row_below(before: Coding, width: int) -> Coding {
    let row = direct_row(
        Coding { pixels: Seq::empty(), ..before },
        row_of(before.pixels, width, 1),
        row_of(before.pixels, width, 0),
        width,
    );
    Coding { pixels: row.pixels + before.pixels, ..row }
}

proof fn lemma_direct_rows_joined(
    coding: Coding,
    above2: Seq<u8>,
    above1: Seq<u8>,
    width: int,
    count: int,
)
    requires
        count >= 1,
        width >= 1,
        above1 == row_of(coding.pixels, width, 0),
        above2 == row_of(coding.pixels, width, 1),
    ensures
        direct_rows(coding, above2, above1, width, count) == with_row_below(
            direct_rows(coding, above2, above1, width, count - 1),
            width,
        ),
    decreases count,
{
    let row = direct_row(Coding { pixels: Seq::empty(), ..coding }, above2, above1, width);
    lemma_direct_row_length(Coding { pixels: Seq::empty(), ..coding }, above2, above1, width);
    let next = Coding { pixels: row.pixels + coding.pixels, ..row };
    if count > 1 {
        assert((0 + 1) * width == width && 0 * width == 0 && (1 + 1) * width == 2 * width && 1
            * width == width) by (nonlinear_arith);
        assert(row_of(next.pixels, width, 0) =~= row.pixels);
        assert(row_of(next.pixels, width, 1) =~= above1);
        lemma_direct_rows_joined(next, above1, row.pixels, width, count - 1);
    } else {
        assert(direct_rows(next, above1, row.pixels, width, 0) == next);
        assert(direct_rows(coding, above2, above1, width, 0) == coding);
    }
}

/// A bitmap is decoded from its top to its bottom: one that is a row higher, from the same
/// coder, has the same rows with one more below them, and that row is decoded with the two rows
/// above it, the nearer one and the farther one.
pub proof fn lemma_bitmap_grows_downwards(
    zp: ZpState,
    contexts: Seq<u8>,
    width: int,
    height: int,
)
    requires
        width >= 1,
        height >= 0,
    ensures
        ({
            let lower = direct_bitmap(zp, contexts, width, height);
            let higher = direct_bitmap(zp, contexts, width, height + 1);
            let row = direct_row(
                Coding { pixels: Seq::empty(), ..lower },
                row_of(lower.pixels, width, 1),
                row_of(lower.pixels, width, 0),
                width,
            );
            &&& lower.pixels.len() == width * height
            &&& row.pixels.len() == width
            &&& higher.pixels == row.pixels + lower.pixels
            &&& higher.zp == row.zp
            &&& higher.contexts == row.contexts
        }),
{
    reveal(direct_bitmap);
    let start = Coding { zp, contexts, pixels: Seq::empty() };
    lemma_direct_rows_split(start, Seq::empty(), Seq::empty(), width, height);
    assert((0 + 1) * width == width && (1 + 1) * width == 2 * width) by (nonlinear_arith);
    lemma_direct_rows_joined(start, Seq::empty(), Seq::empty(), width, height + 1);
    let lower = direct_bitmap(zp, contexts, width, height);
    lemma_direct_row_length(
        Coding { pixels: Seq::empty(), ..lower },
        row_of(lower.pixels, width, 1),
        row_of(lower.pixels, width, 0),
        width,
    );
}

/// Of a bitmap that is coded as a change of another, too, the rows are decoded from the top to
/// the bottom: one more row stands below the others, and lies on the row of the other bitmap
/// below theirs.
pub proof fn lemma_changes_grow_downwards(
    coding: Coding,
    above: Seq<u8>,
    reference: Symbol,
    col_shift: int,
    row_shift: int,
    width: int,
    count: int,
)
    requires
        count >= 1,
        width >= 1,
        above == row_of(coding.pixels, width, 0),
    ensures
        ({
            let before = refined_rows(
                coding,
                above,
                reference,
                col_shift,
                row_shift + 1,
                width,
                count - 1,
            );
            let row = refined_row(
                Coding { pixels: Seq::empty(), ..before },
                row_of(before.pixels, width, 0),
                reference,
                col_shift,
                row_shift,
                width,
            );
            refined_rows(coding, above, reference, col_shift, row_shift, width, count) == (Coding {
                pixels: row.pixels + before.pixels,
                ..row
            })
        }),
    decreases count,
{
    let blank = Coding { pixels: Seq::empty(), ..coding };
    let v = count - 1 + row_shift;
    let row = refined_row(blank, above, reference, col_shift, v, width);
    lemma_refined_row_length(blank, above, reference, col_shift, v, width);
    let next = Coding { pixels: row.pixels + coding.pixels, ..row };
    if count > 1 {
        assert((0 + 1) * width == width && 0 * width == 0) by (nonlinear_arith);
        assert(row_of(next.pixels, width, 0) =~= row.pixels);
        lemma_changes_grow_downwards(
            next,
            row.pixels,
            reference,
            col_shift,
            row_shift,
            width,
            count - 1,
        );
    } else {
        assert(refined_rows(next, row.pixels, reference, col_shift, row_shift, width, 0) == next);
        assert(refined_rows(coding, above, reference, col_shift, row_shift + 1, width, 0)
            == coding);
    }
}

proof fn lemma_refined_row_length(
    coding: Coding,
    above: Seq<u8>,
    reference: Symbol,
    shift: int,
    v: int,
    width: int,
)
    requires
        coding.pixels.len() <= width,
    ensures
        refined_row(coding, above, reference, shift, v, width).pixels.len() == width,
    decreases width - coding.pixels.len(),
{
    let x = coding.pixels.len() as int;
    if x < width {
        lemma_refined_row_length(
            super::bitmaps::code_pixel(
                coding,
                refined_context(above, coding.pixels, x, reference, x + shift, v),
            ),
            above,
            reference,
            shift,
            v,
            width,
        );
    }
}

proof fn lemma_refined_rows_split(
    coding: Coding,
    above: Seq<u8>,
    reference: Symbol,
    col_shift: int,
    row_shift: int,
    width: int,
    count: int,
)
    requires
        count >= 0,
        width >= 0,
    ensures
        ({
            let all = refined_rows(coding, above, reference, col_shift, row_shift, width, count);
            &&& all.pixels.len() == coding.pixels.len() + width * count
            &&& forall|i: int|
                0 <= i < coding.pixels.len() ==> #[trigger] all.pixels[i + width * count]
                    == coding.pixels[i]
        }),
    decreases count,
{
    if count > 0 {
        let blank = Coding { pixels: Seq::empty(), ..coding };
        let v = count - 1 + row_shift;
        let row = refined_row(blank, above, reference, col_shift, v, width);
        lemma_refined_row_length(blank, above, reference, col_shift, v, width);
        let next = Coding { pixels: row.pixels + coding.pixels, ..row };
        lemma_refined_rows_split(
            next,
            row.pixels,
            reference,
            col_shift,
            row_shift,
            width,
            count - 1,
        );
        assert(width * (count - 1) + width == width * count) by (nonlinear_arith);
        let all = refined_rows(coding, above, reference, col_shift, row_shift, width, count);
        assert forall|i: int| 0 <= i < coding.pixels.len() implies #[trigger] all.pixels[i + width
            * count] == coding.pixels[i] by {
            assert(next.pixels[i + width] == coding.pixels[i]);
            assert(all.pixels[(i + width) + width * (count - 1)] == next.pixels[i + width]);
        }
    } else {
        assert(width * count == 0) by (nonlinear_arith)
            requires
                count == 0,
        ;
    }
}

/// The top row of a bitmap that is coded as a change of another is decoded first. The middle
/// columns of both bitmaps lie on each other, and so do the middle rows; of an even extent the
/// middle is the lower of the two in question.
pub proof fn lemma_middles_lie_on_each_other(
    zp: ZpState,
    contexts: Seq<u8>,
    reference: Symbol,
    width: int,
    height: int,
    column: int,
    row: int,
    other_column: int,
    other_row: int,
)
    requires
        width >= 1,
        height >= 1,
        width == 2 * column + 1 || width == 2 * column + 2,
        height == 2 * row + 1 || height == 2 * row + 2,
        reference.width == 2 * other_column + 1 || reference.width == 2 * other_column + 2,
        reference.height == 2 * other_row + 1 || reference.height == 2 * other_row + 2,
    ensures
        ({
            let all = refined_bitmap(zp, contexts, width, height, reference);
            let top = refined_row(
                Coding { zp, contexts, pixels: Seq::empty() },
                Seq::empty(),
                reference,
                other_column - column,
                height - 1 + other_row - row,
                width,
            );
            &&& all.pixels.len() == width * height
            &&& all.pixels.skip(width * (height - 1)) == top.pixels
        }),
{
    reveal(refined_bitmap);
    let start = Coding { zp, contexts, pixels: Seq::empty() };
    let (across, up) = (other_column - column, other_row - row);
    let top = refined_row(start, Seq::empty(), reference, across, height - 1 + up, width);
    lemma_refined_row_length(start, Seq::empty(), reference, across, height - 1 + up, width);
    let next = Coding { pixels: top.pixels + Seq::empty(), ..top };
    assert(next.pixels =~= top.pixels);
    lemma_refined_rows_split(next, top.pixels, reference, across, up, width, height - 1);
    assert(width * (height - 1) + width == width * height) by (nonlinear_arith);
    let all = refined_bitmap(zp, contexts, width, height, reference);
    assert(all == refined_rows(next, top.pixels, reference, across, up, width, height - 1));
    assert forall|i: int| 0 <= i < width implies all.pixels.skip(width * (height - 1))[i]
        == #[trigger] top.pixels[i] by {
        assert(all.pixels[i + width * (height - 1)] == next.pixels[i]);
    }
    assert(0 <= width * (height - 1)) by (nonlinear_arith)
        requires
            width >= 1,
            height >= 1,
    ;
    assert(all.pixels.skip(width * (height - 1)) =~= top.pixels);
}

} // verus!
