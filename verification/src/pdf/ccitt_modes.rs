//! What the codes of a row of an image say, and that they lead back to the row.

use crate::pdf::ccitt::{
    change_from, change_to, code_bits, is_change, lemma_change_from_range, lemma_change_to_range,
    row_bits, run_bits, vertical_bits,
};
use vstd::prelude::*;

verus! {

/// What a code says of a row: that its next change lies beyond the next two of the row
/// above, how far it lies from the next of them, or how long the next two runs are.
pub enum RowMode {
    Pass,
    Vertical { offset: int },
    Horizontal { first: int, second: int },
}

/// The modes of a row, given the row above it, from a place on.
pub open spec fn row_modes(row: Seq<bool>, above: Seq<bool>, a0: int, color: bool) -> Seq<RowMode>
    decreases row.len() - a0,
{
    let run_start = if a0 < 0 {
        0
    } else {
        a0
    };
    let a1 = change_from(row, a0 + 1);
    let b1 = change_to(above, a0 + 1, !color);
    let b2 = change_to(above, b1 + 1, color);
    if run_start >= row.len() || a0 < -1 || above.len() != row.len() {
        Seq::empty()
    } else {
        proof {
            lemma_change_from_range(row, a0 + 1);
            lemma_change_to_range(above, a0 + 1, !color);
            lemma_change_to_range(above, b1 + 1, color);
            lemma_change_from_range(row, a1 + 1);
        }
        if b2 < a1 {
            seq![RowMode::Pass] + row_modes(row, above, b2, color)
        } else if -3 <= a1 - b1 <= 3 {
            seq![RowMode::Vertical { offset: a1 - b1 }] + row_modes(row, above, a1, !color)
        } else {
            let a2 = change_from(row, a1 + 1);
            seq![RowMode::Horizontal { first: a1 - run_start, second: a2 - a1 }] + row_modes(
                row,
                above,
                a2,
                color,
            )
        }
    }
}

/// The codes of modes, from a colour on.
pub open spec fn modes_bits(modes: Seq<RowMode>, color: bool) -> Seq<bool>
    decreases modes.len(),
{
    if modes.len() == 0 {
        Seq::empty()
    } else {
        let rest = modes.drop_first();
        match modes[0] {
            RowMode::Pass => code_bits(1, 4) + modes_bits(rest, color),
            RowMode::Vertical { offset } => vertical_bits(offset) + modes_bits(rest, !color),
            RowMode::Horizontal { first, second } => code_bits(1, 3) + run_bits(first, color)
                + run_bits(second, !color) + modes_bits(rest, color),
        }
    }
}

/// So many pixels of a colour; none for a number below 0.
pub open spec fn run_of(len: int, color: bool) -> Seq<bool> {
    Seq::new(
        if len > 0 {
            len as nat
        } else {
            0
        },
        |i: int| color,
    )
}

/// The pixels that modes stand for, given the row above, from a place on.
pub open spec fn painted_row(
    modes: Seq<RowMode>,
    above: Seq<bool>,
    a0: int,
    color: bool,
) -> Seq<bool>
    decreases modes.len(),
{
    let run_start = if a0 < 0 {
        0
    } else {
        a0
    };
    let b1 = change_to(above, a0 + 1, !color);
    if modes.len() == 0 {
        Seq::empty()
    } else {
        let rest = modes.drop_first();
        match modes[0] {
            RowMode::Pass => {
                let b2 = change_to(above, b1 + 1, color);
                run_of(b2 - run_start, color) + painted_row(rest, above, b2, color)
            },
            RowMode::Vertical { offset } => run_of(b1 + offset - run_start, color) + painted_row(
                rest,
                above,
                b1 + offset,
                !color,
            ),
            RowMode::Horizontal { first, second } => run_of(first, color) + run_of(
                second,
                !color,
            ) + painted_row(rest, above, run_start + first + second, color),
        }
    }
}

/// The code of a row is that of its modes.
pub proof fn lemma_row_is_coded_by_modes(
    row: Seq<bool>,
    above: Seq<bool>,
    a0: int,
    color: bool,
)
    ensures
        row_bits(row, above, a0, color) == modes_bits(row_modes(row, above, a0, color), color),
    decreases row.len() - a0,
{
    let run_start = if a0 < 0 {
        0
    } else {
        a0
    };
    if !(run_start >= row.len() || a0 < -1 || above.len() != row.len()) {
        let a1 = change_from(row, a0 + 1);
        let b1 = change_to(above, a0 + 1, !color);
        let b2 = change_to(above, b1 + 1, color);
        lemma_change_from_range(row, a0 + 1);
        lemma_change_to_range(above, a0 + 1, !color);
        lemma_change_to_range(above, b1 + 1, color);
        lemma_change_from_range(row, a1 + 1);
        let modes = row_modes(row, above, a0, color);
        if b2 < a1 {
            assert(modes.drop_first() =~= row_modes(row, above, b2, color));
            lemma_row_is_coded_by_modes(row, above, b2, color);
        } else if -3 <= a1 - b1 <= 3 {
            assert(modes.drop_first() =~= row_modes(row, above, a1, !color));
            lemma_row_is_coded_by_modes(row, above, a1, !color);
        } else {
            let a2 = change_from(row, a1 + 1);
            assert(modes.drop_first() =~= row_modes(row, above, a2, color));
            lemma_row_is_coded_by_modes(row, above, a2, color);
        }
    }
}

/// Up to the next change a row keeps its colour, and takes the other there.
proof fn lemma_run(row: Seq<bool>, start: int, color: bool)
    requires
        0 <= start <= row.len(),
        color == (start > 0 && row[start - 1]),
    ensures
        forall|i: int| start <= i < change_from(row, start) ==> #[trigger] row[i] == color,
        change_from(row, start) < row.len() ==> row[change_from(row, start)] == !color,
    decreases row.len() - start,
{
    if start < row.len() && !is_change(row, start) {
        lemma_run(row, start + 1, color);
    }
}

/// A row goes on from a place with a run of one colour, and with what follows that.
proof fn lemma_run_and_rest(row: Seq<bool>, start: int, end: int, color: bool)
    requires
        0 <= start <= end <= row.len(),
        forall|i: int| start <= i < end ==> #[trigger] row[i] == color,
    ensures
        run_of(end - start, color) + row.skip(end) == row.skip(start),
{
    assert(run_of(end - start, color) + row.skip(end) =~= row.skip(start));
}

/// The modes of a row lead back to it.
#[verifier::spinoff_prover]
pub proof fn lemma_row_read_back(row: Seq<bool>, above: Seq<bool>, a0: int, color: bool)
    requires
        above.len() == row.len(),
        -1 <= a0 <= row.len(),
        a0 < row.len() ==> color == (a0 >= 0 && row[a0]),
    ensures
        painted_row(row_modes(row, above, a0, color), above, a0, color) == row.skip(
            if a0 < 0 {
                0
            } else {
                a0
            },
        ),
    decreases row.len() - a0,
{
    let run_start = if a0 < 0 {
        0
    } else {
        a0
    };
    let modes = row_modes(row, above, a0, color);
    if run_start >= row.len() {
        assert(row.skip(run_start) =~= Seq::empty());
    } else {
        let a1 = change_from(row, a0 + 1);
        let b1 = change_to(above, a0 + 1, !color);
        let b2 = change_to(above, b1 + 1, color);
        lemma_change_from_range(row, a0 + 1);
        lemma_change_to_range(above, a0 + 1, !color);
        lemma_change_to_range(above, b1 + 1, color);
        lemma_change_from_range(row, a1 + 1);
        lemma_run(row, a0 + 1, color);
        if b2 < a1 {
            assert(modes.drop_first() =~= row_modes(row, above, b2, color));
            lemma_row_read_back(row, above, b2, color);
            lemma_run_and_rest(row, run_start, b2, color);
        } else if -3 <= a1 - b1 <= 3 {
            assert(modes.drop_first() =~= row_modes(row, above, a1, !color));
            lemma_row_read_back(row, above, a1, !color);
            lemma_run_and_rest(row, run_start, a1, color);
        } else {
            let a2 = change_from(row, a1 + 1);
            assert(modes.drop_first() =~= row_modes(row, above, a2, color));
            if a1 < row.len() {
                lemma_run(row, a1 + 1, !color);
            }
            lemma_row_read_back(row, above, a2, color);
            lemma_run_and_rest(row, a1, a2, !color);
            lemma_run_and_rest(row, run_start, a1, color);
            assert(run_of(a1 - run_start, color) + run_of(a2 - a1, !color) + row.skip(a2)
                =~= run_of(a1 - run_start, color) + (run_of(a2 - a1, !color) + row.skip(a2)));
        }
    }
}

} // verus!
