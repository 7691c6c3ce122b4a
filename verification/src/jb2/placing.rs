//! How the places of symbols on a page hang together.

use super::decoder::{
    jb2_absolute_place, jb2_header, jb2_page_size, jb2_preamble, jb2_relative_place, Jb2State,
};
use super::num::{lemma_num_decode_range, num_decode, NumTree};
use super::symbol::{symbol_wf, Symbol};
use super::{
    jb2_record_kind, jb2_record_symbol, render_record, Jb2ImageHeader,
    Jb2RecordKind, Rendering,
};
use crate::zp::{zp_context_bit, ZpState};
use vstd::prelude::*;

verus! {

/// Whether the next symbol starts a line.
pub open spec fn starts_line(state: Jb2State) -> bool {
    zp_context_bit(state.zp, state.offset_type).0
}

/// Two offsets coded one after the other: along the line, and across it.
pub open spec fn coded_offsets(zp: ZpState, column: NumTree, rise: NumTree) -> (int, int) {
    let (first, next, _) = num_decode(zp, column, -262_143, 262_142);
    (first, num_decode(next, rise, -262_143, 262_142).0)
}

/// The offsets that are coded of a symbol that follows another on its line.
pub open spec fn step_offsets(state: Jb2State) -> (int, int) {
    coded_offsets(
        zp_context_bit(state.zp, state.offset_type).1,
        state.step_column,
        state.step_height,
    )
}

/// The offsets that are coded of a symbol that starts a line.
pub open spec fn line_offsets(state: Jb2State) -> (int, int) {
    coded_offsets(
        zp_context_bit(state.zp, state.offset_type).1,
        state.line_column,
        state.line_height,
    )
}

/// Whether a number is far from the ends of the `i32` range.
pub open spec fn is_small(number: int) -> bool {
    -0x2000_0000 <= number <= 0x2000_0000
}

/// A symbol that follows another on its line is placed from the last column of the one before
/// it, whatever was decoded in between: where its coded offset is 1, it starts in the column
/// right behind that symbol, and where it is larger, as many columns farther.
pub proof fn lemma_next_on_line(
    state: Jb2State,
    width: i32,
    height: i32,
    between: Jb2State,
    next_width: i32,
    next_height: i32,
)
    requires
        ({
            let (after, x, y) = jb2_relative_place(state, width, height);
            &&& between.layout == after.layout
            &&& !starts_line(between)
            &&& is_small(x as int)
            &&& is_small(width as int)
        }),
    ensures
        ({
            let (after, x, y) = jb2_relative_place(state, width, height);
            let (last, next_x, next_y) = jb2_relative_place(between, next_width, next_height);
            let offset = step_offsets(between).0;
            &&& next_x == x + width - 1 + offset
            &&& offset == 1 ==> next_x == x + width
            &&& offset >= 1 ==> next_x >= x + width
            &&& offset <= 0 ==> next_x < x + width
        }),
{
    reveal(jb2_relative_place);
    lemma_step_range(between);
}

/// The first symbol behind that which starts a line, and the second, are placed in height from
/// the symbol that starts the line.
pub proof fn lemma_height_on_line(
    state: Jb2State,
    width: i32,
    height: i32,
    second_width: i32,
    second_height: i32,
    third_width: i32,
    third_height: i32,
)
    requires
        state.layout.baseline.wf(),
        starts_line(state),
        ({
            let (first, x, y) = jb2_relative_place(state, width, height);
            !starts_line(first) && is_small(y as int)
        }),
    ensures
        ({
            let (first, x, y) = jb2_relative_place(state, width, height);
            let (second, second_x, second_y) = jb2_relative_place(
                first,
                second_width,
                second_height,
            );
            let (third, third_x, third_y) = jb2_relative_place(second, third_width, third_height);
            &&& second_y == y + step_offsets(first).1
            &&& !starts_line(second) ==> third_y == y + step_offsets(second).1
        }),
{
    reveal(jb2_relative_place);
    let (first, x, y) = jb2_relative_place(state, width, height);
    let (second, second_x, second_y) = jb2_relative_place(first, second_width, second_height);
    lemma_step_range(first);
    lemma_step_range(second);
    first.layout.baseline.lemma_median(y);
    second.layout.baseline.lemma_median(y);
}

/// Behind three symbols of a line the next is placed in height from the middle one of their
/// three heights: two of them are not above it, and two are not below it.
pub proof fn lemma_height_from_middle(state: Jb2State, sizes: Seq<(i32, i32)>)
    requires
        state.layout.baseline.wf(),
        sizes.len() == 4,
        ({
            let (first, x1, y1) = jb2_relative_place(state, sizes[0].0, sizes[0].1);
            let (second, x2, y2) = jb2_relative_place(first, sizes[1].0, sizes[1].1);
            let (third, x3, y3) = jb2_relative_place(second, sizes[2].0, sizes[2].1);
            &&& !starts_line(first) && !starts_line(second) && !starts_line(third)
            &&& is_small(y1 as int) && is_small(y2 as int) && is_small(y3 as int)
        }),
    ensures
        ({
            let (first, x1, y1) = jb2_relative_place(state, sizes[0].0, sizes[0].1);
            let (second, x2, y2) = jb2_relative_place(first, sizes[1].0, sizes[1].1);
            let (third, x3, y3) = jb2_relative_place(second, sizes[2].0, sizes[2].1);
            let (fourth, x4, y4) = jb2_relative_place(third, sizes[3].0, sizes[3].1);
            let middle = y4 - step_offsets(third).1;
            &&& middle == y1 || middle == y2 || middle == y3
            &&& (y1 <= middle && y2 <= middle) || (y1 <= middle && y3 <= middle) || (y2 <= middle
                && y3 <= middle)
            &&& (y1 >= middle && y2 >= middle) || (y1 >= middle && y3 >= middle) || (y2 >= middle
                && y3 >= middle)
        }),
{
    reveal(jb2_relative_place);
    let (first, x1, y1) = jb2_relative_place(state, sizes[0].0, sizes[0].1);
    let (second, x2, y2) = jb2_relative_place(first, sizes[1].0, sizes[1].1);
    let (third, x3, y3) = jb2_relative_place(second, sizes[2].0, sizes[2].1);
    lemma_step_range(third);
    let baseline = third.layout.baseline;
    let (a, b, c) = (baseline.first, baseline.second, baseline.third);
    let middle: i32 = if (a >= b && a <= c) || (a <= b && a >= c) {
        a
    } else if (b >= a && b <= c) || (b <= a && b >= c) {
        b
    } else {
        c
    };
    baseline.lemma_median(middle);
}

proof fn lemma_step_range(state: Jb2State)
    ensures
        -262_143 <= step_offsets(state).0 <= 262_142,
        -262_143 <= step_offsets(state).1 <= 262_142,
{
    let zp = zp_context_bit(state.zp, state.offset_type).1;
    lemma_num_decode_range(zp, state.step_column, -262_143, 262_142);
    lemma_num_decode_range(
        num_decode(zp, state.step_column, -262_143, 262_142).1,
        state.step_height,
        -262_143,
        262_142,
    );
}

proof fn lemma_line_range(state: Jb2State)
    ensures
        -262_143 <= line_offsets(state).0 <= 262_142,
        -262_143 <= line_offsets(state).1 <= 262_142,
{
    let zp = zp_context_bit(state.zp, state.offset_type).1;
    lemma_num_decode_range(zp, state.line_column, -262_143, 262_142);
    lemma_num_decode_range(
        num_decode(zp, state.line_column, -262_143, 262_142).1,
        state.line_height,
        -262_143,
        262_142,
    );
}

/// The state after symbols of the given sizes.
pub open spec fn after_symbols(state: Jb2State, sizes: Seq<(i32, i32)>) -> Jb2State
    decreases sizes.len(),
{
    if sizes.len() == 0 {
        state
    } else {
        jb2_relative_place(after_symbols(state, sizes.drop_last()), sizes.last().0, sizes.last().1).0
    }
}

/// Whether symbols of the given sizes all stay on the line.
pub open spec fn stay_on_line(state: Jb2State, sizes: Seq<(i32, i32)>) -> bool
    decreases sizes.len(),
{
    sizes.len() == 0 || (stay_on_line(state, sizes.drop_last()) && !starts_line(
        after_symbols(state, sizes.drop_last()),
    ))
}

proof fn lemma_line_kept(state: Jb2State, sizes: Seq<(i32, i32)>)
    requires
        stay_on_line(state, sizes),
    ensures
        after_symbols(state, sizes).layout.first_left == state.layout.first_left,
        after_symbols(state, sizes).layout.first_bottom == state.layout.first_bottom,
    decreases sizes.len(),
{
    reveal(jb2_relative_place);
    if sizes.len() > 0 {
        lemma_line_kept(state, sizes.drop_last());
    }
}

/// A symbol that starts a line is placed from the symbol that started the line before it,
/// however many symbols that line holds: its left column from the left column of the other,
/// and its top row from the bottom row of the other.
pub proof fn lemma_next_line(
    state: Jb2State,
    width: i32,
    height: i32,
    line: Seq<(i32, i32)>,
    next_width: i32,
    next_height: i32,
)
    requires
        starts_line(state),
        ({
            let (first, x, y) = jb2_relative_place(state, width, height);
            let last = after_symbols(first, line);
            &&& stay_on_line(first, line)
            &&& starts_line(last)
            &&& is_small(x as int) && is_small(y as int) && is_small(next_height as int)
        }),
    ensures
        ({
            let (first, x, y) = jb2_relative_place(state, width, height);
            let last = after_symbols(first, line);
            let (next, next_x, next_y) = jb2_relative_place(last, next_width, next_height);
            let (column, rise) = line_offsets(last);
            &&& next_x == x + column
            &&& next_y + next_height - 1 == y + rise
        }),
{
    reveal(jb2_relative_place);
    let (first, x, y) = jb2_relative_place(state, width, height);
    lemma_line_kept(first, line);
    lemma_line_range(after_symbols(first, line));
}

/// The first symbol of a page that starts a line is placed from the upper left corner of the
/// page: an offset of 1 puts its left column into the first column of the page, and an offset
/// of 0 puts its top row into the top row of the page.
pub proof fn lemma_first_on_page(state: Jb2State, width: i32, height: i32)
    requires
        jb2_header(state).1 is Ok,
        starts_line(jb2_header(state).0),
        is_small(height as int),
    ensures
        ({
            let (after, header) = jb2_header(state);
            let (next, x, y) = jb2_relative_place(after, width, height);
            let (column, rise) = line_offsets(after);
            &&& x == column - 1
            &&& y + height == header->Ok_0.height + rise
        }),
{
    reveal(jb2_relative_place);
    let (after, header) = jb2_header(state);
    lemma_line_range(after);
    lemma_size_range(jb2_preamble(state).0);
}

/// A page has between 1 and 262142 columns and rows.
pub proof fn lemma_page_size(state: Jb2State)
    requires
        jb2_header(state).1 is Ok,
    ensures
        ({
            let header = jb2_header(state).1->Ok_0;
            1 <= header.width <= 262_142 && 1 <= header.height <= 262_142
        }),
{
    lemma_size_range(jb2_preamble(state).0);
}

proof fn lemma_size_range(state: Jb2State)
    ensures
        1 <= jb2_page_size(state).1 <= 262_142,
        1 <= jb2_page_size(state).2 <= 262_142,
{
    lemma_num_decode_range(state.zp, state.image_size, 0, 262_142);
    let (width, zp, tree) = num_decode(state.zp, state.image_size, 0, 262_142);
    lemma_num_decode_range(zp, tree, 0, 262_142);
}

/// A bitmap that is no symbol is placed by the column and the row of its upper left corner,
/// both counted from 1, from the left and from the bottom of the page; that corner lies on
/// the page.
pub proof fn lemma_absolute_place(state: Jb2State, header: Jb2ImageHeader, height: i32)
    requires
        1 <= header.width <= 262_142,
        1 <= header.height <= 262_142,
        0 <= height,
    ensures
        ({
            let (next, x, y) = jb2_absolute_place(state, header, height);
            let (column, zp, _) = num_decode(
                state.zp,
                state.absolute_column,
                1,
                header.width as int,
            );
            let row = num_decode(zp, state.absolute_height, 1, header.height as int).0;
            &&& x + 1 == column
            &&& y + height == row
            &&& 0 <= x < header.width
            &&& 1 <= y + height <= header.height
            &&& next.layout == state.layout
        }),
{
    lemma_num_decode_range(state.zp, state.absolute_column, 1, header.width as int);
    let zp = num_decode(state.zp, state.absolute_column, 1, header.width as int).1;
    lemma_num_decode_range(zp, state.absolute_height, 1, header.height as int);
}

/// Decoding a bitmap leaves the layout of the page as it is.
proof fn lemma_layout_kept(state: Jb2State, dictionary: Seq<Symbol>, kind: Jb2RecordKind)
    ensures
        jb2_record_symbol(state, dictionary, kind).0.layout == state.layout,
        jb2_record_kind(state).0.layout == state.layout,
{
}

/// Where two records one after the other each paint a symbol, and the second symbol follows
/// on the line of the first, the second stands in the column right behind the first if its
/// coded offset is 1, and as many columns farther as its offset is larger. So say the
/// summaries of the two records.
pub proof fn lemma_records_on_line(
    run: Rendering,
    header: Jb2ImageHeader,
    index: int,
    over_resets: bool,
)
    requires
        paints_symbol(run, header, index, over_resets),
        ({
            let next = render_record(run, header, index, over_resets)->Ok_0.0;
            &&& paints_symbol(next, header, index + 1, over_resets)
            &&& !starts_line(record_fetched(next).0)
            &&& symbol_wf(record_fetched(run).1->Ok_0)
            &&& is_small(next.records.last().x->Some_0 as int)
            &&& is_small(next.records.last().symbol_width->Some_0 as int)
        }),
    ensures
        ({
            let next = render_record(run, header, index, over_resets)->Ok_0.0;
            let last = render_record(next, header, index + 1, over_resets)->Ok_0.0;
            &&& last.records.len() == run.records.len() + 2
            &&& last.records.last().x->Some_0 == next.records.last().x->Some_0
                + next.records.last().symbol_width->Some_0 - 1 + step_offsets(
                record_fetched(next).0,
            ).0
        }),
{
    let next = render_record(run, header, index, over_resets)->Ok_0.0;
    let kind = jb2_record_kind(run.state).1;
    let (fetched, symbol) = (record_fetched(run).0, record_fetched(run).1->Ok_0);
    let next_symbol = record_fetched(next).1->Ok_0;
    lemma_layout_kept(run.state, run.dictionary, kind);
    lemma_layout_kept(next.state, next.dictionary, kind);
    lemma_layout_kept(
        jb2_record_kind(next.state).0,
        next.dictionary,
        jb2_record_kind(next.state).1,
    );
    lemma_next_on_line(
        fetched,
        symbol.width as i32,
        symbol.height as i32,
        record_fetched(next).0,
        next_symbol.width as i32,
        next_symbol.height as i32,
    );
}

/// The bitmap that the next record brings, and the state after it.
pub open spec fn record_fetched(run: Rendering) -> (Jb2State, Result<Symbol, Seq<char>>) {
    let (state, kind) = jb2_record_kind(run.state);
    jb2_record_symbol(state, run.dictionary, kind)
}

/// Whether the next record paints a symbol.
pub open spec fn paints_symbol(
    run: Rendering,
    header: Jb2ImageHeader,
    index: int,
    over_resets: bool,
) -> bool {
    let kind = jb2_record_kind(run.state).1;
    &&& kind is NewSymbolAddAndBlit || kind is NewSymbolBlitOnly || kind is MatchedRefineAddAndBlit
        || kind is MatchedRefineBlitOnly || kind is MatchedCopyBlitOnly
    &&& render_record(run, header, index, over_resets) is Ok
}

} // verus!
