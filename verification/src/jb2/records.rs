//! What each record of an image does to the page and to the dictionary.

use super::decoder::{
    jb2_copied_symbol, jb2_direct_symbol, jb2_header, jb2_record_type, jb2_refined_symbol,
    jb2_skip_octets, record_kind, Jb2State,
};
use super::num::num_decode;
use super::placing::record_fetched;
use super::symbol::{blit, blit_dest_row, blit_row, blit_rows, symbol_ink, symbol_wf, Symbol};
use super::{
    dictionary_records, inherited_symbols, jb2_dictionary, jb2_prefix, jb2_render, jb2_start, prefix_records,
    render_record, render_records, Jb2ImageHeader, Jb2RecordKind, Jb2RecordSummary, Rendering,
};
use crate::bitonal::{lemma_pixel_index, lemma_pixel_index_unique};
use crate::zp::zp_context_bit;
use vstd::prelude::*;

verus! {

proof fn lemma_row_painted(
    page: Seq<bool>,
    page_width: int,
    page_height: int,
    symbol: Symbol,
    x: i32,
    dest_y: int,
    source_y: int,
    source_x: int,
    column: int,
    row: int,
)
    requires
        0 <= column < page_width,
        0 <= row < page_height,
        0 <= dest_y < page_height,
        page.len() >= page_width * page_height,
        symbol_wf(symbol),
        symbol.width <= 0x2000_0000,
        -0x2000_0000 <= x <= 0x2000_0000,
        0 <= source_x <= symbol.width,
    ensures
        ({
            let after = blit_row(page, page_width, symbol, x, dest_y, source_y, source_x);
            &&& after.len() == page.len()
            &&& after[row * page_width + column] == (page[row * page_width + column] || (row
                == dest_y && column - x >= source_x && symbol_ink(symbol, column - x, source_y)))
        }),
    decreases symbol.width - source_x,
{
    lemma_pixel_index(page_width, page_height, column, row);
    if source_x < symbol.width {
        let dest_x = x.wrapping_add(source_x as i32) as int;
        assert(dest_x == x + source_x);
        let painted = if symbol_ink(symbol, source_x, source_y) && 0 <= dest_x < page_width {
            page.update(dest_y * page_width + dest_x, true)
        } else {
            page
        };
        if 0 <= dest_x < page_width {
            lemma_pixel_index(page_width, page_height, dest_x, dest_y);
            if dest_y * page_width + dest_x == row * page_width + column {
                lemma_pixel_index_unique(page_width, column, row, dest_x, dest_y);
            }
        }
        lemma_row_painted(
            painted,
            page_width,
            page_height,
            symbol,
            x,
            dest_y,
            source_y,
            source_x + 1,
            column,
            row,
        );
    }
}

proof fn lemma_rows_painted(
    page: Seq<bool>,
    page_width: int,
    page_height: int,
    symbol: Symbol,
    x: i32,
    y: i32,
    source_y: int,
    column: int,
    row: int,
)
    requires
        0 <= column < page_width,
        0 <= row < page_height <= 0x2000_0000,
        page.len() >= page_width * page_height,
        symbol_wf(symbol),
        symbol.width <= 0x2000_0000,
        symbol.height <= 0x2000_0000,
        -0x2000_0000 <= x <= 0x2000_0000,
        -0x2000_0000 <= y <= 0x2000_0000,
        0 <= source_y <= symbol.height,
    ensures
        ({
            let after = blit_rows(page, page_width, page_height, symbol, x, y, source_y);
            let height = page_height - 1 - row;
            &&& after.len() == page.len()
            &&& after[row * page_width + column] == (page[row * page_width + column] || (height - y
                >= source_y && symbol_ink(symbol, column - x, height - y)))
        }),
    decreases symbol.height - source_y,
{
    if source_y < symbol.height {
        let dest_y = blit_dest_row(page_height, y as int, source_y);
        assert(dest_y == page_height - 1 - y - source_y);
        let painted = if 0 <= dest_y < page_height {
            blit_row(page, page_width, symbol, x, dest_y, source_y, 0)
        } else {
            page
        };
        if 0 <= dest_y < page_height {
            lemma_row_painted(
                page,
                page_width,
                page_height,
                symbol,
                x,
                dest_y,
                source_y,
                0,
                column,
                row,
            );
        }
        lemma_rows_painted(
            painted,
            page_width,
            page_height,
            symbol,
            x,
            y,
            source_y + 1,
            column,
            row,
        );
    }
}

/// Painting a symbol blackens exactly the pixels under its ink: with its lower left corner in
/// column `x` at height `y`, both counted from the lower left corner of the page, a pixel of the
/// page turns black if the symbol has ink as far to the right of its corner and as far above it.
/// Every other pixel stays as it was.
pub proof fn lemma_ink_on_page(
    page: Seq<bool>,
    page_width: int,
    page_height: int,
    symbol: Symbol,
    x: i32,
    y: i32,
    column: int,
    height: int,
)
    requires
        0 <= column < page_width,
        0 <= height < page_height <= 0x2000_0000,
        page.len() >= page_width * page_height,
        symbol_wf(symbol),
        symbol.width <= 0x2000_0000,
        symbol.height <= 0x2000_0000,
        -0x2000_0000 <= x <= 0x2000_0000,
        -0x2000_0000 <= y <= 0x2000_0000,
    ensures
        ({
            let after = blit(page, page_width, page_height, symbol, x, y);
            let pixel = (page_height - 1 - height) * page_width + column;
            &&& after.len() == page.len()
            &&& after[pixel] <==> page[pixel] || symbol_ink(symbol, column - x, height - y)
        }),
{
    reveal(blit);
    lemma_rows_painted(
        page,
        page_width,
        page_height,
        symbol,
        x,
        y,
        0,
        column,
        page_height - 1 - height,
    );
}

/// What a record does goes by its number. Numbers 1, 2, 4 and 5 add one symbol to the
/// dictionary, and no other number changes it. Numbers 1, 3, 4, 6, 7 and 8 paint, and no other
/// number changes the page or has a place. Number 11 ends the image, and so does number 9 where
/// such records are not gone over. Number 9 alone is not reported.
pub proof fn lemma_records_by_number(
    run: Rendering,
    header: Jb2ImageHeader,
    index: int,
    over_resets: bool,
)
    requires
        render_record(run, header, index, over_resets) is Ok,
    ensures
        ({
            let number = jb2_record_type(run.state).1;
            let (next, end) = render_record(run, header, index, over_resets)->Ok_0;
            let adds = number == 1 || number == 2 || number == 4 || number == 5;
            let paints = number == 1 || number == 3 || number == 4 || number == 6 || number == 7
                || number == 8;
            &&& 0 <= number <= 11
            &&& adds ==> next.dictionary.len() == run.dictionary.len() + 1
                && next.dictionary.drop_last() == run.dictionary
            &&& !adds ==> next.dictionary == run.dictionary
            &&& !paints ==> next.page == run.page
            &&& number == 9 ==> next.records == run.records
            &&& number != 9 ==> {
                &&& next.records.len() == run.records.len() + 1
                &&& next.records.drop_last() == run.records
                &&& paints <==> next.records.last().x is Some
                &&& paints <==> next.records.last().y is Some
                &&& adds || paints <==> next.records.last().symbol_width is Some
                &&& adds || paints <==> next.records.last().symbol_height is Some
            }
            &&& end is Some <==> number == 11 || (number == 9 && !over_resets)
            &&& end is Some && end->Some_0 is EndOfData <==> number == 11
        }),
{
    super::num::lemma_num_decode_range(run.state.zp, run.state.record_type, 0, 11);
    let (next, end) = render_record(run, header, index, over_resets)->Ok_0;
    let number = jb2_record_type(run.state).1;
    if number == 1 || number == 2 || number == 4 || number == 5 {
        assert(next.dictionary.drop_last() =~= run.dictionary);
    }
    if number != 9 {
        assert(next.records.drop_last() =~= run.records);
    }
}

/// The summary of a record that paints says what was painted and where: a pixel of the page is
/// black after the record if it was before, or if the symbol has ink there when its lower left
/// corner lies in the place that the summary gives; and the symbol has the size that it gives.
pub proof fn lemma_summary_says_what_was_painted(
    run: Rendering,
    header: Jb2ImageHeader,
    index: int,
    over_resets: bool,
    column: int,
    height: int,
)
    requires
        render_record(run, header, index, over_resets) is Ok,
        render_record(run, header, index, over_resets)->Ok_0.0.records.len() > run.records.len(),
        ({
            let summary = render_record(run, header, index, over_resets)->Ok_0.0.records.last();
            let symbol = record_fetched(run).1->Ok_0;
            &&& summary.x is Some && summary.y is Some
            &&& -0x2000_0000 <= summary.x->Some_0 <= 0x2000_0000
            &&& -0x2000_0000 <= summary.y->Some_0 <= 0x2000_0000
            &&& symbol_wf(symbol)
            &&& symbol.width <= 0x2000_0000 && symbol.height <= 0x2000_0000
        }),
        header.height <= 0x2000_0000,
        run.page.len() >= header.width * header.height,
        0 <= column < header.width,
        0 <= height < header.height,
    ensures
        ({
            let next = render_record(run, header, index, over_resets)->Ok_0.0;
            let summary = next.records.last();
            let symbol = record_fetched(run).1->Ok_0;
            let pixel = (header.height - 1 - height) * header.width + column;
            &&& summary.symbol_width == Some(symbol.width as u32)
            &&& summary.symbol_height == Some(symbol.height as u32)
            &&& summary.index == index as usize
            &&& next.page[pixel] <==> run.page[pixel] || symbol_ink(
                symbol,
                column - summary.x->Some_0,
                height - summary.y->Some_0,
            )
        }),
{
    let next = render_record(run, header, index, over_resets)->Ok_0.0;
    let summary = next.records.last();
    lemma_ink_on_page(
        run.page,
        header.width as int,
        header.height as int,
        record_fetched(run).1->Ok_0,
        summary.x->Some_0,
        summary.y->Some_0,
        column,
        height,
    );
}

proof fn lemma_prefix_from(
    run: Rendering,
    header: Jb2ImageHeader,
    index: int,
    limit: int,
    over_resets: bool,
)
    requires
        prefix_records(run.state, header, run.records, index, limit) is Ok,
        prefix_records(run.state, header, run.records, index, limit)->Ok_0.1 is None,
    ensures
        render_records(run, header, index, limit, over_resets) is Ok,
        render_records(run, header, index, limit, over_resets)->Ok_0.0.records == prefix_records(
            run.state,
            header,
            run.records,
            index,
            limit,
        )->Ok_0.0,
    decreases limit - index,
{
    if index < limit {
        let (next, end) = render_record(run, header, index, over_resets)->Ok_0;
        if end is None {
            lemma_prefix_from(next, header, index + 1, limit, over_resets);
        }
    }
}

/// Reading the first records of an image and painting them give the same summaries, as long as
/// no record needs a dictionary.
pub proof fn lemma_prefix_agrees_with_painting(bytes: Seq<u8>, limit: int)
    requires
        jb2_prefix(bytes, limit) is Ok,
        jb2_prefix(bytes, limit)->Ok_0.2 is None,
        jb2_prefix(bytes, limit)->Ok_0.0.inherited_dictionary_symbols == 0,
        jb2_prefix(bytes, limit)->Ok_0.0.width * jb2_prefix(bytes, limit)->Ok_0.0.height
            <= usize::MAX,
    ensures
        jb2_render(bytes, limit, None) is Ok,
        jb2_render(bytes, limit, None)->Ok_0.0 == jb2_prefix(bytes, limit)->Ok_0.0,
        jb2_render(bytes, limit, None)->Ok_0.1.records == jb2_prefix(bytes, limit)->Ok_0.1,
{
    let (state, outcome) = jb2_header(jb2_start(bytes));
    let header = outcome->Ok_0;
    lemma_prefix_from(
        Rendering {
            state,
            page: super::blank_page(header),
            dictionary: Seq::empty(),
            records: Seq::empty(),
        },
        header,
        0,
        limit,
        false,
    );
}

/// The header of an image is coded as its width, its height and a flag that is not set, behind
/// record number 0; a width or height that is coded as 0 stands for 200. Before all that,
/// behind record number 9, may stand how many symbols the image inherits.
pub proof fn lemma_header_fields(state: Jb2State)
    requires
        jb2_header(state).1 is Ok,
    ensures
        ({
            let header = jb2_header(state).1->Ok_0;
            let (first, zp, tree) = num_decode(state.zp, state.record_type, 0, 11);
            let (count, counted, _) = num_decode(zp, state.inherited_size, 0, 262_142);
            let (second, renewed, _) = num_decode(counted, tree, 0, 11);
            let start = if first == 9 {
                renewed
            } else {
                zp
            };
            let (width, widened, sizes) = num_decode(start, state.image_size, 0, 262_142);
            let (height, heightened, _) = num_decode(widened, sizes, 0, 262_142);
            &&& first == 0 || (first == 9 && second == 0)
            &&& !zp_context_bit(heightened, 0).0
            &&& header.inherited_dictionary_symbols == if first == 9 {
                count
            } else {
                0
            }
            &&& width > 0 ==> header.width == width
            &&& width == 0 ==> header.width == 200
            &&& height > 0 ==> header.height == height
            &&& height == 0 ==> header.height == 200
        }),
{
    let (first, zp, tree) = num_decode(state.zp, state.record_type, 0, 11);
    let (count, counted, _) = num_decode(zp, state.inherited_size, 0, 262_142);
    let (second, renewed, _) = num_decode(counted, tree, 0, 11);
    let start = if first == 9 {
        renewed
    } else {
        zp
    };
    let (width, widened, sizes) = num_decode(start, state.image_size, 0, 262_142);
    super::num::lemma_num_decode_range(zp, state.inherited_size, 0, 262_142);
    super::num::lemma_num_decode_range(start, state.image_size, 0, 262_142);
    super::num::lemma_num_decode_range(widened, sizes, 0, 262_142);
}

proof fn lemma_records_keep_dictionary(
    run: Rendering,
    header: Jb2ImageHeader,
    index: int,
    limit: int,
    over_resets: bool,
)
    requires
        render_records(run, header, index, limit, over_resets) is Ok,
    ensures
        ({
            let after = render_records(run, header, index, limit, over_resets)->Ok_0.0;
            &&& run.dictionary.is_prefix_of(after.dictionary)
            &&& run.records.is_prefix_of(after.records)
        }),
    decreases limit - index,
{
    if index < limit {
        let (next, end) = render_record(run, header, index, over_resets)->Ok_0;
        assert(run.dictionary.is_prefix_of(next.dictionary));
        assert(run.records.is_prefix_of(next.records));
        if end is None {
            lemma_records_keep_dictionary(next, header, index + 1, limit, over_resets);
        }
    }
}

/// An image that inherits symbols has them first in its dictionary, in the order of the shared
/// one, and its own behind them; one that inherits none starts with an empty dictionary.
pub proof fn lemma_inherited_symbols_come_first(
    bytes: Seq<u8>,
    limit: int,
    shared: Option<Seq<Symbol>>,
)
    requires
        jb2_render(bytes, limit, shared) is Ok,
    ensures
        ({
            let (header, run, end) = jb2_render(bytes, limit, shared)->Ok_0;
            let count = header.inherited_dictionary_symbols;
            &&& count > 0 ==> shared is Some
            &&& count <= run.dictionary.len()
            &&& forall|i: int|
                0 <= i < count ==> #[trigger] run.dictionary[i] == shared->Some_0[i]
        }),
{
    let (state, outcome) = jb2_header(jb2_start(bytes));
    let header = outcome->Ok_0;
    let dictionary = inherited_symbols(shared, header.inherited_dictionary_symbols as int)->Ok_0;
    let start = Rendering {
        state,
        page: super::blank_page(header),
        dictionary,
        records: Seq::empty(),
    };
    lemma_records_keep_dictionary(start, header, 0, limit, shared is Some);
    let run = jb2_render(bytes, limit, shared)->Ok_0.1;
    assert forall|i: int| 0 <= i < dictionary.len() implies #[trigger] run.dictionary[i]
        == dictionary[i] by {
        assert(run.dictionary.subrange(0, dictionary.len() as int)[i] == dictionary[i]);
    }
}

proof fn lemma_dictionary_keeps(state: Jb2State, dictionary: Seq<Symbol>, left: int)
    requires
        dictionary_records(state, dictionary, left) is Ok,
    ensures
        dictionary.len() <= dictionary_records(state, dictionary, left)->Ok_0.len(),
        forall|i: int|
            0 <= i < dictionary.len() ==> #[trigger] dictionary_records(state, dictionary, left)->Ok_0[i]
                == dictionary[i],
    decreases left,
{
    if left > 0 {
        let (next, kind) = super::jb2_record_kind(state);
        if kind is NewSymbolAddOnly || kind is MatchedRefineAddOnly {
            let (fetched, outcome) = super::jb2_record_symbol(next, dictionary, kind);
            let grown = dictionary.push(super::symbol::symbol_for_dictionary(outcome->Ok_0));
            lemma_dictionary_keeps(fetched, grown, left - 1);
            assert forall|i: int| 0 <= i < dictionary.len() implies #[trigger] dictionary_records(
                state,
                dictionary,
                left,
            )->Ok_0[i] == dictionary[i] by {
                assert(grown[i] == dictionary[i]);
            }
        } else if kind is RequiredDictOrReset {
            lemma_dictionary_keeps(next, dictionary, left - 1);
        } else if kind is Comment {
            lemma_dictionary_keeps(super::jb2_skip_comment(next), dictionary, left - 1);
        }
    }
}

/// A dictionary that inherits symbols has them first, in their order.
pub proof fn lemma_dictionary_inherits(bytes: Seq<u8>, inherited: Option<Seq<Symbol>>)
    requires
        jb2_dictionary(bytes, inherited) is Ok,
    ensures
        ({
            let symbols = jb2_dictionary(bytes, inherited)->Ok_0;
            let count = jb2_header(jb2_start(bytes)).1->Ok_0.inherited_dictionary_symbols;
            &&& count <= symbols.len()
            &&& forall|i: int| 0 <= i < count ==> #[trigger] symbols[i] == inherited->Some_0[i]
        }),
{
    let (state, outcome) = jb2_header(jb2_start(bytes));
    let header = outcome->Ok_0;
    let dictionary = inherited_symbols(
        inherited,
        header.inherited_dictionary_symbols as int,
    )->Ok_0;
    lemma_dictionary_keeps(state, dictionary, super::RECORD_LIMIT as int);
    assert forall|i: int| 0 <= i < dictionary.len() implies #[trigger] dictionary[i]
        == inherited->Some_0[i] by {}
    let symbols = jb2_dictionary(bytes, inherited)->Ok_0;
    assert forall|i: int|
        0 <= i < header.inherited_dictionary_symbols implies #[trigger] symbols[i]
        == inherited->Some_0[i] by {
        assert(symbols[i] == dictionary[i]);
    }
}

/// What a record of a dictionary does goes by its number. Numbers 2 and 5 add one symbol, numbers
/// 9 and 10 are gone over, number 11 ends the dictionary, and no other number may stand in it.
pub proof fn lemma_dictionary_by_number(state: Jb2State, dictionary: Seq<Symbol>, left: int)
    requires
        left > 0,
    ensures
        ({
            let (next, number) = jb2_record_type(state);
            let outcome = dictionary_records(state, dictionary, left);
            let allowed = number == 2 || number == 5 || 9 <= number <= 11;
            &&& 0 <= number <= 11
            &&& !allowed ==> outcome is Err
            &&& number == 11 ==> outcome == Ok::<Seq<Symbol>, Seq<char>>(dictionary)
            &&& number == 9 ==> outcome == dictionary_records(next, dictionary, left - 1)
            &&& number == 2 || number == 5 ==> (outcome matches Ok(symbols) ==> symbols.len()
                > dictionary.len())
        }),
{
    super::num::lemma_num_decode_range(state.zp, state.record_type, 0, 11);
    let (next, kind) = super::jb2_record_kind(state);
    if kind is NewSymbolAddOnly || kind is MatchedRefineAddOnly {
        let (fetched, outcome) = super::jb2_record_symbol(next, dictionary, kind);
        if outcome is Ok && dictionary_records(state, dictionary, left) is Ok {
            let grown = dictionary.push(super::symbol::symbol_for_dictionary(outcome->Ok_0));
            lemma_dictionary_keeps(fetched, grown, left - 1);
        }
    }
}

/// Reading the first records stops only before a record that needs a dictionary: one with number
/// 4, 5, 6, 7 or 9. It stops before the first of them.
pub proof fn lemma_prefix_stops(
    state: Jb2State,
    header: Jb2ImageHeader,
    records: Seq<Jb2RecordSummary>,
    index: int,
    limit: int,
)
    ensures
        index < limit ==> ({
            let number = jb2_record_type(state).1;
            4 <= number <= 7 || number == 9 ==> prefix_records(
                state,
                header,
                records,
                index,
                limit,
            ) == Ok::<(Seq<Jb2RecordSummary>, Option<Jb2RecordKind>), Seq<char>>(
                (records, Some(record_kind(number))),
            )
        }),
        prefix_records(state, header, records, index, limit) matches Ok((_, Some(kind))) ==> kind is
            MatchedRefineAddAndBlit || kind is MatchedRefineAddOnly || kind is MatchedRefineBlitOnly
            || kind is MatchedCopyBlitOnly || kind is RequiredDictOrReset,
    decreases limit - index,
{
    if index < limit {
        let (next, kind) = super::jb2_record_kind(state);
        if super::stops_prefix(kind) || kind is EndOfData {
        } else if super::brings_bitmap(kind) {
            let (fetched, outcome) = jb2_direct_symbol(next);
            if let Ok(symbol) = outcome {
                let (placed, place) = super::jb2_record_place(fetched, header, kind, symbol);
                lemma_prefix_stops(
                    placed,
                    header,
                    records.push(super::symbol_summary(index, kind, symbol, place)),
                    index + 1,
                    limit,
                );
            }
        } else {
            lemma_prefix_stops(
                if kind is Comment {
                    super::jb2_skip_comment(next)
                } else {
                    next
                },
                header,
                records.push(super::plain_summary(index, kind)),
                index + 1,
                limit,
            );
        }
    }
}

/// A symbol that is coded on its own has the width and the height that are coded before it, the
/// width first; one coded as 0 stands for 200.
pub proof fn lemma_symbol_size(state: Jb2State)
    requires
        jb2_direct_symbol(state).1 is Ok,
    ensures
        ({
            let symbol = jb2_direct_symbol(state).1->Ok_0;
            let (width, zp, _) = num_decode(state.zp, state.symbol_width, 0, 262_142);
            let height = num_decode(zp, state.symbol_height, 0, 262_142).0;
            &&& width > 0 ==> symbol.width == width
            &&& width == 0 ==> symbol.width == 200
            &&& height > 0 ==> symbol.height == height
            &&& height == 0 ==> symbol.height == 200
        }),
{
}

/// A symbol that is coded as a change of one in the dictionary is as much wider and higher than
/// that one as is coded, the difference in width first; the symbol of the dictionary is chosen
/// by a number that counts from 0. A symbol that is copied is chosen in the same way.
pub proof fn lemma_changed_symbol_size(state: Jb2State, dictionary: Seq<Symbol>)
    requires
        0 < dictionary.len() <= 0x7fff_ffff,
        forall|i: int| 0 <= i < dictionary.len() ==> symbol_wf(#[trigger] dictionary[i]),
        forall|i: int|
            0 <= i < dictionary.len() ==> (#[trigger] dictionary[i]).width <= 0x2000_0000
                && dictionary[i].height <= 0x2000_0000,
    ensures
        ({
            let (index, zp, tree) = num_decode(
                state.zp,
                state.symbol_index,
                0,
                dictionary.len() - 1,
            );
            let (wider, next, _) = num_decode(zp, state.width_difference, -262_143, 262_142);
            let higher = num_decode(next, state.height_difference, -262_143, 262_142).0;
            let width = dictionary[index].width + wider;
            let height = dictionary[index].height + higher;
            let outcome = jb2_refined_symbol(state, dictionary).1;
            &&& 0 <= index < dictionary.len()
            &&& jb2_copied_symbol(state, dictionary).1 == Ok::<Symbol, Seq<char>>(
                dictionary[index],
            )
            &&& width < 0 || height < 0 ==> outcome is Err
            &&& width >= 0 && height >= 0 && (width == 0 || height == 0) ==> outcome is Ok
                && outcome->Ok_0.pixels.len() == 0
            &&& width > 0 && height > 0 && width * height <= usize::MAX ==> outcome is Ok
                && outcome->Ok_0.width == width && outcome->Ok_0.height == height
        }),
{
    super::num::lemma_num_decode_range(state.zp, state.symbol_index, 0, dictionary.len() - 1);
    let zp = num_decode(state.zp, state.symbol_index, 0, dictionary.len() - 1).1;
    super::num::lemma_num_decode_range(zp, state.width_difference, -262_143, 262_142);
    let next = num_decode(zp, state.width_difference, -262_143, 262_142).1;
    super::num::lemma_num_decode_range(next, state.height_difference, -262_143, 262_142);
}

/// Comments are gone over byte by byte, each byte a number from 0 to 255; nothing else of the
/// state changes than the coder and the contexts of those bytes.
pub proof fn lemma_comment_bytes(state: Jb2State, count: int)
    requires
        count >= 0,
    ensures
        jb2_skip_octets(state, 0) == state,
        ({
            let (octet, zp, comment_octet) = num_decode(state.zp, state.comment_octet, 0, 255);
            jb2_skip_octets(state, count + 1) == jb2_skip_octets(
                Jb2State { zp, comment_octet, ..state },
                count,
            )
        }),
        ({
            let after = jb2_skip_octets(state, count);
            after == Jb2State { zp: after.zp, comment_octet: after.comment_octet, ..state }
        }),
    decreases count,
{
    if count > 0 {
        let (octet, zp, comment_octet) = num_decode(state.zp, state.comment_octet, 0, 255);
        lemma_comment_bytes(Jb2State { zp, comment_octet, ..state }, count - 1);
    }
}

} // verus!
