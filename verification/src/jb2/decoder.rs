//! The parts of a JB2 stream: header, record types, symbols and their places.

use super::bitmaps::{
    binary, decode_direct_bitmap, decode_refined_bitmap, direct_bitmap, refined_bitmap,
};
use super::num::{decode_num, num_decode, num_tree_root, NumContext, NumTree};
use super::symbol::{
    empty_symbol, is_ink_box, symbol_at, symbol_for_dictionary, symbol_ink, symbol_part, symbol_wf,
    Jb2SymbolBitmap, Symbol,
};
use super::{Jb2Error, Jb2ImageHeader, Jb2RecordKind};
use crate::text::{decimal, push_decimal, text_of};
use crate::zp::{zp_context_bit, zp_start, SpecZpDecoder, ZpState};
use vstd::prelude::*;

verus! {

/// The last three heights at which symbols stood.
#[derive(Debug, Clone, Copy, Eq, PartialEq, Structural)]
pub struct Baseline {
    pub first: i32,
    pub second: i32,
    pub third: i32,
    pub next: u8,
}

impl Baseline {
    /// Three heights of 0; the first is replaced next.
    pub open spec fn start() -> Baseline {
        Baseline { first: 0, second: 0, third: 0, next: 0 }
    }

    /// One of the three heights is replaced next.
    pub open spec fn wf(self) -> bool {
        self.next <= 2
    }

    /// All three heights set to one.
    pub open spec fn filled(self, value: i32) -> Baseline {
        Baseline { first: value, second: value, third: value, next: self.next }
    }

    /// The oldest height replaced.
    pub open spec fn added(self, value: i32) -> Baseline {
        if self.next == 0 {
            Baseline { first: value, next: 1, ..self }
        } else if self.next == 1 {
            Baseline { second: value, next: 2, ..self }
        } else {
            Baseline { third: value, next: 0, ..self }
        }
    }

    /// A height that is neither below nor above both others.
    pub open spec fn is_median(self, value: i32) -> bool {
        let (a, b, c) = (self.first, self.second, self.third);
        ||| value == a && (b <= a <= c || c <= a <= b)
        ||| value == b && (a <= b <= c || c <= b <= a)
        ||| value == c && (a <= c <= b || b <= c <= a)
    }

    /// The median of the three heights.
    pub open spec fn median(self) -> i32 {
        choose|value: i32| self.is_median(value)
    }

    /// There is exactly one median.
    pub proof fn lemma_median(self, value: i32)
        requires
            self.is_median(value),
        ensures
            self.median() == value,
    {
    }

    pub fn new() -> (baseline: Self)
        ensures
            baseline == Baseline::start(),
            baseline.wf(),
    {
        Baseline { first: 0, second: 0, third: 0, next: 0 }
    }

    /// Sets all three heights.
    pub fn fill(&mut self, value: i32)
        ensures
            *final(self) == old(self).filled(value),
    {
        self.first = value;
        self.second = value;
        self.third = value;
    }

    /// Replaces the oldest height.
    pub fn add(&mut self, value: i32)
        requires
            old(self).wf(),
        ensures
            final(self).wf(),
            *final(self) == old(self).added(value),
    {
        if self.next == 0 {
            self.first = value;
            self.next = 1;
        } else if self.next == 1 {
            self.second = value;
            self.next = 2;
        } else {
            self.third = value;
            self.next = 0;
        }
    }

    /// The median of the three heights.
    pub fn value(&self) -> (value: i32)
        ensures
            value == self.median(),
            self.is_median(value),
    {
        let (a, b, c) = (self.first, self.second, self.third);
        let value: i32 = if (a >= b && a <= c) || (a <= b && a >= c) {
            a
        } else if (b >= a && b <= c) || (b <= a && b >= c) {
            b
        } else {
            c
        };
        proof {
            self.lemma_median(value);
        }
        value
    }
}

/// Where the next symbol is expected.
#[derive(Debug, Clone, Copy, Eq, PartialEq, Structural)]
pub struct LayoutState {
    pub first_left: i32,
    pub first_bottom: i32,
    pub last_right: i32,
    pub baseline: Baseline,
}

impl LayoutState {
    /// The layout of a page of the given height before its first symbol.
    pub open spec fn start(image_height: int) -> LayoutState {
        LayoutState {
            first_left: -1i32,
            first_bottom: (image_height - 1) as i32,
            last_right: 0,
            baseline: Baseline::start(),
        }
    }

    pub fn new(image_height: i32) -> (layout: Self)
        requires
            image_height >= 0,
        ensures
            layout == LayoutState::start(image_height as int),
            layout.baseline.wf(),
    {
        LayoutState {
            first_left: -1,
            first_bottom: image_height - 1,
            last_right: 0,
            baseline: Baseline::new(),
        }
    }
}

/// All that decoding of a stream depends on.
#[verifier::ext_equal]
pub struct Jb2State {
    pub zp: ZpState,
    pub record_type: NumTree,
    pub image_size: NumTree,
    pub symbol_width: NumTree,
    pub symbol_height: NumTree,
    pub inherited_size: NumTree,
    pub offset_type: u8,
    pub line_column: NumTree,
    pub line_height: NumTree,
    pub step_column: NumTree,
    pub step_height: NumTree,
    pub symbol_index: NumTree,
    pub width_difference: NumTree,
    pub height_difference: NumTree,
    pub absolute_column: NumTree,
    pub absolute_height: NumTree,
    pub comment_length: NumTree,
    pub comment_octet: NumTree,
    pub direct: Seq<u8>,
    pub refinement: Seq<u8>,
    pub layout: LayoutState,
}

/// The smallest offset that is coded.
pub const OFFSET_MIN: i32 = -262_143;

/// The largest offset, length or size that is coded.
pub const SIZE_MAX: i32 = 262_142;

/// The state in which decoding of `bytes` starts.
pub open spec fn jb2_start(bytes: Seq<u8>) -> Jb2State {
    Jb2State {
        zp: zp_start(bytes),
        record_type: num_tree_root(),
        image_size: num_tree_root(),
        symbol_width: num_tree_root(),
        symbol_height: num_tree_root(),
        inherited_size: num_tree_root(),
        offset_type: 0,
        line_column: num_tree_root(),
        line_height: num_tree_root(),
        step_column: num_tree_root(),
        step_height: num_tree_root(),
        symbol_index: num_tree_root(),
        width_difference: num_tree_root(),
        height_difference: num_tree_root(),
        absolute_column: num_tree_root(),
        absolute_height: num_tree_root(),
        comment_length: num_tree_root(),
        comment_octet: num_tree_root(),
        direct: Seq::new(1024, |i: int| 0u8),
        refinement: Seq::new(2048, |i: int| 0u8),
        layout: LayoutState::start(0),
    }
}

/// A record type number.
pub open spec fn jb2_record_type(state: Jb2State) -> (Jb2State, int) {
    let (value, zp, record_type) = num_decode(state.zp, state.record_type, 0, 11);
    (Jb2State { zp, record_type, ..state }, value)
}

/// The kind of record that a record type number stands for.
pub open spec fn record_kind(number: int) -> Jb2RecordKind {
    if number == 0 {
        Jb2RecordKind::StartOfImage
    } else if number == 1 {
        Jb2RecordKind::NewSymbolAddAndBlit
    } else if number == 2 {
        Jb2RecordKind::NewSymbolAddOnly
    } else if number == 3 {
        Jb2RecordKind::NewSymbolBlitOnly
    } else if number == 4 {
        Jb2RecordKind::MatchedRefineAddAndBlit
    } else if number == 5 {
        Jb2RecordKind::MatchedRefineAddOnly
    } else if number == 6 {
        Jb2RecordKind::MatchedRefineBlitOnly
    } else if number == 7 {
        Jb2RecordKind::MatchedCopyBlitOnly
    } else if number == 8 {
        Jb2RecordKind::NonSymbol
    } else if number == 9 {
        Jb2RecordKind::RequiredDictOrReset
    } else if number == 10 {
        Jb2RecordKind::Comment
    } else {
        Jb2RecordKind::EndOfData
    }
}

/// The kind of the next record.
pub open spec fn jb2_record_kind(state: Jb2State) -> (Jb2State, Jb2RecordKind) {
    let (next, number) = jb2_record_type(state);
    (next, record_kind(number))
}

/// A coded size; 0 stands for 200.
pub open spec fn dimension(value: int) -> int {
    if value == 0 {
        200
    } else {
        value
    }
}

/// The preamble of a stream: how many symbols it inherits, if it says so, and
/// the type of the record after that.
pub open spec fn jb2_preamble(state: Jb2State) -> (Jb2State, int, int) {
    let (first, record_type) = jb2_record_type(state);
    if record_type == 9 {
        let (count, zp, inherited_size) = num_decode(
            first.zp,
            first.inherited_size,
            0,
            SIZE_MAX as int,
        );
        let (second, after) = jb2_record_type(Jb2State { zp, inherited_size, ..first });
        (second, count, after)
    } else {
        (first, 0, record_type)
    }
}

/// The size of the page and the reserved flag.
pub open spec fn jb2_page_size(state: Jb2State) -> (Jb2State, int, int, bool) {
    let (width, zp1, tree1) = num_decode(state.zp, state.image_size, 0, SIZE_MAX as int);
    let (height, zp2, image_size) = num_decode(zp1, tree1, 0, SIZE_MAX as int);
    let (flag, zp, context) = zp_context_bit(zp2, 0);
    (Jb2State { zp, image_size, ..state }, dimension(width), dimension(height), flag)
}

/// The header of a stream, or why it has none.
pub open spec fn jb2_header(state: Jb2State) -> (Jb2State, Result<Jb2ImageHeader, Seq<char>>) {
    let (second, inherited, record_type) = jb2_preamble(state);
    if record_type != 0 {
        (
            second,
            Err(
                "JB2 image starts with record type "@ + decimal(record_type as nat)
                    + ", expected 0"@,
            ),
        )
    } else {
        let (third, width, height, flag) = jb2_page_size(second);
        if flag {
            (third, Err("JB2 image has invalid reserved header flag"@))
        } else {
            (
                Jb2State { layout: LayoutState::start(height), ..third },
                Ok(
                    Jb2ImageHeader {
                        width: width as u32,
                        height: height as u32,
                        inherited_dictionary_symbols: inherited as u32,
                    },
                ),
            )
        }
    }
}

/// The size of a symbol coded on its own.
pub open spec fn jb2_symbol_size(state: Jb2State) -> (Jb2State, int, int) {
    let (width, zp1, symbol_width) = num_decode(state.zp, state.symbol_width, 0, SIZE_MAX as int);
    let (height, zp, symbol_height) = num_decode(zp1, state.symbol_height, 0, SIZE_MAX as int);
    (Jb2State { zp, symbol_width, symbol_height, ..state }, dimension(width), dimension(height))
}

/// What is said of a bitmap whose pixels outnumber what a `usize` counts.
pub open spec fn too_large() -> Seq<char> {
    "JB2 bitmap exceeds the address range"@
}

/// A symbol coded on its own.
pub open spec fn jb2_direct_symbol(state: Jb2State) -> (Jb2State, Result<Symbol, Seq<char>>) {
    let (sized, width, height) = jb2_symbol_size(state);
    if width * height > usize::MAX {
        (sized, Err(too_large()))
    } else {
        let coding = direct_bitmap(sized.zp, sized.direct, width, height);
        (
            Jb2State { zp: coding.zp, direct: coding.contexts, ..sized },
            Ok(Symbol { width, height, pixels: coding.pixels }),
        )
    }
}

/// The index of a symbol of the dictionary.
pub open spec fn jb2_symbol_index(state: Jb2State, count: int) -> (Jb2State, int) {
    let (index, zp, symbol_index) = num_decode(state.zp, state.symbol_index, 0, count - 1);
    (Jb2State { zp, symbol_index, ..state }, index)
}

/// How far a symbol's size differs from that of the symbol it changes.
pub open spec fn jb2_size_difference(state: Jb2State) -> (Jb2State, int, int) {
    let (width, zp1, width_difference) = num_decode(
        state.zp,
        state.width_difference,
        OFFSET_MIN as int,
        SIZE_MAX as int,
    );
    let (height, zp, height_difference) = num_decode(
        zp1,
        state.height_difference,
        OFFSET_MIN as int,
        SIZE_MAX as int,
    );
    (Jb2State { zp, width_difference, height_difference, ..state }, width, height)
}

/// A symbol coded as a change of a symbol of the dictionary.
pub open spec fn jb2_refined_symbol(
    state: Jb2State,
    dictionary: Seq<Symbol>,
) -> (Jb2State, Result<Symbol, Seq<char>>) {
    if dictionary.len() == 0 {
        (state, Err("JB2 matched record references an empty dictionary"@))
    } else if dictionary.len() - 1 > i32::MAX {
        (state, Err("JB2 dictionary is too large"@))
    } else {
        let (indexed, index) = jb2_symbol_index(state, dictionary.len() as int);
        let reference = dictionary[index];
        let (sized, more_width, more_height) = jb2_size_difference(indexed);
        let width = (reference.width as i32).wrapping_add(more_width as i32);
        let height = (reference.height as i32).wrapping_add(more_height as i32);
        if width < 0 || height < 0 {
            (sized, Err("JB2 refined bitmap has negative dimensions"@))
        } else if width == 0 || height == 0 {
            (sized, Ok(empty_symbol()))
        } else if width * height > usize::MAX {
            (sized, Err(too_large()))
        } else {
            let coding = refined_bitmap(
                sized.zp,
                sized.refinement,
                width as int,
                height as int,
                reference,
            );
            (
                Jb2State { zp: coding.zp, refinement: coding.contexts, ..sized },
                Ok(
                    Symbol {
                        width: width as int,
                        height: height as int,
                        pixels: coding.pixels,
                    },
                ),
            )
        }
    }
}

/// A symbol copied from the dictionary.
pub open spec fn jb2_copied_symbol(
    state: Jb2State,
    dictionary: Seq<Symbol>,
) -> (Jb2State, Result<Symbol, Seq<char>>) {
    if dictionary.len() == 0 {
        (state, Err("JB2 copy record references an empty dictionary"@))
    } else if dictionary.len() - 1 > i32::MAX {
        (state, Err("JB2 dictionary is too large"@))
    } else {
        let (indexed, index) = jb2_symbol_index(state, dictionary.len() as int);
        (indexed, Ok(dictionary[index]))
    }
}

/// The place of a symbol on a new line, relative to the line's predecessor.
pub open spec fn jb2_line_place(state: Jb2State, height: i32) -> (Jb2State, i32, i32) {
    let (column, zp1, line_column) = num_decode(
        state.zp,
        state.line_column,
        OFFSET_MIN as int,
        SIZE_MAX as int,
    );
    let (rise, zp, line_height) = num_decode(
        zp1,
        state.line_height,
        OFFSET_MIN as int,
        SIZE_MAX as int,
    );
    let x = state.layout.first_left.wrapping_add(column as i32);
    let y = state.layout.first_bottom.wrapping_add(rise as i32).wrapping_sub(height).wrapping_add(
        1,
    );
    let layout = LayoutState {
        first_left: x,
        first_bottom: y,
        baseline: state.layout.baseline.filled(y),
        ..state.layout
    };
    (Jb2State { zp, line_column, line_height, layout, ..state }, x, y)
}

/// The place of a symbol on the same line, relative to the symbol before it.
pub open spec fn jb2_step_place(state: Jb2State) -> (Jb2State, i32, i32) {
    let (column, zp1, step_column) = num_decode(
        state.zp,
        state.step_column,
        OFFSET_MIN as int,
        SIZE_MAX as int,
    );
    let (rise, zp, step_height) = num_decode(
        zp1,
        state.step_height,
        OFFSET_MIN as int,
        SIZE_MAX as int,
    );
    (
        Jb2State { zp, step_column, step_height, ..state },
        state.layout.last_right.wrapping_add(column as i32),
        state.layout.baseline.median().wrapping_add(rise as i32),
    )
}

/// The place of a symbol relative to those before it, and the layout after it.
/// Places wrap around at the ends of the `i32` range.
#[verifier::opaque]
pub open spec fn jb2_relative_place(
    state: Jb2State,
    width: i32,
    height: i32,
) -> (Jb2State, i32, i32) {
    let (new_line, zp, offset_type) = zp_context_bit(state.zp, state.offset_type);
    let chosen = Jb2State { zp, offset_type, ..state };
    let (placed, x, y) = if new_line {
        jb2_line_place(chosen, height)
    } else {
        jb2_step_place(chosen)
    };
    let layout = LayoutState {
        last_right: x.wrapping_add(width).wrapping_sub(1),
        baseline: placed.layout.baseline.added(y),
        ..placed.layout
    };
    (Jb2State { layout, ..placed }, x, y)
}

/// The place of a bitmap that is no symbol, counted from the corner of the page.
pub open spec fn jb2_absolute_place(
    state: Jb2State,
    header: Jb2ImageHeader,
    height: i32,
) -> (Jb2State, i32, i32) {
    let (column, zp1, absolute_column) = num_decode(
        state.zp,
        state.absolute_column,
        1,
        header.width as int,
    );
    let (top, zp, absolute_height) = num_decode(
        zp1,
        state.absolute_height,
        1,
        header.height as int,
    );
    (
        Jb2State { zp, absolute_column, absolute_height, ..state },
        (column - 1) as i32,
        (top - height) as i32,
    )
}

/// Passes over `count` bytes of a comment.
pub open spec fn jb2_skip_octets(state: Jb2State, count: int) -> Jb2State
    decreases count,
{
    if count <= 0 {
        state
    } else {
        let (octet, zp, comment_octet) = num_decode(state.zp, state.comment_octet, 0, 255);
        jb2_skip_octets(Jb2State { zp, comment_octet, ..state }, count - 1)
    }
}

/// Passes over a comment.
#[verifier::opaque]
pub open spec fn jb2_skip_comment(state: Jb2State) -> Jb2State {
    let (length, zp, comment_length) = num_decode(
        state.zp,
        state.comment_length,
        0,
        SIZE_MAX as int,
    );
    jb2_skip_octets(Jb2State { zp, comment_length, ..state }, length)
}

/// The symbols of a dictionary.
pub open spec fn symbols_of(dictionary: Seq<Jb2SymbolBitmap>) -> Seq<Symbol> {
    Seq::new(dictionary.len(), |i: int| dictionary[i]@)
}

/// Every symbol has a pixel of 0 or 1 in each place.
pub open spec fn symbols_wf(dictionary: Seq<Jb2SymbolBitmap>) -> bool {
    forall|i: int|
        0 <= i < dictionary.len() ==> (#[trigger] dictionary[i]).wf() && binary(
            dictionary[i]@.pixels,
        )
}

/// What the dictionary keeps of a binary symbol is binary.
pub proof fn lemma_kept_binary(symbol: Symbol)
    requires
        symbol_wf(symbol),
        binary(symbol.pixels),
    ensures
        binary(symbol_for_dictionary(symbol).pixels),
{
    if exists|x: int, y: int| symbol_ink(symbol, x, y) {
        let (left, right, bottom, top) = choose|left: int, right: int, bottom: int, top: int|
            is_ink_box(symbol, left, right, bottom, top);
        let part = symbol_part(symbol, left, right, bottom, top);
        assert forall|i: int| 0 <= i < part.pixels.len() implies #[trigger] part.pixels[i] <= 1 by {
            let x = left + i % part.width;
            let y = bottom + i / part.width;
            assert(part.pixels[i] == symbol_at(symbol, x, y));
            if 0 <= x < symbol.width && 0 <= y < symbol.height {
                crate::bitonal::lemma_pixel_index(symbol.width, symbol.height, x, y);
            }
        }
    }
}

/// A decoder of a JB2 stream.
pub struct Jb2Decoder<'a> {
    zp: SpecZpDecoder<'a>,
    record_type_context: NumContext,
    image_size_context: NumContext,
    symbol_width_context: NumContext,
    symbol_height_context: NumContext,
    inherited_size_context: NumContext,
    offset_type: u8,
    line_column: NumContext,
    line_height: NumContext,
    step_column: NumContext,
    step_height: NumContext,
    symbol_index_context: NumContext,
    symbol_width_difference_context: NumContext,
    symbol_height_difference_context: NumContext,
    horizontal_absolute_location_context: NumContext,
    vertical_absolute_location_context: NumContext,
    comment_length_context: NumContext,
    comment_octet_context: NumContext,
    direct_bitmap_contexts: Vec<u8>,
    refinement_bitmap_contexts: Vec<u8>,
    layout: LayoutState,
}

impl<'a> View for Jb2Decoder<'a> {
    type V = Jb2State;

    closed spec fn view(&self) -> Jb2State {
        Jb2State {
            zp: self.zp@,
            record_type: self.record_type_context@,
            image_size: self.image_size_context@,
            symbol_width: self.symbol_width_context@,
            symbol_height: self.symbol_height_context@,
            inherited_size: self.inherited_size_context@,
            offset_type: self.offset_type,
            line_column: self.line_column@,
            line_height: self.line_height@,
            step_column: self.step_column@,
            step_height: self.step_height@,
            symbol_index: self.symbol_index_context@,
            width_difference: self.symbol_width_difference_context@,
            height_difference: self.symbol_height_difference_context@,
            absolute_column: self.horizontal_absolute_location_context@,
            absolute_height: self.vertical_absolute_location_context@,
            comment_length: self.comment_length_context@,
            comment_octet: self.comment_octet_context@,
            direct: self.direct_bitmap_contexts@,
            refinement: self.refinement_bitmap_contexts@,
            layout: self.layout,
        }
    }
}

impl<'a> Jb2Decoder<'a> {
    /// All parts of the decoder are in order.
    pub closed spec fn wf(&self) -> bool {
        &&& self.zp.wf()
        &&& self.record_type_context.wf()
        &&& self.image_size_context.wf()
        &&& self.symbol_width_context.wf()
        &&& self.symbol_height_context.wf()
        &&& self.inherited_size_context.wf()
        &&& self.line_column.wf()
        &&& self.line_height.wf()
        &&& self.step_column.wf()
        &&& self.step_height.wf()
        &&& self.symbol_index_context.wf()
        &&& self.symbol_width_difference_context.wf()
        &&& self.symbol_height_difference_context.wf()
        &&& self.horizontal_absolute_location_context.wf()
        &&& self.vertical_absolute_location_context.wf()
        &&& self.comment_length_context.wf()
        &&& self.comment_octet_context.wf()
        &&& self.direct_bitmap_contexts@.len() == 1024
        &&& self.refinement_bitmap_contexts@.len() == 2048
        &&& self.layout.baseline.wf()
    }

    /// Starts decoding, unless there are fewer than two bytes.
    pub fn new(bytes: &'a [u8]) -> (decoder: Result<Self, Jb2Error>)
        ensures
            decoder is Ok <==> bytes@.len() >= 2,
            decoder is Ok ==> decoder->Ok_0.wf() && decoder->Ok_0@ == jb2_start(bytes@),
            decoder is Err ==> decoder->Err_0@ == "JB2 input is too short"@,
    {
        if bytes.len() < 2 {
            return Err(Jb2Error::new("JB2 input is too short"));
        }
        let decoder = Jb2Decoder {
            zp: SpecZpDecoder::new(bytes),
            record_type_context: NumContext::new(),
            image_size_context: NumContext::new(),
            symbol_width_context: NumContext::new(),
            symbol_height_context: NumContext::new(),
            inherited_size_context: NumContext::new(),
            offset_type: 0,
            line_column: NumContext::new(),
            line_height: NumContext::new(),
            step_column: NumContext::new(),
            step_height: NumContext::new(),
            symbol_index_context: NumContext::new(),
            symbol_width_difference_context: NumContext::new(),
            symbol_height_difference_context: NumContext::new(),
            horizontal_absolute_location_context: NumContext::new(),
            vertical_absolute_location_context: NumContext::new(),
            comment_length_context: NumContext::new(),
            comment_octet_context: NumContext::new(),
            direct_bitmap_contexts: vec![0; 1024],
            refinement_bitmap_contexts: vec![0; 2048],
            layout: LayoutState::new(0),
        };
        assert(decoder@ =~= jb2_start(bytes@));
        Ok(decoder)
    }

    /// Decodes a record type number.
    fn next_record_type(&mut self) -> (number: u32)
        requires
            old(self).wf(),
        ensures
            final(self).wf(),
            (final(self)@, number as int) == jb2_record_type(old(self)@),
            number <= 11,
    {
        decode_num(&mut self.zp, &mut self.record_type_context, 0, 11) as u32
    }

    /// Decodes the header.
    pub fn read_header(&mut self) -> (header: Result<Jb2ImageHeader, Jb2Error>)
        requires
            old(self).wf(),
        ensures
            final(self).wf(),
            final(self)@ == jb2_header(old(self)@).0,
            header is Ok <==> jb2_header(old(self)@).1 is Ok,
            header is Ok ==> {
                &&& Ok::<Jb2ImageHeader, Seq<char>>(header->Ok_0) == jb2_header(old(self)@).1
                &&& 1 <= header->Ok_0.width <= SIZE_MAX
                &&& 1 <= header->Ok_0.height <= SIZE_MAX
                &&& header->Ok_0.inherited_dictionary_symbols <= SIZE_MAX
            },
            header is Err ==> Err::<Jb2ImageHeader, Seq<char>>(header->Err_0@) == jb2_header(
                old(self)@,
            ).1,
    {
        let mut record_type: u32 = self.next_record_type();
        let mut inherited_dictionary_symbols: u32 = 0;
        if record_type == 9 {
            inherited_dictionary_symbols =
            decode_num(&mut self.zp, &mut self.inherited_size_context, 0, SIZE_MAX) as u32;
            record_type = self.next_record_type();
        }
        if record_type != 0 {
            let mut message: String = text_of("JB2 image starts with record type ");
            push_decimal(&mut message, record_type as u64);
            message.append(", expected 0");
            return Err(Jb2Error(message));
        }
        let width: u32 = decode_dimension(&mut self.zp, &mut self.image_size_context);
        let height: u32 = decode_dimension(&mut self.zp, &mut self.image_size_context);
        let mut flag_context: u8 = 0;
        let flag: bool = self.zp.decode_context_bit(&mut flag_context);
        if flag {
            return Err(Jb2Error::new("JB2 image has invalid reserved header flag"));
        }
        self.layout = LayoutState::new(height as i32);
        Ok(Jb2ImageHeader { width, height, inherited_dictionary_symbols })
    }

    /// Decodes the kind of the next record.
    pub fn next_record_kind(&mut self) -> (kind: Jb2RecordKind)
        requires
            old(self).wf(),
        ensures
            final(self).wf(),
            (final(self)@, kind) == jb2_record_kind(old(self)@),
    {
        let number: u32 = self.next_record_type();
        match number {
            0 => Jb2RecordKind::StartOfImage,
            1 => Jb2RecordKind::NewSymbolAddAndBlit,
            2 => Jb2RecordKind::NewSymbolAddOnly,
            3 => Jb2RecordKind::NewSymbolBlitOnly,
            4 => Jb2RecordKind::MatchedRefineAddAndBlit,
            5 => Jb2RecordKind::MatchedRefineAddOnly,
            6 => Jb2RecordKind::MatchedRefineBlitOnly,
            7 => Jb2RecordKind::MatchedCopyBlitOnly,
            8 => Jb2RecordKind::NonSymbol,
            9 => Jb2RecordKind::RequiredDictOrReset,
            10 => Jb2RecordKind::Comment,
            _ => Jb2RecordKind::EndOfData,
        }
    }

    /// Decodes the place of a symbol relative to those before it.
    pub fn decode_symbol_coords(&mut self, symbol_width: u32, symbol_height: u32) -> (place: (
        i32,
        i32,
    ))
        requires
            old(self).wf(),
            symbol_width <= 0x7fff_ffff,
            symbol_height <= 0x7fff_ffff,
        ensures
            final(self).wf(),
            (final(self)@, place.0, place.1) == jb2_relative_place(
                old(self)@,
                symbol_width as i32,
                symbol_height as i32,
            ),
    {
        proof {
            reveal(jb2_relative_place);
        }
        let width: i32 = symbol_width as i32;
        let height: i32 = symbol_height as i32;
        let new_line: bool = self.zp.decode_context_bit(&mut self.offset_type);
        let (x, y): (i32, i32) = if new_line {
            let column: i32 = decode_num(&mut self.zp, &mut self.line_column, OFFSET_MIN, SIZE_MAX);
            let rise: i32 = decode_num(&mut self.zp, &mut self.line_height, OFFSET_MIN, SIZE_MAX);
            let x: i32 = self.layout.first_left.wrapping_add(column);
            let y: i32 = self.layout.first_bottom.wrapping_add(rise).wrapping_sub(
                height,
            ).wrapping_add(1);
            self.layout.first_left = x;
            self.layout.first_bottom = y;
            self.layout.baseline.fill(y);
            (x, y)
        } else {
            let column: i32 = decode_num(&mut self.zp, &mut self.step_column, OFFSET_MIN, SIZE_MAX);
            let rise: i32 = decode_num(&mut self.zp, &mut self.step_height, OFFSET_MIN, SIZE_MAX);
            (
                self.layout.last_right.wrapping_add(column),
                self.layout.baseline.value().wrapping_add(rise),
            )
        };
        self.layout.baseline.add(y);
        self.layout.last_right = x.wrapping_add(width).wrapping_sub(1);
        (x, y)
    }

    /// Decodes the place of a bitmap counted from the corner of the page.
    pub fn decode_absolute_coords(&mut self, header: Jb2ImageHeader, symbol_height: u32) -> (place:
        (i32, i32))
        requires
            old(self).wf(),
            1 <= header.width <= SIZE_MAX,
            1 <= header.height <= SIZE_MAX,
            symbol_height <= SIZE_MAX,
        ensures
            final(self).wf(),
            (final(self)@, place.0, place.1) == jb2_absolute_place(
                old(self)@,
                header,
                symbol_height as i32,
            ),
    {
        let column: i32 = decode_num(
            &mut self.zp,
            &mut self.horizontal_absolute_location_context,
            1,
            header.width as i32,
        );
        let top: i32 = decode_num(
            &mut self.zp,
            &mut self.vertical_absolute_location_context,
            1,
            header.height as i32,
        );
        (column - 1, top - symbol_height as i32)
    }

    /// Passes over a comment.
    pub fn skip_comment(&mut self)
        requires
            old(self).wf(),
        ensures
            final(self).wf(),
            final(self)@ == jb2_skip_comment(old(self)@),
    {
        proof {
            reveal(jb2_skip_comment);
        }
        let length: i32 = decode_num(&mut self.zp, &mut self.comment_length_context, 0, SIZE_MAX);
        let mut left: i32 = length;
        while left > 0
            invariant
                self.wf(),
                jb2_skip_octets(self@, left as int) == jb2_skip_comment(old(self)@),
            decreases left,
        {
            decode_num(&mut self.zp, &mut self.comment_octet_context, 0, 255);
            left = left - 1;
        }
    }

    /// Decodes a symbol coded on its own.
    pub fn decode_direct_symbol(&mut self) -> (symbol: Result<Jb2SymbolBitmap, Jb2Error>)
        requires
            old(self).wf(),
        ensures
            final(self).wf(),
            final(self)@ == jb2_direct_symbol(old(self)@).0,
            symbol is Ok <==> jb2_direct_symbol(old(self)@).1 is Ok,
            symbol is Ok ==> {
                &&& symbol->Ok_0@ == jb2_direct_symbol(old(self)@).1->Ok_0
                &&& symbol->Ok_0.wf()
                &&& binary(symbol->Ok_0@.pixels)
                &&& 1 <= symbol->Ok_0.width <= SIZE_MAX
                &&& 1 <= symbol->Ok_0.height <= SIZE_MAX
            },
            symbol is Err ==> symbol->Err_0@ == jb2_direct_symbol(old(self)@).1->Err_0,
    {
        let width: u32 = decode_dimension(&mut self.zp, &mut self.symbol_width_context);
        let height: u32 = decode_dimension(&mut self.zp, &mut self.symbol_height_context);
        if !fits(width, height) {
            return Err(Jb2Error::new("JB2 bitmap exceeds the address range"));
        }
        Ok(
            decode_direct_bitmap(&mut self.zp, &mut self.direct_bitmap_contexts, width, height),
        )
    }

    /// Decodes a symbol coded as a change of a symbol of the dictionary.
    pub fn decode_refined_symbol(&mut self, dictionary: &Vec<Jb2SymbolBitmap>) -> (symbol: Result<
        Jb2SymbolBitmap,
        Jb2Error,
    >)
        requires
            old(self).wf(),
            symbols_wf(dictionary@),
        ensures
            final(self).wf(),
            final(self)@ == jb2_refined_symbol(old(self)@, symbols_of(dictionary@)).0,
            symbol is Ok <==> jb2_refined_symbol(old(self)@, symbols_of(dictionary@)).1 is Ok,
            symbol is Ok ==> {
                &&& symbol->Ok_0@ == jb2_refined_symbol(
                    old(self)@,
                    symbols_of(dictionary@),
                ).1->Ok_0
                &&& symbol->Ok_0.wf()
                &&& binary(symbol->Ok_0@.pixels)
            },
            symbol is Err ==> symbol->Err_0@ == jb2_refined_symbol(
                old(self)@,
                symbols_of(dictionary@),
            ).1->Err_0,
    {
        if dictionary.len() == 0 {
            return Err(Jb2Error::new("JB2 matched record references an empty dictionary"));
        }
        if dictionary.len() - 1 > i32::MAX as usize {
            return Err(Jb2Error::new("JB2 dictionary is too large"));
        }
        let index: i32 = decode_num(
            &mut self.zp,
            &mut self.symbol_index_context,
            0,
            (dictionary.len() - 1) as i32,
        );
        let reference: &Jb2SymbolBitmap = &dictionary[index as usize];
        assert(dictionary@[index as int].wf());
        let more_width: i32 = decode_num(
            &mut self.zp,
            &mut self.symbol_width_difference_context,
            OFFSET_MIN,
            SIZE_MAX,
        );
        let more_height: i32 = decode_num(
            &mut self.zp,
            &mut self.symbol_height_difference_context,
            OFFSET_MIN,
            SIZE_MAX,
        );
        let width: i32 = (reference.width as i32).wrapping_add(more_width);
        let height: i32 = (reference.height as i32).wrapping_add(more_height);
        if width < 0 || height < 0 {
            return Err(Jb2Error::new("JB2 refined bitmap has negative dimensions"));
        }
        if width == 0 || height == 0 {
            let symbol = Jb2SymbolBitmap { width: 0, height: 0, pixels: Vec::new() };
            assert(symbol@ =~= empty_symbol());
            return Ok(symbol);
        }
        if !fits(width as u32, height as u32) {
            return Err(Jb2Error::new("JB2 bitmap exceeds the address range"));
        }
        Ok(
            decode_refined_bitmap(
                &mut self.zp,
                &mut self.refinement_bitmap_contexts,
                width as u32,
                height as u32,
                reference,
            ),
        )
    }

    /// Decodes which symbol of the dictionary is copied.
    pub fn decode_copied_symbol(&mut self, dictionary: &Vec<Jb2SymbolBitmap>) -> (symbol: Result<
        Jb2SymbolBitmap,
        Jb2Error,
    >)
        requires
            old(self).wf(),
            symbols_wf(dictionary@),
        ensures
            final(self).wf(),
            final(self)@ == jb2_copied_symbol(old(self)@, symbols_of(dictionary@)).0,
            symbol is Ok <==> jb2_copied_symbol(old(self)@, symbols_of(dictionary@)).1 is Ok,
            symbol is Ok ==> {
                &&& symbol->Ok_0@ == jb2_copied_symbol(
                    old(self)@,
                    symbols_of(dictionary@),
                ).1->Ok_0
                &&& symbol->Ok_0.wf()
                &&& binary(symbol->Ok_0@.pixels)
            },
            symbol is Err ==> symbol->Err_0@ == jb2_copied_symbol(
                old(self)@,
                symbols_of(dictionary@),
            ).1->Err_0,
    {
        if dictionary.len() == 0 {
            return Err(Jb2Error::new("JB2 copy record references an empty dictionary"));
        }
        if dictionary.len() - 1 > i32::MAX as usize {
            return Err(Jb2Error::new("JB2 dictionary is too large"));
        }
        let index: i32 = decode_num(
            &mut self.zp,
            &mut self.symbol_index_context,
            0,
            (dictionary.len() - 1) as i32,
        );
        assert(dictionary@[index as int].wf());
        Ok(dictionary[index as usize].duplicate())
    }
}

/// Whether a `usize` counts the pixels of a bitmap.
fn fits(width: u32, height: u32) -> (yes: bool)
    ensures
        yes == (width * height <= usize::MAX),
{
    assert(width * height <= 0xffff_ffff * 0xffff_ffff) by (nonlinear_arith)
        requires
            0 <= width <= 0xffff_ffff,
            0 <= height <= 0xffff_ffff,
    ;
    width as u64 * height as u64 <= usize::MAX as u64
}

/// Decodes a size; 0 stands for 200.
fn decode_dimension(decoder: &mut SpecZpDecoder<'_>, context: &mut NumContext) -> (size: u32)
    requires
        old(decoder).wf(),
        old(context).wf(),
    ensures
        final(decoder).wf(),
        final(context).wf(),
        1 <= size <= SIZE_MAX,
        ({
            let (value, zp, tree) = num_decode(old(decoder)@, old(context)@, 0, SIZE_MAX as int);
            size == dimension(value) && final(decoder)@ == zp && final(context)@ == tree
        }),
{
    let value: i32 = decode_num(decoder, context, 0, SIZE_MAX);
    if value == 0 {
        200
    } else {
        value as u32
    }
}

} // verus!
