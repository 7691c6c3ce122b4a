//! JB2 bitonal images.

pub mod bitmaps;
pub mod coding;
pub mod decoder;
pub mod num;
pub mod placing;
pub mod records;
pub mod symbol;

use crate::bitonal::BitonalBitmap;
use crate::text::{decimal, push_decimal, text_of};
use bitmaps::binary;
use decoder::{
    jb2_absolute_place, jb2_copied_symbol, jb2_direct_symbol, jb2_header, jb2_record_kind,
    jb2_refined_symbol, jb2_relative_place, jb2_skip_comment, jb2_start, lemma_kept_binary,
    symbols_of, symbols_wf, too_large, Jb2Decoder, Jb2State, SIZE_MAX,
};
use symbol::{blit, blit_symbol, symbol_for_dictionary, Jb2SymbolBitmap, Symbol};
use vstd::prelude::*;

verus! {

/// Why a JB2 stream could not be decoded.
#[derive(Debug, Clone, Eq, PartialEq)]
pub struct Jb2Error(pub String);

impl View for Jb2Error {
    type V = Seq<char>;

    open spec fn view(&self) -> Seq<char> {
        self.0@
    }
}

impl Jb2Error {
    /// An error with the given message.
    pub fn new(message: &str) -> (error: Self)
        ensures
            error@ == message@,
    {
        Jb2Error(text_of(message))
    }

    /// The message.
    pub fn message(&self) -> (message: &str)
        ensures
            message@ == self@,
    {
        self.0.as_str()
    }
}

/// The size of a JB2 image, and how many symbols it inherits.
#[derive(Debug, Clone, Copy, Eq, PartialEq, Structural)]
pub struct Jb2ImageHeader {
    pub width: u32,
    pub height: u32,
    pub inherited_dictionary_symbols: u32,
}

/// The kinds of records in a JB2 stream.
#[derive(Debug, Clone, Copy, Eq, PartialEq, Structural)]
pub enum Jb2RecordKind {
    StartOfImage,
    NewSymbolAddAndBlit,
    NewSymbolAddOnly,
    NewSymbolBlitOnly,
    MatchedRefineAddAndBlit,
    MatchedRefineAddOnly,
    MatchedRefineBlitOnly,
    MatchedCopyBlitOnly,
    NonSymbol,
    RequiredDictOrReset,
    Comment,
    EndOfData,
}

/// The name of a kind of record.
pub open spec fn kind_name(kind: Jb2RecordKind) -> Seq<char> {
    match kind {
        Jb2RecordKind::StartOfImage => "start-of-image"@,
        Jb2RecordKind::NewSymbolAddAndBlit => "new-symbol-add-and-blit"@,
        Jb2RecordKind::NewSymbolAddOnly => "new-symbol-add-only"@,
        Jb2RecordKind::NewSymbolBlitOnly => "new-symbol-blit-only"@,
        Jb2RecordKind::MatchedRefineAddAndBlit => "matched-refine-add-and-blit"@,
        Jb2RecordKind::MatchedRefineAddOnly => "matched-refine-add-only"@,
        Jb2RecordKind::MatchedRefineBlitOnly => "matched-refine-blit-only"@,
        Jb2RecordKind::MatchedCopyBlitOnly => "matched-copy-blit-only"@,
        Jb2RecordKind::NonSymbol => "non-symbol"@,
        Jb2RecordKind::RequiredDictOrReset => "required-dict-or-reset"@,
        Jb2RecordKind::Comment => "comment"@,
        Jb2RecordKind::EndOfData => "end-of-data"@,
    }
}

impl Jb2RecordKind {
    /// The name of the kind.
    #[must_use]
    pub fn as_str(self) -> (name: &'static str)
        ensures
            name@ == kind_name(self),
    {
        match self {
            Jb2RecordKind::StartOfImage => "start-of-image",
            Jb2RecordKind::NewSymbolAddAndBlit => "new-symbol-add-and-blit",
            Jb2RecordKind::NewSymbolAddOnly => "new-symbol-add-only",
            Jb2RecordKind::NewSymbolBlitOnly => "new-symbol-blit-only",
            Jb2RecordKind::MatchedRefineAddAndBlit => "matched-refine-add-and-blit",
            Jb2RecordKind::MatchedRefineAddOnly => "matched-refine-add-only",
            Jb2RecordKind::MatchedRefineBlitOnly => "matched-refine-blit-only",
            Jb2RecordKind::MatchedCopyBlitOnly => "matched-copy-blit-only",
            Jb2RecordKind::NonSymbol => "non-symbol",
            Jb2RecordKind::RequiredDictOrReset => "required-dict-or-reset",
            Jb2RecordKind::Comment => "comment",
            Jb2RecordKind::EndOfData => "end-of-data",
        }
    }
}

/// What a record said.
#[derive(Debug, Clone, Copy, Eq, PartialEq)]
pub struct Jb2RecordSummary {
    pub index: usize,
    pub kind: Jb2RecordKind,
    pub symbol_width: Option<u32>,
    pub symbol_height: Option<u32>,
    pub x: Option<i32>,
    pub y: Option<i32>,
}

/// The first records of a stream.
#[derive(Debug, Clone, Eq, PartialEq)]
pub struct Jb2RecordPrefix {
    pub header: Jb2ImageHeader,
    pub records: Vec<Jb2RecordSummary>,
    pub stopped_before: Option<Jb2RecordKind>,
}

/// What was painted of an image.
#[derive(Debug, Clone, Eq, PartialEq)]
pub struct Jb2PartialImage {
    pub header: Jb2ImageHeader,
    pub mask: BitonalBitmap,
    pub records: Vec<Jb2RecordSummary>,
    pub dictionary_symbol_count: usize,
    pub stopped_before: Option<Jb2RecordKind>,
    pub reached_end_of_data: bool,
}

/// Symbols that images share.
#[derive(Debug, Clone, Eq, PartialEq)]
pub struct Jb2Dictionary {
    pub symbols: Vec<Jb2SymbolBitmap>,
}

impl View for Jb2Dictionary {
    type V = Seq<Symbol>;

    open spec fn view(&self) -> Seq<Symbol> {
        symbols_of(self.symbols@)
    }
}

impl Jb2Dictionary {
    /// Every symbol has a pixel of 0 or 1 in each place.
    pub open spec fn wf(&self) -> bool {
        symbols_wf(self.symbols@)
    }

    /// The number of symbols.
    #[must_use]
    pub fn symbol_count(&self) -> (count: usize)
        ensures
            count == self@.len(),
    {
        self.symbols.len()
    }
}

/// Whether a record brings a bitmap.
pub open spec fn brings_bitmap(kind: Jb2RecordKind) -> bool {
    !(kind is StartOfImage || kind is RequiredDictOrReset || kind is Comment || kind is EndOfData)
}

/// Whether a record's bitmap joins the dictionary.
pub open spec fn adds_symbol(kind: Jb2RecordKind) -> bool {
    kind is NewSymbolAddAndBlit || kind is NewSymbolAddOnly || kind is MatchedRefineAddAndBlit
        || kind is MatchedRefineAddOnly
}

/// Whether a record's bitmap is a change of one in the dictionary.
pub open spec fn refines_symbol(kind: Jb2RecordKind) -> bool {
    kind is MatchedRefineAddAndBlit || kind is MatchedRefineAddOnly || kind is MatchedRefineBlitOnly
}

/// The bitmap that a record brings.
pub open spec fn jb2_record_symbol(
    state: Jb2State,
    dictionary: Seq<Symbol>,
    kind: Jb2RecordKind,
) -> (Jb2State, Result<Symbol, Seq<char>>) {
    if refines_symbol(kind) {
        jb2_refined_symbol(state, dictionary)
    } else if kind is MatchedCopyBlitOnly {
        jb2_copied_symbol(state, dictionary)
    } else {
        jb2_direct_symbol(state)
    }
}

/// Where a record's bitmap is painted, if it is.
pub open spec fn jb2_record_place(
    state: Jb2State,
    header: Jb2ImageHeader,
    kind: Jb2RecordKind,
    symbol: Symbol,
) -> (Jb2State, Option<(i32, i32)>) {
    if kind is NewSymbolAddOnly || kind is MatchedRefineAddOnly {
        (state, None)
    } else if kind is NonSymbol {
        let (next, x, y) = jb2_absolute_place(state, header, symbol.height as i32);
        (next, Some((x, y)))
    } else {
        let (next, x, y) = jb2_relative_place(state, symbol.width as i32, symbol.height as i32);
        (next, Some((x, y)))
    }
}

/// The summary of a record without a bitmap.
pub open spec fn plain_summary(index: int, kind: Jb2RecordKind) -> Jb2RecordSummary {
    Jb2RecordSummary {
        index: index as usize,
        kind,
        symbol_width: None,
        symbol_height: None,
        x: None,
        y: None,
    }
}

/// The summary of a record with a bitmap.
pub open spec fn symbol_summary(
    index: int,
    kind: Jb2RecordKind,
    symbol: Symbol,
    place: Option<(i32, i32)>,
) -> Jb2RecordSummary {
    Jb2RecordSummary {
        index: index as usize,
        kind,
        symbol_width: Some(symbol.width as u32),
        symbol_height: Some(symbol.height as u32),
        x: match place {
            Some((x, y)) => Some(x),
            None => None,
        },
        y: match place {
            Some((x, y)) => Some(y),
            None => None,
        },
    }
}

/// A rendering under way.
#[verifier::ext_equal]
pub struct Rendering {
    pub state: Jb2State,
    pub page: Seq<bool>,
    pub dictionary: Seq<Symbol>,
    pub records: Seq<Jb2RecordSummary>,
}

/// Where a rendering ends: at the limit on its records, at the end of the data, or before
/// a record that asks for a dictionary or a reset.
pub enum RenderEnd {
    Limit,
    EndOfData,
    Reset,
}

/// The kind of record before which a rendering stopped.
pub open spec fn stopping_record(end: RenderEnd) -> Option<Jb2RecordKind> {
    match end {
        RenderEnd::Reset => Some(Jb2RecordKind::RequiredDictOrReset),
        _ => None,
    }
}

/// Decodes and paints one record; tells whether the rendering ends with it, or before it. A
/// record that asks for a dictionary or a reset is gone over, or else ends the rendering.
pub open spec fn render_record(
    run: Rendering,
    header: Jb2ImageHeader,
    index: int,
    over_resets: bool,
) -> Result<(Rendering, Option<RenderEnd>), Seq<char>> {
    let (state, kind) = jb2_record_kind(run.state);
    if brings_bitmap(kind) {
        let (fetched, outcome) = jb2_record_symbol(state, run.dictionary, kind);
        match outcome {
            Err(message) => Err(message),
            Ok(symbol) => {
                let (placed, place) = jb2_record_place(fetched, header, kind, symbol);
                Ok(
                    (
                        Rendering {
                            state: placed,
                            page: match place {
                                Some((x, y)) => blit(
                                    run.page,
                                    header.width as int,
                                    header.height as int,
                                    symbol,
                                    x,
                                    y,
                                ),
                                None => run.page,
                            },
                            dictionary: if adds_symbol(kind) {
                                run.dictionary.push(symbol_for_dictionary(symbol))
                            } else {
                                run.dictionary
                            },
                            records: run.records.push(symbol_summary(index, kind, symbol, place)),
                        },
                        None,
                    ),
                )
            },
        }
    } else if kind is RequiredDictOrReset {
        Ok(
            (
                Rendering { state, ..run },
                if over_resets {
                    None
                } else {
                    Some(RenderEnd::Reset)
                },
            ),
        )
    } else {
        Ok(
            (
                Rendering {
                    state: if kind is Comment {
                        jb2_skip_comment(state)
                    } else {
                        state
                    },
                    records: run.records.push(plain_summary(index, kind)),
                    ..run
                },
                if kind is EndOfData {
                    Some(RenderEnd::EndOfData)
                } else {
                    None
                },
            ),
        )
    }
}

/// Decodes and paints records from number `index` on, at most up to number `limit`;
/// tells where that ends.
pub open spec fn render_records(
    run: Rendering,
    header: Jb2ImageHeader,
    index: int,
    limit: int,
    over_resets: bool,
) -> Result<(Rendering, RenderEnd), Seq<char>>
    decreases limit - index,
{
    if index >= limit {
        Ok((run, RenderEnd::Limit))
    } else {
        match render_record(run, header, index, over_resets) {
            Err(message) => Err(message),
            Ok((next, Some(end))) => Ok((next, end)),
            Ok((next, None)) => render_records(next, header, index + 1, limit, over_resets),
        }
    }
}

/// The symbols that an image inherits of a shared dictionary, or why it cannot.
pub open spec fn inherited_symbols(
    shared: Option<Seq<Symbol>>,
    requested: int,
) -> Result<Seq<Symbol>, Seq<char>> {
    if requested == 0 {
        Ok(Seq::empty())
    } else {
        match shared {
            None => Err("JB2 image requires a shared dictionary"@),
            Some(symbols) => if requested > symbols.len() {
                Err(
                    "JB2 image requires "@ + decimal(requested as nat)
                        + " shared symbols, dictionary has "@ + decimal(symbols.len()),
                )
            } else {
                Ok(symbols.take(requested))
            },
        }
    }
}

/// The white page of an image.
pub open spec fn blank_page(header: Jb2ImageHeader) -> Seq<bool> {
    Seq::new(
        8 * crate::bitonal::byte_count((header.width * header.height) as nat),
        |i: int| false,
    )
}

/// Decodes and paints at most `limit` records of an image. Where there is a shared
/// dictionary, records that ask for one or for a reset are gone over.
pub open spec fn jb2_render(
    bytes: Seq<u8>,
    limit: int,
    shared: Option<Seq<Symbol>>,
) -> Result<(Jb2ImageHeader, Rendering, RenderEnd), Seq<char>> {
    if bytes.len() < 2 {
        Err("JB2 input is too short"@)
    } else {
        let (state, outcome) = jb2_header(jb2_start(bytes));
        match outcome {
            Err(message) => Err(message),
            Ok(header) => if header.width * header.height > usize::MAX {
                Err(too_large())
            } else {
                match inherited_symbols(shared, header.inherited_dictionary_symbols as int) {
                    Err(message) => Err(message),
                    Ok(dictionary) => match render_records(
                        Rendering {
                            state,
                            page: blank_page(header),
                            dictionary,
                            records: Seq::empty(),
                        },
                        header,
                        0,
                        limit,
                        shared is Some,
                    ) {
                        Err(message) => Err(message),
                        Ok((run, end)) => Ok((header, run, end)),
                    },
                }
            },
        }
    }
}

/// The number of records that an image or a dictionary may have.
pub const RECORD_LIMIT: usize = 1_000_000;

/// What is said of an image that does not reach the end of its data.
pub open spec fn incomplete_message(end: RenderEnd) -> Seq<char> {
    match stopping_record(end) {
        Some(kind) => "JB2 image stopped before unsupported "@ + kind_name(kind) + " record"@,
        None => "JB2 image did not reach end-of-data within 1000000 records"@,
    }
}

/// Decodes and paints an image that has to end.
pub open spec fn jb2_render_all(
    bytes: Seq<u8>,
    shared: Option<Seq<Symbol>>,
) -> Result<(Jb2ImageHeader, Rendering, RenderEnd), Seq<char>> {
    match jb2_render(bytes, RECORD_LIMIT as int, shared) {
        Err(message) => Err(message),
        Ok((header, run, end)) => if end is EndOfData {
            Ok((header, run, end))
        } else {
            Err(incomplete_message(end))
        },
    }
}

/// An image, or an error, that says what a rendering came to.
pub open spec fn shows(
    image: Result<Jb2PartialImage, Jb2Error>,
    outcome: Result<(Jb2ImageHeader, Rendering, RenderEnd), Seq<char>>,
) -> bool {
    match outcome {
        Err(message) => image is Err && image->Err_0@ == message,
        Ok((header, run, end)) => {
            &&& image is Ok
            &&& image->Ok_0.header == header
            &&& image->Ok_0.mask.width == header.width
            &&& image->Ok_0.mask.height == header.height
            &&& image->Ok_0.mask.wf()
            &&& image->Ok_0.mask@ == run.page
            &&& image->Ok_0.records@ == run.records
            &&& image->Ok_0.dictionary_symbol_count == run.dictionary.len()
            &&& image->Ok_0.stopped_before == stopping_record(end)
            &&& image->Ok_0.reached_end_of_data == (end is EndOfData)
        },
    }
}

/// Whether a prefix of records stops before a record of this kind.
pub open spec fn stops_prefix(kind: Jb2RecordKind) -> bool {
    refines_symbol(kind) || kind is MatchedCopyBlitOnly || kind is RequiredDictOrReset
}

/// Reads records from number `index` on, at most up to number `limit`, until the end
/// of the data or a record that needs a dictionary: the records, and the kind of
/// record before which reading stopped.
pub open spec fn prefix_records(
    state: Jb2State,
    header: Jb2ImageHeader,
    records: Seq<Jb2RecordSummary>,
    index: int,
    limit: int,
) -> Result<(Seq<Jb2RecordSummary>, Option<Jb2RecordKind>), Seq<char>>
    decreases limit - index,
{
    if index >= limit {
        Ok((records, None))
    } else {
        let (next, kind) = jb2_record_kind(state);
        if stops_prefix(kind) {
            Ok((records, Some(kind)))
        } else if kind is EndOfData {
            Ok((records.push(plain_summary(index, kind)), None))
        } else if brings_bitmap(kind) {
            let (fetched, outcome) = jb2_direct_symbol(next);
            match outcome {
                Err(message) => Err(message),
                Ok(symbol) => {
                    let (placed, place) = jb2_record_place(fetched, header, kind, symbol);
                    prefix_records(
                        placed,
                        header,
                        records.push(symbol_summary(index, kind, symbol, place)),
                        index + 1,
                        limit,
                    )
                },
            }
        } else {
            prefix_records(
                if kind is Comment {
                    jb2_skip_comment(next)
                } else {
                    next
                },
                header,
                records.push(plain_summary(index, kind)),
                index + 1,
                limit,
            )
        }
    }
}

/// Reads at most `limit` records of a stream.
pub open spec fn jb2_prefix(bytes: Seq<u8>, limit: int) -> Result<
    (Jb2ImageHeader, Seq<Jb2RecordSummary>, Option<Jb2RecordKind>),
    Seq<char>,
> {
    if bytes.len() < 2 {
        Err("JB2 input is too short"@)
    } else {
        let (state, outcome) = jb2_header(jb2_start(bytes));
        match outcome {
            Err(message) => Err(message),
            Ok(header) => match prefix_records(state, header, Seq::empty(), 0, limit) {
                Err(message) => Err(message),
                Ok((records, stopped)) => Ok((header, records, stopped)),
            },
        }
    }
}

/// Collects the symbols of a dictionary stream in at most `left` records.
pub open spec fn dictionary_records(
    state: Jb2State,
    dictionary: Seq<Symbol>,
    left: int,
) -> Result<Seq<Symbol>, Seq<char>>
    decreases left,
{
    if left <= 0 {
        Err("JB2 dictionary did not reach end-of-data before record limit"@)
    } else {
        let (next, kind) = jb2_record_kind(state);
        if kind is NewSymbolAddOnly || kind is MatchedRefineAddOnly {
            let (fetched, outcome) = jb2_record_symbol(next, dictionary, kind);
            match outcome {
                Err(message) => Err(message),
                Ok(symbol) => dictionary_records(
                    fetched,
                    dictionary.push(symbol_for_dictionary(symbol)),
                    left - 1,
                ),
            }
        } else if kind is RequiredDictOrReset {
            dictionary_records(next, dictionary, left - 1)
        } else if kind is Comment {
            dictionary_records(jb2_skip_comment(next), dictionary, left - 1)
        } else if kind is EndOfData {
            Ok(dictionary)
        } else {
            Err("JB2 dictionary contains unexpected "@ + kind_name(kind) + " record"@)
        }
    }
}

/// The symbols of a dictionary stream.
pub open spec fn jb2_dictionary(
    bytes: Seq<u8>,
    inherited: Option<Seq<Symbol>>,
) -> Result<Seq<Symbol>, Seq<char>> {
    if bytes.len() < 2 {
        Err("JB2 input is too short"@)
    } else {
        let (state, outcome) = jb2_header(jb2_start(bytes));
        match outcome {
            Err(message) => Err(message),
            Ok(header) => match inherited_symbols(
                inherited,
                header.inherited_dictionary_symbols as int,
            ) {
                Err(message) => Err(message),
                Ok(dictionary) => dictionary_records(state, dictionary, RECORD_LIMIT as int),
            },
        }
    }
}

/// Reads the size of a JB2 image and how many symbols it inherits.
pub fn read_jb2_image_header(bytes: &[u8]) -> (header: Result<Jb2ImageHeader, Jb2Error>)
    ensures
        bytes@.len() < 2 ==> header is Err && header->Err_0@ == "JB2 input is too short"@,
        bytes@.len() >= 2 ==> match jb2_header(jb2_start(bytes@)).1 {
            Ok(expected) => header is Ok && header->Ok_0 == expected,
            Err(message) => header is Err && header->Err_0@ == message,
        },
{
    match Jb2Decoder::new(bytes) {
        Err(error) => Err(error),
        Ok(mut decoder) => decoder.read_header(),
    }
}

/// Decodes the bitmap that a record brings.
fn decode_record_symbol(
    decoder: &mut Jb2Decoder<'_>,
    dictionary: &Vec<Jb2SymbolBitmap>,
    kind: Jb2RecordKind,
) -> (symbol: Result<Jb2SymbolBitmap, Jb2Error>)
    requires
        old(decoder).wf(),
        symbols_wf(dictionary@),
    ensures
        final(decoder).wf(),
        final(decoder)@ == jb2_record_symbol(old(decoder)@, symbols_of(dictionary@), kind).0,
        match jb2_record_symbol(old(decoder)@, symbols_of(dictionary@), kind).1 {
            Ok(expected) => {
                &&& symbol is Ok
                &&& symbol->Ok_0@ == expected
                &&& symbol->Ok_0.wf()
                &&& binary(symbol->Ok_0@.pixels)
                &&& kind is NonSymbol ==> symbol->Ok_0.height <= SIZE_MAX
            },
            Err(message) => symbol is Err && symbol->Err_0@ == message,
        },
{
    match kind {
        Jb2RecordKind::MatchedRefineAddAndBlit
        | Jb2RecordKind::MatchedRefineAddOnly
        | Jb2RecordKind::MatchedRefineBlitOnly => decoder.decode_refined_symbol(dictionary),
        Jb2RecordKind::MatchedCopyBlitOnly => decoder.decode_copied_symbol(dictionary),
        _ => decoder.decode_direct_symbol(),
    }
}

/// Decodes where a record's bitmap is painted, if it is.
fn decode_record_place(
    decoder: &mut Jb2Decoder<'_>,
    header: Jb2ImageHeader,
    kind: Jb2RecordKind,
    symbol: &Jb2SymbolBitmap,
) -> (place: Option<(i32, i32)>)
    requires
        old(decoder).wf(),
        symbol.wf(),
        1 <= header.width <= SIZE_MAX,
        1 <= header.height <= SIZE_MAX,
        kind is NonSymbol ==> symbol.height <= SIZE_MAX,
    ensures
        final(decoder).wf(),
        (final(decoder)@, place) == jb2_record_place(old(decoder)@, header, kind, symbol@),
{
    match kind {
        Jb2RecordKind::NewSymbolAddOnly | Jb2RecordKind::MatchedRefineAddOnly => None,
        Jb2RecordKind::NonSymbol => Some(decoder.decode_absolute_coords(header, symbol.height)),
        _ => Some(decoder.decode_symbol_coords(symbol.width, symbol.height)),
    }
}

/// The summary of a record without a bitmap.
fn plain_record(index: usize, kind: Jb2RecordKind) -> (record: Jb2RecordSummary)
    ensures
        record == plain_summary(index as int, kind),
{
    Jb2RecordSummary { index, kind, symbol_width: None, symbol_height: None, x: None, y: None }
}

/// The summary of a record with a bitmap.
fn symbol_record(
    index: usize,
    kind: Jb2RecordKind,
    symbol: &Jb2SymbolBitmap,
    position: Option<(i32, i32)>,
) -> (record: Jb2RecordSummary)
    ensures
        record == symbol_summary(index as int, kind, symbol@, position),
{
    let (x, y): (Option<i32>, Option<i32>) = match position {
        Some((x, y)) => (Some(x), Some(y)),
        None => (None, None),
    };
    Jb2RecordSummary {
        index,
        kind,
        symbol_width: Some(symbol.width),
        symbol_height: Some(symbol.height),
        x,
        y,
    }
}

/// Reads the first records of a stream.
///
/// Bitmaps coded on their own are decoded, so that later records are read from the
/// right place; a record that needs a dictionary ends the prefix.
pub fn read_jb2_record_prefix(bytes: &[u8], max_records: usize) -> (prefix: Result<
    Jb2RecordPrefix,
    Jb2Error,
>)
    ensures
        match jb2_prefix(bytes@, max_records as int) {
            Ok((header, records, stopped)) => {
                &&& prefix is Ok
                &&& prefix->Ok_0.header == header
                &&& prefix->Ok_0.records@ == records
                &&& prefix->Ok_0.stopped_before == stopped
            },
            Err(message) => prefix is Err && prefix->Err_0@ == message,
        },
{
    let mut decoder = match Jb2Decoder::new(bytes) {
        Err(error) => {
            return Err(error);
        },
        Ok(decoder) => decoder,
    };
    let header = match decoder.read_header() {
        Err(error) => {
            return Err(error);
        },
        Ok(header) => header,
    };
    let ghost first = decoder@;
    let mut records: Vec<Jb2RecordSummary> = Vec::new();
    let mut index: usize = 0;
    let dictionary: Vec<Jb2SymbolBitmap> = Vec::new();
    while index < max_records
        invariant
            decoder.wf(),
            index <= max_records,
            dictionary@.len() == 0,
            1 <= header.width <= SIZE_MAX,
            1 <= header.height <= SIZE_MAX,
            bytes@.len() >= 2,
            jb2_header(jb2_start(bytes@)) == (
                first,
                Ok::<Jb2ImageHeader, Seq<char>>(header),
            ),
            prefix_records(decoder@, header, records@, index as int, max_records as int)
                == prefix_records(first, header, Seq::empty(), 0, max_records as int),
        decreases max_records - index,
    {
        let kind = decoder.next_record_kind();
        match kind {
            Jb2RecordKind::MatchedRefineAddAndBlit
            | Jb2RecordKind::MatchedRefineAddOnly
            | Jb2RecordKind::MatchedRefineBlitOnly
            | Jb2RecordKind::MatchedCopyBlitOnly
            | Jb2RecordKind::RequiredDictOrReset => {
                return Ok(Jb2RecordPrefix { header, records, stopped_before: Some(kind) });
            },
            Jb2RecordKind::EndOfData => {
                records.push(plain_record(index, kind));
                return Ok(Jb2RecordPrefix { header, records, stopped_before: None });
            },
            Jb2RecordKind::StartOfImage => {
                records.push(plain_record(index, kind));
            },
            Jb2RecordKind::Comment => {
                decoder.skip_comment();
                records.push(plain_record(index, kind));
            },
            _ => {
                let symbol = match decode_record_symbol(&mut decoder, &dictionary, kind) {
                    Err(error) => {
                        return Err(error);
                    },
                    Ok(symbol) => symbol,
                };
                let place: Option<(i32, i32)> = decode_record_place(
                    &mut decoder,
                    header,
                    kind,
                    &symbol,
                );
                records.push(symbol_record(index, kind, &symbol, place));
            },
        }
        index = index + 1;
    }
    Ok(Jb2RecordPrefix { header, records, stopped_before: None })
}

/// The symbols that an image inherits of a shared dictionary.
fn initial_dictionary(
    shared_dictionary: Option<&Jb2Dictionary>,
    requested_symbols: u32,
) -> (symbols: Result<Vec<Jb2SymbolBitmap>, Jb2Error>)
    requires
        shared_dictionary is Some ==> shared_dictionary->0.wf(),
    ensures
        match inherited_symbols(shared_view(shared_dictionary), requested_symbols as int) {
            Ok(expected) => {
                &&& symbols is Ok
                &&& symbols_wf(symbols->Ok_0@)
                &&& symbols_of(symbols->Ok_0@) == expected
            },
            Err(message) => symbols is Err && symbols->Err_0@ == message,
        },
{
    let mut symbols: Vec<Jb2SymbolBitmap> = Vec::new();
    if requested_symbols == 0 {
        assert(symbols_of(symbols@) =~= Seq::<Symbol>::empty());
        return Ok(symbols);
    }
    let shared: &Jb2Dictionary = match shared_dictionary {
        None => {
            return Err(Jb2Error::new("JB2 image requires a shared dictionary"));
        },
        Some(shared) => shared,
    };
    let requested: usize = requested_symbols as usize;
    if requested > shared.symbols.len() {
        let mut message: String = text_of("JB2 image requires ");
        push_decimal(&mut message, requested as u64);
        message.append(" shared symbols, dictionary has ");
        push_decimal(&mut message, shared.symbols.len() as u64);
        return Err(Jb2Error(message));
    }
    let mut index: usize = 0;
    while index < requested
        invariant
            index <= requested <= shared.symbols@.len(),
            shared.wf(),
            symbols_wf(symbols@),
            symbols@.len() == index,
            forall|i: int| 0 <= i < index ==> #[trigger] symbols@[i]@ == shared.symbols@[i]@,
        decreases requested - index,
    {
        assert(shared.symbols@[index as int].wf());
        symbols.push(shared.symbols[index].duplicate());
        index = index + 1;
    }
    assert(symbols_of(symbols@) =~= shared@.take(requested as int));
    Ok(symbols)
}

/// The symbols of a dictionary, if there is one.
pub open spec fn shared_view(dictionary: Option<&Jb2Dictionary>) -> Option<Seq<Symbol>> {
    match dictionary {
        Some(dictionary) => Some(dictionary@),
        None => None,
    }
}

/// Adds what the dictionary keeps of a symbol.
fn push_symbol(dictionary: &mut Vec<Jb2SymbolBitmap>, symbol: &Jb2SymbolBitmap)
    requires
        symbols_wf(old(dictionary)@),
        symbol.wf(),
        binary(symbol@.pixels),
    ensures
        symbols_wf(final(dictionary)@),
        symbols_of(final(dictionary)@) == symbols_of(old(dictionary)@).push(
            symbol_for_dictionary(symbol@),
        ),
{
    proof {
        lemma_kept_binary(symbol@);
    }
    dictionary.push(symbol.dictionary_symbol());
    assert(symbols_of(dictionary@) =~= symbols_of(old(dictionary)@).push(
        symbol_for_dictionary(symbol@),
    ));
}

/// Decodes and paints at most `max_records` records of an image.
fn render_jb2_records(
    bytes: &[u8],
    max_records: usize,
    shared_dictionary: Option<&Jb2Dictionary>,
) -> (image: Result<Jb2PartialImage, Jb2Error>)
    requires
        shared_dictionary is Some ==> shared_dictionary->0.wf(),
    ensures
        shows(image, jb2_render(bytes@, max_records as int, shared_view(shared_dictionary))),
{
    let mut decoder = match Jb2Decoder::new(bytes) {
        Err(error) => {
            return Err(error);
        },
        Ok(decoder) => decoder,
    };
    let header = match decoder.read_header() {
        Err(error) => {
            return Err(error);
        },
        Ok(header) => header,
    };
    assert(header.width * header.height <= 262_142 * 262_142) by (nonlinear_arith)
        requires
            0 <= header.width <= 262_142,
            0 <= header.height <= 262_142,
    ;
    if header.width as u64 * header.height as u64 > usize::MAX as u64 {
        return Err(Jb2Error::new("JB2 bitmap exceeds the address range"));
    }
    let mut dictionary = match initial_dictionary(
        shared_dictionary,
        header.inherited_dictionary_symbols,
    ) {
        Err(error) => {
            return Err(error);
        },
        Ok(dictionary) => dictionary,
    };
    let mut mask = BitonalBitmap::new(header.width, header.height);
    let mut records: Vec<Jb2RecordSummary> = Vec::new();
    let mut index: usize = 0;
    assert(mask@ =~= blank_page(header));
    let ghost first = Rendering {
        state: decoder@,
        page: mask@,
        dictionary: symbols_of(dictionary@),
        records: records@,
    };
    let ghost over_resets = shared_dictionary is Some;
    let ghost whole = render_records(first, header, 0, max_records as int, over_resets);
    while index < max_records
        invariant
            decoder.wf(),
            mask.wf(),
            mask.width == header.width,
            mask.height == header.height,
            symbols_wf(dictionary@),
            index <= max_records,
            over_resets == (shared_dictionary is Some),
            1 <= header.width <= SIZE_MAX,
            1 <= header.height <= SIZE_MAX,
            jb2_render(bytes@, max_records as int, shared_view(shared_dictionary)) == match whole {
                Ok((run, end)) => Ok((header, run, end)),
                Err(message) => Err(message),
            },
            render_records(
                Rendering {
                    state: decoder@,
                    page: mask@,
                    dictionary: symbols_of(dictionary@),
                    records: records@,
                },
                header,
                index as int,
                max_records as int,
                over_resets,
            ) == whole,
        decreases max_records - index,
    {
        let kind = decoder.next_record_kind();
        match kind {
            Jb2RecordKind::RequiredDictOrReset => {
                if shared_dictionary.is_none() {
                    return Ok(
                        Jb2PartialImage {
                            header,
                            mask,
                            records,
                            dictionary_symbol_count: dictionary.len(),
                            stopped_before: Some(kind),
                            reached_end_of_data: false,
                        },
                    );
                }
            },
            Jb2RecordKind::StartOfImage => {
                records.push(plain_record(index, kind));
            },
            Jb2RecordKind::Comment => {
                decoder.skip_comment();
                records.push(plain_record(index, kind));
            },
            Jb2RecordKind::EndOfData => {
                records.push(plain_record(index, kind));
                return Ok(
                    Jb2PartialImage {
                        header,
                        mask,
                        records,
                        dictionary_symbol_count: dictionary.len(),
                        stopped_before: None,
                        reached_end_of_data: true,
                    },
                );
            },
            _ => {
                let symbol = match decode_record_symbol(&mut decoder, &dictionary, kind) {
                    Err(error) => {
                        return Err(error);
                    },
                    Ok(symbol) => symbol,
                };
                let place: Option<(i32, i32)> = decode_record_place(
                    &mut decoder,
                    header,
                    kind,
                    &symbol,
                );
                match place {
                    Some((x, y)) => {
                        blit_symbol(&mut mask, &symbol, x, y);
                    },
                    None => {},
                }
                records.push(symbol_record(index, kind, &symbol, place));
                match kind {
                    Jb2RecordKind::NewSymbolAddAndBlit
                    | Jb2RecordKind::NewSymbolAddOnly
                    | Jb2RecordKind::MatchedRefineAddAndBlit
                    | Jb2RecordKind::MatchedRefineAddOnly => {
                        push_symbol(&mut dictionary, &symbol);
                    },
                    _ => {},
                }
            },
        }
        index = index + 1;
    }
    Ok(
        Jb2PartialImage {
            header,
            mask,
            records,
            dictionary_symbol_count: dictionary.len(),
            stopped_before: None,
            reached_end_of_data: false,
        },
    )
}

/// Decodes and paints at most `max_records` records of an image that inherits no
/// symbols, and stops before a record that asks for a dictionary or a reset.
pub fn render_jb2_supported_prefix(bytes: &[u8], max_records: usize) -> (image: Result<
    Jb2PartialImage,
    Jb2Error,
>)
    ensures
        shows(image, jb2_render(bytes@, max_records as int, None)),
{
    render_jb2_records(bytes, max_records, None)
}

/// Insists on the end of the data.
fn complete(image: Jb2PartialImage, Ghost(end): Ghost<RenderEnd>) -> (complete: Result<
    Jb2PartialImage,
    Jb2Error,
>)
    requires
        image.stopped_before == stopping_record(end),
        image.reached_end_of_data == (end is EndOfData),
    ensures
        end is EndOfData ==> complete is Ok && complete->Ok_0 == image,
        !(end is EndOfData) ==> complete is Err && complete->Err_0@ == incomplete_message(end),
{
    match image.stopped_before {
        Some(kind) => {
            let mut message: String = text_of("JB2 image stopped before unsupported ");
            message.append(kind.as_str());
            message.append(" record");
            return Err(Jb2Error(message));
        },
        None => {},
    }
    if !image.reached_end_of_data {
        return Err(Jb2Error::new("JB2 image did not reach end-of-data within 1000000 records"));
    }
    Ok(image)
}

/// Decodes and paints an image that inherits no symbols.
pub fn render_jb2_image(bytes: &[u8]) -> (image: Result<Jb2PartialImage, Jb2Error>)
    ensures
        shows(image, jb2_render_all(bytes@, None)),
{
    match render_jb2_records(bytes, RECORD_LIMIT, None) {
        Err(error) => Err(error),
        Ok(image) => {
            let ghost (_, _, end) = jb2_render(bytes@, RECORD_LIMIT as int, None)->Ok_0;
            complete(image, Ghost(end))
        },
    }
}

/// Decodes and paints an image that may inherit symbols of a shared dictionary. Records that
/// ask for a dictionary or a reset are gone over.
pub fn render_jb2_image_with_dictionary(bytes: &[u8], dictionary: &Jb2Dictionary) -> (image: Result<
    Jb2PartialImage,
    Jb2Error,
>)
    requires
        dictionary.wf(),
    ensures
        shows(image, jb2_render_all(bytes@, Some(dictionary@))),
{
    match render_jb2_records(bytes, RECORD_LIMIT, Some(dictionary)) {
        Err(error) => Err(error),
        Ok(image) => {
            let ghost (_, _, end) = jb2_render(
                bytes@,
                RECORD_LIMIT as int,
                Some(dictionary@),
            )->Ok_0;
            complete(image, Ghost(end))
        },
    }
}

/// Decodes a dictionary that inherits no symbols.
pub fn decode_jb2_dictionary(bytes: &[u8]) -> (dictionary: Result<Jb2Dictionary, Jb2Error>)
    ensures
        match jb2_dictionary(bytes@, None) {
            Ok(symbols) => {
                &&& dictionary is Ok
                &&& dictionary->Ok_0.wf()
                &&& dictionary->Ok_0@ == symbols
            },
            Err(message) => dictionary is Err && dictionary->Err_0@ == message,
        },
{
    decode_jb2_dictionary_with_inherited(bytes, None)
}

/// Decodes a dictionary that may inherit symbols of another.
fn decode_jb2_dictionary_with_inherited(
    bytes: &[u8],
    inherited: Option<&Jb2Dictionary>,
) -> (outcome: Result<Jb2Dictionary, Jb2Error>)
    requires
        inherited is Some ==> inherited->0.wf(),
    ensures
        match jb2_dictionary(bytes@, shared_view(inherited)) {
            Ok(symbols) => {
                &&& outcome is Ok
                &&& outcome->Ok_0.wf()
                &&& outcome->Ok_0@ == symbols
            },
            Err(message) => outcome is Err && outcome->Err_0@ == message,
        },
{
    let mut decoder = match Jb2Decoder::new(bytes) {
        Err(error) => {
            return Err(error);
        },
        Ok(decoder) => decoder,
    };
    let header = match decoder.read_header() {
        Err(error) => {
            return Err(error);
        },
        Ok(header) => header,
    };
    let mut dictionary = match initial_dictionary(inherited, header.inherited_dictionary_symbols) {
        Err(error) => {
            return Err(error);
        },
        Ok(dictionary) => dictionary,
    };
    let mut left: usize = RECORD_LIMIT;
    while left > 0
        invariant
            decoder.wf(),
            symbols_wf(dictionary@),
            dictionary_records(decoder@, symbols_of(dictionary@), left as int) == jb2_dictionary(
                bytes@,
                shared_view(inherited),
            ),
        decreases left,
    {
        let kind = decoder.next_record_kind();
        match kind {
            Jb2RecordKind::NewSymbolAddOnly | Jb2RecordKind::MatchedRefineAddOnly => {
                let symbol = match decode_record_symbol(&mut decoder, &dictionary, kind) {
                    Err(error) => {
                        return Err(error);
                    },
                    Ok(symbol) => symbol,
                };
                push_symbol(&mut dictionary, &symbol);
            },
            Jb2RecordKind::RequiredDictOrReset => {},
            Jb2RecordKind::Comment => {
                decoder.skip_comment();
            },
            Jb2RecordKind::EndOfData => {
                return Ok(Jb2Dictionary { symbols: dictionary });
            },
            _ => {
                let mut message: String = text_of("JB2 dictionary contains unexpected ");
                message.append(kind.as_str());
                message.append(" record");
                return Err(Jb2Error(message));
            },
        }
        left = left - 1;
    }
    Err(Jb2Error::new("JB2 dictionary did not reach end-of-data before record limit"))
}

proof fn lemma_limit_is_enough_from(
    run: Rendering,
    header: Jb2ImageHeader,
    index: int,
    limit: int,
    larger: int,
    over_resets: bool,
)
    requires
        limit <= larger,
        render_records(run, header, index, limit, over_resets) matches Ok((_, end))
            && end !is Limit,
    ensures
        render_records(run, header, index, larger, over_resets) == render_records(
            run,
            header,
            index,
            limit,
            over_resets,
        ),
    decreases limit - index,
{
    match render_record(run, header, index, over_resets) {
        Ok((next, None)) => {
            lemma_limit_is_enough_from(next, header, index + 1, limit, larger, over_resets);
        },
        _ => {},
    }
}

/// Once an image has ended otherwise than by the limit on its records, a larger limit
/// changes nothing.
pub proof fn lemma_limit_is_enough(
    bytes: Seq<u8>,
    limit: int,
    larger: int,
    shared: Option<Seq<Symbol>>,
)
    requires
        limit <= larger,
        jb2_render(bytes, limit, shared) matches Ok((_, _, end)) && end !is Limit,
    ensures
        jb2_render(bytes, larger, shared) == jb2_render(bytes, limit, shared),
{
    let (state, outcome) = jb2_header(jb2_start(bytes));
    let header = outcome->Ok_0;
    let dictionary = inherited_symbols(
        shared,
        header.inherited_dictionary_symbols as int,
    )->Ok_0;
    lemma_limit_is_enough_from(
        Rendering { state, page: blank_page(header), dictionary, records: Seq::empty() },
        header,
        0,
        limit,
        larger,
        shared is Some,
    );
}

proof fn lemma_end_is_last_from(
    run: Rendering,
    header: Jb2ImageHeader,
    index: int,
    limit: int,
    over_resets: bool,
)
    requires
        0 <= index,
        run.records.len() <= index,
        forall|i: int| 0 <= i < run.records.len() ==> !((#[trigger] run.records[i]).kind is
            EndOfData),
    ensures
        render_records(run, header, index, limit, over_resets) matches Ok((end, why)) ==> {
            &&& end.records.len() <= if limit <= index { index } else { limit }
            &&& forall|i: int|
                0 <= i < end.records.len() ==> ((#[trigger] end.records[i]).kind is EndOfData
                    <==> why is EndOfData && i == end.records.len() - 1)
            &&& why is EndOfData ==> end.records.len() > 0
        },
    decreases limit - index,
{
    if index < limit {
        match render_record(run, header, index, over_resets) {
            Ok((next, None)) => {
                lemma_end_is_last_from(next, header, index + 1, limit, over_resets);
            },
            _ => {},
        }
    }
}

/// No more records are reported than the limit allows, and the end of the data was
/// reached exactly if the last of them, and no other, says so.
pub proof fn lemma_end_is_last(bytes: Seq<u8>, limit: int, shared: Option<Seq<Symbol>>)
    requires
        0 <= limit,
    ensures
        jb2_render(bytes, limit, shared) matches Ok((_, end, why)) ==> {
            &&& end.records.len() <= limit
            &&& forall|i: int|
                0 <= i < end.records.len() ==> ((#[trigger] end.records[i]).kind is EndOfData
                    <==> why is EndOfData && i == end.records.len() - 1)
            &&& why is EndOfData ==> end.records.len() > 0
        },
{
    let (state, outcome) = jb2_header(jb2_start(bytes));
    if outcome is Ok {
        let header = outcome->Ok_0;
        let inherited = inherited_symbols(shared, header.inherited_dictionary_symbols as int);
        if inherited is Ok {
            lemma_end_is_last_from(
                Rendering {
                    state,
                    page: blank_page(header),
                    dictionary: inherited->Ok_0,
                    records: Seq::empty(),
                },
                header,
                0,
                limit,
                shared is Some,
            );
        }
    }
}

proof fn lemma_no_stop_over_resets_from(
    run: Rendering,
    header: Jb2ImageHeader,
    index: int,
    limit: int,
)
    ensures
        render_records(run, header, index, limit, true) matches Ok((_, end)) ==> end !is Reset,
    decreases limit - index,
{
    if index < limit {
        match render_record(run, header, index, true) {
            Ok((next, None)) => {
                lemma_no_stop_over_resets_from(next, header, index + 1, limit);
            },
            _ => {},
        }
    }
}

/// With a shared dictionary no rendering stops before a record that asks for a dictionary or
/// a reset; the end of the data or the limit on the records ends it, or an error.
pub proof fn lemma_no_stop_with_dictionary(bytes: Seq<u8>, limit: int, shared: Seq<Symbol>)
    ensures
        jb2_render(bytes, limit, Some(shared)) matches Ok((_, _, end)) ==> stopping_record(end)
            is None,
{
    let (state, outcome) = jb2_header(jb2_start(bytes));
    if outcome is Ok {
        let header = outcome->Ok_0;
        let inherited = inherited_symbols(
            Some(shared),
            header.inherited_dictionary_symbols as int,
        );
        if inherited is Ok {
            lemma_no_stop_over_resets_from(
                Rendering {
                    state,
                    page: blank_page(header),
                    dictionary: inherited->Ok_0,
                    records: Seq::empty(),
                },
                header,
                0,
                limit,
            );
        }
    }
}

} // verus!
