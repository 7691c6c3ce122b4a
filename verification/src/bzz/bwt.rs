//! Blocks: the Burrows-Wheeler transform undone, and ranks turned into symbols.

use crate::bzz::model::BWT_MARKER_RANK;
use crate::bzz::mtf::{mtf_start, mtf_taken, BzzMoveToFrontTable, MtfState};
use crate::bzz::{list_outcome, BzzError, BzzFault, BzzResult};
use vstd::prelude::*;

verus! {

/// How often a symbol occurs among the first `n`, not counting the marker's place.
pub open spec fn occurrences(symbols: Seq<u8>, marker: int, symbol: int, n: int) -> nat
    decreases n,
{
    if n <= 0 {
        0
    } else {
        occurrences(symbols, marker, symbol, n - 1) + if n - 1 != marker && symbols[n - 1]
            == symbol {
            1nat
        } else {
            0nat
        }
    }
}

/// How many of the first `n` symbols are less than the given one, not counting the
/// marker's place.
pub open spec fn smaller(symbols: Seq<u8>, marker: int, symbol: int, n: int) -> nat
    decreases n,
{
    if n <= 0 {
        0
    } else {
        smaller(symbols, marker, symbol, n - 1) + if n - 1 != marker && symbols[n - 1] < symbol {
            1nat
        } else {
            0nat
        }
    }
}

/// The symbol that stands at a place; at the marker's place, zero.
pub open spec fn symbol_at(symbols: Seq<u8>, marker: int, i: int) -> u8 {
    if i == marker {
        0
    } else {
        symbols[i]
    }
}

/// The place of the rotation that starts one symbol earlier: behind the empty one, those
/// that start with a lesser symbol, and those that start with the same symbol and come
/// before it.
pub open spec fn earlier(symbols: Seq<u8>, marker: int, i: int) -> int {
    if i == marker {
        1
    } else {
        1int + smaller(symbols, marker, symbols[i] as int, symbols.len() as int) + occurrences(
            symbols,
            marker,
            symbols[i] as int,
            i,
        )
    }
}

/// The place after so many steps back from the end of the block.
pub open spec fn steps_back(symbols: Seq<u8>, marker: int, steps: nat) -> int
    decreases steps,
{
    if steps == 0 {
        0
    } else {
        earlier(symbols, marker, steps_back(symbols, marker, (steps - 1) as nat))
    }
}

/// The bytes that the steps back pass, read forward.
pub open spec fn passed(symbols: Seq<u8>, marker: int) -> Seq<u8> {
    Seq::new(
        (symbols.len() - 1) as nat,
        |i: int|
            symbol_at(
                symbols,
                marker,
                steps_back(symbols, marker, (symbols.len() - 2 - i) as nat),
            ),
    )
}

/// The block whose transform is given, or why there is none.
pub open spec fn bwt_inverse(symbols: Seq<u8>, marker: int) -> Result<Seq<u8>, BzzFault> {
    if marker <= 0 || marker >= symbols.len() {
        Err(
            BzzFault::InvalidBwtMarker {
                marker_pos: marker,
                block_len: symbols.len() as int,
            },
        )
    } else if steps_back(symbols, marker, (symbols.len() - 1) as nat) != marker {
        Err(BzzFault::InvalidBwtTransform)
    } else {
        Ok(passed(symbols, marker))
    }
}

/// A block before its transform is undone.
#[verifier::ext_equal]
pub struct BlockModel {
    pub symbols: Seq<u8>,
    pub marker: int,
}

/// The symbols from an index on, after those already had; or why there are none.
pub open spec fn block_from(
    ranks: Seq<usize>,
    block_len: int,
    mtf: MtfState,
    symbols: Seq<u8>,
    marker: Option<int>,
) -> Result<BlockModel, BzzFault>
    decreases block_len - symbols.len(),
{
    let index = symbols.len();
    if index >= block_len {
        match marker {
            Some(marker) => Ok(BlockModel { symbols, marker }),
            None => Err(BzzFault::MissingBwtMarker),
        }
    } else if index >= ranks.len() {
        Err(BzzFault::TruncatedRankStream { expected_len: block_len })
    } else if ranks[index as int] == BWT_MARKER_RANK {
        if marker is Some {
            Err(BzzFault::DuplicateBwtMarker)
        } else {
            block_from(ranks, block_len, mtf, symbols.push(0), Some(index as int))
        }
    } else if ranks[index as int] >= mtf.symbols.len() {
        Err(BzzFault::InvalidSymbolRank { rank: ranks[index as int] as int })
    } else {
        block_from(
            ranks,
            block_len,
            mtf_taken(mtf, ranks[index as int] as int),
            symbols.push(mtf.symbols[ranks[index as int] as int]),
            marker,
        )
    }
}

/// The symbols that ranks stand for, or why there are none.
pub open spec fn block_of(ranks: Seq<usize>, block_len: int, fshift: nat) -> Result<
    BlockModel,
    BzzFault,
> {
    block_from(ranks, block_len, mtf_start(fshift), Seq::empty(), None)
}

/// The bytes that ranks stand for, or why there are none.
pub open spec fn block_bytes(ranks: Seq<usize>, block_len: int, fshift: nat) -> Result<
    Seq<u8>,
    BzzFault,
> {
    match block_of(ranks, block_len, fshift) {
        Err(fault) => Err(fault),
        Ok(block) => bwt_inverse(block.symbols, block.marker),
    }
}

pub(crate) proof fn lemma_smaller_next(symbols: Seq<u8>, marker: int, symbol: int, n: int)
    ensures
        smaller(symbols, marker, symbol + 1, n) == smaller(symbols, marker, symbol, n)
            + occurrences(symbols, marker, symbol, n),
    decreases n,
{
    if n > 0 {
        lemma_smaller_next(symbols, marker, symbol, n - 1);
    }
}

pub(crate) proof fn lemma_smaller_range(symbols: Seq<u8>, marker: int, symbol: int, n: int)
    requires
        0 <= n,
    ensures
        smaller(symbols, marker, symbol, n) <= n,
        0 <= marker < n ==> smaller(symbols, marker, symbol, n) <= n - 1,
    decreases n,
{
    if n > 0 {
        lemma_smaller_range(symbols, marker, symbol, n - 1);
    }
}

pub(crate) proof fn lemma_occurrences_grow(
    symbols: Seq<u8>,
    marker: int,
    symbol: int,
    m: int,
    n: int,
)
    requires
        m <= n,
    ensures
        occurrences(symbols, marker, symbol, m) <= occurrences(symbols, marker, symbol, n),
    decreases n - m,
{
    if m < n {
        lemma_occurrences_grow(symbols, marker, symbol, m, n - 1);
    }
}

proof fn lemma_nothing_below_zero(symbols: Seq<u8>, marker: int, n: int)
    ensures
        smaller(symbols, marker, 0, n) == 0,
    decreases n,
{
    if n > 0 {
        lemma_nothing_below_zero(symbols, marker, n - 1);
    }
}

/// A step back leads to a place of the block.
pub proof fn lemma_earlier_range(symbols: Seq<u8>, marker: int, i: int)
    requires
        0 < marker < symbols.len(),
        0 <= i < symbols.len(),
    ensures
        0 <= earlier(symbols, marker, i) < symbols.len(),
{
    if i != marker {
        let symbol = symbols[i] as int;
        let n = symbols.len() as int;
        lemma_occurrences_grow(symbols, marker, symbol, i + 1, n);
        lemma_smaller_next(symbols, marker, symbol, n);
        lemma_smaller_range(symbols, marker, symbol + 1, n);
    }
}

/// Steps back stay within the block.
pub proof fn lemma_steps_back_range(symbols: Seq<u8>, marker: int, steps: nat)
    requires
        0 < marker < symbols.len(),
    ensures
        0 <= steps_back(symbols, marker, steps) < symbols.len(),
    decreases steps,
{
    if steps > 0 {
        lemma_steps_back_range(symbols, marker, (steps - 1) as nat);
        lemma_earlier_range(symbols, marker, steps_back(symbols, marker, (steps - 1) as nat));
    }
}

/// A block before its transform is undone: its symbols, and where the marker stands.
#[derive(Debug, Clone, PartialEq, Eq)]
pub struct BlockSymbols {
    pub symbols: Vec<u8>,
    pub marker_pos: usize,
}

impl View for BlockSymbols {
    type V = BlockModel;

    open spec fn view(&self) -> BlockModel {
        BlockModel { symbols: self.symbols@, marker: self.marker_pos as int }
    }
}

/// Undoes the transform of a block.
pub fn inverse_bwt_block(symbols: &[u8], marker_pos: usize) -> (block: BzzResult<Vec<u8>>)
    ensures
        list_outcome(block) == bwt_inverse(symbols@, marker_pos as int),
{
    let len: usize = symbols.len();
    if marker_pos == 0 || marker_pos >= len {
        return Err(BzzError::InvalidBwtMarker { marker_pos, block_len: len });
    }
    let ghost marker = marker_pos as int;
    let mut counts: [usize; 256] = [0; 256];
    let mut before: Vec<usize> = Vec::new();
    let mut index: usize = 0;
    while index < len
        invariant
            index <= len,
            len == symbols@.len(),
            marker == marker_pos,
            before@.len() == index,
            forall|s: int|
                0 <= s < 256 ==> #[trigger] counts[s] == occurrences(
                    symbols@,
                    marker,
                    s,
                    index as int,
                ),
            forall|s: int| 0 <= s < 256 ==> #[trigger] counts[s] <= index,
            forall|i: int|
                0 <= i < index && i != marker ==> #[trigger] before@[i] == occurrences(
                    symbols@,
                    marker,
                    symbols@[i] as int,
                    i,
                ),
        decreases len - index,
    {
        if index == marker_pos {
            before.push(0);
        } else {
            let symbol: usize = symbols[index] as usize;
            before.push(counts[symbol]);
            counts[symbol] = counts[symbol] + 1;
        }
        index = index + 1;
    }
    let mut next_sorted: usize = 1;
    let mut symbol: usize = 0;
    proof {
        lemma_nothing_below_zero(symbols@, marker, len as int);
    }
    while symbol < 256
        invariant
            symbol <= 256,
            len == symbols@.len(),
            0 < marker < len,
            next_sorted == 1 + smaller(symbols@, marker, symbol as int, len as int),
            forall|s: int|
                0 <= s < symbol ==> #[trigger] counts[s] == 1 + smaller(
                    symbols@,
                    marker,
                    s,
                    len as int,
                ),
            forall|s: int|
                symbol <= s < 256 ==> #[trigger] counts[s] == occurrences(
                    symbols@,
                    marker,
                    s,
                    len as int,
                ),
        decreases 256 - symbol,
    {
        proof {
            lemma_smaller_next(symbols@, marker, symbol as int, len as int);
            lemma_smaller_range(symbols@, marker, symbol + 1, len as int);
        }
        let count: usize = counts[symbol];
        counts[symbol] = next_sorted;
        next_sorted = next_sorted + count;
        symbol = symbol + 1;
    }
    let mut decoded: Vec<u8> = vec![0u8; len - 1];
    let mut link: usize = 0;
    let mut output: usize = len - 1;
    while output > 0
        invariant
            output <= len - 1,
            len == symbols@.len(),
            marker == marker_pos,
            0 < marker < len,
            before@.len() == len,
            decoded@.len() == len - 1,
            link < len,
            link == steps_back(symbols@, marker, (len - 1 - output) as nat),
            forall|s: int|
                0 <= s < 256 ==> #[trigger] counts[s] == 1 + smaller(
                    symbols@,
                    marker,
                    s,
                    len as int,
                ),
            forall|i: int|
                0 <= i < len && i != marker ==> #[trigger] before@[i] == occurrences(
                    symbols@,
                    marker,
                    symbols@[i] as int,
                    i,
                ),
            forall|i: int|
                output <= i < len - 1 ==> #[trigger] decoded@[i] == symbol_at(
                    symbols@,
                    marker,
                    steps_back(symbols@, marker, (len - 2 - i) as nat),
                ),
        decreases output,
    {
        output = output - 1;
        proof {
            lemma_earlier_range(symbols@, marker, link as int);
        }
        if link == marker_pos {
            decoded.set(output, 0);
            link = 1;
        } else {
            let symbol: u8 = symbols[link];
            decoded.set(output, symbol);
            link = counts[symbol as usize] + before[link];
        }
    }
    if link != marker_pos {
        return Err(BzzError::InvalidBwtTransform);
    }
    assert(decoded@ =~= passed(symbols@, marker));
    Ok(decoded)
}

/// Turns ranks into the bytes of a block.
pub fn decode_block_from_ranks(block_len: usize, fshift: u8, ranks: &[usize]) -> (bytes: BzzResult<
    Vec<u8>,
>)
    requires
        fshift < 32,
    ensures
        list_outcome(bytes) == block_bytes(ranks@, block_len as int, fshift as nat),
{
    match block_symbols_from_ranks(block_len, fshift, ranks) {
        Err(error) => Err(error),
        Ok(block) => inverse_bwt_block(block.symbols.as_slice(), block.marker_pos),
    }
}

/// Turns ranks into the symbols of a block.
pub fn block_symbols_from_ranks(block_len: usize, fshift: u8, ranks: &[usize]) -> (block: BzzResult<
    BlockSymbols,
>)
    requires
        fshift < 32,
    ensures
        match block_of(ranks@, block_len as int, fshift as nat) {
            Ok(expected) => block is Ok && block->Ok_0@ == expected,
            Err(fault) => block is Err && block->Err_0@ == fault,
        },
{
    let mut table = BzzMoveToFrontTable::new(fshift);
    let mut symbols: Vec<u8> = Vec::new();
    let mut marker_pos: Option<usize> = None;
    let mut index: usize = 0;
    let ghost mut marker: Option<int> = None;
    while index < block_len
        invariant
            index <= block_len,
            fshift < 32,
            table.fshift == fshift,
            symbols@.len() == index,
            marker is Some <==> marker_pos is Some,
            marker matches Some(m) ==> marker_pos->0 == m,
            block_from(ranks@, block_len as int, table@, symbols@, marker) == block_of(
                ranks@,
                block_len as int,
                fshift as nat,
            ),
        decreases block_len - index,
    {
        if index >= ranks.len() {
            return Err(BzzError::TruncatedRankStream { expected_len: block_len });
        }
        let rank: usize = ranks[index];
        if rank == BWT_MARKER_RANK {
            if marker_pos.is_some() {
                return Err(BzzError::DuplicateBwtMarker);
            }
            marker_pos = Some(index);
            proof {
                marker = Some(index as int);
            }
            symbols.push(0);
        } else {
            let symbol: u8 = match table.take(rank) {
                Err(error) => {
                    return Err(error);
                },
                Ok(symbol) => symbol,
            };
            symbols.push(symbol);
        }
        index = index + 1;
    }
    match marker_pos {
        None => Err(BzzError::MissingBwtMarker),
        Some(marker_pos) => Ok(BlockSymbols { symbols, marker_pos }),
    }
}

} // verus!
