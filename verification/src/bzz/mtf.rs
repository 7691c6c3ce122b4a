//! The move-to-front list, in which frequent symbols stay near the front.

use crate::bzz::{outcome, BzzError, BzzFault, BzzResult};
use vstd::arithmetic::power2::pow2;
use vstd::prelude::*;

verus! {

/// Above this, frequencies are scaled down, and by as much.
pub const FREQUENCY_LIMIT: u32 = 0x1000_0000;

/// The list: the symbols in order, how frequent the first four are, how much an
/// occurrence counts, and how fast that grows.
#[verifier::ext_equal]
pub struct MtfState {
    pub symbols: Seq<u8>,
    pub freq: Seq<u32>,
    pub fadd: int,
    pub fshift: nat,
}

/// A sum that stops at the largest number of 32 bits.
pub open spec fn capped_sum(left: int, right: int) -> int {
    if left + right <= u32::MAX {
        left + right
    } else {
        u32::MAX as int
    }
}

/// The list before any symbol: all bytes in order, none of them frequent.
pub open spec fn mtf_start(fshift: nat) -> MtfState {
    MtfState {
        symbols: Seq::new(256, |i: int| i as u8),
        freq: seq![0u32, 0u32, 0u32, 0u32],
        fadd: 4,
        fshift,
    }
}

/// The list after an occurrence has come to count more.
pub open spec fn mtf_grown(mtf: MtfState) -> MtfState {
    let fadd = capped_sum(mtf.fadd, mtf.fadd / pow2(mtf.fshift) as int);
    if fadd > FREQUENCY_LIMIT {
        MtfState {
            fadd: fadd / FREQUENCY_LIMIT as int,
            freq: Seq::new(mtf.freq.len(), |i: int| (mtf.freq[i] / FREQUENCY_LIMIT) as u32),
            ..mtf
        }
    } else {
        MtfState { fadd, ..mtf }
    }
}

/// The first place from `at` on, but not after `limit`, whose frequency is lower.
pub open spec fn place_from(freq: Seq<u32>, at: int, limit: int, frequency: int) -> int
    decreases limit - at,
{
    if at < limit && freq[at] >= frequency {
        place_from(freq, at + 1, limit, frequency)
    } else {
        at
    }
}

/// The last place to which a symbol at the given rank can move.
pub open spec fn lowest_place(rank: int) -> int {
    if rank <= 3 {
        rank
    } else {
        3
    }
}

/// How frequent the symbol at the given rank is, counting this occurrence.
pub open spec fn frequency_at(mtf: MtfState, rank: int) -> int {
    capped_sum(
        if rank < 4 {
            mtf.freq[rank] as int
        } else {
            0
        },
        mtf.fadd,
    )
}

/// The list after the symbol at the given rank has occurred: it moves up past those that
/// are less frequent, of the first four.
pub open spec fn mtf_taken(mtf: MtfState, rank: int) -> MtfState {
    let grown = mtf_grown(mtf);
    let frequency = frequency_at(grown, rank);
    let place = place_from(grown.freq, 0, lowest_place(rank), frequency);
    MtfState {
        symbols: grown.symbols.remove(rank).insert(place, mtf.symbols[rank]),
        freq: grown.freq.remove(lowest_place(rank)).insert(place, frequency as u32),
        ..grown
    }
}

/// Every byte stands in the list, and none twice.
pub open spec fn holds_every_byte(symbols: Seq<u8>) -> bool {
    &&& symbols.len() == 256
    &&& symbols.no_duplicates()
    &&& forall|byte: u8| #[trigger] symbols.contains(byte)
}

/// The frequencies do not rise from the front on.
pub open spec fn non_rising(freq: Seq<u32>) -> bool {
    forall|i: int, j: int| 0 <= i <= j < freq.len() ==> freq[i] >= freq[j]
}

/// At first every byte stands in the list once.
pub proof fn lemma_start_holds_every_byte(fshift: nat)
    ensures
        holds_every_byte(mtf_start(fshift).symbols),
        non_rising(mtf_start(fshift).freq),
{
    let symbols = mtf_start(fshift).symbols;
    assert forall|byte: u8| #[trigger] symbols.contains(byte) by {
        assert(symbols[byte as int] == byte);
    }
}

proof fn lemma_place_range(freq: Seq<u32>, at: int, limit: int, frequency: int)
    requires
        0 <= at <= limit,
    ensures
        at <= place_from(freq, at, limit, frequency) <= limit,
        forall|i: int| at <= i < place_from(freq, at, limit, frequency) ==> freq[i] >= frequency,
        place_from(freq, at, limit, frequency) < limit ==> freq[place_from(
            freq,
            at,
            limit,
            frequency,
        )] < frequency,
    decreases limit - at,
{
    if at < limit && freq[at] >= frequency {
        lemma_place_range(freq, at + 1, limit, frequency);
    }
}

/// However often symbols occur, every byte stays in the list, and none comes to stand in
/// it twice.
pub proof fn lemma_taken_holds_every_byte(mtf: MtfState, rank: int)
    requires
        holds_every_byte(mtf.symbols),
        mtf.freq.len() == 4,
        0 <= rank < 256,
    ensures
        holds_every_byte(mtf_taken(mtf, rank).symbols),
        mtf_taken(mtf, rank).freq.len() == 4,
{
    let grown = mtf_grown(mtf);
    let frequency = frequency_at(grown, rank);
    lemma_place_range(grown.freq, 0, lowest_place(rank), frequency);
    let place = place_from(grown.freq, 0, lowest_place(rank), frequency);
    let before = mtf.symbols;
    let after = mtf_taken(mtf, rank).symbols;
    assert forall|byte: u8| #[trigger] after.contains(byte) by {
        assert(before.contains(byte));
        let i = choose|i: int| 0 <= i < before.len() && before[i] == byte;
        if i == rank {
            assert(after[place] == byte);
        } else {
            let j = if i < rank {
                i
            } else {
                i - 1
            };
            assert(before.remove(rank)[j] == byte);
            if j < place {
                assert(after[j] == byte);
            } else {
                assert(after[j + 1] == byte);
            }
        }
    }
    assert(after.no_duplicates()) by {
        assert forall|i: int, j: int| 0 <= i < j < after.len() implies after[i] != after[j] by {
            let from_i = if i < place {
                i
            } else {
                i - 1
            };
            let from_j = if j < place {
                j
            } else {
                j - 1
            };
            let old_i = if i == place {
                rank
            } else if from_i < rank {
                from_i
            } else {
                from_i + 1
            };
            let old_j = if j == place {
                rank
            } else if from_j < rank {
                from_j
            } else {
                from_j + 1
            };
            assert(after[i] == before[old_i]);
            assert(after[j] == before[old_j]);
        }
    }
}

/// However often symbols occur, the frequencies of the first four do not rise from the
/// front on: the most frequent symbols stay in front.
pub proof fn lemma_taken_keeps_order(mtf: MtfState, rank: int)
    requires
        non_rising(mtf.freq),
        mtf.freq.len() == 4,
        0 <= mtf.fadd,
        0 <= rank,
    ensures
        non_rising(mtf_taken(mtf, rank).freq),
{
    let grown = mtf_grown(mtf);
    let frequency = frequency_at(grown, rank);
    let lowest = lowest_place(rank);
    vstd::arithmetic::power2::lemma_pow2_pos(mtf.fshift);
    assert(0 <= mtf.fadd / pow2(mtf.fshift) as int) by (nonlinear_arith)
        requires
            0 <= mtf.fadd,
            pow2(mtf.fshift) > 0,
    ;
    assert(non_rising(grown.freq));
    lemma_place_range(grown.freq, 0, lowest, frequency);
    let place = place_from(grown.freq, 0, lowest, frequency);
    let after = mtf_taken(mtf, rank).freq;
    assert forall|i: int, j: int| 0 <= i <= j < after.len() implies after[i] >= after[j] by {
        let from_i = if i < place {
            i
        } else if i <= lowest {
            i - 1
        } else {
            i
        };
        let from_j = if j < place {
            j
        } else if j <= lowest {
            j - 1
        } else {
            j
        };
        assert(after[i] == if i == place {
            frequency as u32
        } else {
            grown.freq[from_i]
        });
        assert(after[j] == if j == place {
            frequency as u32
        } else {
            grown.freq[from_j]
        });
    }
}

/// The move-to-front list of a block.
#[derive(Debug, Clone)]
pub struct BzzMoveToFrontTable {
    pub symbols: Vec<u8>,
    pub freq: [u32; 4],
    pub fadd: u32,
    pub fshift: u8,
}

impl View for BzzMoveToFrontTable {
    type V = MtfState;

    open spec fn view(&self) -> MtfState {
        MtfState {
            symbols: self.symbols@,
            freq: self.freq@,
            fadd: self.fadd as int,
            fshift: self.fshift as nat,
        }
    }
}

impl BzzMoveToFrontTable {
    /// The list before any symbol.
    pub fn new(fshift: u8) -> (table: Self)
        ensures
            table@ == mtf_start(fshift as nat),
    {
        let mut symbols: Vec<u8> = Vec::new();
        let mut i: usize = 0;
        while i < 256
            invariant
                i <= 256,
                symbols@ == Seq::new(i as nat, |k: int| k as u8),
            decreases 256 - i,
        {
            symbols.push(i as u8);
            i = i + 1;
            assert(symbols@ =~= Seq::new(i as nat, |k: int| k as u8));
        }
        let table = BzzMoveToFrontTable { symbols, freq: [0; 4], fadd: 4, fshift };
        assert(table@ =~= mtf_start(fshift as nat));
        table
    }

    /// Takes the symbol at a rank, which moves up.
    pub fn take(&mut self, rank: usize) -> (symbol: BzzResult<u8>)
        requires
            old(self).fshift < 32,
        ensures
            final(self).fshift == old(self).fshift,
            rank >= old(self).symbols@.len() ==> outcome(symbol) == Err::<u8, BzzFault>(
                BzzFault::InvalidSymbolRank { rank: rank as int },
            ) && final(self)@ == old(self)@,
            rank < old(self).symbols@.len() ==> outcome(symbol) == Ok::<u8, BzzFault>(
                old(self).symbols@[rank as int],
            ) && final(self)@ == mtf_taken(old(self)@, rank as int),
    {
        if rank >= self.symbols.len() {
            return Err(BzzError::InvalidSymbolRank { rank });
        }
        self.update_fadd();
        let ghost grown = self@;
        let symbol: u8 = self.symbols.remove(rank);
        let base: u32 = if rank < 4 {
            self.freq[rank]
        } else {
            0
        };
        let symbol_freq: u32 = base.saturating_add(self.fadd);
        let insert_at: usize = self.insertion_index(rank, symbol_freq);
        proof {
            lemma_place_range(grown.freq, 0, lowest_place(rank as int), symbol_freq as int);
        }
        self.symbols.insert(insert_at, symbol);
        self.rotate_freq(rank, insert_at, symbol_freq);
        Ok(symbol)
    }

    /// The rank of a symbol.
    pub fn rank_of(&self, symbol: u8) -> (rank: Option<usize>)
        ensures
            match rank {
                Some(rank) => rank < self.symbols@.len() && self.symbols@[rank as int] == symbol
                    && forall|i: int| 0 <= i < rank ==> self.symbols@[i] != symbol,
                None => !self.symbols@.contains(symbol),
            },
    {
        let mut i: usize = 0;
        while i < self.symbols.len()
            invariant
                i <= self.symbols@.len(),
                forall|k: int| 0 <= k < i ==> self.symbols@[k] != symbol,
            decreases self.symbols@.len() - i,
        {
            if self.symbols[i] == symbol {
                return Some(i);
            }
            i = i + 1;
        }
        None
    }

    /// Lets an occurrence count more.
    fn update_fadd(&mut self)
        requires
            old(self).fshift < 32,
        ensures
            final(self)@ == mtf_grown(old(self)@),
    {
        let ghost before = self@;
        proof {
            vstd::bits::lemma_u32_shr_is_div(self.fadd, self.fshift as u32);
        }
        let growth: u32 = self.fadd >> (self.fshift as u32);
        self.fadd = self.fadd.saturating_add(growth);
        if self.fadd > FREQUENCY_LIMIT {
            self.fadd = self.fadd / FREQUENCY_LIMIT;
            let mut i: usize = 0;
            while i < 4
                invariant
                    i <= 4,
                    self.symbols@ == before.symbols,
                    self.fshift == before.fshift,
                    self.fadd == mtf_grown(before).fadd,
                    before.freq.len() == 4,
                    forall|k: int|
                        0 <= k < i ==> #[trigger] self.freq[k] == before.freq[k] / FREQUENCY_LIMIT,
                    forall|k: int| i <= k < 4 ==> #[trigger] self.freq[k] == before.freq[k],
                decreases 4 - i,
            {
                self.freq[i] = self.freq[i] / FREQUENCY_LIMIT;
                i = i + 1;
            }
        }
        assert(self@ =~= mtf_grown(before));
    }

    /// Where a symbol of the given frequency moves.
    fn insertion_index(&self, rank: usize, symbol_freq: u32) -> (place: usize)
        ensures
            place == place_from(self.freq@, 0, lowest_place(rank as int), symbol_freq as int),
            place <= 3,
            place <= rank,
    {
        let max_insert: usize = if rank <= 3 {
            rank
        } else {
            3
        };
        let mut insert_at: usize = 0;
        while insert_at < max_insert && self.freq[insert_at] >= symbol_freq
            invariant
                insert_at <= max_insert,
                max_insert == lowest_place(rank as int),
                place_from(self.freq@, 0, max_insert as int, symbol_freq as int) == place_from(
                    self.freq@,
                    insert_at as int,
                    max_insert as int,
                    symbol_freq as int,
                ),
            decreases max_insert - insert_at,
        {
            insert_at = insert_at + 1;
        }
        insert_at
    }

    /// Moves the frequencies along with the symbols.
    fn rotate_freq(&mut self, rank: usize, insert_at: usize, symbol_freq: u32)
        requires
            insert_at <= lowest_place(rank as int),
        ensures
            final(self).symbols == old(self).symbols,
            final(self).fadd == old(self).fadd,
            final(self).fshift == old(self).fshift,
            final(self).freq@ == old(self).freq@.remove(lowest_place(rank as int)).insert(
                insert_at as int,
                symbol_freq,
            ),
    {
        let ghost before = self.freq@;
        let lowest: usize = if rank <= 3 {
            rank
        } else {
            3
        };
        let mut index: usize = lowest;
        while index > insert_at
            invariant
                insert_at <= index <= lowest,
                lowest <= 3,
                before.len() == 4,
                self.symbols == old(self).symbols,
                self.fadd == old(self).fadd,
                self.fshift == old(self).fshift,
                forall|k: int| 0 <= k <= index ==> #[trigger] self.freq[k] == before[k],
                forall|k: int| index < k <= lowest ==> #[trigger] self.freq[k] == before[k - 1],
                forall|k: int| lowest < k < 4 ==> #[trigger] self.freq[k] == before[k],
            decreases index,
        {
            self.freq[index] = self.freq[index - 1];
            index = index - 1;
        }
        self.freq[insert_at] = symbol_freq;
        let ghost expected = before.remove(lowest as int).insert(insert_at as int, symbol_freq);
        assert forall|k: int| 0 <= k < 4 implies self.freq@[k] == expected[k] by {}
        assert(self.freq@ =~= expected);
    }
}

} // verus!
