//! Ranks, coded as decisions of adaptive contexts.

use crate::bzz::reader::{split_bit, ZpBitReader};
use crate::bzz::{outcome, BzzFault, BzzResult};
use crate::zp::ZpState;
use vstd::arithmetic::power2::{lemma2_to64, lemma_pow2_strictly_increases, lemma_pow2_unfold, pow2};
use vstd::prelude::*;

verus! {

/// How many states a context has.
pub const BIT_MODEL_STATES: usize = 65;

/// The state in which every context starts.
pub const BIT_MODEL_INITIAL_STATE: u8 = 32;

/// How many contexts ranks take.
pub const BZZ_MTF_CONTEXTS: usize = 262;

/// How many contexts a decoder of ranks has.
pub const ENTROPY_CONTEXTS: usize = 262;

/// The rank that stands for the marker of a block.
pub const BWT_MARKER_RANK: usize = 256;

/// The first rank of each range of ranks above one.
pub const BZZ_MTF_STARTS: [usize; 7] = [2, 4, 8, 16, 32, 64, 128];

/// Where a context in the given state splits the interval: in proportion to the state,
/// and further up the nearer it is to the middle.
pub open spec fn state_split(state: int) -> int {
    let position = state + 1;
    let split = position * 65535 / 65 + 46000 * (position * (65 - position)) / 4225;
    if split <= 65535 {
        split
    } else {
        65535
    }
}

/// The state after a bit: three up for a zero, three down for a one, within the range.
pub open spec fn state_after(state: int, bit: int) -> int {
    if bit == 0 {
        if state + 3 <= 64 {
            state + 3
        } else {
            64
        }
    } else if state >= 3 {
        state - 3
    } else {
        0
    }
}

/// The states of the contexts, and where a reader stands.
#[verifier::ext_equal]
pub struct Modeled<S> {
    pub contexts: Seq<u8>,
    pub reader: S,
}

/// Something that reads bits with a given split.
pub trait ModeledBitReader: Sized {
    /// Where such a reader stands.
    type State;

    /// Where the reader stands.
    spec fn state(&self) -> Self::State;

    /// The reader can read on.
    spec fn ready(&self) -> bool;

    /// What reading a bit gives, and where the reader stands then.
    spec fn step(state: Self::State, split: u16) -> (Result<u8, BzzFault>, Self::State);

    /// Reads a bit.
    fn read_modeled_bit(&mut self, split: u16) -> (bit: BzzResult<u8>)
        requires
            old(self).ready(),
        ensures
            final(self).ready(),
            (outcome(bit), final(self).state()) == Self::step(old(self).state(), split),
            bit is Ok ==> bit->Ok_0 <= 1,
    ;
}

/// Something that gives ranks one after the other.
pub trait RankDecoder: Sized {
    /// Where such a decoder stands.
    type State;

    /// Where the decoder stands.
    spec fn state(&self) -> Self::State;

    /// The decoder can go on.
    spec fn ready(&self) -> bool;

    /// What the next rank is, and where the decoder stands then.
    spec fn step(state: Self::State) -> (Result<usize, BzzFault>, Self::State);

    /// Decodes the next rank.
    fn next_rank(&mut self) -> (rank: BzzResult<usize>)
        requires
            old(self).ready(),
        ensures
            final(self).ready(),
            (outcome(rank), final(self).state()) == Self::step(old(self).state()),
    ;
}

/// Reads one bit in a context, which learns from it.
pub open spec fn context_bit<R: ModeledBitReader>(at: Modeled<R::State>, context: int) -> (
    Result<u8, BzzFault>,
    Modeled<R::State>,
) {
    let (bit, reader) = R::step(
        at.reader,
        state_split(at.contexts[context] as int) as u16,
    );
    match bit {
        Ok(bit) => (
            Ok(bit),
            Modeled {
                contexts: at.contexts.update(
                    context,
                    state_after(at.contexts[context] as int, bit as int) as u8,
                ),
                reader,
            },
        ),
        Err(fault) => (Err(fault), Modeled { reader, ..at }),
    }
}

/// Reads a number bit by bit, high bit first. Each bit has a context of its own for
/// every prefix that can stand before it: `node` counts the prefixes.
pub open spec fn tree_bits<R: ModeledBitReader>(
    at: Modeled<R::State>,
    bits: nat,
    context_start: int,
    value: int,
    node: int,
) -> (Result<int, BzzFault>, Modeled<R::State>)
    decreases bits,
{
    if bits == 0 {
        (Ok(value), at)
    } else {
        let (bit, next) = context_bit::<R>(at, context_start + node);
        match bit {
            Err(fault) => (Err(fault), next),
            Ok(bit) => tree_bits::<R>(
                next,
                (bits - 1) as nat,
                context_start,
                2 * value + bit,
                2 * node + 1 + bit,
            ),
        }
    }
}

/// Reads a rank of at least two: for each range of ranks a bit that tells whether it lies
/// there, and then its offset; or the marker, if it lies in none.
pub open spec fn range_rank<R: ModeledBitReader>(at: Modeled<R::State>, range: int) -> (
    Result<int, BzzFault>,
    Modeled<R::State>,
)
    decreases 7 - range,
{
    if range >= 7 {
        (Ok(256), at)
    } else {
        let start = BZZ_MTF_STARTS[range] as int;
        let (bit, next) = context_bit::<R>(at, start + 4);
        match bit {
            Err(fault) => (Err(fault), next),
            Ok(bit) => if bit == 1 {
                let (offset, after) = tree_bits::<R>(next, (range + 1) as nat, start + 5, 0, 0);
                match offset {
                    Err(fault) => (Err(fault), after),
                    Ok(offset) => (Ok(start + offset), after),
                }
            } else {
                range_rank::<R>(next, range + 1)
            },
        }
    }
}

/// Reads a rank in the contexts that the rank before it selects.
pub open spec fn entropy_rank<R: ModeledBitReader>(at: Modeled<R::State>, previous: int) -> (
    Result<int, BzzFault>,
    Modeled<R::State>,
) {
    let class = if previous <= 2 {
        previous
    } else {
        2
    };
    let (zero, next) = context_bit::<R>(at, class);
    match zero {
        Err(fault) => (Err(fault), next),
        Ok(zero) => if zero == 1 {
            (Ok(0), next)
        } else {
            let (one, after) = context_bit::<R>(next, 3 + class);
            match one {
                Err(fault) => (Err(fault), after),
                Ok(one) => if one == 1 {
                    (Ok(1), after)
                } else {
                    range_rank::<R>(after, 0)
                },
            }
        },
    }
}

/// The next ranks that a decoder gives, after those already taken.
pub open spec fn ranks_from<R: RankDecoder>(
    state: R::State,
    count: nat,
    taken: Seq<usize>,
) -> (Result<Seq<usize>, BzzFault>, R::State)
    decreases count,
{
    if count == 0 {
        (Ok(taken), state)
    } else {
        let (rank, next) = R::step(state);
        match rank {
            Err(fault) => (Err(fault), next),
            Ok(rank) => ranks_from::<R>(next, (count - 1) as nat, taken.push(rank)),
        }
    }
}

/// A context.
#[derive(Debug, Clone, Copy, PartialEq, Eq)]
pub struct BitContext {
    pub state: u8,
}

/// What a context does in each state.
#[derive(Debug, Clone, Copy)]
pub struct BitModelTables {
    pub split: [u16; 65],
    pub next_zero: [u8; 65],
    pub next_one: [u8; 65],
}

/// Contexts that learn from the bits that are read in them.
#[derive(Debug, Clone)]
pub struct BitModel {
    pub contexts: Vec<BitContext>,
    pub tables: BitModelTables,
}

impl BitContext {
    /// Takes a bit into account.
    pub fn observe(&mut self, bit: u8, tables: &BitModelTables)
        requires
            tables.wf(),
            old(self).state < 65,
        ensures
            final(self).state == state_after(old(self).state as int, bit as int),
            final(self).state < 65,
    {
        self.state = tables.next_state(self.state, bit);
    }
}

impl BitModelTables {
    /// The tables hold what a context does.
    pub open spec fn wf(&self) -> bool {
        &&& forall|state: int|
            0 <= state < 65 ==> #[trigger] self.split[state] == state_split(state)
        &&& forall|state: int|
            0 <= state < 65 ==> #[trigger] self.next_zero[state] == state_after(state, 0)
        &&& forall|state: int|
            0 <= state < 65 ==> #[trigger] self.next_one[state] == state_after(state, 1)
    }

    /// The tables.
    pub fn generated() -> (tables: Self)
        ensures
            tables.wf(),
    {
        let mut split: [u16; 65] = [0; 65];
        let mut next_zero: [u8; 65] = [0; 65];
        let mut next_one: [u8; 65] = [0; 65];
        let mut state: usize = 0;
        while state < 65
            invariant
                state <= 65,
                forall|i: int| 0 <= i < state ==> #[trigger] split[i] == state_split(i),
                forall|i: int| 0 <= i < state ==> #[trigger] next_zero[i] == state_after(i, 0),
                forall|i: int| 0 <= i < state ==> #[trigger] next_one[i] == state_after(i, 1),
            decreases 65 - state,
        {
            split[state] = Self::split_for_state(state);
            next_zero[state] = if state + 3 <= 64 {
                (state + 3) as u8
            } else {
                64
            };
            next_one[state] = if state >= 3 {
                (state - 3) as u8
            } else {
                0
            };
            state = state + 1;
        }
        BitModelTables { split, next_zero, next_one }
    }

    /// Where a context in the given state splits the interval.
    pub fn split(&self, state: u8) -> (split: u16)
        requires
            self.wf(),
            state < 65,
        ensures
            split == state_split(state as int),
    {
        self.split[state as usize]
    }

    /// The state after a bit.
    pub fn next_state(&self, state: u8, bit: u8) -> (next: u8)
        requires
            self.wf(),
            state < 65,
        ensures
            next == state_after(state as int, bit as int),
            next < 65,
    {
        if bit == 0 {
            self.next_zero[state as usize]
        } else {
            self.next_one[state as usize]
        }
    }

    /// Where a context in the given state splits the interval.
    fn split_for_state(state: usize) -> (split: u16)
        requires
            state < 65,
        ensures
            split == state_split(state as int),
    {
        let position: usize = state + 1;
        assert(0 <= position * (65 - position) <= 4225) by (nonlinear_arith)
            requires
                1 <= position <= 65,
        ;
        let linear: usize = position * 65535 / 65;
        let boost: usize = 46000 * (position * (65 - position)) / 4225;
        let split: usize = linear + boost;
        if split <= 65535 {
            split as u16
        } else {
            65535
        }
    }
}

impl BitModel {
    /// The states of the contexts.
    pub open spec fn states(&self) -> Seq<u8> {
        Seq::new(self.contexts@.len(), |i: int| self.contexts@[i].state)
    }

    /// The contexts are in states that the tables know.
    pub open spec fn wf(&self) -> bool {
        &&& self.tables.wf()
        &&& forall|i: int| 0 <= i < self.contexts@.len() ==> (#[trigger] self.contexts@[i]).state
            < 65
    }

    /// A number of contexts in their first state.
    pub fn with_contexts(count: usize) -> (model: Self)
        ensures
            model.wf(),
            model.states() == Seq::new(count as nat, |i: int| 32u8),
    {
        let mut contexts: Vec<BitContext> = Vec::new();
        let mut i: usize = 0;
        while i < count
            invariant
                i <= count,
                contexts@.len() == i,
                forall|k: int| 0 <= k < i ==> (#[trigger] contexts@[k]).state == 32,
            decreases count - i,
        {
            contexts.push(BitContext { state: BIT_MODEL_INITIAL_STATE });
            i = i + 1;
        }
        let model = BitModel { contexts, tables: BitModelTables::generated() };
        assert(model.states() =~= Seq::new(count as nat, |i: int| 32u8));
        model
    }

    /// Reads a bit in a context.
    pub fn read_bit<R: ModeledBitReader>(&mut self, reader: &mut R, context_id: usize) -> (bit:
        BzzResult<u8>)
        requires
            old(self).wf(),
            old(reader).ready(),
            context_id < old(self).contexts@.len(),
        ensures
            final(self).wf(),
            final(reader).ready(),
            final(self).contexts@.len() == old(self).contexts@.len(),
            bit is Ok ==> bit->Ok_0 <= 1,
            ({
                let (expected, after) = context_bit::<R>(
                    Modeled { contexts: old(self).states(), reader: old(reader).state() },
                    context_id as int,
                );
                &&& outcome(bit) == expected
                &&& final(self).states() == after.contexts
                &&& final(reader).state() == after.reader
            }),
    {
        let ghost before = self.states();
        let mut context = self.contexts[context_id];
        let split: u16 = self.tables.split(context.state);
        let bit: u8 = match reader.read_modeled_bit(split) {
            Err(error) => {
                return Err(error);
            },
            Ok(bit) => bit,
        };
        context.observe(bit, &self.tables);
        self.contexts.set(context_id, context);
        assert(self.states() =~= before.update(context_id as int, context.state));
        Ok(bit)
    }
}

impl<'a> ModeledBitReader for ZpBitReader<'a> {
    type State = ZpState;

    open spec fn state(&self) -> ZpState {
        self@
    }

    open spec fn ready(&self) -> bool {
        self.wf()
    }

    open spec fn step(state: ZpState, split: u16) -> (Result<u8, BzzFault>, ZpState) {
        let (bit, next) = split_bit(state, split as int);
        (Ok(bit as u8), next)
    }

    fn read_modeled_bit(&mut self, split: u16) -> (bit: BzzResult<u8>) {
        Ok(self.read_split_bit(split as u32))
    }
}

proof fn lemma_halves(count: nat, bits: nat)
    requires
        0 < count <= bits,
    ensures
        pow2(count) == 2 * pow2((count - 1) as nat),
        pow2(count) <= pow2(bits),
{
    lemma_pow2_unfold(count);
    if count < bits {
        lemma_pow2_strictly_increases(count, bits);
    }
}

/// Reads a number bit by bit in a tree of contexts.
pub fn read_bzz_mtfno_bin<R: ModeledBitReader>(
    model: &mut BitModel,
    reader: &mut R,
    bits: usize,
    context_start: usize,
) -> (value: BzzResult<usize>)
    requires
        old(model).wf(),
        old(reader).ready(),
        context_start + pow2(bits as nat) <= old(model).contexts@.len() + 1,
    ensures
        final(model).wf(),
        final(reader).ready(),
        final(model).contexts@.len() == old(model).contexts@.len(),
        value is Ok ==> value->Ok_0 < pow2(bits as nat),
        ({
            let (expected, after) = tree_bits::<R>(
                Modeled { contexts: old(model).states(), reader: old(reader).state() },
                bits as nat,
                context_start as int,
                0,
                0,
            );
            &&& match expected {
                Ok(number) => value is Ok && value->Ok_0 == number,
                Err(fault) => value is Err && value->Err_0@ == fault,
            }
            &&& final(model).states() == after.contexts
            &&& final(reader).state() == after.reader
        }),
{
    let ghost run = tree_bits::<R>(
        Modeled { contexts: model.states(), reader: reader.state() },
        bits as nat,
        context_start as int,
        0,
        0,
    );
    let mut value: usize = 0;
    let mut node: usize = 0;
    let mut taken: usize = 0;
    proof {
        lemma2_to64();
        assert(model.contexts@.len() == model.contexts.len());
    }
    while taken < bits
        invariant
            taken <= bits,
            model.wf(),
            reader.ready(),
            model.contexts@.len() == old(model).contexts@.len(),
            model.contexts@.len() <= usize::MAX,
            context_start + pow2(bits as nat) <= model.contexts@.len() + 1,
            value < pow2(taken as nat),
            taken < bits ==> node == value + pow2(taken as nat) - 1,
            run == tree_bits::<R>(
                Modeled { contexts: old(model).states(), reader: old(reader).state() },
                bits as nat,
                context_start as int,
                0,
                0,
            ),
            tree_bits::<R>(
                Modeled { contexts: model.states(), reader: reader.state() },
                (bits - taken) as nat,
                context_start as int,
                value as int,
                node as int,
            ) == run,
        decreases bits - taken,
    {
        proof {
            lemma_halves((taken + 1) as nat, bits as nat);
        }
        let bit: u8 = match model.read_bit(reader, context_start + node) {
            Err(error) => {
                return Err(error);
            },
            Ok(bit) => bit,
        };
        value = 2 * value + bit as usize;
        taken = taken + 1;
        if taken < bits {
            proof {
                lemma_halves((taken + 1) as nat, bits as nat);
            }
            node = 2 * node + 1 + bit as usize;
        } else {
            proof {
                let at = Modeled { contexts: model.states(), reader: reader.state() };
                let start = context_start as int;
                let next = 2 * node + 1 + bit;
                assert(tree_bits::<R>(at, 0, start, value as int, next) == tree_bits::<R>(
                    at,
                    0,
                    start,
                    value as int,
                    node as int,
                ));
            }
        }
    }
    Ok(value)
}

/// Reads a rank.
pub fn read_entropy_rank<R: ModeledBitReader>(
    model: &mut BitModel,
    reader: &mut R,
    previous_mtfno: usize,
) -> (rank: BzzResult<usize>)
    requires
        old(model).wf(),
        old(reader).ready(),
        old(model).contexts@.len() >= BZZ_MTF_CONTEXTS,
    ensures
        final(model).wf(),
        final(reader).ready(),
        final(model).contexts@.len() == old(model).contexts@.len(),
        rank is Ok ==> rank->Ok_0 <= BWT_MARKER_RANK,
        ({
            let (expected, after) = entropy_rank::<R>(
                Modeled { contexts: old(model).states(), reader: old(reader).state() },
                previous_mtfno as int,
            );
            &&& match expected {
                Ok(number) => rank is Ok && rank->Ok_0 == number,
                Err(fault) => rank is Err && rank->Err_0@ == fault,
            }
            &&& final(model).states() == after.contexts
            &&& final(reader).state() == after.reader
        }),
{
    let class: usize = if previous_mtfno <= 2 {
        previous_mtfno
    } else {
        2
    };
    let ghost run = entropy_rank::<R>(
        Modeled { contexts: model.states(), reader: reader.state() },
        previous_mtfno as int,
    );
    let zero: u8 = match model.read_bit(reader, class) {
        Err(error) => {
            return Err(error);
        },
        Ok(bit) => bit,
    };
    if zero == 1 {
        return Ok(0);
    }
    let one: u8 = match model.read_bit(reader, 3 + class) {
        Err(error) => {
            return Err(error);
        },
        Ok(bit) => bit,
    };
    if one == 1 {
        return Ok(1);
    }
    let mut range: usize = 0;
    while range < 7
        invariant
            range <= 7,
            model.wf(),
            reader.ready(),
            model.contexts@.len() == old(model).contexts@.len(),
            model.contexts@.len() >= BZZ_MTF_CONTEXTS,
            run == entropy_rank::<R>(
                Modeled { contexts: old(model).states(), reader: old(reader).state() },
                previous_mtfno as int,
            ),
            range_rank::<R>(
                Modeled { contexts: model.states(), reader: reader.state() },
                range as int,
            ) == run,
        decreases 7 - range,
    {
        let start: usize = BZZ_MTF_STARTS[range];
        proof {
            lemma2_to64();
            assert(start == pow2((range + 1) as nat));
            assert(start <= 128);
        }
        let bit: u8 = match model.read_bit(reader, start + 4) {
            Err(error) => {
                return Err(error);
            },
            Ok(bit) => bit,
        };
        if bit == 1 {
            return match read_bzz_mtfno_bin(model, reader, range + 1, start + 5) {
                Err(error) => Err(error),
                Ok(offset) => Ok(start + offset),
            };
        }
        range = range + 1;
    }
    Ok(BWT_MARKER_RANK)
}

/// A decoder of ranks that reads modeled bits.
pub struct EntropyRankDecoder<'a> {
    bits: ZpBitReader<'a>,
    model: BitModel,
    previous_mtfno: usize,
}

/// Where a decoder of ranks stands.
#[verifier::ext_equal]
pub struct EntropyState {
    pub modeled: Modeled<ZpState>,
    pub previous: int,
}

/// Where a decoder of ranks starts.
pub open spec fn entropy_start(zp: ZpState) -> EntropyState {
    EntropyState {
        modeled: Modeled { contexts: Seq::new(262, |i: int| 32u8), reader: zp },
        previous: 0,
    }
}

impl<'a> EntropyRankDecoder<'a> {
    /// A decoder whose contexts have learned nothing.
    pub fn new(bits: ZpBitReader<'a>) -> (decoder: Self)
        requires
            bits.wf(),
        ensures
            decoder.ready(),
            decoder.state() == entropy_start(bits@),
    {
        let model = BitModel::with_contexts(ENTROPY_CONTEXTS);
        assert(model.states().len() == 262);
        EntropyRankDecoder { bits, model, previous_mtfno: 0 }
    }

    /// The reader, where the decoder left it.
    pub fn into_bits(self) -> (bits: ZpBitReader<'a>)
        requires
            self.ready(),
        ensures
            bits.wf(),
            bits@ == self.state().modeled.reader,
    {
        self.bits
    }
}

impl<'a> RankDecoder for EntropyRankDecoder<'a> {
    type State = EntropyState;

    closed spec fn state(&self) -> EntropyState {
        EntropyState {
            modeled: Modeled { contexts: self.model.states(), reader: self.bits@ },
            previous: self.previous_mtfno as int,
        }
    }

    closed spec fn ready(&self) -> bool {
        &&& self.bits.wf()
        &&& self.model.wf()
        &&& self.model.contexts@.len() >= BZZ_MTF_CONTEXTS
    }

    open spec fn step(state: EntropyState) -> (Result<usize, BzzFault>, EntropyState) {
        let (rank, modeled) = entropy_rank::<ZpBitReader<'a>>(state.modeled, state.previous);
        match rank {
            Ok(rank) => (Ok(rank as usize), EntropyState { modeled, previous: rank }),
            Err(fault) => (Err(fault), EntropyState { modeled, ..state }),
        }
    }

    fn next_rank(&mut self) -> (rank: BzzResult<usize>) {
        let rank: usize = match read_entropy_rank(
            &mut self.model,
            &mut self.bits,
            self.previous_mtfno,
        ) {
            Err(error) => {
                return Err(error);
            },
            Ok(rank) => rank,
        };
        self.previous_mtfno = rank;
        Ok(rank)
    }
}

/// Takes the ranks of a block.
pub fn collect_block_ranks<R: RankDecoder>(block_len: usize, decoder: &mut R) -> (ranks: BzzResult<
    Vec<usize>,
>)
    requires
        old(decoder).ready(),
    ensures
        final(decoder).ready(),
        (crate::bzz::list_outcome(ranks), final(decoder).state()) == ranks_from::<R>(
            old(decoder).state(),
            block_len as nat,
            Seq::empty(),
        ),
{
    let ghost run = ranks_from::<R>(decoder.state(), block_len as nat, Seq::empty());
    let mut ranks: Vec<usize> = Vec::new();
    let mut taken: usize = 0;
    while taken < block_len
        invariant
            taken <= block_len,
            decoder.ready(),
            run == ranks_from::<R>(old(decoder).state(), block_len as nat, Seq::empty()),
            ranks_from::<R>(decoder.state(), (block_len - taken) as nat, ranks@) == run,
        decreases block_len - taken,
    {
        let rank: usize = match decoder.next_rank() {
            Err(error) => {
                return Err(error);
            },
            Ok(rank) => rank,
        };
        ranks.push(rank);
        taken = taken + 1;
    }
    Ok(ranks)
}

proof fn lemma_ranks_from_len<R: RankDecoder>(state: R::State, count: nat, taken: Seq<usize>)
    ensures
        ranks_from::<R>(state, count, taken).0 matches Ok(ranks) ==> ranks.len() == taken.len()
            + count,
    decreases count,
{
    if count > 0 {
        let (rank, next) = R::step(state);
        match rank {
            Ok(rank) => {
                lemma_ranks_from_len::<R>(next, (count - 1) as nat, taken.push(rank));
            },
            Err(_) => {},
        }
    }
}

/// Where ranks are had at all, there are as many as were asked for.
pub proof fn lemma_as_many_ranks<R: RankDecoder>(state: R::State, count: nat)
    ensures
        ranks_from::<R>(state, count, Seq::empty()).0 matches Ok(ranks) ==> ranks.len() == count,
{
    lemma_ranks_from_len::<R>(state, count, Seq::empty());
}

} // verus!
