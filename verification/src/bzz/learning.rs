//! How contexts and the list of symbols learn from what occurs.

use super::model::{state_after, state_split};
use super::mtf::{frequency_at, lowest_place, mtf_grown, mtf_taken, place_from, MtfState};
use vstd::arithmetic::power2::pow2;
use vstd::prelude::*;

verus! {

/// Each occurrence counts more than the one before it: by its count over a power of two. Where
/// that exceeds 2 to the power of 28, the counts of all symbols, and what the next occurrence
/// counts, are divided by as much.
pub proof fn lemma_occurrences_count_more(mtf: MtfState, index: int)
    requires
        0 <= mtf.fadd <= 0x1000_0000,
        0 <= index < mtf.freq.len(),
    ensures
        ({
            let more = mtf.fadd + mtf.fadd / pow2(mtf.fshift) as int;
            let grown = mtf_grown(mtf);
            &&& more <= 0x1000_0000 ==> grown.fadd == more && grown.freq == mtf.freq
            &&& more > 0x1000_0000 ==> grown.fadd == more / 0x1000_0000 && grown.freq[index]
                == mtf.freq[index] / 0x1000_0000
            &&& grown.symbols == mtf.symbols
            &&& grown.fshift == mtf.fshift
        }),
{
    let shift = pow2(mtf.fshift) as int;
    vstd::arithmetic::power2::lemma_pow2_pos(mtf.fshift);
    assert(0 <= mtf.fadd / shift <= mtf.fadd) by (nonlinear_arith)
        requires
            0 <= mtf.fadd,
            shift >= 1,
    ;
}

/// A symbol that occurs moves forward among the first four, past all that are less frequent than
/// it then is and past no other; the order of the other symbols stays. Its frequency grows by
/// what an occurrence counts, from 0 if it was not among the first four.
pub proof fn lemma_symbol_moves_forward(mtf: MtfState, rank: int)
    requires
        mtf.symbols.len() == 256,
        mtf.freq.len() == 4,
        0 <= mtf.fadd <= 0x1000_0000,
        0 <= rank < 256,
    ensures
        ({
            let after = mtf_taken(mtf, rank);
            let grown = mtf_grown(mtf);
            let last = if rank < 3 { rank } else { 3 };
            exists|place: int|
                {
                    &&& 0 <= place <= last
                    &&& #[trigger] after.symbols[place] == mtf.symbols[rank]
                    &&& after.symbols.remove(place) == mtf.symbols.remove(rank)
                    &&& after.freq[place] == grown.fadd + (if rank < 4 {
                        grown.freq[rank] as int
                    } else {
                        0
                    }) || after.freq[place] == u32::MAX
                    &&& after.freq.remove(place) == grown.freq.remove(last)
                    &&& forall|i: int|
                        0 <= i < place ==> #[trigger] after.freq[i] >= after.freq[place]
                    &&& place < last ==> after.freq[place + 1] < after.freq[place]
                }
        }),
{
    lemma_occurrences_count_more(mtf, 0);
    lemma_occurrences_count_more(mtf, 1);
    lemma_occurrences_count_more(mtf, 2);
    lemma_occurrences_count_more(mtf, 3);
    let grown = mtf_grown(mtf);
    let frequency = frequency_at(grown, rank);
    let last = lowest_place(rank);
    lemma_place(grown.freq, 0, last, frequency);
    let place = place_from(grown.freq, 0, last, frequency);
    let after = mtf_taken(mtf, rank);
    vstd::arithmetic::power2::lemma_pow2_pos(mtf.fshift);
    let shift = pow2(mtf.fshift) as int;
    assert(0 <= mtf.fadd / shift) by (nonlinear_arith)
        requires
            0 <= mtf.fadd,
            shift >= 1,
    ;
    assert(0 <= grown.fadd);
    assert(after.symbols[place] == mtf.symbols[rank]);
    assert(after.symbols.remove(place) =~= mtf.symbols.remove(rank));
    assert(after.freq[place] == frequency);
    assert(after.freq.remove(place) =~= grown.freq.remove(last));
    assert forall|i: int| 0 <= i < place implies #[trigger] after.freq[i] >= after.freq[place] by {
        assert(after.freq[i] == grown.freq[i]);
    }
    if place < last {
        assert(after.freq[place + 1] == grown.freq[place]);
    }
}

proof fn lemma_place(freq: Seq<u32>, at: int, limit: int, frequency: int)
    requires
        0 <= at <= limit,
    ensures
        at <= place_from(freq, at, limit, frequency) <= limit,
        forall|i: int|
            at <= i < place_from(freq, at, limit, frequency) ==> #[trigger] freq[i] >= frequency,
        place_from(freq, at, limit, frequency) < limit ==> freq[place_from(
            freq,
            at,
            limit,
            frequency,
        )] < frequency,
    decreases limit - at,
{
    if at < limit && freq[at] >= frequency {
        lemma_place(freq, at + 1, limit, frequency);
    }
}

/// A context goes three states up with each bit that is clear and three down with each that is
/// set, as far as there are states; so a bit of each kind leads back.
pub proof fn lemma_states_go_by_bits(state: int)
    requires
        0 <= state <= 64,
    ensures
        0 <= state_after(state, 0) <= 64,
        0 <= state_after(state, 1) <= 64,
        state <= 61 ==> state_after(state, 0) == state + 3 && state_after(state_after(state, 0), 1)
            == state,
        state >= 3 ==> state_after(state, 1) == state - 3 && state_after(state_after(state, 1), 0)
            == state,
        state > 61 ==> state_after(state, 0) == 64,
        state < 3 ==> state_after(state, 1) == 0,
{
}

/// The higher the state of a context, the higher it splits the interval: the likelier a bit is
/// clear. The highest state splits it at its end.
pub proof fn lemma_splits_rise(state: int, higher: int)
    requires
        0 <= state <= higher <= 64,
    ensures
        0 < state_split(state) <= state_split(higher) <= 65535,
        state_split(64) == 65535,
        state_split(state) >= (state + 1) * 65535 / 65,
    decreases higher - state,
{
    let (p, q) = (state + 1, higher + 1);
    lemma_split_above_line(state);
    lemma_split_above_line(higher);
    assert(65 * 65535 / 65 == 65535);
    if state < higher {
        lemma_splits_rise(state, higher - 1);
        let r = higher;
        assert(q == r + 1);
        assert(q * (65 - q) == r * (65 - r) + 64 - 2 * r) by (nonlinear_arith)
            requires
                q == r + 1,
        ;
        assert(46000 * (64 - 2 * r) >= -4225 * 697);
    }
}

proof fn lemma_split_above_line(state: int)
    requires
        0 <= state <= 64,
    ensures
        0 < state_split(state) <= 65535,
        state_split(state) >= (state + 1) * 65535 / 65,
{
    let p = state + 1;
    assert(p * (65 - p) >= 0) by (nonlinear_arith)
        requires
            1 <= p <= 65,
    ;
}

} // verus!
