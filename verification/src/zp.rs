//! The ZP adaptive binary arithmetic decoder.

use crate::bitstream::{stream_bit, BitStream};
use crate::zp_tables::{deltas_fit, lemma_zp_delta_fits, ZP_DELTA, ZP_LAMBDA, ZP_MU, ZP_THETA};
use vstd::arithmetic::power2::{
    lemma2_to64, lemma_pow2_strictly_increases, lemma_pow2_unfold, pow2,
};
use vstd::prelude::*;

verus! {

/// Where a decoder stands: the bytes it reads, the lower bound `a` and the code
/// window `c` of its interval, and the number of bits it has taken.
pub struct ZpState {
    pub input: Seq<u8>,
    pub a: int,
    pub c: int,
    pub pos: nat,
}

/// Between two decisions the lower bound is less than one half and does not
/// exceed the code window.
pub open spec fn zp_wf(zp: ZpState) -> bool {
    0 <= zp.a <= 0x7fff && zp.a <= zp.c <= 0xffff
}

/// The state in which decoding of `input` starts.
pub open spec fn zp_start(input: Seq<u8>) -> ZpState {
    ZpState { input, a: 0, c: zp_window(input, 16), pos: 16 }
}

/// The first `count` bits of the stream as a number.
pub open spec fn zp_window(input: Seq<u8>, count: nat) -> int
    decreases count,
{
    if count == 0 {
        0
    } else {
        2 * zp_window(input, (count - 1) as nat) + stream_bit(input, (count - 1) as nat)
    }
}

/// A window of so many bits is less than two to that power.
pub proof fn lemma_window_range(input: Seq<u8>, count: nat)
    ensures
        0 <= zp_window(input, count) < pow2(count),
    decreases count,
{
    if count == 0 {
        lemma2_to64();
    } else {
        lemma_window_range(input, (count - 1) as nat);
        lemma_pow2_unfold(count);
    }
}

/// Takes the first sixteen bits of a stream.
pub fn first_window(bits: &mut BitStream<'_>) -> (window: u32)
    requires
        old(bits).wf(),
        old(bits).consumed() == 0,
    ensures
        final(bits).wf(),
        final(bits).input() == old(bits).input(),
        final(bits).consumed() == 16,
        window == zp_window(old(bits).input(), 16),
        window < 0x10000,
{
    let mut window: u32 = 0;
    let mut count: u32 = 0;
    while count < 16
        invariant
            bits.wf(),
            bits.input() == old(bits).input(),
            bits.consumed() == count,
            count <= 16,
            window == zp_window(bits.input(), count as nat),
        decreases 16 - count,
    {
        proof {
            lemma_window_range(bits.input(), count as nat);
            lemma_pow2_strictly_increases(count as nat, 16);
            lemma2_to64();
        }
        let bit: u32 = bits.next_bit();
        window = 2 * window + bit;
        count = count + 1;
    }
    proof {
        lemma_window_range(bits.input(), 16);
        lemma2_to64();
    }
    window
}

/// Doubles both registers and takes one bit into the code window.
pub open spec fn zp_shift(zp: ZpState) -> ZpState {
    ZpState {
        a: (2 * zp.a) % 0x10000,
        c: (2 * zp.c + stream_bit(zp.input, zp.pos)) % 0x10000,
        pos: zp.pos + 1,
        ..zp
    }
}

/// Shifts for as long as the leading bit of the lower bound is set.
pub open spec fn zp_renormalize(zp: ZpState) -> ZpState
    decreases zp.a,
{
    if 0x8000 <= zp.a < 0x10000 {
        zp_renormalize(zp_shift(zp))
    } else {
        zp
    }
}

/// The decoder after the upper part of the interval, from `z` on, was ruled out.
pub open spec fn zp_take_upper(zp: ZpState, z: int) -> ZpState {
    zp_renormalize(ZpState { a: zp.a + 0x10000 - z, c: zp.c + 0x10000 - z, ..zp })
}

/// The decoder after the lower part of the interval, up to `z`, was ruled out.
pub open spec fn zp_take_lower(zp: ZpState, z: int) -> ZpState {
    zp_shift(ZpState { a: z, ..zp })
}

/// Decodes one bit that splits the interval at `z`, without a context.
pub open spec fn zp_passthrough(zp: ZpState, z: int) -> (int, ZpState) {
    if z > zp.c {
        (1, zp_take_upper(zp, z))
    } else {
        (0, zp_take_lower(zp, z))
    }
}

/// Decodes one bit in a context whose state has the four table entries given:
/// the bit, the decoder after it, and the context's next state.
pub open spec fn zp_decide(
    zp: ZpState,
    context: u8,
    delta: int,
    theta: int,
    mu: u8,
    lambda: u8,
) -> (int, ZpState, u8) {
    let mps = context as int % 2;
    let z = zp.a + delta;
    if z <= zp.c && z <= 0x7fff {
        (mps, ZpState { a: z, ..zp }, context)
    } else {
        let limit = 0x6000 + (z + zp.a) / 4;
        let split = if z <= limit { z } else { limit };
        if split > zp.c {
            (1 - mps, zp_take_upper(zp, split), lambda)
        } else {
            (mps, zp_take_lower(zp, split), if zp.a >= theta { mu } else { context })
        }
    }
}

/// Decodes one bit in a context under the standard tables.
#[verifier::opaque]
pub open spec fn zp_context_bit(zp: ZpState, context: u8) -> (bool, ZpState, u8) {
    let (bit, next, state) = zp_decide(
        zp,
        context,
        ZP_DELTA[context as int] as int,
        ZP_THETA[context as int] as int,
        ZP_MU[context as int],
        ZP_LAMBDA[context as int],
    );
    (bit != 0, next, state)
}

/// Decodes one bit with the fixed split that wavelet coefficients use.
#[verifier::opaque]
pub open spec fn zp_iw44_passthrough_bit(zp: ZpState) -> (bool, ZpState) {
    let (bit, next) = zp_passthrough(zp, 0x8000 + (3 * zp.a) / 8);
    (bit != 0, next)
}

/// A shift keeps registers with a set leading bit in range and in order.
proof fn lemma_shift_order(zp: ZpState)
    requires
        0x8000 <= zp.a <= zp.c < 0x10000,
    ensures
        zp_shift(zp).a == 2 * zp.a - 0x10000,
        0 <= zp_shift(zp).a <= zp_shift(zp).c < 0x10000,
        zp_shift(zp).a < zp.a,
{
}

/// Renormalizing leads back to a state between two decisions.
pub proof fn lemma_renormalize_wf(zp: ZpState)
    requires
        0 <= zp.a <= zp.c < 0x10000,
    ensures
        zp_wf(zp_renormalize(zp)),
        zp_renormalize(zp).input == zp.input,
    decreases zp.a,
{
    if zp.a >= 0x8000 {
        lemma_shift_order(zp);
        lemma_renormalize_wf(zp_shift(zp));
    }
}

/// A passthrough decision keeps the decoder's invariant.
pub proof fn lemma_passthrough_wf(zp: ZpState, z: int)
    requires
        zp_wf(zp),
        0x8000 <= z <= 0xbfff,
    ensures
        zp_wf(zp_passthrough(zp, z).1),
        zp_passthrough(zp, z).1.input == zp.input,
{
    if z > zp.c {
        lemma_renormalize_wf(ZpState { a: zp.a + 0x10000 - z, c: zp.c + 0x10000 - z, ..zp });
    } else {
        lemma_shift_order(ZpState { a: z, ..zp });
    }
}

/// A decision in a context keeps the decoder's invariant.
pub proof fn lemma_decide_wf(
    zp: ZpState,
    context: u8,
    delta: int,
    theta: int,
    mu: u8,
    lambda: u8,
)
    requires
        zp_wf(zp),
        0 <= delta <= 0x8000,
    ensures
        zp_wf(zp_decide(zp, context, delta, theta, mu, lambda).1),
        zp_decide(zp, context, delta, theta, mu, lambda).1.input == zp.input,
{
    let z = zp.a + delta;
    if z <= zp.c && z <= 0x7fff {
    } else {
        let limit = 0x6000 + (z + zp.a) / 4;
        let split = if z <= limit { z } else { limit };
        if split > zp.c {
            lemma_renormalize_wf(
                ZpState { a: zp.a + 0x10000 - split, c: zp.c + 0x10000 - split, ..zp },
            );
        } else {
            lemma_shift_order(ZpState { a: split, ..zp });
        }
    }
}

/// Decoding in a context under the standard tables keeps the decoder's invariant.
pub proof fn lemma_context_bit_wf(zp: ZpState, context: u8)
    requires
        zp_wf(zp),
    ensures
        zp_wf(zp_context_bit(zp, context).1),
        zp_context_bit(zp, context).1.input == zp.input,
{
    reveal(zp_context_bit);
    lemma_zp_delta_fits();
    lemma_decide_wf(
        zp,
        context,
        ZP_DELTA[context as int] as int,
        ZP_THETA[context as int] as int,
        ZP_MU[context as int],
        ZP_LAMBDA[context as int],
    );
}

/// Whether two decoders stand at the same place of the same stream of bits, in whatever
/// bytes it lies.
pub open spec fn same_stream(zp: ZpState, other: ZpState) -> bool {
    &&& zp.a == other.a
    &&& zp.c == other.c
    &&& zp.pos == other.pos
    &&& forall|i: nat| #[trigger] stream_bit(zp.input, i) == stream_bit(other.input, i)
}

proof fn lemma_same_renormalized(zp: ZpState, other: ZpState)
    requires
        same_stream(zp, other),
    ensures
        same_stream(zp_renormalize(zp), zp_renormalize(other)),
    decreases zp.a,
{
    if 0x8000 <= zp.a < 0x10000 {
        lemma_same_renormalized(zp_shift(zp), zp_shift(other));
    }
}

/// Decoders at the same place of the same stream go on alike.
pub proof fn lemma_same_stream(zp: ZpState, other: ZpState, context: u8)
    requires
        same_stream(zp, other),
    ensures
        zp_context_bit(zp, context).0 == zp_context_bit(other, context).0,
        same_stream(zp_context_bit(zp, context).1, zp_context_bit(other, context).1),
        zp_context_bit(zp, context).2 == zp_context_bit(other, context).2,
        zp_iw44_passthrough_bit(zp).0 == zp_iw44_passthrough_bit(other).0,
        same_stream(zp_iw44_passthrough_bit(zp).1, zp_iw44_passthrough_bit(other).1),
{
    reveal(zp_context_bit);
    reveal(zp_iw44_passthrough_bit);
    let z = zp.a + ZP_DELTA[context as int] as int;
    let limit = 0x6000 + (z + zp.a) / 4;
    let split = if z <= limit {
        z
    } else {
        limit
    };
    let half = 0x8000 + (3 * zp.a) / 8;
    lemma_same_renormalized(
        ZpState { a: zp.a + 0x10000 - split, c: zp.c + 0x10000 - split, ..zp },
        ZpState { a: zp.a + 0x10000 - split, c: zp.c + 0x10000 - split, ..other },
    );
    lemma_same_renormalized(
        ZpState { a: zp.a + 0x10000 - half, c: zp.c + 0x10000 - half, ..zp },
        ZpState { a: zp.a + 0x10000 - half, c: zp.c + 0x10000 - half, ..other },
    );
}

proof fn lemma_same_window(input: Seq<u8>, other: Seq<u8>, count: nat)
    requires
        forall|i: nat| #[trigger] stream_bit(input, i) == stream_bit(other, i),
    ensures
        zp_window(input, count) == zp_window(other, count),
    decreases count,
{
    if count > 0 {
        lemma_same_window(input, other, (count - 1) as nat);
    }
}

/// Bytes of ones at the end of the input change nothing: the stream goes on with ones there.
pub proof fn lemma_ones_at_the_end(input: Seq<u8>, count: nat)
    ensures
        same_stream(zp_start(input), zp_start(input + Seq::new(count, |i: int| 0xffu8))),
{
    let longer = input + Seq::new(count, |i: int| 0xffu8);
    assert forall|i: nat| #[trigger] stream_bit(input, i) == stream_bit(longer, i) by {
        if input.len() <= i / 8 < longer.len() {
            assert(longer[(i / 8) as int] == 0xff);
        }
    }
    lemma_same_window(input, longer, 16);
}

/// The four tables of a ZP coder, one entry for each state.
#[derive(Clone, Copy, Debug, Eq, PartialEq)]
pub struct ZpTableSet {
    pub delta: [u16; 256],
    pub theta: [u16; 256],
    pub mu: [u8; 256],
    pub lambda: [u8; 256],
}

/// Something that knows the table entries of every state.
pub trait ZpTableGenerator {
    /// The probability entry of a state.
    spec fn delta_of(&self, state: usize) -> u16;

    /// The threshold entry of a state.
    spec fn theta_of(&self, state: usize) -> u16;

    /// The successor of a state on a more probable symbol.
    spec fn mu_of(&self, state: usize) -> u8;

    /// The successor of a state on a less probable symbol.
    spec fn lambda_of(&self, state: usize) -> u8;

    fn delta(&self, state: usize) -> (entry: u16)
        requires
            state < 256,
        ensures
            entry == self.delta_of(state),
    ;

    fn theta(&self, state: usize) -> (entry: u16)
        requires
            state < 256,
        ensures
            entry == self.theta_of(state),
    ;

    fn mu(&self, state: usize) -> (entry: u8)
        requires
            state < 256,
        ensures
            entry == self.mu_of(state),
    ;

    fn lambda(&self, state: usize) -> (entry: u8)
        requires
            state < 256,
        ensures
            entry == self.lambda_of(state),
    ;
}

/// The standard tables.
#[derive(Clone, Copy, Debug)]
pub struct StandardZpTables;

impl ZpTableGenerator for StandardZpTables {
    open spec fn delta_of(&self, state: usize) -> u16 {
        ZP_DELTA[state as int]
    }

    open spec fn theta_of(&self, state: usize) -> u16 {
        ZP_THETA[state as int]
    }

    open spec fn mu_of(&self, state: usize) -> u8 {
        ZP_MU[state as int]
    }

    open spec fn lambda_of(&self, state: usize) -> u8 {
        ZP_LAMBDA[state as int]
    }

    fn delta(&self, state: usize) -> (entry: u16) {
        ZP_DELTA[state]
    }

    fn theta(&self, state: usize) -> (entry: u16) {
        ZP_THETA[state]
    }

    fn mu(&self, state: usize) -> (entry: u8) {
        ZP_MU[state]
    }

    fn lambda(&self, state: usize) -> (entry: u8) {
        ZP_LAMBDA[state]
    }
}

impl ZpTableSet {
    /// The shape that the tables of a ZP coder have: probabilities of at most one
    /// half, thresholds below one half, transitions among the 251 states in use,
    /// and no transitions out of the five that pad the tables.
    pub open spec fn has_shape(&self) -> bool {
        &&& forall|state: int| 0 <= state < 256 ==> #[trigger] self.delta[state] <= 0x8000
        &&& forall|state: int| 0 <= state <= 250 ==> #[trigger] self.theta[state] <= 0x7fff
        &&& forall|state: int| 0 <= state <= 250 ==> #[trigger] self.mu[state] <= 250
        &&& forall|state: int| 0 <= state <= 250 ==> #[trigger] self.lambda[state] <= 250
        &&& forall|state: int| 251 <= state < 256 ==> #[trigger] self.theta[state] == 0
        &&& forall|state: int| 251 <= state < 256 ==> #[trigger] self.mu[state] == 0
        &&& forall|state: int| 251 <= state < 256 ==> #[trigger] self.lambda[state] == 0
    }

    /// Tabulates a generator.
    pub fn generate<G: ZpTableGenerator>(generator: &G) -> (tables: Self)
        ensures
            forall|state: int|
                0 <= state < 256 ==> #[trigger] tables.delta[state] == generator.delta_of(
                    state as usize,
                ),
            forall|state: int|
                0 <= state < 256 ==> #[trigger] tables.theta[state] == generator.theta_of(
                    state as usize,
                ),
            forall|state: int|
                0 <= state < 256 ==> #[trigger] tables.mu[state] == generator.mu_of(
                    state as usize,
                ),
            forall|state: int|
                0 <= state < 256 ==> #[trigger] tables.lambda[state] == generator.lambda_of(
                    state as usize,
                ),
    {
        let mut delta: [u16; 256] = [0; 256];
        let mut theta: [u16; 256] = [0; 256];
        let mut mu: [u8; 256] = [0; 256];
        let mut lambda: [u8; 256] = [0; 256];
        let mut state: usize = 0;
        while state < 256
            invariant
                state <= 256,
                forall|i: int|
                    0 <= i < state ==> #[trigger] delta[i] == generator.delta_of(i as usize),
                forall|i: int|
                    0 <= i < state ==> #[trigger] theta[i] == generator.theta_of(i as usize),
                forall|i: int|
                    0 <= i < state ==> #[trigger] mu[i] == generator.mu_of(i as usize),
                forall|i: int|
                    0 <= i < state ==> #[trigger] lambda[i] == generator.lambda_of(i as usize),
            decreases 256 - state,
        {
            delta[state] = generator.delta(state);
            theta[state] = generator.theta(state);
            mu[state] = generator.mu(state);
            lambda[state] = generator.lambda(state);
            state = state + 1;
        }
        ZpTableSet { delta, theta, mu, lambda }
    }

    /// Whether the tables have the shape of a ZP coder's tables.
    pub fn validate_shape(&self) -> (valid: bool)
        ensures
            valid == self.has_shape(),
    {
        let mut state: usize = 0;
        while state < 256
            invariant
                state <= 256,
                forall|i: int| 0 <= i < state ==> #[trigger] self.delta[i] <= 0x8000,
                forall|i: int| 0 <= i < state && i <= 250 ==> #[trigger] self.theta[i] <= 0x7fff,
                forall|i: int| 0 <= i < state && i <= 250 ==> #[trigger] self.mu[i] <= 250,
                forall|i: int| 0 <= i < state && i <= 250 ==> #[trigger] self.lambda[i] <= 250,
                forall|i: int| 251 <= i < state ==> #[trigger] self.theta[i] == 0,
                forall|i: int| 251 <= i < state ==> #[trigger] self.mu[i] == 0,
                forall|i: int| 251 <= i < state ==> #[trigger] self.lambda[i] == 0,
            decreases 256 - state,
        {
            if self.delta[state] > 0x8000 {
                return false;
            }
            if state <= 250 {
                if self.theta[state] > 0x7fff || self.mu[state] > 250 || self.lambda[state] > 250 {
                    return false;
                }
            } else if self.theta[state] != 0 || self.mu[state] != 0 || self.lambda[state] != 0 {
                return false;
            }
            state = state + 1;
        }
        true
    }
}

/// A ZP decoder over a byte slice.
pub struct SpecZpDecoder<'a> {
    bits: BitStream<'a>,
    a: u32,
    c: u32,
}

impl<'a> View for SpecZpDecoder<'a> {
    type V = ZpState;

    closed spec fn view(&self) -> ZpState {
        ZpState {
            input: self.bits.input(),
            a: self.a as int,
            c: self.c as int,
            pos: self.bits.consumed(),
        }
    }
}

impl<'a> SpecZpDecoder<'a> {
    /// The decoder stands between two decisions.
    pub closed spec fn wf(&self) -> bool {
        self.bits.wf() && zp_wf(self@)
    }

    /// What holds of a decoder between two decisions.
    pub proof fn lemma_wf(&self)
        requires
            self.wf(),
        ensures
            zp_wf(self@),
    {
    }

    /// Starts decoding; past its end the input is padded with ones.
    pub fn new(input: &'a [u8]) -> (decoder: Self)
        ensures
            decoder.wf(),
            decoder@ == zp_start(input@),
    {
        let mut bits = BitStream::new(input);
        let c: u32 = first_window(&mut bits);
        SpecZpDecoder { bits, a: 0, c }
    }

    /// Doubles both registers and takes one bit into the code window.
    fn shift(&mut self)
        requires
            old(self).bits.wf(),
            old(self).a <= 0xffff,
            old(self).c <= 0xffff,
        ensures
            final(self).bits.wf(),
            final(self)@ == zp_shift(old(self)@),
    {
        let bit: u32 = self.bits.next_bit();
        self.a = (2 * self.a) % 0x10000;
        self.c = (2 * self.c + bit) % 0x10000;
    }

    /// Shifts for as long as the leading bit of the lower bound is set.
    fn renormalize(&mut self)
        requires
            old(self).bits.wf(),
            old(self).a <= old(self).c <= 0xffff,
        ensures
            final(self).wf(),
            final(self)@ == zp_renormalize(old(self)@),
    {
        proof {
            lemma_renormalize_wf(self@);
        }
        while self.a >= 0x8000
            invariant
                self.bits.wf(),
                self.a <= self.c <= 0xffff,
                zp_renormalize(self@) == zp_renormalize(old(self)@),
            decreases self.a,
        {
            proof {
                lemma_shift_order(self@);
            }
            self.shift();
        }
    }

    /// Decodes one bit without a context, splitting the interval in halves.
    pub fn decode_raw(&mut self) -> (bit: u8)
        requires
            old(self).wf(),
        ensures
            final(self).wf(),
            (bit as int, final(self)@) == zp_passthrough(
                old(self)@,
                0x8000 + old(self)@.a / 2,
            ),
    {
        let z: u32 = 0x8000 + self.a / 2;
        self.decode_passthrough_with_threshold(z)
    }

    /// Decodes one bit without a context, splitting the interval at `z`.
    pub fn decode_passthrough_with_threshold(&mut self, z: u32) -> (bit: u8)
        requires
            old(self).wf(),
            0x8000 <= z <= 0xbfff,
        ensures
            final(self).wf(),
            (bit as int, final(self)@) == zp_passthrough(old(self)@, z as int),
    {
        proof {
            lemma_passthrough_wf(self@, z as int);
        }
        if z > self.c {
            self.a = self.a + (0x10000 - z);
            self.c = self.c + (0x10000 - z);
            self.renormalize();
            1
        } else {
            self.a = z;
            self.shift();
            0
        }
    }

    /// Decodes one bit in a context whose state has the four table entries given.
    fn decide(&mut self, context: &mut u8, delta: u16, theta: u16, mu: u8, lambda: u8) -> (bit: u8)
        requires
            old(self).wf(),
            delta <= 0x8000,
        ensures
            final(self).wf(),
            (bit as int, final(self)@, *final(context)) == zp_decide(
                old(self)@,
                *old(context),
                delta as int,
                theta as int,
                mu,
                lambda,
            ),
    {
        proof {
            lemma_decide_wf(self@, *context, delta as int, theta as int, mu, lambda);
        }
        let mps: u8 = *context % 2;
        let z: u32 = self.a + delta as u32;
        if z <= self.c && z <= 0x7fff {
            self.a = z;
            return mps;
        }
        let limit: u32 = 0x6000 + (z + self.a) / 4;
        let split: u32 = if z <= limit {
            z
        } else {
            limit
        };
        if split > self.c {
            self.a = self.a + (0x10000 - split);
            self.c = self.c + (0x10000 - split);
            *context = lambda;
            self.renormalize();
            1 - mps
        } else {
            if self.a >= theta as u32 {
                *context = mu;
            }
            self.a = split;
            self.shift();
            mps
        }
    }

    /// Decodes one bit in a context under the given tables.
    pub fn decode_bit(&mut self, context: &mut u8, tables: &ZpTableSet) -> (bit: u8)
        requires
            old(self).wf(),
            deltas_fit(tables.delta@),
        ensures
            final(self).wf(),
            (bit as int, final(self)@, *final(context)) == zp_decide(
                old(self)@,
                *old(context),
                tables.delta[*old(context) as int] as int,
                tables.theta[*old(context) as int] as int,
                tables.mu[*old(context) as int],
                tables.lambda[*old(context) as int],
            ),
    {
        let state: usize = *context as usize;
        assert(tables.delta@[state as int] <= 0x8000);
        self.decide(
            context,
            tables.delta[state],
            tables.theta[state],
            tables.mu[state],
            tables.lambda[state],
        )
    }

    /// Decodes one bit in a context under the standard tables.
    pub fn decode_context_bit(&mut self, context: &mut u8) -> (bit: bool)
        requires
            old(self).wf(),
        ensures
            final(self).wf(),
            (bit, final(self)@, *final(context)) == zp_context_bit(old(self)@, *old(context)),
    {
        proof {
            reveal(zp_context_bit);
            lemma_zp_delta_fits();
        }
        let state: usize = *context as usize;
        assert(ZP_DELTA@[state as int] <= 0x8000);
        let bit: u8 = self.decide(
            context,
            ZP_DELTA[state],
            ZP_THETA[state],
            ZP_MU[state],
            ZP_LAMBDA[state],
        );
        bit != 0
    }

    /// Decodes one bit with the fixed split that wavelet coefficients use.
    pub fn decode_iw44_passthrough_bit(&mut self) -> (bit: bool)
        requires
            old(self).wf(),
        ensures
            final(self).wf(),
            (bit, final(self)@) == zp_iw44_passthrough_bit(old(self)@),
    {
        proof {
            reveal(zp_iw44_passthrough_bit);
        }
        let z: u32 = 0x8000 + (3 * self.a) / 8;
        let bit: u8 = self.decode_passthrough_with_threshold(z);
        bit != 0
    }
}

} // verus!
