//! Bits and numbers that are read without a context.

use super::reader::{leading_ones, raw_bit, renormal_shift, shift_by, split_bit};
use super::{bzz_bytes, raw_number, BzzFault};
use crate::zp::{
    zp_iw44_passthrough_bit, zp_passthrough, zp_renormalize, zp_shift, zp_start, zp_wf, ZpState,
};
use vstd::arithmetic::power2::pow2;
use vstd::prelude::*;

verus! {

/// An even byte and the one behind it start with as many set bits, unless all but the last are
/// set.
proof fn lemma_ones_of_pair(byte: int)
    requires
        0 <= byte < 254,
        byte % 2 == 0,
    ensures
        leading_ones(byte + 1) == leading_ones(byte),
{
    reveal_with_fuel(leading_ones, 9);
}

proof fn lemma_shift_once(lower: int)
    requires
        0x8000 <= lower < 0x10000,
    ensures
        renormal_shift(lower) == 1 + renormal_shift(2 * lower - 0x10000),
{
    let next = 2 * lower - 0x10000;
    let (high, low) = (lower / 256, lower % 256);
    if lower >= 0xff00 {
        if low >= 128 {
            assert(next >= 0xff00 && next % 256 == 2 * low - 256);
        } else {
            assert(next < 0xff00 && (next / 256) % 256 == 0xfe);
            reveal_with_fuel(leading_ones, 9);
        }
    } else {
        assert(high % 256 == high);
        if low >= 128 {
            assert((next / 256) % 256 == 2 * high - 256 + 1);
            lemma_ones_of_pair(2 * high - 256);
        } else {
            assert((next / 256) % 256 == 2 * high - 256);
        }
    }
}

proof fn lemma_shifted_first(zp: ZpState, count: nat)
    ensures
        shift_by(zp, count + 1) == shift_by(zp_shift(zp), count),
    decreases count,
{
    if count > 0 {
        lemma_shifted_first(zp, (count - 1) as nat);
    } else {
        assert(shift_by(zp, 0) == zp);
        assert(shift_by(zp_shift(zp), 0) == zp_shift(zp));
    }
}

proof fn lemma_shifted_as_renormalized(zp: ZpState)
    requires
        0 <= zp.a < 0x10000,
    ensures
        shift_by(zp, renormal_shift(zp.a)) == zp_renormalize(zp),
    decreases zp.a,
{
    if zp.a >= 0x8000 {
        lemma_shift_once(zp.a);
        assert(zp_shift(zp).a == 2 * zp.a - 0x10000);
        lemma_shifted_as_renormalized(zp_shift(zp));
        lemma_shifted_first(zp, renormal_shift(zp_shift(zp).a));
    } else {
        assert(renormal_shift(zp.a) == 0);
    }
}

/// A bit that splits the interval is the same, and leaves the coder the same, whether it is read
/// by the reader of compressed blocks or by the coder of images.
pub proof fn lemma_split_bits_agree(zp: ZpState, split: int)
    requires
        zp_wf(zp),
        zp.a <= split <= 0x10000,
    ensures
        split_bit(zp, split) == zp_passthrough(zp, split),
{
    if split > zp.c {
        lemma_shifted_as_renormalized(
            ZpState { a: zp.a + 0x10000 - split, c: zp.c + 0x10000 - split, ..zp },
        );
    }
}

/// A bit that is read raw is set if the code lies below the middle between the lower bound of the
/// interval and its end; a bit of a wavelet coefficient that is read without a context is set if
/// the code lies below three eighths of that way beyond the half of the range.
pub proof fn lemma_thresholds(zp: ZpState)
    requires
        zp_wf(zp),
    ensures
        raw_bit(zp).0 == 1 <==> 2 * zp.c < 0x10000 + 2 * (zp.a / 2),
        raw_bit(zp).0 == 0 || raw_bit(zp).0 == 1,
        zp_iw44_passthrough_bit(zp).0 <==> zp.c < 0x8000 + (3 * zp.a) / 8,
{
    reveal(zp_iw44_passthrough_bit);
}

/// A number that is read raw comes with its highest bit first.
pub proof fn lemma_highest_bit_first(zp: ZpState, bits: nat)
    ensures
        ({
            let (first, after) = raw_bit(zp);
            let (rest, end) = raw_number(after, bits);
            raw_number(zp, bits + 1) == (first * pow2(bits) + rest, end)
        }),
    decreases bits,
{
    let (first, after) = raw_bit(zp);
    if bits == 0 {
        vstd::arithmetic::power2::lemma2_to64();
        assert(raw_number(zp, 0) == (0int, zp));
        assert(raw_number(after, 0) == (0int, after));
        assert(first * pow2(0) == first) by (nonlinear_arith)
            requires
                pow2(0) == 1,
        ;
    } else {
        lemma_highest_bit_first(zp, (bits - 1) as nat);
        vstd::arithmetic::power2::lemma_pow2_unfold(bits);
        let half = pow2((bits - 1) as nat) as int;
        assert(2 * (first * half) == first * (2 * half)) by (nonlinear_arith);
    }
}

/// A compressed block says its length in twenty-four bits and how fast frequencies grow in two
/// more. A length of 0 stands for no bytes; one of more than four times 1024 times 1024 is
/// refused, and so is a growth of 3.
pub proof fn lemma_block_header(bytes: Seq<u8>)
    ensures
        ({
            let (len, after) = raw_number(zp_start(bytes), 24);
            let growth = raw_number(after, 2).0;
            &&& len == 0 ==> bzz_bytes(bytes) == Ok::<Seq<u8>, BzzFault>(Seq::empty())
            &&& len > 4 * 1024 * 1024 ==> bzz_bytes(bytes) == Err::<Seq<u8>, BzzFault>(
                BzzFault::UnsupportedBlockSize { size: len },
            )
            &&& 0 < len <= 4 * 1024 * 1024 && growth > 2 ==> bzz_bytes(bytes) == Err::<
                Seq<u8>,
                BzzFault,
            >(BzzFault::InvalidFshift { value: growth })
        }),
{
}

} // verus!
