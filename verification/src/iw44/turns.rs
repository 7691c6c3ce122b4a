//! In which contexts, and in which order, a slice is decoded.

use super::bands::active_parents;
use super::slice::{
    blank_plane, block_flags, bucket_has, pass_active, pass_block, pass_buckets, pass_new_bucket,
    pass_new_buckets, pass_new_coefficient, pass_one_block, pass_one_bucket, Pass, SliceInfo,
    Steps, IW44_FLAG_ACTIVE, IW44_FLAG_UNKNOWN,
};
use crate::zp::zp_context_bit;
use vstd::prelude::*;

verus! {

/// Whether coefficients of a block may become active is not asked in the first seven bands, nor
/// of a block that has active ones: they may. In the last three bands it is asked of a block that
/// has none but has some that could, in one context; otherwise they may not.
pub proof fn lemma_when_blocks_are_asked(pass: Pass, band: int, flags: Seq<u8>)
    requires
        0 <= band <= 9,
    ensures
        ({
            let (next, open) = pass_block(pass, band, flags);
            let (bit, zp, state) = zp_context_bit(pass.zp, pass.bucket);
            &&& band <= 6 || flags.contains(2) ==> open && next == pass
            &&& band > 6 && !flags.contains(2) && flags.contains(8) ==> open == bit && next
                == Pass { zp, bucket: state, ..pass }
            &&& band > 6 && !flags.contains(2) && !flags.contains(8) ==> !open && next == pass
        }),
{
}

/// Whether coefficients of a bucket may become active is asked if one of them could. The context
/// is one of eight of the band, by how many of the bucket's parents are active, up to three, and
/// by whether the block has active coefficients in the band.
pub proof fn lemma_when_buckets_are_asked(
    pass: Pass,
    info: SliceInfo,
    flags: Seq<u8>,
    block: int,
    j: int,
)
    requires
        0 <= info.band <= 9,
    ensures
        ({
            let (next, decision) = pass_one_bucket(pass, info, flags, block, j);
            let band = info.band as int;
            let parents = active_parents(
                band,
                pass.values,
                block,
                super::slice::first_bucket(band) + j,
            );
            let context = 8 * band + (if flags.contains(2) { 4int } else { 0 }) + (if parents > 3 {
                3
            } else {
                parents
            });
            let (bit, zp, state) = zp_context_bit(pass.zp, pass.coef[context]);
            let asked = exists|offset: int|
                0 <= offset < 16 && #[trigger] flags[16 * j + offset] == 8;
            &&& !asked ==> !decision && next == pass
            &&& asked ==> {
                &&& decision == bit
                &&& next.zp == zp
                &&& next.coef == pass.coef.update(context, state)
                &&& next.values == pass.values
                &&& next.activate == pass.activate
                &&& next.bucket == pass.bucket
                &&& next.increase == pass.increase
            }
        }),
{
}

/// Activation has sixteen contexts: the first eight are used in buckets without active
/// coefficients, and the others in buckets with some. No other context learns from it.
pub proof fn lemma_contexts_of_activation(
    pass: Pass,
    info: SliceInfo,
    steps: Steps,
    flags: Seq<u8>,
    block: int,
    j: int,
    offset: int,
    unknown: int,
    context: int,
)
    requires
        pass.activate.len() == 16,
        0 <= offset,
        0 <= unknown,
        0 <= context < 16,
        (context < 8) == (exists|k: int| 0 <= k < 16 && #[trigger] flags[16 * j + k] == 2),
    ensures
        ({
            let end = pass_new_bucket(pass, info, steps, flags, block, j, offset, unknown);
            &&& end.activate.len() == 16
            &&& end.activate[context] == pass.activate[context]
            &&& end.coef == pass.coef
            &&& end.bucket == pass.bucket
            &&& end.increase == pass.increase
        }),
    decreases 16 - offset,
{
    if offset < 16 {
        if flags[16 * j + offset] != IW44_FLAG_UNKNOWN {
            lemma_contexts_of_activation(
                pass,
                info,
                steps,
                flags,
                block,
                j,
                offset + 1,
                unknown,
                context,
            );
        } else {
            let shift: int = if bucket_has(flags, j, IW44_FLAG_ACTIVE) { 8 } else { 0 };
            let (next, left) = pass_new_coefficient(
                pass,
                info,
                steps,
                shift,
                block,
                super::slice::first_bucket(info.band as int) + j,
                offset,
                unknown,
            );
            lemma_contexts_of_activation(
                next,
                info,
                steps,
                flags,
                block,
                j,
                offset + 1,
                left,
                context,
            );
        }
    }
}

/// A block is decoded in turns: whether coefficients of it may become active, in which of its
/// buckets, which of them do, and at last the bits of those that were active before.
pub proof fn lemma_turns_of_a_block(pass: Pass, info: SliceInfo, steps: Steps, block: int)
    ensures
        ({
            let band = info.band as int;
            let flags = block_flags(steps, band, pass.values, block);
            let (entered, open) = pass_block(pass, band, flags);
            let (chosen, news) = pass_buckets(entered, info, flags, block, Seq::empty());
            let end = pass_one_block(pass, info, steps, block);
            &&& open && news.contains(true) && flags.contains(2) ==> end == pass_active(
                pass_new_buckets(chosen, info, steps, flags, block, news, 0),
                info,
                steps,
                flags,
                block,
                0,
            )
            &&& open && news.contains(true) && !flags.contains(2) ==> end == pass_new_buckets(
                chosen,
                info,
                steps,
                flags,
                block,
                news,
                0,
            )
            &&& !open && !flags.contains(2) ==> end == entered
        }),
{
}

/// The steps before the first slice: that of the very first coefficient is 2 to the power of 14,
/// that of the next two is twice as large; the others of the first band have four times as large
/// a step, and the last four of them eight times. The first two bands of the first group of three
/// have eight times that step, those of the other two groups sixteen times; and the third band of
/// each group has twice the step of its second.
pub proof fn lemma_first_steps(width: int, height: int, offset: int)
    requires
        0 <= offset < 16,
    ensures
        ({
            let steps = blank_plane(width, height).steps;
            &&& steps.lo.len() == 16 && steps.hi.len() == 10
            &&& offset == 0 ==> steps.lo[offset] == 0x4000
            &&& 1 <= offset <= 2 ==> steps.lo[offset] == 0x8000
            &&& 3 <= offset <= 11 ==> steps.lo[offset] == 0x10000
            &&& 12 <= offset ==> steps.lo[offset] == 0x20000
            &&& steps.hi[1] == 0x20000 && steps.hi[2] == steps.hi[1]
            &&& steps.hi[3] == 2 * steps.hi[2] && steps.hi[6] == 2 * steps.hi[5] && steps.hi[9] == 2
                * steps.hi[8]
            &&& steps.hi[4] == 0x40000 && steps.hi[5] == steps.hi[4]
            &&& steps.hi[7] == 0x40000 && steps.hi[8] == steps.hi[7]
        }),
{
}

} // verus!
