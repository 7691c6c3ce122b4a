//! The code words of CCITT Group 4.

use super::ccitt::{code_bits, vertical_bits};
use super::ccitt_codes::{doubled, word_code, word_start};
use vstd::prelude::*;

verus! {

/// So many clear bits.
pub open spec fn zeros(count: int) -> Seq<bool> {
    Seq::new(count as nat, |i: int| false)
}

/// The code of a change right below one of the row above is a set bit. That of a change up to
/// three pixels away from it is a number of clear bits that goes by the distance, a set bit, and a
/// bit that is set if the change lies to the right.
pub proof fn lemma_codes_of_changes(offset: int)
    requires
        -3 <= offset <= 3,
    ensures
        offset == 0 ==> vertical_bits(offset) == seq![true],
        offset == 1 || offset == -1 ==> vertical_bits(offset) == zeros(1) + seq![true, offset > 0],
        offset == 2 || offset == -2 ==> vertical_bits(offset) == zeros(4) + seq![true, offset > 0],
        offset == 3 || offset == -3 ==> vertical_bits(offset) == zeros(5) + seq![true, offset > 0],
        code_bits(1, 3) == zeros(2) + seq![true],
        code_bits(1, 4) == zeros(3) + seq![true],
        code_bits(1, 12) == zeros(11) + seq![true],
{
    reveal_with_fuel(code_bits, 13);
    assert(code_bits(1, 3) =~= zeros(2) + seq![true]);
    assert(code_bits(1, 4) =~= zeros(3) + seq![true]);
    assert(code_bits(1, 12) =~= zeros(11) + seq![true]);
    if offset == 0 {
        assert(vertical_bits(offset) =~= seq![true]);
    } else if offset == 1 || offset == -1 {
        assert(vertical_bits(offset) =~= zeros(1) + seq![true, offset > 0]);
    } else if offset == 2 || offset == -2 {
        assert(vertical_bits(offset) =~= zeros(4) + seq![true, offset > 0]);
    } else {
        assert(vertical_bits(offset) =~= zeros(5) + seq![true, offset > 0]);
    }
}

/// Runs of 1792 pixels and more have the same codes in both colours.
pub proof fn lemma_long_runs_share_codes(word: int)
    requires
        91 <= word < 104,
    ensures
        word_code(word, true) == word_code(word, false),
{
}

/// The sum of the first codes of a colour, each filled up with clear bits to a number of thirteen
/// bits.
pub open spec fn code_sum(count: int, black: bool) -> int
    decreases count,
{
    if count <= 0 {
        0
    } else {
        code_sum(count - 1, black) + word_start(count - 1, black)
    }
}

/// The sum of the sums of the first codes of a colour.
pub open spec fn sum_of_sums(count: int, black: bool) -> int
    decreases count,
{
    if count <= 0 {
        0
    } else {
        sum_of_sums(count - 1, black) + code_sum(count, black)
    }
}

/// The codes of each colour add up to what they should, and so do their sums: no two of them are
/// exchanged, and none is written wrongly.
pub proof fn lemma_codes_add_up()
    ensures
        code_sum(104, false) == 230_470,
        sum_of_sums(104, false) == 13_629_282,
        code_sum(104, true) == 37_588,
        sum_of_sums(104, true) == 3_085_870,
{
    lemma_white_codes_add_up();
    lemma_black_codes_add_up();
}

#[verifier::spinoff_prover]
#[verifier::rlimit(60)]
proof fn lemma_white_codes_add_up()
    ensures
        code_sum(104, false) == 230_470,
        sum_of_sums(104, false) == 13_629_282,
{
    reveal_with_fuel(doubled, 14);
    reveal_with_fuel(code_sum, 9);
    reveal_with_fuel(sum_of_sums, 9);
    assert(code_sum(8, false) == 36_896);
    assert(sum_of_sums(8, false) == 124_800);
    assert(code_sum(16, false) == 65_568);
    assert(sum_of_sums(16, false) == 541_056);
    assert(code_sum(24, false) == 82_144);
    assert(sum_of_sums(24, false) == 1_173_056);
    assert(code_sum(32, false) == 93_504);
    assert(sum_of_sums(32, false) == 1_896_128);
    assert(code_sum(40, false) == 99_584);
    assert(sum_of_sums(40, false) == 2_669_504);
    assert(code_sum(48, false) == 107_072);
    assert(sum_of_sums(48, false) == 3_508_160);
    assert(code_sum(56, false) == 123_264);
    assert(sum_of_sums(56, false) == 4_434_816);
    assert(code_sum(64, false) == 141_568);
    assert(sum_of_sums(64, false) == 5_512_512);
    assert(code_sum(72, false) == 169_472);
    assert(sum_of_sums(72, false) == 6_789_696);
    assert(code_sum(80, false) == 196_176);
    assert(sum_of_sums(80, false) == 8_264_912);
    assert(code_sum(88, false) == 221_840);
    assert(sum_of_sums(88, false) == 9_955_664);
    assert(code_sum(96, false) == 230_062);
    assert(sum_of_sums(96, false) == 11_787_098);
    assert(code_sum(104, false) == 230_470);
    assert(sum_of_sums(104, false) == 13_629_282);
}

#[verifier::spinoff_prover]
#[verifier::rlimit(60)]
proof fn lemma_black_codes_add_up()
    ensures
        code_sum(104, true) == 37_588,
        sum_of_sums(104, true) == 3_085_870,
{
    reveal_with_fuel(doubled, 14);
    reveal_with_fuel(code_sum, 9);
    reveal_with_fuel(sum_of_sums, 9);
    assert(code_sum(8, true) == 19_128);
    assert(sum_of_sums(8, true) == 94_912);
    assert(code_sum(16, true) == 22_040);
    assert(sum_of_sums(16, true) == 262_784);
    assert(code_sum(24, true) == 24_120);
    assert(sum_of_sums(24, true) == 447_924);
    assert(code_sum(32, true) == 26_354);
    assert(sum_of_sums(32, true) == 650_234);
    assert(code_sum(40, true) == 29_330);
    assert(sum_of_sums(40, true) == 873_150);
    assert(code_sum(48, true) == 31_322);
    assert(sum_of_sums(48, true) == 1_117_550);
    assert(code_sum(56, true) == 32_426);
    assert(sum_of_sums(56, true) == 1_373_874);
    assert(code_sum(64, true) == 33_624);
    assert(sum_of_sums(64, true) == 1_638_158);
    assert(code_sum(72, true) == 35_148);
    assert(sum_of_sums(72, true) == 1_915_272);
    assert(code_sum(80, true) == 35_904);
    assert(sum_of_sums(80, true) == 2_199_672);
    assert(code_sum(88, true) == 36_682);
    assert(sum_of_sums(88, true) == 2_490_634);
    assert(code_sum(96, true) == 37_180);
    assert(sum_of_sums(96, true) == 2_786_742);
    assert(code_sum(104, true) == 37_588);
    assert(sum_of_sums(104, true) == 3_085_870);
}

} // verus!
