//! That images can be told by their codes: no code of a run begins another, nor does one of
//! a mode.

use super::ccitt::{
    change_from, change_to, code_bits, group4_bytes, lemma_change_from_range,
    lemma_change_to_range, packed_row, row_above, row_bits, rows_bits, run_bits,
};
use super::ccitt_modes::{lemma_row_read_back, row_modes, RowMode};
use super::ccitt_tables::{
    BLACK_MAKEUP_BITS, BLACK_MAKEUP_LENGTHS, BLACK_TERMINATING_BITS, BLACK_TERMINATING_LENGTHS,
    WHITE_MAKEUP_BITS, WHITE_MAKEUP_LENGTHS, WHITE_TERMINATING_BITS, WHITE_TERMINATING_LENGTHS,
};
use crate::bitstream::{bit_value, bits_of, lemma_packed_bits_read_back, pack_bits};
use vstd::prelude::*;

verus! {

/// The words of white runs in the order of their codes: a run of less than 64 pixels by
/// its length, and one of so many times 64 pixels by 63 more than that.
pub const WHITE_ORDER: [u8; 104] = [
    91, 94, 95, 96, 97, 98, 99, 92, 93, 100, 101, 102, 103, 29, 30, 45, 46, 22, 23, 47, 48, 13,
    20, 33, 34, 35, 36, 37, 38, 19, 31, 32, 1, 12, 53, 54, 26, 39, 40, 41, 42, 43, 44, 21, 28,
    61, 62, 63, 0, 68, 69, 10, 11, 27, 59, 60, 86, 87, 88, 90, 18, 24, 49, 50, 51, 52, 25, 55,
    56, 57, 58, 66, 89, 70, 71, 74, 75, 73, 72, 76, 77, 78, 79, 80, 81, 82, 83, 84, 85, 67, 2,
    3, 65, 8, 9, 16, 17, 4, 5, 14, 15, 64, 6, 7,
];

/// The place of each word of white runs in the order of their codes.
pub const WHITE_RANK: [u8; 104] = [
    48, 32, 90, 91, 97, 98, 102, 103, 93, 94, 51, 52, 33, 21, 99, 100, 95, 96, 60, 29, 22, 43,
    17, 18, 61, 66, 36, 53, 44, 13, 14, 30, 31, 23, 24, 25, 26, 27, 28, 37, 38, 39, 40, 41, 42,
    15, 16, 19, 20, 62, 63, 64, 65, 34, 35, 67, 68, 69, 70, 54, 55, 45, 46, 47, 101, 92, 71, 89,
    49, 50, 73, 74, 78, 77, 75, 76, 79, 80, 81, 82, 83, 84, 85, 86, 87, 88, 56, 57, 58, 72, 59,
    0, 7, 8, 1, 2, 3, 4, 5, 6, 9, 10, 11, 12,
];

/// The words of black runs in the order of their codes.
pub const BLACK_ORDER: [u8; 104] = [
    91, 94, 95, 96, 97, 98, 99, 92, 93, 100, 101, 102, 103, 18, 52, 73, 74, 75, 76, 55, 56, 83,
    84, 85, 86, 59, 60, 87, 88, 24, 25, 89, 90, 68, 69, 70, 71, 72, 53, 54, 77, 78, 79, 80, 81,
    82, 64, 13, 23, 50, 51, 44, 45, 46, 47, 57, 58, 61, 67, 16, 17, 48, 49, 62, 63, 30, 31, 32,
    33, 40, 41, 22, 14, 10, 11, 15, 65, 66, 26, 27, 28, 29, 19, 20, 34, 35, 36, 37, 38, 39, 21,
    42, 43, 0, 12, 9, 8, 7, 6, 5, 1, 4, 3, 2,
];

/// The place of each word of black runs in the order of their codes.
pub const BLACK_RANK: [u8; 104] = [
    93, 100, 103, 102, 101, 99, 98, 97, 96, 95, 73, 74, 94, 47, 72, 75, 59, 60, 13, 82, 83, 90,
    71, 48, 29, 30, 78, 79, 80, 81, 65, 66, 67, 68, 84, 85, 86, 87, 88, 89, 69, 70, 91, 92, 51,
    52, 53, 54, 61, 62, 49, 50, 14, 38, 39, 19, 20, 55, 56, 25, 26, 57, 63, 64, 46, 76, 77, 58,
    33, 34, 35, 36, 37, 15, 16, 17, 18, 40, 41, 42, 43, 44, 45, 21, 22, 23, 24, 27, 28, 31, 32,
    0, 7, 8, 1, 2, 3, 4, 5, 6, 9, 10, 11, 12,
];

/// The code of a word as a number.
pub open spec fn word_bits(word: int, black: bool) -> int {
    if word < 64 {
        if black {
            BLACK_TERMINATING_BITS[word] as int
        } else {
            WHITE_TERMINATING_BITS[word] as int
        }
    } else if black {
        BLACK_MAKEUP_BITS[word - 64] as int
    } else {
        WHITE_MAKEUP_BITS[word - 64] as int
    }
}

/// How many bits the code of a word has.
pub open spec fn word_len(word: int, black: bool) -> int {
    if word < 64 {
        if black {
            BLACK_TERMINATING_LENGTHS[word] as int
        } else {
            WHITE_TERMINATING_LENGTHS[word] as int
        }
    } else if black {
        BLACK_MAKEUP_LENGTHS[word - 64] as int
    } else {
        WHITE_MAKEUP_LENGTHS[word - 64] as int
    }
}

/// The code of a word.
pub open spec fn word_code(word: int, black: bool) -> Seq<bool> {
    code_bits(word_bits(word, black), word_len(word, black) as nat)
}

/// A number doubled so many times.
pub open spec fn doubled(x: int, times: int) -> int
    decreases times,
{
    if times <= 0 {
        x
    } else {
        2 * doubled(x, times - 1)
    }
}

/// The words in the order of their codes.
pub open spec fn word_in_order(place: int, black: bool) -> int {
    if black {
        BLACK_ORDER[place] as int
    } else {
        WHITE_ORDER[place] as int
    }
}

/// The place of a word in the order of the codes.
pub open spec fn rank_of_word(word: int, black: bool) -> int {
    if black {
        BLACK_RANK[word] as int
    } else {
        WHITE_RANK[word] as int
    }
}

/// The least number of thirteen bits that starts with the code of a word.
pub open spec fn word_start(word: int, black: bool) -> int {
    doubled(word_bits(word, black), 13 - word_len(word, black))
}

/// The number behind the largest of thirteen bits that starts with the code of a word.
pub open spec fn word_end(word: int, black: bool) -> int {
    doubled(word_bits(word, black) + 1, 13 - word_len(word, black))
}

/// Whether a code has its length, and starts no number of thirteen bits that the next in
/// order starts.
pub open spec fn word_in_place(place: int, black: bool) -> bool {
    let word = word_in_order(place, black);
    &&& 0 <= word < 104
    &&& 1 <= word_len(word, black) <= 13
    &&& 0 <= word_bits(word, black) < doubled(1, word_len(word, black))
    &&& place < 103 ==> word_end(word, black) <= word_start(word_in_order(place + 1, black), black)
}

/// Whether that holds of the first words in order.
pub open spec fn words_in_place(count: int, black: bool) -> bool
    decreases count,
{
    if count <= 0 {
        true
    } else {
        word_in_place(count - 1, black) && words_in_place(count - 1, black)
    }
}

#[verifier::spinoff_prover]
#[verifier::rlimit(40)]
proof fn lemma_white_words_in_place()
    ensures
        words_in_place(104, false),
{
    reveal_with_fuel(doubled, 14);
    reveal_with_fuel(words_in_place, 9);
    assert(words_in_place(8, false));
    assert(words_in_place(16, false));
    assert(words_in_place(24, false));
    assert(words_in_place(32, false));
    assert(words_in_place(40, false));
    assert(words_in_place(48, false));
    assert(words_in_place(56, false));
    assert(words_in_place(64, false));
    assert(words_in_place(72, false));
    assert(words_in_place(80, false));
    assert(words_in_place(88, false));
    assert(words_in_place(96, false));
    assert(words_in_place(104, false));
}

#[verifier::spinoff_prover]
#[verifier::rlimit(40)]
proof fn lemma_black_words_in_place()
    ensures
        words_in_place(104, true),
{
    reveal_with_fuel(doubled, 14);
    reveal_with_fuel(words_in_place, 9);
    assert(words_in_place(8, true));
    assert(words_in_place(16, true));
    assert(words_in_place(24, true));
    assert(words_in_place(32, true));
    assert(words_in_place(40, true));
    assert(words_in_place(48, true));
    assert(words_in_place(56, true));
    assert(words_in_place(64, true));
    assert(words_in_place(72, true));
    assert(words_in_place(80, true));
    assert(words_in_place(88, true));
    assert(words_in_place(96, true));
    assert(words_in_place(104, true));
}

/// Whether the places of the first words lead back to them.
pub open spec fn ranks_lead_back(count: int, black: bool) -> bool
    decreases count,
{
    if count <= 0 {
        true
    } else {
        &&& 0 <= rank_of_word(count - 1, black) < 104
        &&& word_in_order(rank_of_word(count - 1, black), black) == count - 1
        &&& ranks_lead_back(count - 1, black)
    }
}

#[verifier::spinoff_prover]
proof fn lemma_white_ranks()
    ensures
        ranks_lead_back(104, false),
{
    reveal_with_fuel(ranks_lead_back, 9);
    assert(ranks_lead_back(8, false));
    assert(ranks_lead_back(16, false));
    assert(ranks_lead_back(24, false));
    assert(ranks_lead_back(32, false));
    assert(ranks_lead_back(40, false));
    assert(ranks_lead_back(48, false));
    assert(ranks_lead_back(56, false));
    assert(ranks_lead_back(64, false));
    assert(ranks_lead_back(72, false));
    assert(ranks_lead_back(80, false));
    assert(ranks_lead_back(88, false));
    assert(ranks_lead_back(96, false));
    assert(ranks_lead_back(104, false));
}

#[verifier::spinoff_prover]
proof fn lemma_black_ranks()
    ensures
        ranks_lead_back(104, true),
{
    reveal_with_fuel(ranks_lead_back, 9);
    assert(ranks_lead_back(8, true));
    assert(ranks_lead_back(16, true));
    assert(ranks_lead_back(24, true));
    assert(ranks_lead_back(32, true));
    assert(ranks_lead_back(40, true));
    assert(ranks_lead_back(48, true));
    assert(ranks_lead_back(56, true));
    assert(ranks_lead_back(64, true));
    assert(ranks_lead_back(72, true));
    assert(ranks_lead_back(80, true));
    assert(ranks_lead_back(88, true));
    assert(ranks_lead_back(96, true));
    assert(ranks_lead_back(104, true));
}

proof fn lemma_in_place(place: int, count: int, black: bool)
    requires
        0 <= place < count,
        words_in_place(count, black),
    ensures
        word_in_place(place, black),
    decreases count,
{
    if place < count - 1 {
        lemma_in_place(place, count - 1, black);
    }
}

proof fn lemma_rank(word: int, count: int, black: bool)
    requires
        0 <= word < count,
        ranks_lead_back(count, black),
    ensures
        0 <= rank_of_word(word, black) < 104,
        word_in_order(rank_of_word(word, black), black) == word,
    decreases count,
{
    if word < count - 1 {
        lemma_rank(word, count - 1, black);
    }
}

proof fn lemma_doubled_less(x: int, y: int, times: int)
    requires
        x < y,
    ensures
        doubled(x, times) < doubled(y, times),
    decreases times,
{
    if times > 0 {
        lemma_doubled_less(x, y, times - 1);
    }
}

/// What a code starts lies before what the codes behind it in order start.
proof fn lemma_in_order(first: int, second: int, black: bool)
    requires
        0 <= first < second < 104,
        words_in_place(104, black),
    ensures
        word_end(word_in_order(first, black), black) <= word_start(
            word_in_order(second, black),
            black,
        ),
    decreases second - first,
{
    lemma_in_place(first, 104, black);
    if first + 1 < second {
        lemma_in_order(first + 1, second, black);
        let next = word_in_order(first + 1, black);
        lemma_doubled_less(
            word_bits(next, black),
            word_bits(next, black) + 1,
            13 - word_len(next, black),
        );
    }
}

/// The first bits of a list as a number; beyond its end they are zeros.
pub open spec fn leading(bits: Seq<bool>, count: int) -> int
    decreases count,
{
    if count <= 0 {
        0
    } else {
        2 * leading(bits, count - 1) + bit_value(bits, count - 1)
    }
}

proof fn lemma_leading_same(a: Seq<bool>, b: Seq<bool>, count: int)
    requires
        count <= a.len(),
        count <= b.len(),
        forall|i: int| 0 <= i < count ==> a[i] == b[i],
    ensures
        leading(a, count) == leading(b, count),
    decreases count,
{
    if count > 0 {
        lemma_leading_same(a, b, count - 1);
        assert(a[count - 1] == b[count - 1]);
    }
}

proof fn lemma_code_len(bits: int, len: nat)
    ensures
        code_bits(bits, len).len() == len,
    decreases len,
{
    if len > 0 {
        lemma_code_len(bits / 2, (len - 1) as nat);
    }
}

/// A code is the number that it was made of.
proof fn lemma_leading_code(bits: int, len: nat, rest: Seq<bool>)
    requires
        0 <= bits < doubled(1, len as int),
    ensures
        leading(code_bits(bits, len) + rest, len as int) == bits,
    decreases len,
{
    if len > 0 {
        let before = (len - 1) as nat;
        let shorter = code_bits(bits / 2, before) + rest;
        let whole = code_bits(bits, len) + rest;
        lemma_leading_code(bits / 2, before, rest);
        lemma_code_len(bits / 2, before);
        lemma_leading_same(shorter, whole, before as int);
        assert(whole[before as int] == (bits % 2 == 1));
    }
}

/// More bits of a list give a number that starts with the one of fewer.
proof fn lemma_leading_more(bits: Seq<bool>, count: int, more: int)
    requires
        0 <= count,
        0 <= more,
    ensures
        doubled(leading(bits, count), more) <= leading(bits, count + more) < doubled(
            leading(bits, count) + 1,
            more,
        ),
    decreases more,
{
    if more > 0 {
        lemma_leading_more(bits, count, more - 1);
    }
}

/// A word can be told by its code, whatever follows.
proof fn lemma_word_told(
    first: int,
    second: int,
    black: bool,
    rest: Seq<bool>,
    other: Seq<bool>,
)
    requires
        0 <= first < 104,
        0 <= second < 104,
        word_code(first, black) + rest == word_code(second, black) + other,
    ensures
        first == second,
        rest == other,
{
    lemma_white_words_in_place();
    lemma_black_words_in_place();
    lemma_white_ranks();
    lemma_black_ranks();
    lemma_rank(first, 104, black);
    lemma_rank(second, 104, black);
    let i = rank_of_word(first, black);
    let j = rank_of_word(second, black);
    lemma_in_place(i, 104, black);
    lemma_in_place(j, 104, black);
    let stream = word_code(first, black) + rest;
    let len = word_len(first, black);
    let size = word_len(second, black);
    lemma_leading_code(word_bits(first, black), len as nat, rest);
    lemma_leading_code(word_bits(second, black), size as nat, other);
    lemma_leading_more(stream, len, 13 - len);
    lemma_leading_more(stream, size, 13 - size);
    if i < j {
        lemma_in_order(i, j, black);
    }
    if j < i {
        lemma_in_order(j, i, black);
    }
    lemma_code_len(word_bits(first, black), len as nat);
    assert(rest =~= stream.skip(len));
    assert(other =~= (word_code(second, black) + other).skip(len));
}

/// A run of more than 63 pixels is coded by that of whole multiples of 64 pixels, and that
/// of what is left.
proof fn lemma_run_split(run: int, black: bool)
    requires
        0 <= run,
    ensures
        run < 64 ==> run_bits(run, black) == word_code(run, black),
        64 <= run < 2560 ==> run_bits(run, black) == word_code(63 + run / 64, black) + run_bits(
            run % 64,
            black,
        ),
        2560 <= run ==> run_bits(run, black) == word_code(103, black) + run_bits(
            run - 2560,
            black,
        ),
{
    reveal_with_fuel(run_bits, 2);
}

/// A run can be told by its codes, whatever follows.
pub proof fn lemma_run_told(
    first: int,
    second: int,
    black: bool,
    rest: Seq<bool>,
    other: Seq<bool>,
)
    requires
        0 <= first,
        0 <= second,
        run_bits(first, black) + rest == run_bits(second, black) + other,
    ensures
        first == second,
        rest == other,
    decreases first,
{
    lemma_run_split(first, black);
    lemma_run_split(second, black);
    let (head, tail) = run_head(first, black);
    let (top, end) = run_head(second, black);
    assert(run_bits(first, black) + rest =~= word_code(head, black) + (tail + rest));
    assert(run_bits(second, black) + other =~= word_code(top, black) + (end + other));
    lemma_word_told(head, top, black, tail + rest, end + other);
    if head < 64 {
        assert(tail + rest =~= rest);
        assert(end + other =~= other);
    } else if head < 103 {
        lemma_run_split(first % 64, black);
        lemma_run_split(second % 64, black);
        lemma_word_told(first % 64, second % 64, black, rest, other);
    } else {
        lemma_run_told(first - 2560, second - 2560, black, rest, other);
    }
}

/// The first word of a run, and the code of the rest of it.
pub open spec fn run_head(run: int, black: bool) -> (int, Seq<bool>) {
    if run < 64 {
        (run, Seq::empty())
    } else if run < 2560 {
        (63 + run / 64, run_bits(run % 64, black))
    } else {
        (103, run_bits(run - 2560, black))
    }
}

/// The number and the length of the code that a mode starts with.
pub open spec fn mode_head(mode: RowMode) -> (int, int) {
    match mode {
        RowMode::Pass => (1, 4),
        RowMode::Horizontal { .. } => (1, 3),
        RowMode::Vertical { offset } => if offset == 0 {
            (1, 1)
        } else if offset == 1 {
            (3, 3)
        } else if offset == -1 {
            (2, 3)
        } else if offset == 2 {
            (3, 6)
        } else if offset == -2 {
            (2, 6)
        } else if offset == 3 {
            (3, 7)
        } else {
            (2, 7)
        },
    }
}

/// What follows the start of the code of a mode: the codes of its runs.
pub open spec fn mode_runs(mode: RowMode, color: bool) -> Seq<bool> {
    match mode {
        RowMode::Horizontal { first, second } => run_bits(first, color) + run_bits(second, !color),
        _ => Seq::empty(),
    }
}

/// Whether a mode can be coded.
pub open spec fn mode_fits(mode: RowMode) -> bool {
    match mode {
        RowMode::Pass => true,
        RowMode::Horizontal { first, second } => 0 <= first && 0 <= second,
        RowMode::Vertical { offset } => -3 <= offset <= 3,
    }
}

/// The code of a mode.
pub open spec fn mode_bits(mode: RowMode, color: bool) -> Seq<bool> {
    code_bits(mode_head(mode).0, mode_head(mode).1 as nat) + mode_runs(mode, color)
}

/// A mode can be told by its code, whatever follows.
pub proof fn lemma_mode_told(
    first: RowMode,
    second: RowMode,
    color: bool,
    rest: Seq<bool>,
    other: Seq<bool>,
)
    requires
        mode_fits(first),
        mode_fits(second),
        mode_bits(first, color) + rest == mode_bits(second, color) + other,
    ensures
        first == second,
        rest == other,
{
    let (bits, len) = mode_head(first);
    let (number, size) = mode_head(second);
    let tail = mode_runs(first, color) + rest;
    let end = mode_runs(second, color) + other;
    let stream = code_bits(bits, len as nat) + tail;
    assert(mode_bits(first, color) + rest =~= stream);
    assert(mode_bits(second, color) + other =~= code_bits(number, size as nat) + end);
    assert(0 <= bits < doubled(1, len) && 0 <= number < doubled(1, size)) by {
        reveal_with_fuel(doubled, 8);
    }
    lemma_leading_code(bits, len as nat, tail);
    lemma_leading_code(number, size as nat, end);
    lemma_leading_more(stream, len, 7 - len);
    lemma_leading_more(stream, size, 7 - size);
    assert(bits == number && len == size) by {
        reveal_with_fuel(doubled, 8);
    }
    lemma_code_len(bits, len as nat);
    assert(tail =~= stream.skip(len));
    assert(end =~= (code_bits(number, size as nat) + end).skip(len));
    match (first, second) {
        (
            RowMode::Horizontal { first: a, second: b },
            RowMode::Horizontal { first: c, second: d },
        ) => {
            assert(tail =~= run_bits(a, color) + (run_bits(b, !color) + rest));
            assert(end =~= run_bits(c, color) + (run_bits(d, !color) + other));
            lemma_run_told(a, c, color, run_bits(b, !color) + rest, run_bits(d, !color) + other);
            lemma_run_told(b, d, !color, rest, other);
        },
        _ => {
            assert(tail =~= rest);
            assert(end =~= other);
        },
    }
}

/// The modes of a row can be told by its code, given the row above, whatever follows.
pub proof fn lemma_modes_told(
    row: Seq<bool>,
    twin: Seq<bool>,
    above: Seq<bool>,
    a0: int,
    color: bool,
    rest: Seq<bool>,
    other: Seq<bool>,
)
    requires
        row.len() == twin.len(),
        row_bits(row, above, a0, color) + rest == row_bits(twin, above, a0, color) + other,
    ensures
        row_modes(row, above, a0, color) == row_modes(twin, above, a0, color),
        rest == other,
    decreases row.len() - a0,
{
    let run_start = if a0 < 0 {
        0
    } else {
        a0
    };
    if run_start >= row.len() || a0 < -1 || above.len() != row.len() {
        assert(Seq::<bool>::empty() + rest =~= rest);
        assert(Seq::<bool>::empty() + other =~= other);
    } else {
        let (mode, next, after) = next_mode(row, above, a0, color);
        let (same, place, shade) = next_mode(twin, above, a0, color);
        lemma_next_mode(row, above, a0, color);
        lemma_next_mode(twin, above, a0, color);
        let tail = row_bits(row, above, next, after) + rest;
        let end = row_bits(twin, above, place, shade) + other;
        assert(row_bits(row, above, a0, color) + rest =~= mode_bits(mode, color) + tail);
        assert(row_bits(twin, above, a0, color) + other =~= mode_bits(same, color) + end);
        lemma_mode_told(mode, same, color, tail, end);
        lemma_modes_told(row, twin, above, next, after, rest, other);
    }
}

/// The next mode of a row, and the place and the colour from which the row then goes on.
pub open spec fn next_mode(
    row: Seq<bool>,
    above: Seq<bool>,
    a0: int,
    color: bool,
) -> (RowMode, int, bool) {
    let run_start = if a0 < 0 {
        0
    } else {
        a0
    };
    let a1 = change_from(row, a0 + 1);
    let b1 = change_to(above, a0 + 1, !color);
    let b2 = change_to(above, b1 + 1, color);
    if b2 < a1 {
        (RowMode::Pass, b2, color)
    } else if -3 <= a1 - b1 <= 3 {
        (RowMode::Vertical { offset: a1 - b1 }, a1, !color)
    } else {
        let a2 = change_from(row, a1 + 1);
        (RowMode::Horizontal { first: a1 - run_start, second: a2 - a1 }, a2, color)
    }
}

/// The code of a row is that of its next mode and of the rest.
proof fn lemma_next_mode(row: Seq<bool>, above: Seq<bool>, a0: int, color: bool)
    requires
        -1 <= a0 < row.len(),
        above.len() == row.len(),
        row.len() > 0,
    ensures
        ({
            let (mode, next, after) = next_mode(row, above, a0, color);
            &&& mode_fits(mode)
            &&& a0 < next <= row.len()
            &&& row_bits(row, above, a0, color) == mode_bits(mode, color) + row_bits(
                row,
                above,
                next,
                after,
            )
            &&& row_modes(row, above, a0, color) == seq![mode] + row_modes(row, above, next, after)
        }),
{
    let (mode, next, after) = next_mode(row, above, a0, color);
    let a1 = change_from(row, a0 + 1);
    let b1 = change_to(above, a0 + 1, !color);
    lemma_change_from_range(row, a0 + 1);
    lemma_change_to_range(above, a0 + 1, !color);
    lemma_change_to_range(above, b1 + 1, color);
    lemma_change_from_range(row, a1 + 1);
    assert(row_bits(row, above, a0, color) =~= mode_bits(mode, color) + row_bits(
        row,
        above,
        next,
        after,
    ));
}

/// The first rows of an image can be told by their codes, whatever follows.
proof fn lemma_rows_told(
    left: Seq<u8>,
    right: Seq<u8>,
    width: int,
    count: int,
    rest: Seq<bool>,
    other: Seq<bool>,
)
    requires
        0 <= width,
        rows_bits(left, width, count) + rest == rows_bits(right, width, count) + other,
    ensures
        forall|y: int|
            0 <= y < count ==> #[trigger] packed_row(left, width, y) == packed_row(
                right,
                width,
                y,
            ),
        rest == other,
    decreases count,
{
    if count <= 0 {
        assert(Seq::<bool>::empty() + rest =~= rest);
        assert(Seq::<bool>::empty() + other =~= other);
    } else {
        let y = count - 1;
        let row = packed_row(left, width, y);
        let twin = packed_row(right, width, y);
        let above = row_above(left, width, y);
        let code = row_bits(row, above, -1, false);
        let last = row_bits(twin, row_above(right, width, y), -1, false);
        assert(rows_bits(left, width, count) + rest =~= rows_bits(left, width, y) + (code + rest));
        assert(rows_bits(right, width, count) + other =~= rows_bits(right, width, y) + (last
            + other));
        lemma_rows_told(left, right, width, y, code + rest, last + other);
        if y > 0 {
            assert(packed_row(left, width, y - 1) == packed_row(right, width, y - 1));
        }
        assert(above == row_above(right, width, y));
        lemma_modes_told(row, twin, above, -1, false, rest, other);
        lemma_row_read_back(row, above, -1, false);
        lemma_row_read_back(twin, above, -1, false);
        assert(row.skip(0) =~= row);
        assert(twin.skip(0) =~= twin);
    }
}

/// What is read of an image: the codes of its rows, the two codes that end it, and what
/// fills the last byte.
proof fn lemma_image_bits(bytes: Seq<u8>, width: int, height: int) -> (rest: Seq<bool>)
    ensures
        bits_of(group4_bytes(bytes, width, height)) == rows_bits(bytes, width, height) + rest,
{
    let rows = rows_bits(bytes, width, height);
    let code = rows + code_bits(1, 12) + code_bits(1, 12);
    let bits = bits_of(pack_bits(code));
    lemma_packed_bits_read_back(code);
    let rest = bits.skip(rows.len() as int);
    assert forall|i: int| 0 <= i < rows.len() implies bits[i] == rows[i] by {
        assert(bits.take(code.len() as int)[i] == code[i]);
    }
    assert(bits =~= rows + rest);
    rest
}

/// An image can be told by its code: images of the same size with the same code have the
/// same pixels.
pub proof fn lemma_image_told(left: Seq<u8>, right: Seq<u8>, width: int, height: int)
    requires
        0 <= width,
        group4_bytes(left, width, height) == group4_bytes(right, width, height),
    ensures
        forall|y: int|
            0 <= y < height ==> #[trigger] packed_row(left, width, y) == packed_row(
                right,
                width,
                y,
            ),
{
    let rest = lemma_image_bits(left, width, height);
    let other = lemma_image_bits(right, width, height);
    lemma_rows_told(left, right, width, height, rest, other);
}

} // verus!
