//! CCITT Group 4 coding of bitonal images.

use crate::bitonal::byte_count;
use crate::bitstream::{
    bit_of, bit_value, bits_of, byte_bit, lemma_byte_by_bits, lemma_packed_byte, pack_bits,
    packed_byte, with_bit_set,
};
use crate::pdf::ccitt_tables::{
    BLACK_MAKEUP_BITS, BLACK_MAKEUP_LENGTHS, BLACK_TERMINATING_BITS, BLACK_TERMINATING_LENGTHS,
    WHITE_MAKEUP_BITS, WHITE_MAKEUP_LENGTHS, WHITE_TERMINATING_BITS, WHITE_TERMINATING_LENGTHS,
};
use vstd::prelude::*;

verus! {

/// The bits of a code: so many low bits of a number, high bit first.
pub open spec fn code_bits(bits: int, len: nat) -> Seq<bool>
    decreases len,
{
    if len == 0 {
        Seq::empty()
    } else {
        code_bits(bits / 2, (len - 1) as nat).push(bits % 2 == 1)
    }
}

/// The code of a run of less than 64 pixels.
pub open spec fn terminating_bits(run: int, black: bool) -> Seq<bool> {
    if black {
        code_bits(BLACK_TERMINATING_BITS[run] as int, BLACK_TERMINATING_LENGTHS[run] as nat)
    } else {
        code_bits(WHITE_TERMINATING_BITS[run] as int, WHITE_TERMINATING_LENGTHS[run] as nat)
    }
}

/// The code of a run of so many times 64 pixels.
pub open spec fn makeup_bits(times: int, black: bool) -> Seq<bool> {
    if black {
        code_bits(BLACK_MAKEUP_BITS[times - 1] as int, BLACK_MAKEUP_LENGTHS[times - 1] as nat)
    } else {
        code_bits(WHITE_MAKEUP_BITS[times - 1] as int, WHITE_MAKEUP_LENGTHS[times - 1] as nat)
    }
}

/// The codes of a run: for all of 2560 pixels, for whole multiples of 64, and for the rest.
pub open spec fn run_bits(run: int, black: bool) -> Seq<bool>
    decreases run,
{
    if run >= 2624 {
        makeup_bits(40, black) + run_bits(run - 2560, black)
    } else if run >= 64 {
        makeup_bits(run / 64, black) + terminating_bits(run % 64, black)
    } else {
        terminating_bits(run, black)
    }
}

/// Whether a pixel differs from the one before it, where white stands before the first.
pub open spec fn is_change(row: Seq<bool>, x: int) -> bool {
    row[x] != (x > 0 && row[x - 1])
}

/// The first change from a place on, or the end of the row.
pub open spec fn change_from(row: Seq<bool>, start: int) -> int
    decreases row.len() - start,
{
    if start >= row.len() {
        row.len() as int
    } else if is_change(row, start) {
        start
    } else {
        change_from(row, start + 1)
    }
}

/// The first change to a colour from a place on, or the end of the row.
pub open spec fn change_to(row: Seq<bool>, start: int, color: bool) -> int
    decreases row.len() - start,
{
    if start >= row.len() {
        row.len() as int
    } else if is_change(row, start) && row[start] == color {
        start
    } else {
        change_to(row, start + 1, color)
    }
}

/// The code of a change that lies within three pixels of the one above it.
pub open spec fn vertical_bits(offset: int) -> Seq<bool> {
    if offset == 0 {
        code_bits(1, 1)
    } else if offset == 1 {
        code_bits(3, 3)
    } else if offset == -1 {
        code_bits(2, 3)
    } else if offset == 2 {
        code_bits(3, 6)
    } else if offset == -2 {
        code_bits(2, 6)
    } else if offset == 3 {
        code_bits(3, 7)
    } else {
        code_bits(2, 7)
    }
}

/// The code of a row, given the row above it, from the place `a0` on, where the colour is
/// the given one. Before the row `a0` is -1.
pub open spec fn row_bits(row: Seq<bool>, above: Seq<bool>, a0: int, color: bool) -> Seq<bool>
    decreases row.len() - a0,
{
    let run_start = if a0 < 0 {
        0
    } else {
        a0
    };
    let a1 = change_from(row, a0 + 1);
    let b1 = change_to(above, a0 + 1, !color);
    let b2 = change_to(above, b1 + 1, color);
    if run_start >= row.len() || a0 < -1 || above.len() != row.len() {
        Seq::empty()
    } else {
        proof {
            lemma_change_from_range(row, a0 + 1);
            lemma_change_to_range(above, a0 + 1, !color);
            lemma_change_to_range(above, b1 + 1, color);
            lemma_change_from_range(row, a1 + 1);
        }
        if b2 < a1 {
            code_bits(1, 4) + row_bits(row, above, b2, color)
        } else if -3 <= a1 - b1 <= 3 {
            vertical_bits(a1 - b1) + row_bits(row, above, a1, !color)
        } else {
            let a2 = change_from(row, a1 + 1);
            code_bits(1, 3) + run_bits(a1 - run_start, color) + run_bits(a2 - a1, !color)
                + row_bits(row, above, a2, color)
        }
    }
}

/// The pixels of a row of a packed image.
pub open spec fn packed_row(bytes: Seq<u8>, width: int, y: int) -> Seq<bool> {
    Seq::new(
        width as nat,
        |x: int| bits_of(bytes)[8 * (y * byte_count(width as nat)) + x],
    )
}

/// The row above a row of a packed image; above the first, white.
pub open spec fn row_above(bytes: Seq<u8>, width: int, y: int) -> Seq<bool> {
    if y <= 0 {
        Seq::new(width as nat, |x: int| false)
    } else {
        packed_row(bytes, width, y - 1)
    }
}

/// The codes of the first rows of a packed image.
pub open spec fn rows_bits(bytes: Seq<u8>, width: int, count: int) -> Seq<bool>
    decreases count,
{
    if count <= 0 {
        Seq::empty()
    } else {
        rows_bits(bytes, width, count - 1) + row_bits(
            packed_row(bytes, width, count - 1),
            row_above(bytes, width, count - 1),
            -1,
            false,
        )
    }
}

/// The code of a packed image: its rows, and the two codes that end it.
pub open spec fn group4_bytes(bytes: Seq<u8>, width: int, height: int) -> Seq<u8> {
    pack_bits(rows_bits(bytes, width, height) + code_bits(1, 12) + code_bits(1, 12))
}

/// A change lies in the row, from the place on from which it was sought, or at its end.
pub proof fn lemma_change_from_range(row: Seq<bool>, start: int)
    ensures
        start <= row.len() ==> start <= change_from(row, start) <= row.len(),
        start > row.len() ==> change_from(row, start) == row.len(),
    decreases row.len() - start,
{
    if start < row.len() && !is_change(row, start) {
        lemma_change_from_range(row, start + 1);
    }
}

/// The same of a change to a colour.
pub proof fn lemma_change_to_range(row: Seq<bool>, start: int, color: bool)
    ensures
        start <= row.len() ==> start <= change_to(row, start, color) <= row.len(),
        start > row.len() ==> change_to(row, start, color) == row.len(),
    decreases row.len() - start,
{
    if start < row.len() && !(is_change(row, start) && row[start] == color) {
        lemma_change_to_range(row, start + 1, color);
    }
}

proof fn lemma_change_from(row: Seq<bool>, start: int, x: int)
    requires
        0 <= start <= x <= row.len(),
        forall|i: int| start <= i < x ==> !#[trigger] is_change(row, i),
        x == row.len() || is_change(row, x),
    ensures
        change_from(row, start) == x,
    decreases x - start,
{
    if start < x {
        lemma_change_from(row, start + 1, x);
    }
}

proof fn lemma_change_to(row: Seq<bool>, start: int, color: bool, x: int)
    requires
        0 <= start <= x <= row.len(),
        forall|i: int| start <= i < x ==> !(#[trigger] is_change(row, i) && row[i] == color),
        x == row.len() || (is_change(row, x) && row[x] == color),
    ensures
        change_to(row, start, color) == x,
    decreases x - start,
{
    if start < x {
        lemma_change_to(row, start + 1, color, x);
    }
}

/// A row like the one above it takes one bit for each change, and one for its end.
pub proof fn lemma_repeated_row(row: Seq<bool>, a0: int, color: bool)
    requires
        -1 <= a0 < row.len() || row.len() == 0 && a0 == -1,
        color == (a0 >= 0 && row[a0]),
    ensures
        forall|i: int|
            0 <= i < row_bits(row, row, a0, color).len() ==> #[trigger] row_bits(
                row,
                row,
                a0,
                color,
            )[i],
        row_bits(row, row, a0, color).len() == if row.len() == 0 {
            0
        } else {
            changes_from(row, a0 + 1) + 1
        },
    decreases row.len() - a0,
{
    if row.len() > 0 {
        let a1 = change_from(row, a0 + 1);
        lemma_change_from_range(row, a0 + 1);
        lemma_next_change(row, a0 + 1, color);
        lemma_change_to_range(row, a1 + 1, color);
        lemma_changes_from(row, a0 + 1);
        assert(code_bits(1, 1) =~= seq![true]) by {
            reveal_with_fuel(code_bits, 2);
        }
        let rest = row_bits(row, row, a1, !color);
        assert(row_bits(row, row, a0, color) == vertical_bits(0) + rest);
        if a1 < row.len() {
            lemma_repeated_row(row, a1, !color);
        } else {
            assert(rest.len() == 0);
        }
    }
}

/// How many changes there are from a place on.
pub open spec fn changes_from(row: Seq<bool>, start: int) -> nat
    decreases row.len() - start,
{
    if start >= row.len() {
        0
    } else {
        changes_from(row, start + 1) + if is_change(row, start) {
            1nat
        } else {
            0nat
        }
    }
}

proof fn lemma_changes_from(row: Seq<bool>, start: int)
    requires
        0 <= start <= row.len(),
    ensures
        change_from(row, start) == row.len() ==> changes_from(row, start) == 0,
        change_from(row, start) < row.len() ==> changes_from(row, start) == 1 + changes_from(
            row,
            change_from(row, start) + 1,
        ),
    decreases row.len() - start,
{
    if start < row.len() && !is_change(row, start) {
        lemma_changes_from(row, start + 1);
    }
}

/// The next change leads to the other colour.
proof fn lemma_next_change(row: Seq<bool>, start: int, color: bool)
    requires
        0 <= start <= row.len(),
        color == (start > 0 && row[start - 1]),
    ensures
        change_from(row, start) == change_to(row, start, !color),
        change_from(row, start) < row.len() ==> row[change_from(row, start)] == !color,
    decreases row.len() - start,
{
    if start < row.len() && !is_change(row, start) {
        lemma_next_change(row, start + 1, color);
    }
}

/// A writer of bits.
pub struct CcittBitWriter {
    bytes: Vec<u8>,
    current: u8,
    used_bits: u8,
    written: Ghost<Seq<bool>>,
}

impl View for CcittBitWriter {
    type V = Seq<bool>;

    closed spec fn view(&self) -> Seq<bool> {
        self.written@
    }
}

impl CcittBitWriter {
    /// The bytes hold the bits that were written.
    pub closed spec fn wf(&self) -> bool {
        &&& self.used_bits < 8
        &&& self.written@.len() == 8 * self.bytes@.len() + self.used_bits
        &&& forall|i: int|
            0 <= i < self.bytes@.len() ==> #[trigger] self.bytes@[i] == packed_byte(
                self.written@,
                8 * i,
            )
        &&& self.current == packed_byte(self.written@, 8 * self.bytes@.len() as int)
    }

    /// A writer that has written nothing.
    pub fn new() -> (writer: Self)
        ensures
            writer.wf(),
            writer@ == Seq::<bool>::empty(),
    {
        CcittBitWriter { bytes: Vec::new(), current: 0, used_bits: 0, written: Ghost(Seq::empty()) }
    }

    /// Writes a bit.
    fn write_bit(&mut self, bit: bool)
        requires
            old(self).wf(),
        ensures
            final(self).wf(),
            final(self)@ == old(self)@.push(bit),
    {
        let ghost before = self.written@;
        let ghost after = before.push(bit);
        let ghost place = 8 * self.bytes@.len() as int;
        let used: u8 = self.used_bits;
        proof {
            lemma_packed_byte(before, place);
            lemma_packed_byte(after, place);
        }
        let old_byte: u8 = self.current;
        let byte: u8 = if bit {
            with_bit_set(old_byte, used)
        } else {
            old_byte
        };
        proof {
            assert forall|k: int| 0 <= k < 8 implies byte_bit(byte, k) == byte_bit(
                packed_byte(after, place),
                k,
            ) by {
                assert(byte_bit(packed_byte(after, place), k) == bit_value(after, place + k));
                assert(byte_bit(packed_byte(before, place), k) == bit_value(before, place + k));
                assert(byte_bit(old_byte, k) == bit_value(before, place + k));
            }
            lemma_byte_by_bits(byte, packed_byte(after, place));
            assert forall|i: int| 0 <= i < self.bytes@.len() implies #[trigger] self.bytes@[i]
                == packed_byte(after, 8 * i) by {
                assert(packed_byte(before, 8 * i) == packed_byte(after, 8 * i));
            }
        }
        self.current = byte;
        self.written = Ghost(after);
        if used == 7 {
            self.bytes.push(byte);
            self.current = 0;
            self.used_bits = 0;
            proof {
                assert(packed_byte(after, 8 * self.bytes@.len() as int) == 0);
            }
        } else {
            self.used_bits = used + 1;
        }
    }

    /// Writes a code.
    pub fn write_code(&mut self, bits: u16, len: u8)
        requires
            old(self).wf(),
        ensures
            final(self).wf(),
            final(self)@ == old(self)@ + code_bits(bits as int, len as nat),
        decreases len,
    {
        if len > 0 {
            self.write_code(bits / 2, len - 1);
            self.write_bit(bits % 2 == 1);
        }
        assert(self@ =~= old(self)@ + code_bits(bits as int, len as nat));
    }

    /// The bytes that were written, the last filled up with zeros.
    pub fn finish(self) -> (bytes: Vec<u8>)
        requires
            self.wf(),
        ensures
            bytes@ == pack_bits(self@),
    {
        let mut bytes: Vec<u8> = self.bytes;
        if self.used_bits != 0 {
            bytes.push(self.current);
        }
        assert(bytes@ =~= pack_bits(self@));
        bytes
    }
}

/// Writes the codes of a run.
fn ccitt_write_run(writer: &mut CcittBitWriter, run: usize, black: bool)
    requires
        old(writer).wf(),
    ensures
        final(writer).wf(),
        final(writer)@ == old(writer)@ + run_bits(run as int, black),
{
    let mut left: usize = run;
    let ghost first = writer@;
    while left >= 2624
        invariant
            writer.wf(),
            left <= run,
            writer@ + run_bits(left as int, black) == first + run_bits(run as int, black),
        decreases left,
    {
        let ghost before = writer@;
        ccitt_write_makeup(writer, 40, black);
        left = left - 2560;
        assert(writer@ + run_bits(left as int, black) =~= before + (makeup_bits(40, black)
            + run_bits(left as int, black)));
    }
    let ghost before = writer@;
    let ghost whole = left;
    if left >= 64 {
        ccitt_write_makeup(writer, left / 64, black);
        left = left % 64;
    }
    if black {
        writer.write_code(BLACK_TERMINATING_BITS[left], BLACK_TERMINATING_LENGTHS[left]);
    } else {
        writer.write_code(WHITE_TERMINATING_BITS[left], WHITE_TERMINATING_LENGTHS[left]);
    }
    assert(writer@ =~= before + run_bits(whole as int, black));
}

/// Writes the code of a run of so many times 64 pixels.
fn ccitt_write_makeup(writer: &mut CcittBitWriter, times: usize, black: bool)
    requires
        old(writer).wf(),
        1 <= times <= 40,
    ensures
        final(writer).wf(),
        final(writer)@ == old(writer)@ + makeup_bits(times as int, black),
{
    if black {
        writer.write_code(BLACK_MAKEUP_BITS[times - 1], BLACK_MAKEUP_LENGTHS[times - 1]);
    } else {
        writer.write_code(WHITE_MAKEUP_BITS[times - 1], WHITE_MAKEUP_LENGTHS[times - 1]);
    }
}

/// Whether a list holds the changes of a row, in order.
#[verifier::opaque]
pub open spec fn lists_changes(changes: Seq<usize>, row: Seq<bool>) -> bool {
    &&& forall|i: int, j: int| 0 <= i < j < changes.len() ==> changes[i] < changes[j]
    &&& forall|i: int|
        0 <= i < changes.len() ==> (#[trigger] changes[i]) < row.len() && is_change(
            row,
            changes[i] as int,
        ) && row[changes[i] as int] == (i % 2 == 0)
    &&& forall|x: int|
        0 <= x < row.len() && #[trigger] is_change(row, x) ==> exists|i: int|
            0 <= i < changes.len() && changes[i] == x
}

/// The changes of a row of a packed image.
fn ccitt_row_changes(bytes: &[u8], start: usize, width: usize, Ghost(row): Ghost<Seq<bool>>) -> (changes:
    Vec<usize>)
    requires
        start + byte_count(width as nat) <= bytes@.len(),
        row == Seq::new(width as nat, |x: int| bits_of(bytes@)[8 * start + x]),
    ensures
        lists_changes(changes@, row),
{
    reveal(lists_changes);
    let mut changes: Vec<usize> = Vec::new();
    let mut previous: bool = false;
    let mut x: usize = 0;
    assert(bytes@.len() == bytes.len());
    while x < width
        invariant
            x <= width,
            start + byte_count(width as nat) <= bytes@.len(),
            bytes@.len() <= usize::MAX,
            row == Seq::new(width as nat, |x: int| bits_of(bytes@)[8 * start + x]),
            previous == (x > 0 && row[x - 1]),
            previous == (changes@.len() % 2 == 1),
            forall|i: int, j: int| 0 <= i < j < changes@.len() ==> changes@[i] < changes@[j],
            forall|i: int|
                0 <= i < changes@.len() ==> (#[trigger] changes@[i]) < x && is_change(
                    row,
                    changes@[i] as int,
                ) && row[changes@[i] as int] == (i % 2 == 0),
            forall|k: int|
                0 <= k < x && #[trigger] is_change(row, k) ==> exists|i: int|
                    0 <= i < changes@.len() && changes@[i] == k,
        decreases width - x,
    {
        let current: bool = bit_of(bytes[start + x / 8], (x % 8) as u8);
        assert((8 * start + x) / 8 == start + x / 8 && (8 * start + x) % 8 == x as int % 8);
        assert(row[x as int] == current);
        let ghost before = changes@;
        if current != previous {
            changes.push(x);
            previous = current;
        }
        proof {
            assert forall|k: int| 0 <= k < x + 1 && #[trigger] is_change(row, k) implies exists|
                i: int,
            |
                0 <= i < changes@.len() && changes@[i] == k by {
                if k < x {
                    let i = choose|i: int| 0 <= i < before.len() && before[i] == k;
                    assert(changes@[i] == k);
                } else {
                    assert(changes@[changes@.len() - 1] == k);
                }
            }
        }
        x = x + 1;
    }
    changes
}

/// How many changes of a list stand before a place.
fn changes_before(changes: &Vec<usize>, start: usize) -> (count: usize)
    requires
        forall|i: int, j: int| 0 <= i < j < changes@.len() ==> changes@[i] < changes@[j],
    ensures
        count <= changes@.len(),
        forall|i: int| 0 <= i < count ==> #[trigger] changes@[i] < start,
        forall|i: int| count <= i < changes@.len() ==> #[trigger] changes@[i] >= start,
{
    let mut low: usize = 0;
    let mut high: usize = changes.len();
    while low < high
        invariant
            low <= high <= changes@.len(),
            forall|i: int, j: int| 0 <= i < j < changes@.len() ==> changes@[i] < changes@[j],
            forall|i: int| 0 <= i < low ==> #[trigger] changes@[i] < start,
            forall|i: int| high <= i < changes@.len() ==> #[trigger] changes@[i] >= start,
        decreases high - low,
    {
        let middle: usize = low + (high - low) / 2;
        if changes[middle] < start {
            low = middle + 1;
        } else {
            high = middle;
        }
    }
    low
}

/// The first change from a place on.
fn ccitt_next_change(
    changes: &Vec<usize>,
    start: usize,
    width: usize,
    Ghost(row): Ghost<Seq<bool>>,
) -> (place: usize)
    requires
        lists_changes(changes@, row),
        row.len() == width,
    ensures
        place == change_from(row, start as int),
        place <= width,
{
    reveal(lists_changes);
    let index: usize = changes_before(changes, start);
    let place: usize = if index < changes.len() {
        changes[index]
    } else {
        width
    };
    proof {
        lemma_change_from_range(row, start as int);
        if start <= width {
            assert forall|x: int| start <= x < place implies !#[trigger] is_change(row, x) by {
                if is_change(row, x) {
                    let i = choose|i: int| 0 <= i < changes@.len() && changes@[i] == x;
                    assert(i >= index);
                }
            }
            lemma_change_from(row, start as int, place as int);
        }
    }
    place
}

/// The first change to a colour from a place on.
fn ccitt_next_reference_change_to_color(
    changes: &Vec<usize>,
    start: usize,
    target_color: bool,
    width: usize,
    Ghost(row): Ghost<Seq<bool>>,
) -> (place: usize)
    requires
        lists_changes(changes@, row),
        row.len() == width,
    ensures
        place == change_to(row, start as int, target_color),
        place <= width,
{
    reveal(lists_changes);
    let first: usize = changes_before(changes, start);
    let mut index: usize = first;
    while index < changes.len() && (index % 2 == 0) != target_color
        invariant
            first <= index <= changes@.len(),
            forall|i: int|
                first <= i < index ==> (#[trigger] (i % 2) == 0) != target_color,
        decreases changes@.len() - index,
    {
        index = index + 1;
    }
    let place: usize = if index < changes.len() {
        changes[index]
    } else {
        width
    };
    proof {
        lemma_change_to_range(row, start as int, target_color);
        if start <= width {
            assert forall|x: int| start <= x < place implies !(#[trigger] is_change(row, x)
                && row[x] == target_color) by {
                if is_change(row, x) && row[x] == target_color {
                    let i = choose|i: int| 0 <= i < changes@.len() && changes@[i] == x;
                    assert(i >= first);
                    assert((i % 2 == 0) == target_color);
                    assert(i >= index);
                    assert(changes@[i] >= place);
                }
            }
            lemma_change_to(row, start as int, target_color, place as int);
        }
    }
    place
}

/// The changes that decide how a row goes on: the next of the row, the next of the row
/// above to the other colour, and the one behind that.
fn ccitt_positions(
    width: usize,
    current: &Vec<usize>,
    reference: &Vec<usize>,
    after_a0: usize,
    color: bool,
    Ghost(row): Ghost<Seq<bool>>,
    Ghost(above): Ghost<Seq<bool>>,
) -> (places: (usize, usize, usize))
    requires
        width < usize::MAX,
        after_a0 <= width,
        row.len() == width,
        above.len() == width,
        lists_changes(current@, row),
        lists_changes(reference@, above),
    ensures
        places.0 == change_from(row, after_a0 as int),
        places.1 == change_to(above, after_a0 as int, !color),
        places.2 == change_to(above, places.1 + 1, color),
        after_a0 <= places.0 <= width,
        after_a0 <= places.1 <= width,
        places.1 < width ==> places.1 < places.2 <= width,
        places.1 == width ==> places.2 == width,
{
    let a1: usize = ccitt_next_change(current, after_a0, width, Ghost(row));
    let b1: usize = ccitt_next_reference_change_to_color(
        reference,
        after_a0,
        !color,
        width,
        Ghost(above),
    );
    let b2: usize = ccitt_next_reference_change_to_color(
        reference,
        b1 + 1,
        color,
        width,
        Ghost(above),
    );
    proof {
        lemma_change_from_range(row, after_a0 as int);
        lemma_change_to_range(above, after_a0 as int, !color);
        lemma_change_to_range(above, b1 + 1, color);
    }
    (a1, b1, b2)
}

proof fn lemma_joined(first: Seq<bool>, second: Seq<bool>, third: Seq<bool>)
    ensures
        (first + second) + third == first + (second + third),
{
    assert((first + second) + third =~= first + (second + third));
}

/// How the code of a row goes on from a place.
proof fn lemma_row_step(row: Seq<bool>, above: Seq<bool>, a0: int, color: bool)
    requires
        -1 <= a0 < row.len(),
        row.len() > 0,
        above.len() == row.len(),
    ensures
        ({
            let run_start = if a0 < 0 {
                0
            } else {
                a0
            };
            let a1 = change_from(row, a0 + 1);
            let b1 = change_to(above, a0 + 1, !color);
            let b2 = change_to(above, b1 + 1, color);
            let a2 = change_from(row, a1 + 1);
            row_bits(row, above, a0, color) == if b2 < a1 {
                code_bits(1, 4) + row_bits(row, above, b2, color)
            } else if -3 <= a1 - b1 <= 3 {
                vertical_bits(a1 - b1) + row_bits(row, above, a1, !color)
            } else {
                code_bits(1, 3) + run_bits(a1 - run_start, color) + run_bits(a2 - a1, !color)
                    + row_bits(row, above, a2, color)
            }
        }),
{
}

/// Writes the next code of a row, and says from where on and in which colour it goes on.
/// Places are given one higher, so that zero stands for the place before the row.
fn ccitt_encode_step(
    width: usize,
    current: &Vec<usize>,
    reference: &Vec<usize>,
    after_a0: usize,
    color: bool,
    writer: &mut CcittBitWriter,
    Ghost(row): Ghost<Seq<bool>>,
    Ghost(above): Ghost<Seq<bool>>,
) -> (next: (usize, bool))
    requires
        old(writer).wf(),
        0 < width < usize::MAX,
        after_a0 <= width,
        row.len() == width,
        above.len() == width,
        lists_changes(current@, row),
        lists_changes(reference@, above),
    ensures
        final(writer).wf(),
        after_a0 < next.0 <= width + 1,
        final(writer)@ + row_bits(row, above, next.0 - 1, next.1) == old(writer)@ + row_bits(
            row,
            above,
            after_a0 - 1,
            color,
        ),
{
    let run_start: usize = if after_a0 == 0 {
        0
    } else {
        after_a0 - 1
    };
    let (a1, b1, b2) = ccitt_positions(
        width,
        current,
        reference,
        after_a0,
        color,
        Ghost(row),
        Ghost(above),
    );
    let near: bool = if a1 >= b1 {
        a1 - b1 <= 3
    } else {
        b1 - a1 <= 3
    };
    proof {
        lemma_row_step(row, above, after_a0 - 1, color);
    }
    let ghost before = writer@;
    if b2 < a1 {
        writer.write_code(1, 4);
        proof {
            lemma_joined(before, code_bits(1, 4), row_bits(row, above, b2 as int, color));
        }
        (b2 + 1, color)
    } else if near {
        ccitt_write_vertical(writer, a1, b1);
        proof {
            lemma_joined(before, vertical_bits(a1 - b1), row_bits(row, above, a1 as int, !color));
        }
        (a1 + 1, !color)
    } else {
        let a2: usize = ccitt_next_change(current, a1 + 1, width, Ghost(row));
        proof {
            lemma_change_from_range(row, a1 + 1);
        }
        writer.write_code(1, 3);
        ccitt_write_run(writer, a1 - run_start, color);
        ccitt_write_run(writer, a2 - a1, !color);
        proof {
            let one = code_bits(1, 3);
            let two = run_bits(a1 - run_start, color);
            let three = run_bits(a2 - a1, !color);
            let rest = row_bits(row, above, a2 as int, color);
            lemma_joined(before, one, two);
            lemma_joined(before, one + two, three);
            lemma_joined(before, one + two + three, rest);
        }
        (a2 + 1, color)
    }
}

/// Writes the code of a row, given the changes of the row above it.
fn ccitt_group4_encode_row(
    width: usize,
    current: &Vec<usize>,
    reference: &Vec<usize>,
    writer: &mut CcittBitWriter,
    Ghost(row): Ghost<Seq<bool>>,
    Ghost(above): Ghost<Seq<bool>>,
)
    requires
        old(writer).wf(),
        width < usize::MAX,
        row.len() == width,
        above.len() == width,
        lists_changes(current@, row),
        lists_changes(reference@, above),
    ensures
        final(writer).wf(),
        final(writer)@ == old(writer)@ + row_bits(row, above, -1, false),
{
    let mut after_a0: usize = 0;
    let mut color: bool = false;
    let ghost first = writer@;
    while width != 0 && after_a0 <= width
        invariant
            after_a0 <= width + 1,
            width < usize::MAX,
            row.len() == width,
            above.len() == width,
            lists_changes(current@, row),
            lists_changes(reference@, above),
            writer.wf(),
            writer@ + row_bits(row, above, after_a0 - 1, color) == first + row_bits(
                row,
                above,
                -1,
                false,
            ),
        decreases width + 1 - after_a0,
    {
        let (next, next_color) = ccitt_encode_step(
            width,
            current,
            reference,
            after_a0,
            color,
            writer,
            Ghost(row),
            Ghost(above),
        );
        after_a0 = next;
        color = next_color;
    }
    assert(row_bits(row, above, after_a0 - 1, color) =~= Seq::<bool>::empty());
    assert(writer@ + Seq::<bool>::empty() =~= writer@);
}

/// Writes the code of a change that lies within three pixels of the one above it.
fn ccitt_write_vertical(writer: &mut CcittBitWriter, a1: usize, b1: usize)
    requires
        old(writer).wf(),
        -3 <= a1 - b1 <= 3,
    ensures
        final(writer).wf(),
        final(writer)@ == old(writer)@ + vertical_bits(a1 - b1),
{
    if a1 == b1 {
        writer.write_code(1, 1);
    } else if a1 > b1 {
        let offset: usize = a1 - b1;
        if offset == 1 {
            writer.write_code(3, 3);
        } else if offset == 2 {
            writer.write_code(3, 6);
        } else {
            writer.write_code(3, 7);
        }
    } else {
        let offset: usize = b1 - a1;
        if offset == 1 {
            writer.write_code(2, 3);
        } else if offset == 2 {
            writer.write_code(2, 6);
        } else {
            writer.write_code(2, 7);
        }
    }
}

/// Codes a packed image.
pub fn group4_encode(width: u32, height: u32, bytes: &[u8]) -> (encoded: Vec<u8>)
    requires
        byte_count(width as nat) * height <= bytes@.len(),
        width < usize::MAX,
    ensures
        encoded@ == group4_bytes(bytes@, width as int, height as int),
{
    let columns: usize = width as usize;
    let row_bytes: usize = columns / 8 + if columns % 8 == 0 {
        0
    } else {
        1
    };
    assert(row_bytes == byte_count(width as nat));
    let mut writer = CcittBitWriter::new();
    let mut reference: Vec<usize> = Vec::new();
    assert(lists_changes(reference@, row_above(bytes@, width as int, 0))) by {
        reveal(lists_changes);
    }
    let mut y: usize = 0;
    let mut row_start: usize = 0;
    assert(row_bytes * height == height * row_bytes) by (nonlinear_arith);
    assert(0 * row_bytes == 0) by (nonlinear_arith);
    assert(bytes@.len() == bytes.len());
    while y < height as usize
        invariant
            y <= height,
            columns == width,
            width < usize::MAX,
            row_bytes == byte_count(width as nat),
            height * row_bytes <= bytes@.len(),
            bytes@.len() <= usize::MAX,
            y < height ==> row_start == y * row_bytes,
            writer.wf(),
            writer@ == rows_bits(bytes@, width as int, y as int),
            lists_changes(reference@, row_above(bytes@, width as int, y as int)),
        decreases height - y,
    {
        let ghost row = packed_row(bytes@, width as int, y as int);
        let ghost above = row_above(bytes@, width as int, y as int);
        proof {
            assert((y + 1) * row_bytes == y * row_bytes + row_bytes) by (nonlinear_arith);
            assert((y + 1) * row_bytes <= height * row_bytes) by (nonlinear_arith)
                requires
                    y + 1 <= height,
                    0 <= row_bytes,
            ;
            assert(row =~= Seq::new(width as nat, |x: int| bits_of(bytes@)[8 * row_start + x]));
        }
        let current: Vec<usize> = ccitt_row_changes(bytes, row_start, columns, Ghost(row));
        ccitt_group4_encode_row(
            columns,
            &current,
            &reference,
            &mut writer,
            Ghost(row),
            Ghost(above),
        );
        reference = current;
        y = y + 1;
        if y < height as usize {
            assert((y + 1) * row_bytes <= height * row_bytes) by (nonlinear_arith)
                requires
                    y + 1 <= height,
                    0 <= row_bytes,
            ;
            row_start = row_start + row_bytes;
        }
    }
    writer.write_code(1, 12);
    writer.write_code(1, 12);
    writer.finish()
}

} // verus!
