//! A byte slice read as an endless stream of bits, most significant bit first.

use vstd::prelude::*;

verus! {

/// Bit `k` of a byte, counted from the most significant one.
pub open spec fn byte_bit(byte: u8, k: int) -> int {
    if k == 0 {
        byte as int / 128
    } else if k == 1 {
        (byte as int / 64) % 2
    } else if k == 2 {
        (byte as int / 32) % 2
    } else if k == 3 {
        (byte as int / 16) % 2
    } else if k == 4 {
        (byte as int / 8) % 2
    } else if k == 5 {
        (byte as int / 4) % 2
    } else if k == 6 {
        (byte as int / 2) % 2
    } else {
        byte as int % 2
    }
}

/// A bit of a byte is what a shift and a mask leave of it.
pub proof fn lemma_byte_bit_shift(byte: u8, k: u8)
    requires
        k < 8,
    ensures
        ((byte >> ((7 - k) as u8)) & 1) as int == byte_bit(byte, k as int),
{
    let shift = (7 - k) as u8;
    assert(shift < 8 ==> (byte >> shift) & 1 == if shift == 7 {
        byte / 128
    } else if shift == 6 {
        (byte / 64) % 2
    } else if shift == 5 {
        (byte / 32) % 2
    } else if shift == 4 {
        (byte / 16) % 2
    } else if shift == 3 {
        (byte / 8) % 2
    } else if shift == 2 {
        (byte / 4) % 2
    } else if shift == 1 {
        (byte / 2) % 2
    } else {
        byte % 2
    }) by (bit_vector);
}

/// The bits of a byte string, most significant bit first.
pub open spec fn bits_of(bytes: Seq<u8>) -> Seq<bool> {
    Seq::new(8 * bytes.len(), |i: int| byte_bit(bytes[i / 8], i % 8) == 1)
}

/// A bit of a list as a number; beyond its end, zero.
pub open spec fn bit_value(bits: Seq<bool>, i: int) -> int {
    if 0 <= i < bits.len() && bits[i] {
        1
    } else {
        0
    }
}

/// Eight bits of a list as a byte, the first of them most significant.
pub open spec fn packed_byte(bits: Seq<bool>, at: int) -> u8 {
    (128 * bit_value(bits, at) + 64 * bit_value(bits, at + 1) + 32 * bit_value(bits, at + 2) + 16
        * bit_value(bits, at + 3) + 8 * bit_value(bits, at + 4) + 4 * bit_value(bits, at + 5) + 2
        * bit_value(bits, at + 6) + bit_value(bits, at + 7)) as u8
}

/// The bytes that hold the bits of a list, the last filled up with zeros.
pub open spec fn pack_bits(bits: Seq<bool>) -> Seq<u8> {
    Seq::new((bits.len() + 7) / 8, |i: int| packed_byte(bits, 8 * i))
}

/// The bits of a packed byte are those that were packed.
pub proof fn lemma_packed_byte(bits: Seq<bool>, at: int)
    ensures
        forall|k: int|
            0 <= k < 8 ==> #[trigger] byte_bit(packed_byte(bits, at), k) == bit_value(
                bits,
                at + k,
            ),
{
    let byte = packed_byte(bits, at);
    assert(byte_bit(byte, 0) == bit_value(bits, at));
    assert(byte_bit(byte, 1) == bit_value(bits, at + 1));
    assert(byte_bit(byte, 2) == bit_value(bits, at + 2));
    assert(byte_bit(byte, 3) == bit_value(bits, at + 3));
    assert(byte_bit(byte, 4) == bit_value(bits, at + 4));
    assert(byte_bit(byte, 5) == bit_value(bits, at + 5));
    assert(byte_bit(byte, 6) == bit_value(bits, at + 6));
    assert(byte_bit(byte, 7) == bit_value(bits, at + 7));
}

/// Bits that are packed are read back.
pub proof fn lemma_packed_bits_read_back(bits: Seq<bool>)
    ensures
        bits_of(pack_bits(bits)).len() >= bits.len(),
        bits_of(pack_bits(bits)).take(bits.len() as int) == bits,
        forall|i: int|
            bits.len() <= i < bits_of(pack_bits(bits)).len() ==> !#[trigger] bits_of(
                pack_bits(bits),
            )[i],
{
    let read = bits_of(pack_bits(bits));
    assert forall|i: int| 0 <= i < read.len() implies #[trigger] read[i] == (bit_value(bits, i)
        == 1) by {
        lemma_packed_byte(bits, 8 * (i / 8));
        assert(byte_bit(packed_byte(bits, 8 * (i / 8)), i % 8) == bit_value(
            bits,
            8 * (i / 8) + i % 8,
        ));
    }
    assert(read.take(bits.len() as int) =~= bits);
}

/// A byte is known by its bits.
pub proof fn lemma_byte_by_bits(left: u8, right: u8)
    requires
        forall|k: int| 0 <= k < 8 ==> byte_bit(left, k) == byte_bit(right, k),
    ensures
        left == right,
{
    assert(byte_bit(left, 0) == byte_bit(right, 0));
    assert(byte_bit(left, 1) == byte_bit(right, 1));
    assert(byte_bit(left, 2) == byte_bit(right, 2));
    assert(byte_bit(left, 3) == byte_bit(right, 3));
    assert(byte_bit(left, 4) == byte_bit(right, 4));
    assert(byte_bit(left, 5) == byte_bit(right, 5));
    assert(byte_bit(left, 6) == byte_bit(right, 6));
    assert(byte_bit(left, 7) == byte_bit(right, 7));
}

/// Byte strings with the same bits are equal.
pub proof fn lemma_bytes_by_bits(left: Seq<u8>, right: Seq<u8>)
    requires
        bits_of(left) == bits_of(right),
    ensures
        left == right,
{
    assert(bits_of(left).len() == 8 * left.len());
    assert(bits_of(right).len() == 8 * right.len());
    assert forall|i: int| 0 <= i < left.len() implies left[i] == right[i] by {
        assert forall|k: int| 0 <= k < 8 implies byte_bit(left[i], k) == byte_bit(right[i], k) by {
            assert((8 * i + k) / 8 == i && (8 * i + k) % 8 == k);
            assert(bits_of(left)[8 * i + k] == (byte_bit(left[i], k) == 1));
            assert(bits_of(right)[8 * i + k] == (byte_bit(right[i], k) == 1));
            assert(0 <= byte_bit(left[i], k) <= 1 && 0 <= byte_bit(right[i], k) <= 1);
        }
        lemma_byte_by_bits(left[i], right[i]);
    }
    assert(left =~= right);
}

/// Setting or clearing one bit of a byte string changes that bit alone.
pub proof fn lemma_bit_update(bytes: Seq<u8>, index: int, byte: u8, value: bool)
    requires
        0 <= index < 8 * bytes.len(),
        forall|k: int|
            0 <= k < 8 ==> byte_bit(byte, k) == if k == index % 8 {
                if value { 1int } else { 0int }
            } else {
                byte_bit(bytes[index / 8], k)
            },
    ensures
        bits_of(bytes.update(index / 8, byte)) == bits_of(bytes).update(index, value),
{
    let changed = bytes.update(index / 8, byte);
    assert forall|i: int| 0 <= i < 8 * bytes.len() implies bits_of(changed)[i] == bits_of(
        bytes,
    ).update(index, value)[i] by {
        if i / 8 == index / 8 {
            assert(byte_bit(byte, i % 8) == byte_bit(changed[i / 8], i % 8));
        }
    }
    assert(bits_of(changed) =~= bits_of(bytes).update(index, value));
}

/// A byte with one bit set.
pub fn with_bit_set(byte: u8, k: u8) -> (result: u8)
    requires
        k < 8,
    ensures
        forall|j: int|
            0 <= j < 8 ==> #[trigger] byte_bit(result, j) == if j == k {
                1
            } else {
                byte_bit(byte, j)
            },
{
    let result: u8 = byte | (0x80u8 >> k);
    proof {
        assert forall|j: int| 0 <= j < 8 implies #[trigger] byte_bit(result, j) == if j == k {
            1
        } else {
            byte_bit(byte, j)
        } by {
            let m = j as u8;
            let s = (7 - m) as u8;
            lemma_byte_bit_shift(result, m);
            lemma_byte_bit_shift(byte, m);
            assert(k < 8 && s < 8 ==> ((byte | (0x80u8 >> k)) >> s) & 1 == if s == 7 - k {
                1u8
            } else {
                (byte >> s) & 1
            }) by (bit_vector);
        }
    }
    result
}

/// A byte with one bit cleared.
pub fn with_bit_clear(byte: u8, k: u8) -> (result: u8)
    requires
        k < 8,
    ensures
        forall|j: int|
            0 <= j < 8 ==> #[trigger] byte_bit(result, j) == if j == k {
                0
            } else {
                byte_bit(byte, j)
            },
{
    let result: u8 = byte & !(0x80u8 >> k);
    proof {
        assert forall|j: int| 0 <= j < 8 implies #[trigger] byte_bit(result, j) == if j == k {
            0
        } else {
            byte_bit(byte, j)
        } by {
            let m = j as u8;
            let s = (7 - m) as u8;
            lemma_byte_bit_shift(result, m);
            lemma_byte_bit_shift(byte, m);
            assert(k < 8 && s < 8 ==> ((byte & !(0x80u8 >> k)) >> s) & 1 == if s == 7 - k {
                0u8
            } else {
                (byte >> s) & 1
            }) by (bit_vector);
        }
    }
    result
}

/// One bit of a byte.
pub fn bit_of(byte: u8, k: u8) -> (bit: bool)
    requires
        k < 8,
    ensures
        bit == (byte_bit(byte, k as int) == 1),
{
    proof {
        lemma_byte_bit_shift(byte, k);
    }
    (byte >> (7 - k)) & 1 == 1
}

/// Appends one bit at the low end of a byte that holds fewer than eight.
pub fn with_bit_appended(byte: u8, bit: bool) -> (result: u8)
    requires
        byte < 128,
    ensures
        result == 2 * byte + if bit { 1int } else { 0int },
        forall|j: int| 0 <= j < 7 ==> #[trigger] byte_bit(result, j) == byte_bit(byte, j + 1),
        byte_bit(result, 7) == if bit { 1int } else { 0int },
{
    let result: u8 = 2 * byte + if bit {
        1
    } else {
        0
    };
    assert(byte_bit(result, 0) == byte_bit(byte, 1));
    assert(byte_bit(result, 1) == byte_bit(byte, 2));
    assert(byte_bit(result, 2) == byte_bit(byte, 3));
    assert(byte_bit(result, 3) == byte_bit(byte, 4));
    assert(byte_bit(result, 4) == byte_bit(byte, 5));
    assert(byte_bit(result, 5) == byte_bit(byte, 6));
    assert(byte_bit(result, 6) == byte_bit(byte, 7));
    result
}

/// Bit `index` of the stream: the bits of `input`, then ones without end.
pub open spec fn stream_bit(input: Seq<u8>, index: nat) -> int {
    if index / 8 < input.len() {
        byte_bit(input[(index / 8) as int], (index % 8) as int)
    } else {
        1
    }
}

/// A cursor into the bit stream of a byte slice.
#[derive(Clone, Copy)]
pub struct BitStream<'a> {
    input: &'a [u8],
    cursor: usize,
    current: u8,
    left: u8,
    consumed: Ghost<nat>,
}

impl<'a> BitStream<'a> {
    /// The bytes that the stream reads.
    pub closed spec fn input(&self) -> Seq<u8> {
        self.input@
    }

    /// The number of bits taken so far.
    pub closed spec fn consumed(&self) -> nat {
        self.consumed@
    }

    /// The cursor stands behind the byte whose last `left` bits are pending.
    pub closed spec fn wf(&self) -> bool {
        let read = (self.consumed@ + self.left) / 8;
        &&& self.left <= 7
        &&& (self.consumed@ + self.left) % 8 == 0
        &&& self.cursor <= self.input@.len()
        &&& self.cursor == if read <= self.input@.len() {
            read
        } else {
            self.input@.len() as int
        }
        &&& self.left > 0 ==> self.current == if read <= self.input@.len() {
            self.input@[read - 1]
        } else {
            255u8
        }
    }

    /// A stream at its first bit.
    pub fn new(input: &'a [u8]) -> (stream: Self)
        ensures
            stream.wf(),
            stream.input() == input@,
            stream.consumed() == 0,
    {
        BitStream { input, cursor: 0, current: 0, left: 0, consumed: Ghost(0) }
    }

    /// Takes the next bit.
    pub fn next_bit(&mut self) -> (bit: u32)
        requires
            old(self).wf(),
        ensures
            final(self).wf(),
            final(self).input() == old(self).input(),
            final(self).consumed() == old(self).consumed() + 1,
            bit == stream_bit(old(self).input(), old(self).consumed()),
            bit <= 1,
    {
        if self.left == 0 {
            if self.cursor < self.input.len() {
                self.current = self.input[self.cursor];
                self.cursor = self.cursor + 1;
            } else {
                self.current = 255;
            }
            self.left = 8;
        }
        let shift: u8 = self.left - 1;
        let current: u8 = self.current;
        let bit: u8 = (current >> shift) & 1;
        proof {
            lemma_byte_bit_shift(current, (7 - shift) as u8);
        }
        self.left = shift;
        self.consumed = Ghost(self.consumed@ + 1);
        bit as u32
    }
}

} // verus!
