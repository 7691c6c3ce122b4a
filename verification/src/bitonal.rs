//! Bitmaps of one bit to the pixel.

use crate::bitstream::{
    bit_of, bits_of, byte_bit, lemma_bit_update, lemma_bytes_by_bits, lemma_packed_bits_read_back,
    pack_bits, with_bit_appended, with_bit_clear, with_bit_set,
};
use crate::text::{decimal_bytes, push_bytes, push_decimal_bytes, push_text, utf8};
use vstd::prelude::*;

verus! {

/// The number of bytes that hold `bits` bits.
pub open spec fn byte_count(bits: nat) -> nat {
    (bits + 7) / 8
}

/// The number of set bits among the first `count`.
pub open spec fn ones(bits: Seq<bool>, count: int) -> int
    decreases count,
{
    if count <= 0 {
        0
    } else {
        ones(bits, count - 1) + if bits[count - 1] { 1int } else { 0int }
    }
}

/// The bits of pixels in rows that are padded with white to whole bytes.
pub open spec fn mask_bits(pixels: Seq<bool>, width: int, height: int) -> Seq<bool> {
    let row = 8 * byte_count(width as nat) as int;
    Seq::new(
        8 * (byte_count(width as nat) * height as nat),
        |i: int| i % row < width && pixels[(i / row) * width + i % row],
    )
}

/// Pixels packed in rows that are padded with white to whole bytes.
pub open spec fn mask_rows(pixels: Seq<bool>, width: int, height: int) -> Seq<u8> {
    pack_bits(mask_bits(pixels, width, height))
}

/// A bit that gets set counts one more if it is among those that are counted, and changes
/// nothing else; where no bit is set, none is counted.
pub proof fn lemma_bit_counted(bits: Seq<bool>, count: int, index: int)
    requires
        0 <= count <= bits.len(),
        0 <= index < bits.len(),
        !bits[index],
    ensures
        index < count ==> ones(bits.update(index, true), count) == ones(bits, count) + 1,
        index >= count ==> ones(bits.update(index, true), count) == ones(bits, count),
        (forall|i: int| 0 <= i < count ==> !(#[trigger] bits[i])) <==> ones(bits, count) == 0,
        0 <= ones(bits, count) <= count,
    decreases count,
{
    if count > 0 {
        lemma_bit_counted(bits, count - 1, index);
        if ones(bits, count) == 0 {
            assert forall|i: int| 0 <= i < count implies !(#[trigger] bits[i]) by {
                if i < count - 1 {
                    assert(ones(bits, count - 1) == 0);
                }
            }
        }
    }
}

/// A pixel's place in a bitmap of the given width and height.
pub proof fn lemma_pixel_index(width: int, height: int, x: int, y: int)
    requires
        0 <= x < width,
        0 <= y < height,
    ensures
        0 <= y * width + x < width * height,
        y * width <= y * width + x,
        0 <= y * width,
        (y + 1) * width == y * width + width,
{
    assert(0 <= y * width + x < width * height && 0 <= y * width) by (nonlinear_arith)
        requires
            0 <= x < width,
            0 <= y < height,
    ;
    assert((y + 1) * width == y * width + width) by (nonlinear_arith);
}

/// Different pixels have different places.
pub proof fn lemma_pixel_index_unique(width: int, x: int, y: int, u: int, v: int)
    requires
        0 <= x < width,
        0 <= u < width,
        y * width + x == v * width + u,
    ensures
        x == u,
        y == v,
{
    assert(y == v) by (nonlinear_arith)
        requires
            0 <= x < width,
            0 <= u < width,
            y * width + x == v * width + u,
    ;
}

/// A bitmap of black and white pixels, packed row after row without padding
/// between rows; a set bit is a black pixel.
#[derive(Debug, Clone, Eq, PartialEq)]
pub struct BitonalBitmap {
    pub width: u32,
    pub height: u32,
    pub bits: Vec<u8>,
}

impl View for BitonalBitmap {
    type V = Seq<bool>;

    /// The pixels in row-major order, then the bits that fill the last byte.
    open spec fn view(&self) -> Seq<bool> {
        bits_of(self.bits@)
    }
}

impl BitonalBitmap {
    /// The packed bytes.
    pub open spec fn bytes(&self) -> Seq<u8> {
        self.bits@
    }

    /// The bytes hold exactly the pixels.
    pub open spec fn wf(&self) -> bool {
        &&& self.width * self.height <= usize::MAX
        &&& self.bytes().len() == byte_count((self.width * self.height) as nat)
    }

    /// Whether a pixel is black.
    pub open spec fn black(&self, x: int, y: int) -> bool {
        &&& 0 <= x < self.width
        &&& 0 <= y < self.height
        &&& self@[y * self.width + x]
    }

    /// Every pixel has its bit.
    pub proof fn lemma_bit_in_range(&self, x: int, y: int)
        requires
            self.wf(),
            0 <= x < self.width,
            0 <= y < self.height,
        ensures
            0 <= y * self.width + x < self.width * self.height,
            y * self.width + x < self@.len(),
            self@.len() == 8 * self.bytes().len(),
    {
        lemma_pixel_index(self.width as int, self.height as int, x, y);
    }

    /// A white bitmap.
    ///
    /// Where the pixels outnumber what a `usize` counts, only as many as it counts
    /// are held.
    #[must_use]
    pub fn new(width: u32, height: u32) -> (bitmap: Self)
        ensures
            bitmap.width == width,
            bitmap.height == height,
            width * height <= usize::MAX ==> bitmap.wf(),
            bitmap@ == Seq::new(bitmap@.len(), |i: int| false),
            bitmap@.len() == 8 * byte_count(
                if width * height <= usize::MAX {
                    (width * height) as nat
                } else {
                    usize::MAX as nat
                },
            ),
    {
        let bit_count: usize = match (width as usize).checked_mul(height as usize) {
            Some(count) => count,
            None => usize::MAX,
        };
        let bytes: usize = bit_count / 8 + if bit_count % 8 == 0 {
            0
        } else {
            1
        };
        let bits: Vec<u8> = vec![0; bytes];
        let bitmap = BitonalBitmap { width, height, bits };
        assert(bitmap@ =~= Seq::new(bitmap@.len(), |i: int| false));
        bitmap
    }

    /// A bitmap of packed bytes, if there are exactly as many as the pixels take.
    #[must_use]
    pub fn from_bits(width: u32, height: u32, bits: Vec<u8>) -> (bitmap: Option<Self>)
        ensures
            bitmap is Some <==> (width * height <= usize::MAX && bits@.len() == byte_count(
                (width * height) as nat,
            )),
            bitmap is Some ==> {
                &&& bitmap->0.wf()
                &&& bitmap->0.width == width
                &&& bitmap->0.height == height
                &&& bitmap->0.bytes() == bits@
            },
    {
        let bit_count: usize = match (width as usize).checked_mul(height as usize) {
            Some(count) => count,
            None => {
                return None;
            },
        };
        let bytes: usize = bit_count / 8 + if bit_count % 8 == 0 {
            0
        } else {
            1
        };
        if bits.len() != bytes {
            return None;
        }
        Some(BitonalBitmap { width, height, bits })
    }

    /// A copy.
    pub fn duplicate(&self) -> (copy: Self)
        ensures
            copy.width == self.width,
            copy.height == self.height,
            copy.bytes() == self.bytes(),
            copy@ == self@,
            self.wf() ==> copy.wf(),
    {
        let mut bits: Vec<u8> = Vec::new();
        push_bytes(&mut bits, self.bits.as_slice());
        assert(bits@ =~= self.bits@);
        BitonalBitmap { width: self.width, height: self.height, bits }
    }

    /// The place of a pixel's bit, if the pixel is on the bitmap.
    fn bit_index(&self, x: u32, y: u32) -> (index: Option<usize>)
        requires
            self.wf(),
        ensures
            index is Some <==> (x < self.width && y < self.height),
            index is Some ==> index->0 == y * self.width + x && index->0 < self@.len(),
    {
        if x >= self.width || y >= self.height {
            return None;
        }
        proof {
            self.lemma_bit_in_range(x as int, y as int);
        }
        Some(y as usize * self.width as usize + x as usize)
    }

    /// Whether a pixel is black, if it is on the bitmap.
    #[must_use]
    pub fn bit(&self, x: u32, y: u32) -> (bit: Option<bool>)
        requires
            self.wf(),
        ensures
            bit == if x < self.width && y < self.height {
                Some(self.black(x as int, y as int))
            } else {
                None::<bool>
            },
    {
        match self.bit_index(x, y) {
            None => None,
            Some(index) => Some(bit_of(self.bits[index / 8], (index % 8) as u8)),
        }
    }

    /// Colours a pixel; tells whether it is on the bitmap.
    pub fn set_bit(&mut self, x: u32, y: u32, value: bool) -> (done: bool)
        requires
            old(self).wf(),
        ensures
            final(self).wf(),
            final(self).width == old(self).width,
            final(self).height == old(self).height,
            done == (x < old(self).width && y < old(self).height),
            final(self)@ == if done {
                old(self)@.update(y * old(self).width + x, value)
            } else {
                old(self)@
            },
    {
        let index: usize = match self.bit_index(x, y) {
            None => {
                return false;
            },
            Some(index) => index,
        };
        let place: usize = index / 8;
        let byte: u8 = self.bits[place];
        let changed: u8 = if value {
            with_bit_set(byte, (index % 8) as u8)
        } else {
            with_bit_clear(byte, (index % 8) as u8)
        };
        proof {
            lemma_bit_update(self.bits@, index as int, changed, value);
        }
        self.bits[place] = changed;
        true
    }

    /// The bits of the rows, each row padded with white to whole bytes.
    pub open spec fn padded(&self, bytes: Seq<u8>) -> bool {
        let row = 8 * byte_count(self.width as nat) as int;
        &&& bytes.len() == byte_count(self.width as nat) * self.height
        &&& forall|x: int, y: int|
            0 <= x < row && 0 <= y < self.height ==> #[trigger] bits_of(bytes)[y * row + x]
                == self.black(x, y)
    }

    /// The bytes of an image mask: rows padded to whole bytes.
    #[must_use]
    pub fn to_image_mask_bytes(&self) -> (bytes: Vec<u8>)
        requires
            self.wf(),
        ensures
            self.padded(bytes@),
            bytes@ == mask_rows(self@, self.width as int, self.height as int),
    {
        let row_bytes: u32 = self.width / 8 + if self.width % 8 == 0 {
            0
        } else {
            1
        };
        let mut bytes: Vec<u8> = Vec::new();
        let mut y: u32 = 0;
        let ghost row = 8 * row_bytes as int;
        assert(row_bytes == byte_count(self.width as nat));
        while y < self.height
            invariant
                self.wf(),
                y <= self.height,
                row == 8 * row_bytes,
                row_bytes == byte_count(self.width as nat),
                bytes@.len() == y * row_bytes,
                forall|u: int, v: int|
                    0 <= u < row && 0 <= v < y ==> #[trigger] bits_of(bytes@)[v * row + u]
                        == self.black(u, v),
            decreases self.height - y,
        {
            let mut j: u32 = 0;
            while j < row_bytes
                invariant
                    self.wf(),
                    y < self.height,
                    row == 8 * row_bytes,
                    row_bytes == byte_count(self.width as nat),
                    j <= row_bytes,
                    bytes@.len() == y * row_bytes + j,
                    forall|u: int, v: int|
                        0 <= u < row && 0 <= v < y ==> #[trigger] bits_of(bytes@)[v * row + u]
                            == self.black(u, v),
                    forall|u: int|
                        0 <= u < 8 * j ==> #[trigger] bits_of(bytes@)[y * row + u] == self.black(
                            u,
                            y as int,
                        ),
                decreases row_bytes - j,
            {
                let byte: u8 = self.row_byte(j, y);
                let ghost shorter = bytes@;
                bytes.push(byte);
                proof {
                    assert forall|u: int, v: int|
                        0 <= u < row && 0 <= v < y implies #[trigger] bits_of(bytes@)[v * row + u]
                        == self.black(u, v) by {
                        lemma_pixel_index(row, y as int, u, v);
                        assert(y * row == 8 * (y * row_bytes)) by (nonlinear_arith)
                            requires
                                row == 8 * row_bytes,
                        ;
                        assert(bits_of(shorter)[v * row + u] == self.black(u, v));
                    }
                    assert forall|u: int| 0 <= u < 8 * (j + 1) implies #[trigger] bits_of(
                        bytes@,
                    )[y * row + u] == self.black(u, y as int) by {
                        assert(y * row == 8 * (y * row_bytes)) by (nonlinear_arith)
                            requires
                                row == 8 * row_bytes,
                        ;
                        assert(0 <= y * row_bytes) by (nonlinear_arith);
                        if u < 8 * j {
                            assert(bits_of(shorter)[y * row + u] == self.black(u, y as int));
                        } else {
                            assert((y * row + u) / 8 == y * row_bytes + j);
                            assert((y * row + u) % 8 == u - 8 * j);
                            assert(byte_bit(byte, u - 8 * j) == if self.black(
                                8 * j + (u - 8 * j),
                                y as int,
                            ) {
                                1int
                            } else {
                                0int
                            });
                        }
                    }
                }
                j = j + 1;
            }
            proof {
                assert((y + 1) * row_bytes == y * row_bytes + row_bytes) by (nonlinear_arith);
                assert forall|u: int, v: int|
                    0 <= u < row && 0 <= v < y + 1 implies #[trigger] bits_of(bytes@)[v * row + u]
                    == self.black(u, v) by {
                    if v == y {
                        assert(bits_of(bytes@)[y * row + u] == self.black(u, y as int));
                    }
                }
            }
            y = y + 1;
        }
        assert(self.height * row_bytes == row_bytes * self.height) by (nonlinear_arith);
        proof {
            lemma_padded_rows(*self, bytes@);
        }
        bytes
    }

    /// Eight pixels of a row as a byte, white beyond the row's end.
    fn row_byte(&self, j: u32, y: u32) -> (byte: u8)
        requires
            self.wf(),
            y < self.height,
            8 * j < self.width,
        ensures
            forall|k: int|
                0 <= k < 8 ==> #[trigger] byte_bit(byte, k) == if self.black(8 * j + k, y as int) {
                    1int
                } else {
                    0int
                },
    {
        let mut byte: u8 = 0;
        let mut k: u32 = 0;
        let mut limit: u32 = 1;
        while k < 8
            invariant
                self.wf(),
                y < self.height,
                8 * j < self.width,
                k <= 8,
                byte < limit,
                k == 0 ==> limit == 1,
                k == 1 ==> limit == 2,
                k == 2 ==> limit == 4,
                k == 3 ==> limit == 8,
                k == 4 ==> limit == 16,
                k == 5 ==> limit == 32,
                k == 6 ==> limit == 64,
                k == 7 ==> limit == 128,
                k == 8 ==> limit == 256,
                forall|i: int|
                    8 - k <= i < 8 ==> #[trigger] byte_bit(byte, i) == if self.black(
                        8 * j + i - (8 - k),
                        y as int,
                    ) {
                        1int
                    } else {
                        0int
                    },
            decreases 8 - k,
        {
            let x: u64 = 8 * (j as u64) + k as u64;
            let black: bool = if x < self.width as u64 {
                match self.bit(x as u32, y) {
                    Some(bit) => bit,
                    None => false,
                }
            } else {
                false
            };
            let ghost shorter = byte;
            byte = with_bit_appended(byte, black);
            limit = 2 * limit;
            proof {
                assert forall|i: int| 8 - (k + 1) <= i < 8 implies #[trigger] byte_bit(byte, i)
                    == if self.black(8 * j + i - (8 - (k + 1)), y as int) {
                    1int
                } else {
                    0int
                } by {
                    if i < 7 {
                        assert(byte_bit(byte, i) == byte_bit(shorter, i + 1));
                    } else {
                        assert(8 * j + i - (8 - (k + 1)) == x);
                    }
                }
            }
            k = k + 1;
        }
        byte
    }

    /// A binary PBM file.
    #[must_use]
    pub fn to_pbm_bytes(&self) -> (bytes: Vec<u8>)
        requires
            self.wf(),
        ensures
            bytes@ == utf8("P4\n"@) + decimal_bytes(self.width as nat) + utf8(" "@)
                + decimal_bytes(self.height as nat) + utf8("\n"@) + mask_rows(
                self@,
                self.width as int,
                self.height as int,
            ),
    {
        let mut bytes: Vec<u8> = Vec::new();
        push_text(&mut bytes, "P4\n");
        push_decimal_bytes(&mut bytes, self.width as u64);
        push_text(&mut bytes, " ");
        push_decimal_bytes(&mut bytes, self.height as u64);
        push_text(&mut bytes, "\n");
        let mask: Vec<u8> = self.to_image_mask_bytes();
        push_bytes(&mut bytes, mask.as_slice());
        assert(Seq::<u8>::empty() + utf8("P4\n"@) =~= utf8("P4\n"@));
        bytes
    }

    /// The number of black pixels; bits that fill the last byte count too.
    #[must_use]
    pub fn black_pixel_count(&self) -> (count: usize)
        requires
            self@.len() <= usize::MAX,
        ensures
            count == ones(self@, self@.len() as int),
    {
        let mut count: usize = 0;
        let mut place: usize = 0;
        while place < self.bits.len()
            invariant
                place <= self.bits@.len(),
                self@ == bits_of(self.bits@),
                self@.len() <= usize::MAX,
                count == ones(self@, 8 * place),
                count <= 8 * place,
            decreases self.bits@.len() - place,
        {
            let byte: u8 = self.bits[place];
            let mut k: u8 = 0;
            while k < 8
                invariant
                    k <= 8,
                    place < self.bits@.len(),
                    byte == self.bits@[place as int],
                    self@ == bits_of(self.bits@),
                    self@.len() <= usize::MAX,
                    count == ones(self@, 8 * place + k),
                    count <= 8 * place + k,
                decreases 8 - k,
            {
                if bit_of(byte, k) {
                    count = count + 1;
                }
                assert((8 * place + k) / 8 == place && (8 * place + k) % 8 == k as int);
                k = k + 1;
            }
            place = place + 1;
        }
        count
    }
}

/// The padded rows of a bitmap are known by their bits.
proof fn lemma_padded_rows(bitmap: BitonalBitmap, bytes: Seq<u8>)
    requires
        bitmap.padded(bytes),
    ensures
        bytes == mask_rows(bitmap@, bitmap.width as int, bitmap.height as int),
{
    let row_bytes = byte_count(bitmap.width as nat) as int;
    let row = 8 * row_bytes;
    let bits = mask_bits(bitmap@, bitmap.width as int, bitmap.height as int);
    let packed = pack_bits(bits);
    assert(0 <= row_bytes * bitmap.height) by (nonlinear_arith)
        requires
            0 <= row_bytes,
            0 <= bitmap.height,
    ;
    lemma_packed_bits_read_back(bits);
    assert(bits_of(packed).len() == bits.len());
    assert forall|i: int| 0 <= i < 8 * bytes.len() implies bits_of(bytes)[i] == bits_of(
        packed,
    )[i] by {
        assert(0 < row_bytes) by (nonlinear_arith)
            requires
                0 <= row_bytes,
                0 <= i < 8 * (row_bytes * bitmap.height),
        ;
        let y = i / row;
        let x = i % row;
        vstd::arithmetic::div_mod::lemma_fundamental_div_mod(i, row);
        assert(0 <= x < row);
        assert(i == y * row + x) by (nonlinear_arith)
            requires
                i == row * y + x,
        ;
        assert(0 <= y < bitmap.height) by (nonlinear_arith)
            requires
                0 <= x < row,
                i == y * row + x,
                0 <= i < 8 * (row_bytes * bitmap.height),
                row == 8 * row_bytes,
        ;
        assert(bits_of(bytes)[y * row + x] == bitmap.black(x, y));
        assert(bits_of(packed).take(bits.len() as int)[i] == bits[i]);
    }
    assert(bits_of(bytes) =~= bits_of(packed));
    lemma_bytes_by_bits(bytes, packed);
}

} // verus!
