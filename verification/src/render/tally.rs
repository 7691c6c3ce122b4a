//! What the numbers of a bitmap count.

use super::bitmap::{
    byte_sum, colored_pixels, fnv1a, hashed_bytes, pixels_of_shade, stats_of, BitmapModel,
};
use vstd::prelude::*;

verus! {

/// A bitmap with one more pixel behind the others.
pub open spec fn with_pixel(bitmap: BitmapModel, red: u8, green: u8, blue: u8) -> BitmapModel {
    BitmapModel { pixels: bitmap.pixels + seq![red, green, blue], ..bitmap }
}

proof fn lemma_counts_of_first(longer: Seq<u8>, shorter: Seq<u8>, count: int)
    requires
        0 <= 3 * count <= shorter.len() <= longer.len(),
        forall|i: int| 0 <= i < shorter.len() ==> longer[i] == shorter[i],
    ensures
        pixels_of_shade(longer, 0, count) == pixels_of_shade(shorter, 0, count),
        pixels_of_shade(longer, 255, count) == pixels_of_shade(shorter, 255, count),
        colored_pixels(longer, count) == colored_pixels(shorter, count),
    decreases count,
{
    if count > 0 {
        lemma_counts_of_first(longer, shorter, count - 1);
    }
}

proof fn lemma_sum_of_first(longer: Seq<u8>, shorter: Seq<u8>, count: int)
    requires
        0 <= count <= shorter.len() <= longer.len(),
        forall|i: int| 0 <= i < shorter.len() ==> longer[i] == shorter[i],
    ensures
        byte_sum(longer, count) == byte_sum(shorter, count),
        byte_sum(shorter, count) <= 255 * count,
    decreases count,
{
    if count > 0 {
        lemma_sum_of_first(longer, shorter, count - 1);
    }
}

proof fn lemma_counts_fit(pixels: Seq<u8>, count: int)
    requires
        0 <= count,
    ensures
        pixels_of_shade(pixels, 0, count) <= count,
        pixels_of_shade(pixels, 255, count) <= count,
        colored_pixels(pixels, count) <= count,
    decreases count,
{
    if count > 0 {
        lemma_counts_fit(pixels, count - 1);
    }
}

/// A bitmap without pixels counts nothing.
pub proof fn lemma_nothing_counted(bitmap: BitmapModel)
    requires
        bitmap.pixels.len() == 0,
    ensures
        stats_of(bitmap).pixel_count == 0,
        stats_of(bitmap).black_pixels == 0,
        stats_of(bitmap).white_pixels == 0,
        stats_of(bitmap).non_gray_pixels == 0,
        stats_of(bitmap).component_sum == 0,
{
}

/// Each pixel is counted once: it is black if all three components are 0, white if all three are
/// 255, and not gray if they are not all equal; its components add to the sum.
pub proof fn lemma_pixel_counted(bitmap: BitmapModel, red: u8, green: u8, blue: u8)
    requires
        bitmap.pixels.len() % 3 == 0,
        bitmap.pixels.len() < 0x8000_0000,
    ensures
        ({
            let (before, after) = (
                stats_of(bitmap),
                stats_of(with_pixel(bitmap, red, green, blue)),
            );
            &&& after.width == bitmap.width && after.height == bitmap.height
            &&& after.pixel_count == before.pixel_count + 1
            &&& after.black_pixels == before.black_pixels + (if red == 0 && green == 0 && blue
                == 0 {
                1int
            } else {
                0
            })
            &&& after.white_pixels == before.white_pixels + (if red == 255 && green == 255 && blue
                == 255 {
                1int
            } else {
                0
            })
            &&& after.non_gray_pixels == before.non_gray_pixels + (if red == green && green
                == blue {
                0int
            } else {
                1
            })
            &&& after.component_sum == before.component_sum + red + green + blue
        }),
{
    let more = with_pixel(bitmap, red, green, blue).pixels;
    let n = bitmap.pixels.len() as int / 3;
    assert(3 * n == bitmap.pixels.len());
    assert(more.len() as int / 3 == n + 1);
    lemma_counts_of_first(more, bitmap.pixels, n);
    lemma_counts_fit(bitmap.pixels, n);
    lemma_counts_fit(more, n + 1);
    lemma_sum_of_first(more, bitmap.pixels, 3 * n);
    lemma_sum_of_first(more, more, 3 * n + 3);
    assert(more[3 * n] == red && more[3 * n + 1] == green && more[3 * n + 2] == blue);
    assert(byte_sum(more, 3 * n + 3) == byte_sum(more, 3 * n + 2) + blue);
    assert(byte_sum(more, 3 * n + 2) == byte_sum(more, 3 * n + 1) + green);
    assert(byte_sum(more, 3 * n + 1) == byte_sum(more, 3 * n) + red);
}

/// The hash of bytes takes each byte into the lowest eight bits and multiplies then by the prime
/// of the 64-bit FNV hash, modulo 2 to the power of 64.
pub proof fn lemma_byte_hashed(hash: u64, bytes: Seq<u8>, byte: u8)
    ensures
        fnv1a(hash, Seq::empty(), 0) == hash,
        fnv1a(hash, bytes.push(byte), bytes.len() as int + 1) == ((fnv1a(
            hash,
            bytes,
            bytes.len() as int,
        ) ^ (byte as u64)) * 1_099_511_628_211) % 0x1_0000_0000_0000_0000,
{
    lemma_hash_of_first(hash, bytes.push(byte), bytes, bytes.len() as int);
}

proof fn lemma_hash_of_first(hash: u64, longer: Seq<u8>, shorter: Seq<u8>, count: int)
    requires
        0 <= count <= shorter.len() <= longer.len(),
        forall|i: int| 0 <= i < shorter.len() ==> longer[i] == shorter[i],
    ensures
        fnv1a(hash, longer, count) == fnv1a(hash, shorter, count),
    decreases count,
{
    if count > 0 {
        lemma_hash_of_first(hash, longer, shorter, count - 1);
    }
}

/// What is hashed of a bitmap is its width, its height and its resolution, each with its high
/// bytes first, and then its pixels; the hash starts from the offset basis of the 64-bit FNV
/// hash.
pub proof fn lemma_fingerprint(bitmap: BitmapModel)
    requires
        bitmap.pixels.len() % 3 == 0,
    ensures
        ({
            let bytes = hashed_bytes(bitmap);
            &&& bytes.len() == 10 + bitmap.pixels.len()
            &&& bitmap.width == 16_777_216 * bytes[0] + 65_536 * bytes[1] + 256 * bytes[2]
                + bytes[3]
            &&& bitmap.height == 16_777_216 * bytes[4] + 65_536 * bytes[5] + 256 * bytes[6]
                + bytes[7]
            &&& bitmap.dpi == 256 * bytes[8] + bytes[9]
            &&& bytes.skip(10) == bitmap.pixels
            &&& stats_of(bitmap).fingerprint == fnv1a(
                14_695_981_039_346_656_037,
                bytes,
                bytes.len() as int,
            )
        }),
{
    let bytes = hashed_bytes(bitmap);
    assert(3 * (bitmap.pixels.len() as int / 3) == bitmap.pixels.len());
    assert(bytes.skip(10) =~= bitmap.pixels);
}

} // verus!
