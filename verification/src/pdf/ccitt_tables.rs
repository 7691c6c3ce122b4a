//! The codes of runs in CCITT Group 4.

use vstd::prelude::*;

verus! {

/// The codes of white runs of less than 64 pixels, as numbers.
pub const WHITE_TERMINATING_BITS: [u16; 64] = [
    0x35, 0x7, 0x7, 0x8, 0xb, 0xc, 0xe, 0xf, 0x13, 0x14, 0x7, 0x8, 0x8, 0x3, 0x34, 0x35, 0x2a,
    0x2b, 0x27, 0xc, 0x8, 0x17, 0x3, 0x4, 0x28, 0x2b, 0x13, 0x24, 0x18, 0x2, 0x3, 0x1a, 0x1b,
    0x12, 0x13, 0x14, 0x15, 0x16, 0x17, 0x28, 0x29, 0x2a, 0x2b, 0x2c, 0x2d, 0x4, 0x5, 0xa, 0xb,
    0x52, 0x53, 0x54, 0x55, 0x24, 0x25, 0x58, 0x59, 0x5a, 0x5b, 0x4a, 0x4b, 0x32, 0x33, 0x34,
];

/// How many bits the codes of white runs of less than 64 pixels have.
pub const WHITE_TERMINATING_LENGTHS: [u8; 64] = [
    8, 6, 4, 4, 4, 4, 4, 4, 5, 5, 5, 5, 6, 6, 6, 6, 6, 6, 7, 7, 7, 7, 7, 7, 7, 7, 7, 7, 7, 8, 8,
    8, 8, 8, 8, 8, 8, 8, 8, 8, 8, 8, 8, 8, 8, 8, 8, 8, 8, 8, 8, 8, 8, 8, 8, 8, 8, 8, 8, 8, 8, 8,
    8, 8,
];

/// The codes of black runs of less than 64 pixels, as numbers.
pub const BLACK_TERMINATING_BITS: [u16; 64] = [
    0x37, 0x2, 0x3, 0x2, 0x3, 0x3, 0x2, 0x3, 0x5, 0x4, 0x4, 0x5, 0x7, 0x4, 0x7, 0x18, 0x17,
    0x18, 0x8, 0x67, 0x68, 0x6c, 0x37, 0x28, 0x17, 0x18, 0xca, 0xcb, 0xcc, 0xcd, 0x68, 0x69,
    0x6a, 0x6b, 0xd2, 0xd3, 0xd4, 0xd5, 0xd6, 0xd7, 0x6c, 0x6d, 0xda, 0xdb, 0x54, 0x55, 0x56,
    0x57, 0x64, 0x65, 0x52, 0x53, 0x24, 0x37, 0x38, 0x27, 0x28, 0x58, 0x59, 0x2b, 0x2c, 0x5a,
    0x66, 0x67,
];

/// How many bits the codes of black runs of less than 64 pixels have.
pub const BLACK_TERMINATING_LENGTHS: [u8; 64] = [
    10, 3, 2, 2, 3, 4, 4, 5, 6, 6, 7, 7, 7, 8, 8, 9, 10, 10, 10, 11, 11, 11, 11, 11, 11, 11, 12,
    12, 12, 12, 12, 12, 12, 12, 12, 12, 12, 12, 12, 12, 12, 12, 12, 12, 12, 12, 12, 12, 12, 12,
    12, 12, 12, 12, 12, 12, 12, 12, 12, 12, 12, 12, 12, 12,
];

/// The codes of white runs of whole multiples of 64 pixels, from 64 on, as numbers.
pub const WHITE_MAKEUP_BITS: [u16; 40] = [
    0x1b, 0x12, 0x17, 0x37, 0x36, 0x37, 0x64, 0x65, 0x68, 0x67, 0xcc, 0xcd, 0xd2, 0xd3, 0xd4,
    0xd5, 0xd6, 0xd7, 0xd8, 0xd9, 0xda, 0xdb, 0x98, 0x99, 0x9a, 0x18, 0x9b, 0x8, 0xc, 0xd, 0x12,
    0x13, 0x14, 0x15, 0x16, 0x17, 0x1c, 0x1d, 0x1e, 0x1f,
];

/// How many bits the codes of white runs of whole multiples of 64 pixels, from 64 on have.
pub const WHITE_MAKEUP_LENGTHS: [u8; 40] = [
    5, 5, 6, 7, 8, 8, 8, 8, 8, 8, 9, 9, 9, 9, 9, 9, 9, 9, 9, 9, 9, 9, 9, 9, 9, 6, 9, 11, 11, 11,
    12, 12, 12, 12, 12, 12, 12, 12, 12, 12,
];

/// The codes of black runs of whole multiples of 64 pixels, from 64 on, as numbers.
pub const BLACK_MAKEUP_BITS: [u16; 40] = [
    0xf, 0xc8, 0xc9, 0x5b, 0x33, 0x34, 0x35, 0x6c, 0x6d, 0x4a, 0x4b, 0x4c, 0x4d, 0x72, 0x73,
    0x74, 0x75, 0x76, 0x77, 0x52, 0x53, 0x54, 0x55, 0x5a, 0x5b, 0x64, 0x65, 0x8, 0xc, 0xd, 0x12,
    0x13, 0x14, 0x15, 0x16, 0x17, 0x1c, 0x1d, 0x1e, 0x1f,
];

/// How many bits the codes of black runs of whole multiples of 64 pixels, from 64 on have.
pub const BLACK_MAKEUP_LENGTHS: [u8; 40] = [
    10, 12, 12, 12, 12, 12, 12, 13, 13, 13, 13, 13, 13, 13, 13, 13, 13, 13, 13, 13, 13, 13, 13,
    13, 13, 13, 13, 11, 11, 11, 12, 12, 12, 12, 12, 12, 12, 12, 12, 12,
];

} // verus!
