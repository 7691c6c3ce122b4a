//! Splitting an interval for one bit at a time.

use crate::bitstream::BitStream;
use crate::zp::{first_window, zp_shift, zp_start, ZpState};
use vstd::prelude::*;

verus! {

/// How many leading bits of a byte are set.
pub open spec fn leading_ones(byte: int) -> nat
    decreases byte,
{
    if 128 <= byte < 256 {
        1 + leading_ones(2 * byte - 256)
    } else {
        0
    }
}

/// Takes a number of bits into both registers.
pub open spec fn shift_by(zp: ZpState, count: nat) -> ZpState
    decreases count,
{
    if count == 0 {
        zp
    } else {
        zp_shift(shift_by(zp, (count - 1) as nat))
    }
}

/// How far a lower bound is shifted: by its leading ones, of which those of a full high
/// byte count as eight.
pub open spec fn renormal_shift(lower: int) -> nat {
    if lower >= 0xff00 {
        leading_ones(lower % 256) + 8
    } else {
        leading_ones((lower / 256) % 256)
    }
}

/// Decodes one bit that splits the interval, and the reader after it.
pub open spec fn split_bit(zp: ZpState, split: int) -> (int, ZpState) {
    if split > zp.c {
        let upper = ZpState { a: zp.a + 0x10000 - split, c: zp.c + 0x10000 - split, ..zp };
        (1, shift_by(upper, renormal_shift(upper.a)))
    } else {
        (0, zp_shift(ZpState { a: split, ..zp }))
    }
}

/// Decodes one bit in the middle of the interval, and the reader after it.
pub open spec fn raw_bit(zp: ZpState) -> (int, ZpState) {
    split_bit(zp, 0x8000 + zp.a / 2)
}

/// Counts the leading bits of a byte that are set.
pub fn leading_one_bits(byte: u8) -> (count: u8)
    ensures
        count == leading_ones(byte as int),
        count <= 8,
{
    proof {
        lemma_leading_ones_range(byte as int);
    }
    let mut count: u8 = 0;
    let mut value: u32 = byte as u32;
    while value >= 128
        invariant
            value < 256,
            count + leading_ones(value as int) == leading_ones(byte as int),
            leading_ones(byte as int) <= 8,
        decreases value,
    {
        count = count + 1;
        value = 2 * value - 256;
    }
    count
}

/// A byte has at most eight leading ones.
pub proof fn lemma_leading_ones_range(byte: int)
    ensures
        leading_ones(byte) <= 8,
{
    reveal_with_fuel(leading_ones, 10);
}

/// A reader of bits, each of which splits an interval.
#[derive(Clone, Copy)]
pub struct ZpBitReader<'a> {
    bits: BitStream<'a>,
    lower_bound: u16,
    code_window: u16,
}

impl<'a> View for ZpBitReader<'a> {
    type V = ZpState;

    closed spec fn view(&self) -> ZpState {
        ZpState {
            input: self.bits.input(),
            a: self.lower_bound as int,
            c: self.code_window as int,
            pos: self.bits.consumed(),
        }
    }
}

impl<'a> ZpBitReader<'a> {
    /// The reader stands between two bits of its input.
    pub closed spec fn wf(&self) -> bool {
        self.bits.wf()
    }

    /// A reader before its first bit.
    pub fn new(input: &'a [u8]) -> (reader: Self)
        ensures
            reader.wf(),
            reader@ == zp_start(input@),
    {
        let mut bits = BitStream::new(input);
        let window: u32 = first_window(&mut bits);
        ZpBitReader { bits, lower_bound: 0, code_window: window as u16 }
    }

    /// Reads a bit that is as likely set as not.
    pub fn read_raw_bit(&mut self) -> (bit: u8)
        requires
            old(self).wf(),
        ensures
            final(self).wf(),
            (bit as int, final(self)@) == raw_bit(old(self)@),
            bit <= 1,
    {
        let split: u32 = 0x8000 + self.lower_bound as u32 / 2;
        self.read_split_bit(split)
    }

    /// Reads a bit that splits the interval at the given place.
    pub fn read_split_bit(&mut self, split: u32) -> (bit: u8)
        requires
            old(self).wf(),
            split <= 0x10000,
        ensures
            final(self).wf(),
            (bit as int, final(self)@) == split_bit(old(self)@, split as int),
            bit <= 1,
    {
        if split > self.code_window as u32 {
            let lower: u32 = self.lower_bound as u32 + (0x10000 - split);
            let code: u32 = self.code_window as u32 + (0x10000 - split);
            let shift: u8 = if lower >= 0xff00 {
                leading_one_bits((lower % 256) as u8) + 8
            } else {
                leading_one_bits(((lower / 256) % 256) as u8)
            };
            let ghost upper = ZpState { a: lower as int, c: code as int, ..self@ };
            self.shift_in(lower, code, shift);
            assert(self@ == shift_by(upper, renormal_shift(upper.a)));
            1
        } else {
            let code: u32 = self.code_window as u32;
            let ghost lowered = ZpState { a: split as int, ..self@ };
            self.shift_in(split, code, 1);
            assert(shift_by(lowered, 1) == zp_shift(shift_by(lowered, 0)));
            0
        }
    }

    /// Takes bits into a lower bound and a code window, and keeps both.
    fn shift_in(&mut self, lower: u32, code: u32, count: u8)
        requires
            old(self).wf(),
            lower <= 0x1ffff,
            code <= 0x1ffff,
            count == 0 ==> lower <= 0xffff && code <= 0xffff,
        ensures
            final(self).wf(),
            final(self)@ == shift_by(
                ZpState { a: lower as int, c: code as int, ..old(self)@ },
                count as nat,
            ),
    {
        let ghost start = ZpState { a: lower as int, c: code as int, ..self@ };
        let mut lower: u32 = lower;
        let mut code: u32 = code;
        let mut taken: u8 = 0;
        while taken < count
            invariant
                taken <= count,
                self.bits.wf(),
                lower <= 0x1ffff,
                code <= 0x1ffff,
                taken == count ==> lower <= 0xffff && code <= 0xffff,
                (ZpState {
                    input: self.bits.input(),
                    a: lower as int,
                    c: code as int,
                    pos: self.bits.consumed(),
                }) == shift_by(start, taken as nat),
            decreases count - taken,
        {
            let bit: u32 = self.bits.next_bit();
            lower = (2 * lower) % 0x10000;
            code = (2 * code + bit) % 0x10000;
            taken = taken + 1;
        }
        self.lower_bound = lower as u16;
        self.code_window = code as u16;
    }
}

} // verus!
