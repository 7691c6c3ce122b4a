//! BZZ: blocks of bytes under a Burrows-Wheeler transform, coded as ranks of a
//! move-to-front list.

use crate::bzz::bwt::{block_bytes, decode_block_from_ranks};
use crate::bzz::model::{
    collect_block_ranks, entropy_start, ranks_from, EntropyRankDecoder,
};
use crate::bzz::reader::{raw_bit, ZpBitReader};
use crate::chunk::range_fault;
use crate::dirm::{Dirm, DirmModel};
use crate::error::ParseError;
use crate::text::{decimal, push_bytes, push_decimal, text_of};
use crate::zp::{zp_start, ZpState};
use vstd::arithmetic::power2::{
    lemma2_to64, lemma_pow2_strictly_increases, lemma_pow2_unfold, pow2,
};
use vstd::prelude::*;

pub mod bwt;
pub mod learning;
pub mod model;
pub mod mtf;
pub mod raw;
pub mod reader;
pub mod transform;

verus! {

/// Why bytes could not be decoded.
#[derive(Debug, Clone, PartialEq, Eq)]
pub enum BzzError {
    DirmTail(ParseError),
    IncompleteDecoder(&'static str),
    UnsupportedBlockSize { size: usize },
    InvalidFshift { value: u8 },
    InvalidBwtMarker { marker_pos: usize, block_len: usize },
    InvalidBwtTransform,
    TruncatedRankStream { expected_len: usize },
    InvalidSymbolRank { rank: usize },
    MissingBwtMarker,
    DuplicateBwtMarker,
    ToolRequired,
}

/// What decoding gives.
pub type BzzResult<T> = Result<T, BzzError>;

/// Why bytes could not be decoded, by its values.
#[verifier::ext_equal]
pub enum BzzFault {
    DirmTail(Seq<char>),
    IncompleteDecoder(Seq<char>),
    UnsupportedBlockSize { size: int },
    InvalidFshift { value: int },
    InvalidBwtMarker { marker_pos: int, block_len: int },
    InvalidBwtTransform,
    TruncatedRankStream { expected_len: int },
    InvalidSymbolRank { rank: int },
    MissingBwtMarker,
    DuplicateBwtMarker,
    ToolRequired,
}

impl View for BzzError {
    type V = BzzFault;

    open spec fn view(&self) -> BzzFault {
        match self {
            BzzError::DirmTail(error) => BzzFault::DirmTail(error@),
            BzzError::IncompleteDecoder(part) => BzzFault::IncompleteDecoder(part@),
            BzzError::UnsupportedBlockSize { size } => BzzFault::UnsupportedBlockSize {
                size: *size as int,
            },
            BzzError::InvalidFshift { value } => BzzFault::InvalidFshift { value: *value as int },
            BzzError::InvalidBwtMarker { marker_pos, block_len } => BzzFault::InvalidBwtMarker {
                marker_pos: *marker_pos as int,
                block_len: *block_len as int,
            },
            BzzError::InvalidBwtTransform => BzzFault::InvalidBwtTransform,
            BzzError::TruncatedRankStream { expected_len } => BzzFault::TruncatedRankStream {
                expected_len: *expected_len as int,
            },
            BzzError::InvalidSymbolRank { rank } => BzzFault::InvalidSymbolRank {
                rank: *rank as int,
            },
            BzzError::MissingBwtMarker => BzzFault::MissingBwtMarker,
            BzzError::DuplicateBwtMarker => BzzFault::DuplicateBwtMarker,
            BzzError::ToolRequired => BzzFault::ToolRequired,
        }
    }
}

/// A result by its values.
pub open spec fn outcome<T>(result: BzzResult<T>) -> Result<T, BzzFault> {
    match result {
        Ok(value) => Ok(value),
        Err(error) => Err(error@),
    }
}

/// A list by its values, or why there is none.
pub open spec fn list_outcome<T>(result: BzzResult<Vec<T>>) -> Result<Seq<T>, BzzFault> {
    match result {
        Ok(list) => Ok(list@),
        Err(error) => Err(error@),
    }
}

/// What is said of a failure.
pub open spec fn bzz_message(fault: BzzFault) -> Seq<char> {
    match fault {
        BzzFault::DirmTail(message) => "failed to read compressed DIRM tail: "@ + message,
        BzzFault::IncompleteDecoder(part) => "in-house BZZ decoder is incomplete: "@ + part,
        BzzFault::UnsupportedBlockSize { size } => "BZZ block declares unsupported size "@
            + decimal(size as nat) + " bytes"@,
        BzzFault::InvalidFshift { value } => "BZZ block declares invalid FSHIFT value "@ + decimal(
            value as nat,
        ),
        BzzFault::InvalidBwtMarker { marker_pos, block_len } =>
        "BZZ block has invalid Burrows-Wheeler marker position "@ + decimal(marker_pos as nat)
            + " for block size "@ + decimal(block_len as nat),
        BzzFault::InvalidBwtTransform =>
        "BZZ block failed Burrows-Wheeler reconstruction check"@,
        BzzFault::TruncatedRankStream { expected_len } => "BZZ rank stream ended before "@
            + decimal(expected_len as nat) + " block symbols were decoded"@,
        BzzFault::InvalidSymbolRank { rank } => "BZZ rank stream contains invalid rank "@
            + decimal(rank as nat),
        BzzFault::MissingBwtMarker =>
        "BZZ rank stream does not contain a Burrows-Wheeler marker"@,
        BzzFault::DuplicateBwtMarker =>
        "BZZ rank stream contains multiple Burrows-Wheeler markers"@,
        BzzFault::ToolRequired => "the bytes need the bzz tool"@,
    }
}

impl BzzError {
    /// What is said of the failure.
    #[must_use]
    pub fn message(&self) -> (message: String)
        ensures
            message@ == bzz_message(self@),
    {
        match self {
            BzzError::DirmTail(error) => {
                let mut message: String = text_of("failed to read compressed DIRM tail: ");
                message.append(error.message());
                message
            },
            BzzError::IncompleteDecoder(part) => {
                let mut message: String = text_of("in-house BZZ decoder is incomplete: ");
                message.append(part);
                message
            },
            BzzError::UnsupportedBlockSize { size } => {
                let mut message: String = text_of("BZZ block declares unsupported size ");
                push_decimal(&mut message, *size as u64);
                message.append(" bytes");
                message
            },
            BzzError::InvalidFshift { value } => {
                let mut message: String = text_of("BZZ block declares invalid FSHIFT value ");
                push_decimal(&mut message, *value as u64);
                message
            },
            BzzError::InvalidBwtMarker { marker_pos, block_len } => {
                let mut message: String = text_of(
                    "BZZ block has invalid Burrows-Wheeler marker position ",
                );
                push_decimal(&mut message, *marker_pos as u64);
                message.append(" for block size ");
                push_decimal(&mut message, *block_len as u64);
                message
            },
            BzzError::InvalidBwtTransform => text_of(
                "BZZ block failed Burrows-Wheeler reconstruction check",
            ),
            BzzError::TruncatedRankStream { expected_len } => {
                let mut message: String = text_of("BZZ rank stream ended before ");
                push_decimal(&mut message, *expected_len as u64);
                message.append(" block symbols were decoded");
                message
            },
            BzzError::InvalidSymbolRank { rank } => {
                let mut message: String = text_of("BZZ rank stream contains invalid rank ");
                push_decimal(&mut message, *rank as u64);
                message
            },
            BzzError::MissingBwtMarker => text_of(
                "BZZ rank stream does not contain a Burrows-Wheeler marker",
            ),
            BzzError::DuplicateBwtMarker => text_of(
                "BZZ rank stream contains multiple Burrows-Wheeler markers",
            ),
            BzzError::ToolRequired => text_of("the bytes need the bzz tool"),
        }
    }
}

/// The largest block.
pub const MAX_BLOCK_BYTES: usize = 4194304;

/// The number that so many raw bits give, after those already read, and the reader after
/// them.
pub open spec fn raw_number(zp: ZpState, bits: nat) -> (int, ZpState)
    decreases bits,
{
    if bits == 0 {
        (0, zp)
    } else {
        let (high, before) = raw_number(zp, (bits - 1) as nat);
        let (bit, after) = raw_bit(before);
        (2 * high + bit, after)
    }
}

/// The ranks of a block, which start behind its header.
pub open spec fn block_ranks(zp: ZpState, block_len: nat) -> Result<Seq<usize>, BzzFault> {
    ranks_from::<EntropyRankDecoder<'static>>(entropy_start(zp), block_len, Seq::empty()).0
}

/// The bytes that a compressed block stands for, or why there are none: 24 raw bits give
/// its length, two more its `FSHIFT`, and the ranks follow.
pub open spec fn bzz_bytes(bytes: Seq<u8>) -> Result<Seq<u8>, BzzFault> {
    let (block_len, after_len) = raw_number(zp_start(bytes), 24);
    let (fshift, after_shift) = raw_number(after_len, 2);
    if block_len == 0 {
        Ok(Seq::empty())
    } else if block_len > MAX_BLOCK_BYTES {
        Err(BzzFault::UnsupportedBlockSize { size: block_len })
    } else if fshift > 2 {
        Err(BzzFault::InvalidFshift { value: fshift })
    } else {
        match block_ranks(after_shift, block_len as nat) {
            Err(fault) => Err(fault),
            Ok(ranks) => block_bytes(ranks, block_len, fshift as nat),
        }
    }
}

/// Whether a failure is one of the decoder, behind which the `bzz` tool may still succeed.
pub open spec fn tool_may_help(fault: BzzFault) -> bool {
    match fault {
        BzzFault::IncompleteDecoder(_)
        | BzzFault::MissingBwtMarker
        | BzzFault::DuplicateBwtMarker
        | BzzFault::InvalidSymbolRank { .. }
        | BzzFault::InvalidBwtMarker { .. }
        | BzzFault::InvalidBwtTransform
        | BzzFault::InvalidFshift { .. } => true,
        _ => false,
    }
}

/// What bytes decode to, given what the `bzz` tool makes of them, if it was asked.
pub open spec fn bzz_decoded(bytes: Seq<u8>, tool_output: Option<Seq<u8>>) -> Result<
    Seq<u8>,
    BzzFault,
> {
    match bzz_bytes(bytes) {
        Err(fault) => if tool_may_help(fault) {
            match tool_output {
                Some(output) => Ok(output),
                None => Err(BzzFault::ToolRequired),
            }
        } else {
            Err(fault)
        },
        Ok(decoded) => Ok(decoded),
    }
}

/// What the tail of a directory decodes to.
pub open spec fn dirm_tail_decoded(
    bytes: Seq<u8>,
    dirm: DirmModel,
    tool_output: Option<Seq<u8>>,
) -> Result<Seq<u8>, BzzFault> {
    let start = dirm.compressed_tail_start as int;
    let len = dirm.compressed_tail_len as int;
    match range_fault(bytes.len() as int, start, len) {
        Some(message) => Err(BzzFault::DirmTail(message)),
        None => bzz_decoded(bytes.subrange(start, start + len), tool_output),
    }
}

/// Bytes that may be there, by their values.
pub open spec fn given(bytes: Option<&[u8]>) -> Option<Seq<u8>> {
    match bytes {
        Some(bytes) => Some(bytes@),
        None => None,
    }
}

/// A decoder of compressed bytes.
pub struct BzzDecoder<'a> {
    bits: ZpBitReader<'a>,
}

proof fn lemma_raw_number_range(zp: ZpState, bits: nat)
    ensures
        0 <= raw_number(zp, bits).0 < pow2(bits),
    decreases bits,
{
    if bits == 0 {
        lemma2_to64();
    } else {
        lemma_raw_number_range(zp, (bits - 1) as nat);
        lemma_pow2_unfold(bits);
    }
}

impl<'a> View for BzzDecoder<'a> {
    type V = ZpState;

    closed spec fn view(&self) -> ZpState {
        self.bits@
    }
}

impl<'a> BzzDecoder<'a> {
    /// The decoder can read on.
    pub closed spec fn wf(&self) -> bool {
        self.bits.wf()
    }

    /// A decoder at the start of its bytes.
    pub fn new(bytes: &'a [u8]) -> (decoder: Self)
        ensures
            decoder.wf(),
            decoder@ == zp_start(bytes@),
    {
        BzzDecoder { bits: ZpBitReader::new(bytes) }
    }

    /// Reads a number of raw bits.
    fn next_number(&mut self, bits: u32) -> (value: u32)
        requires
            old(self).wf(),
            bits <= 24,
        ensures
            final(self).wf(),
            (value as int, final(self)@) == raw_number(old(self)@, bits as nat),
            value < pow2(bits as nat),
    {
        let mut value: u32 = 0;
        let mut taken: u32 = 0;
        while taken < bits
            invariant
                taken <= bits,
                bits <= 24,
                self.wf(),
                (value as int, self@) == raw_number(old(self)@, taken as nat),
            decreases bits - taken,
        {
            proof {
                lemma_raw_number_range(old(self)@, taken as nat);
                lemma_pow2_strictly_increases(taken as nat, 24);
                lemma2_to64();
            }
            let bit: u8 = self.bits.read_raw_bit();
            value = 2 * value + bit as u32;
            taken = taken + 1;
        }
        proof {
            lemma_raw_number_range(old(self)@, bits as nat);
        }
        value
    }

    /// Reads the length of a block.
    pub fn next_block_len(&mut self) -> (len: usize)
        requires
            old(self).wf(),
        ensures
            final(self).wf(),
            (len as int, final(self)@) == raw_number(old(self)@, 24),
            len < 0x100_0000,
    {
        proof {
            lemma2_to64();
        }
        self.next_number(24) as usize
    }

    /// Reads the `FSHIFT` of a block.
    pub fn next_fshift(&mut self) -> (fshift: BzzResult<u8>)
        requires
            old(self).wf(),
        ensures
            final(self).wf(),
            final(self)@ == raw_number(old(self)@, 2).1,
            raw_number(old(self)@, 2).0 <= 2 ==> fshift is Ok && fshift->Ok_0 == raw_number(
                old(self)@,
                2,
            ).0,
            raw_number(old(self)@, 2).0 > 2 ==> fshift is Err && fshift->Err_0@ == (
            BzzFault::InvalidFshift { value: raw_number(old(self)@, 2).0 }),
    {
        proof {
            lemma2_to64();
        }
        let value: u8 = self.next_number(2) as u8;
        if value > 2 {
            return Err(BzzError::InvalidFshift { value });
        }
        Ok(value)
    }

    /// Reads the ranks of a block.
    pub fn decode_block_ranks(&mut self, block_len: usize) -> (ranks: BzzResult<Vec<usize>>)
        requires
            old(self).wf(),
        ensures
            final(self).wf(),
            list_outcome(ranks) == block_ranks(old(self)@, block_len as nat),
    {
        let mut decoder = EntropyRankDecoder::new(self.bits);
        let ranks = collect_block_ranks(block_len, &mut decoder);
        self.bits = decoder.into_bits();
        ranks
    }
}

/// Decodes bytes without the help of a tool.
pub fn decode_bzz_in_memory(bytes: &[u8]) -> (decoded: BzzResult<Vec<u8>>)
    ensures
        list_outcome(decoded) == bzz_bytes(bytes@),
{
    let mut decoder = BzzDecoder::new(bytes);
    let block_size: usize = decoder.next_block_len();
    if block_size == 0 {
        let empty: Vec<u8> = Vec::new();
        assert(empty@ =~= Seq::<u8>::empty());
        return Ok(empty);
    }
    if block_size > MAX_BLOCK_BYTES {
        return Err(BzzError::UnsupportedBlockSize { size: block_size });
    }
    let fshift: u8 = match decoder.next_fshift() {
        Err(error) => {
            return Err(error);
        },
        Ok(fshift) => fshift,
    };
    let ranks: Vec<usize> = match decoder.decode_block_ranks(block_size) {
        Err(error) => {
            return Err(error);
        },
        Ok(ranks) => ranks,
    };
    decode_block_from_ranks(block_size, fshift, ranks.as_slice())
}

/// Decodes bytes. Where the decoder fails on them, what the `bzz` tool makes of the same
/// bytes takes the place of its own result, if it is given.
pub fn decode_bzz(bytes: &[u8], tool_output: Option<&[u8]>) -> (decoded: BzzResult<Vec<u8>>)
    ensures
        list_outcome(decoded) == bzz_decoded(bytes@, given(tool_output)),
{
    let decoded = decode_bzz_in_memory(bytes);
    let needs_tool: bool = match &decoded {
        Err(
            BzzError::IncompleteDecoder(_)
            | BzzError::MissingBwtMarker
            | BzzError::DuplicateBwtMarker
            | BzzError::InvalidSymbolRank { .. }
            | BzzError::InvalidBwtMarker { .. }
            | BzzError::InvalidBwtTransform
            | BzzError::InvalidFshift { .. },
        ) => true,
        _ => false,
    };
    if needs_tool {
        match tool_output {
            Some(output) => {
                let mut copy: Vec<u8> = Vec::new();
                push_bytes(&mut copy, output);
                assert(copy@ =~= output@);
                Ok(copy)
            },
            None => Err(BzzError::ToolRequired),
        }
    } else {
        decoded
    }
}

/// Decodes the tail of a directory.
pub fn decode_dirm_tail(bytes: &[u8], dirm: &Dirm, tool_output: Option<&[u8]>) -> (decoded:
    BzzResult<Vec<u8>>)
    ensures
        list_outcome(decoded) == dirm_tail_decoded(bytes@, dirm@, given(tool_output)),
{
    match dirm.compressed_tail(bytes) {
        Err(error) => Err(BzzError::DirmTail(error)),
        Ok(tail) => decode_bzz(tail, tool_output),
    }
}

} // verus!
