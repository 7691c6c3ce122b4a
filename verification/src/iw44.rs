//! IW44 wavelet images.

pub mod bands;
pub mod blocks;
pub mod closing;
pub mod color;
pub mod decoder;
pub mod header;
pub mod layers;
pub mod lifting;
pub mod planes;
pub mod shades;
pub mod shape;
pub mod slice;
pub mod smooth;
pub mod totals;
pub mod tracing;
pub mod turns;
pub mod wavelet;

use crate::text::text_of;
use crate::zp::{zp_context_bit, zp_iw44_passthrough_bit, zp_start, SpecZpDecoder, ZpState};
use vstd::prelude::*;

verus! {

/// The planes of an image: luminance and two of chrominance.
#[derive(Debug, Clone, Copy, Eq, PartialEq, Structural)]
pub enum Iw44Plane {
    Y,
    Cb,
    Cr,
}

/// Which lines of a plane are transformed first.
#[derive(Debug, Clone, Copy, Eq, PartialEq, Structural)]
pub enum Iw44ReconstructionOrder {
    ColumnsThenRows,
    RowsThenColumns,
}

/// How much of a plane is transformed.
#[derive(Debug, Clone, Copy, Eq, PartialEq, Structural)]
pub enum Iw44ReconstructionExtent {
    Visible,
    Padded,
}

/// The samples of a plane.
#[derive(Debug, Clone, Eq, PartialEq)]
pub struct Iw44ReconstructionPlane {
    pub plane: Iw44Plane,
    pub width: usize,
    pub height: usize,
    pub samples: Vec<i16>,
}

/// An image of red, green and blue, row by row from the top.
#[derive(Debug, Clone, Eq, PartialEq)]
pub struct Iw44RgbImage {
    pub width: usize,
    pub height: usize,
    pub pixels: Vec<u8>,
}

/// Why an IW44 image could not be decoded.
#[derive(Debug, Clone, Eq, PartialEq)]
pub struct Iw44Error(pub String);

impl View for Iw44Error {
    type V = Seq<char>;

    open spec fn view(&self) -> Seq<char> {
        self.0@
    }
}

impl Iw44Error {
    /// An error with the given message.
    pub fn new(message: &str) -> (error: Self)
        ensures
            error@ == message@,
    {
        Iw44Error(text_of(message))
    }

    /// The message.
    pub fn message(&self) -> (message: &str)
        ensures
            message@ == self@,
    {
        self.0.as_str()
    }
}

/// What a slice did to one plane.
#[derive(Debug, Clone, Copy, Eq, PartialEq, Structural)]
pub struct Iw44PlaneSlice {
    pub plane: Iw44Plane,
    pub band: u8,
    pub first_bucket: u8,
    pub last_bucket: u8,
    pub quant: u32,
    pub is_null: bool,
    pub block_count: usize,
    pub scheduled_bucket_count: usize,
}

/// A coefficient whose decoding is traced.
#[derive(Debug, Clone, Copy, Eq, PartialEq, Structural)]
pub struct Iw44CoefficientTraceTarget {
    pub plane: Iw44Plane,
    pub block: usize,
    pub coefficient: usize,
}

/// What happened at a coefficient that is traced.
#[derive(Debug, Clone, Copy, Eq, PartialEq, Structural)]
pub enum Iw44CoefficientEventKind {
    BucketDecision { context: usize, decision: bool, block_state: u8, bucket_state: u8 },
    ActivationDecision { context: usize, decision: bool, unknown_count: usize },
    Activated { sign: i32 },
    RefinementDecision { context_coded: bool, decision: bool, magnitude: i32 },
    Refined,
}

/// An event at a coefficient that is traced.
#[derive(Debug, Clone, Copy, Eq, PartialEq, Structural)]
pub struct Iw44CoefficientEvent {
    pub slice_index: u32,
    pub plane: Iw44Plane,
    pub band: u8,
    pub block: usize,
    pub coefficient: usize,
    pub bucket: usize,
    pub bucket_offset: usize,
    pub quant: u32,
    pub before: i16,
    pub after: i16,
    pub kind: Iw44CoefficientEventKind,
}

/// The coded bits of a chunk.
pub struct Iw44Bitstream<'a> {
    pub zp: SpecZpDecoder<'a>,
}

impl<'a> View for Iw44Bitstream<'a> {
    type V = ZpState;

    open spec fn view(&self) -> ZpState {
        self.zp@
    }
}

impl<'a> Iw44Bitstream<'a> {
    /// The decoder stands between two decisions.
    pub open spec fn wf(&self) -> bool {
        self.zp.wf()
    }

    /// Starts decoding.
    #[must_use]
    pub fn new(payload: &'a [u8]) -> (bitstream: Self)
        ensures
            bitstream.wf(),
            bitstream@ == zp_start(payload@),
    {
        Iw44Bitstream { zp: SpecZpDecoder::new(payload) }
    }

    /// Decodes a bit without a context.
    pub fn decode_passthrough_bit(&mut self) -> (bit: bool)
        requires
            old(self).wf(),
        ensures
            final(self).wf(),
            (bit, final(self)@) == zp_iw44_passthrough_bit(old(self)@),
    {
        self.zp.decode_iw44_passthrough_bit()
    }

    /// Decodes a bit in a context.
    pub fn decode_context_bit(&mut self, context: &mut u8) -> (bit: bool)
        requires
            old(self).wf(),
        ensures
            final(self).wf(),
            (bit, final(self)@, *final(context)) == zp_context_bit(old(self)@, *old(context)),
    {
        self.zp.decode_context_bit(context)
    }
}

} // verus!
