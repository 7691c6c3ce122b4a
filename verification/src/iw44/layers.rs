//! What the headers of a layer say of its decoding.

use super::decoder::{image_fits, image_pixels};
use super::header::{
    chunk_header, layer_headers, layer_summary, payload_total, slice_total, Iw44ChunkHeader,
};
use super::shape::{lemma_slices_cover, shaped};
use crate::render::plan::decode_all;
use vstd::prelude::*;

verus! {

/// Whether the first chunks of a layer have headers, and come in their turns.
pub open spec fn in_turn(chunks: Seq<Seq<u8>>, count: int) -> bool {
    forall|i: int|
        0 <= i < count ==> chunk_header(#[trigger] chunks[i]) is Ok && chunk_header(
            chunks[i],
        )->Ok_0.serial == i
}

/// The headers of the first chunks of a layer.
pub open spec fn headers_in_order(chunks: Seq<Seq<u8>>, count: int) -> Seq<Iw44ChunkHeader> {
    Seq::new(count as nat, |i: int| chunk_header(chunks[i])->Ok_0)
}

proof fn lemma_headers(chunks: Seq<Seq<u8>>, count: int)
    requires
        0 <= count <= chunks.len(),
    ensures
        layer_headers(chunks, count) is Ok <==> count <= 256 && in_turn(chunks, count),
        layer_headers(chunks, count) is Ok ==> layer_headers(chunks, count)->Ok_0
            == headers_in_order(chunks, count),
    decreases count,
{
    if count > 0 {
        lemma_headers(chunks, count - 1);
        let last = chunk_header(chunks[count - 1]);
        if layer_headers(chunks, count) is Ok {
            assert(headers_in_order(chunks, count) =~= headers_in_order(chunks, count - 1).push(
                last->Ok_0,
            ));
        }
        if count <= 256 && in_turn(chunks, count) {
            assert(in_turn(chunks, count - 1));
            assert(last is Ok && last->Ok_0.serial == count - 1);
        }
    } else {
        assert(headers_in_order(chunks, 0) =~= Seq::empty());
    }
}

/// A layer is summed up exactly if it has chunks, at most 256, with headers and in their
/// turns. What is told is then these headers, the image of the first, and their totals.
pub proof fn lemma_summed_up(chunks: Seq<Seq<u8>>)
    ensures
        layer_summary(chunks) is Ok <==> 1 <= chunks.len() <= 256 && in_turn(
            chunks,
            chunks.len() as int,
        ),
        layer_summary(chunks) matches Ok(summary) ==> {
            &&& summary.chunks == headers_in_order(chunks, chunks.len() as int)
            &&& summary.chunks[0].image == Some(summary.image)
            &&& summary.total_slices == slice_total(summary.chunks, chunks.len() as int)
            &&& summary.total_payload_bytes == payload_total(summary.chunks, chunks.len() as int)
        },
{
    lemma_headers(chunks, chunks.len() as int);
}

proof fn lemma_decoded_in_order(chunks: Seq<Seq<u8>>, count: int, headers: Seq<Iw44ChunkHeader>)
    requires
        0 <= count <= chunks.len() <= 256,
        in_turn(chunks, count),
        headers.len() == chunks.len(),
        forall|i: int|
            0 <= i < count ==> #[trigger] headers[i] == chunk_header(chunks[i])->Ok_0,
        count > 0 ==> image_fits(headers[0].image->0),
    ensures
        decode_all(chunks, count) matches Ok(model) && {
            &&& shaped(model)
            &&& model.chunks == count
            &&& 0 <= model.slices <= 255 * count
            &&& model.slices == slice_total(headers, count)
            &&& model.payload == payload_total(headers, count)
        },
    decreases count,
{
    if count > 0 {
        lemma_decoded_in_order(chunks, count - 1, headers);
        let before = decode_all(chunks, count - 1)->Ok_0;
        let bytes = chunks[count - 1];
        assert(headers[count - 1] == chunk_header(bytes)->Ok_0);
        assert(chunk_header(bytes)->Ok_0.serial == count - 1);
        lemma_slices_cover(before, bytes, None);
    }
}

/// Decoding the chunks of a layer in order ends with as many slices, and as many bytes of
/// payload, as the headers say, and with an image.
pub proof fn lemma_decoded_as_summed_up(chunks: Seq<Seq<u8>>)
    requires
        layer_summary(chunks) is Ok,
        image_fits(layer_summary(chunks)->Ok_0.image),
    ensures
        ({
            let summary = layer_summary(chunks)->Ok_0;
            let outcome = decode_all(chunks, chunks.len() as int);
            &&& outcome is Ok
            &&& outcome->Ok_0.slices == summary.total_slices
            &&& outcome->Ok_0.payload == summary.total_payload_bytes
            &&& outcome->Ok_0.chunks == chunks.len()
            &&& image_pixels(outcome->Ok_0) is Ok
        }),
{
    lemma_summed_up(chunks);
    let headers = layer_summary(chunks)->Ok_0.chunks;
    lemma_decoded_in_order(chunks, chunks.len() as int, headers);
}

} // verus!
