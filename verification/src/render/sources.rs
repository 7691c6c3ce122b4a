//! From which chunks the parts of a page come.

use super::plan::{
    chunk_data, data_of, decode_all, dictionary_of, headers_of, images_of, layer_of, partial_masks_of, payloads_at,
    prefixes_of, Iw44LayerRole, MaskModel, PrefixModel,
};
use crate::document::ResolvedModel;
use crate::info::PageInfo;
use crate::iw44::decoder::{
    blank_decoder, chroma_extent, decoded_chunk, entered, run_slice, run_slices, ChunkRun,
};
use crate::iw44::header::{chunk_header, layer_headers, Iw44ImageHeader};
use crate::iw44::shape::{lemma_decoders_are_shaped, lemma_slices_cover, shaped};
use crate::iw44::Iw44CoefficientTraceTarget;
use crate::jb2::decoder::{jb2_header, jb2_start};
use crate::jb2::symbol::Symbol;
use crate::jb2::{jb2_dictionary, jb2_prefix, jb2_render, jb2_render_all, Jb2ImageHeader};
use vstd::prelude::*;

verus! {

/// Of several dictionaries the last one counts.
pub proof fn lemma_last_dictionary_counts(payloads: Seq<(usize, Seq<u8>)>)
    requires
        dictionary_of(payloads, payloads.len() as int) is Ok,
    ensures
        ({
            let dictionary = dictionary_of(payloads, payloads.len() as int)->Ok_0;
            &&& payloads.len() == 0 ==> dictionary is None
            &&& payloads.len() > 0 ==> {
                &&& dictionary is Some
                &&& jb2_dictionary(payloads.last().1, None) == Ok::<Seq<Symbol>, Seq<char>>(
                    dictionary->Some_0,
                )
            }
        }),
{
}

/// The masks of a page are its bitonal images in their order, each decoded with the dictionary.
pub proof fn lemma_masks_in_order(
    payloads: Seq<(usize, Seq<u8>)>,
    dictionary: Option<Seq<Symbol>>,
    count: int,
    index: int,
)
    requires
        0 <= index < count <= payloads.len(),
        images_of(payloads, dictionary, count) is Ok,
    ensures
        ({
            let masks = images_of(payloads, dictionary, count)->Ok_0;
            &&& masks.len() == count
            &&& masks[index].0 == payloads[index].0
            &&& jb2_render_all(payloads[index].1, dictionary) == Ok::<MaskModel, Seq<char>>(
                masks[index].1,
            )
        }),
    decreases count,
{
    lemma_masks_counted(payloads, dictionary, count);
    if index < count - 1 {
        lemma_masks_in_order(payloads, dictionary, count - 1, index);
    }
}

proof fn lemma_masks_counted(
    payloads: Seq<(usize, Seq<u8>)>,
    dictionary: Option<Seq<Symbol>>,
    count: int,
)
    requires
        0 <= count <= payloads.len(),
        images_of(payloads, dictionary, count) is Ok,
    ensures
        images_of(payloads, dictionary, count)->Ok_0.len() == count,
        count > 0 ==> images_of(payloads, dictionary, count - 1) is Ok
            && images_of(payloads, dictionary, count - 1)->Ok_0.len() == count - 1,
    decreases count,
{
    if count > 0 {
        lemma_masks_counted(payloads, dictionary, count - 1);
    }
}

/// The data of chunks is that of the file between their ends, in the order of the list, if all of
/// it lies in the file.
pub proof fn lemma_payloads_in_order(
    bytes: Seq<u8>,
    chunks: Seq<ResolvedModel>,
    indices: Seq<usize>,
    count: int,
    at: int,
)
    requires
        0 <= at < count <= indices.len(),
        forall|i: int|
            0 <= i < count ==> (#[trigger] indices[i]) < chunks.len()
                && chunks[indices[i] as int].chunk.chunk.data_start
                <= chunks[indices[i] as int].chunk.chunk.data_end <= bytes.len(),
    ensures
        ({
            let payloads = payloads_at(bytes, chunks, indices, count);
            let chunk = chunks[indices[at] as int].chunk.chunk;
            &&& payloads.len() == count
            &&& payloads[at].0 == indices[at]
            &&& payloads[at].1 == bytes.subrange(chunk.data_start as int, chunk.data_end as int)
        }),
    decreases count,
{
    lemma_payloads_counted(bytes, chunks, indices, count - 1);
    assert(indices[count - 1] < chunks.len());
    if at < count - 1 {
        lemma_payloads_in_order(bytes, chunks, indices, count - 1, at);
    }
}

proof fn lemma_payloads_counted(
    bytes: Seq<u8>,
    chunks: Seq<ResolvedModel>,
    indices: Seq<usize>,
    count: int,
)
    requires
        0 <= count <= indices.len(),
        forall|i: int|
            0 <= i < count ==> (#[trigger] indices[i]) < chunks.len()
                && chunks[indices[i] as int].chunk.chunk.data_start
                <= chunks[indices[i] as int].chunk.chunk.data_end <= bytes.len(),
    ensures
        payloads_at(bytes, chunks, indices, count).len() == count,
    decreases count,
{
    if count > 0 {
        lemma_payloads_counted(bytes, chunks, indices, count - 1);
        assert(indices[count - 1] < chunks.len());
        assert(chunk_data(bytes, chunks, indices[count - 1] as int) is Some);
    }
}

/// A page has a layer exactly where it has chunks of it; the layer lists those chunks, and is
/// scaled to the size of the page.
pub proof fn lemma_layer_of_chunks(
    info: PageInfo,
    payloads: Seq<(usize, Seq<u8>)>,
    role: Iw44LayerRole,
)
    requires
        layer_of(info, payloads, role) is Ok,
    ensures
        ({
            let layer = layer_of(info, payloads, role)->Ok_0;
            &&& layer is Some <==> payloads.len() > 0
            &&& layer matches Some(layer) ==> {
                &&& layer.role == role
                &&& layer.chunk_indices.len() == payloads.len()
                &&& forall|i: int|
                    0 <= i < payloads.len() ==> #[trigger] layer.chunk_indices[i] == payloads[i].0
                &&& layer.mapping.page_width == info.width
                &&& layer.mapping.page_height == info.height
                &&& layer.mapping.layer_width == layer.summary.image.width
                &&& layer.mapping.layer_height == layer.summary.image.height
            }
        }),
{
}

/// The headers of bitonal images are told in the order of the images, each under the number
/// of its chunk, as reading that image alone tells it.
pub proof fn lemma_headers_in_order(payloads: Seq<(usize, Seq<u8>)>, count: int)
    requires
        0 <= count <= payloads.len(),
    ensures
        headers_of(payloads, count) matches Ok(headers) ==> {
            &&& headers.len() == count
            &&& forall|i: int|
                0 <= i < count ==> (#[trigger] headers[i]).index == payloads[i].0 && jb2_header(
                    jb2_start(payloads[i].1),
                ).1 == Ok::<Jb2ImageHeader, Seq<char>>(headers[i].header)
        },
        headers_of(payloads, count) is Ok <==> forall|i: int|
            0 <= i < count ==> (#[trigger] payloads[i]).1.len() >= 2 && jb2_header(
                jb2_start(payloads[i].1),
            ).1 is Ok,
    decreases count,
{
    if count > 0 {
        lemma_headers_in_order(payloads, count - 1);
        let last = payloads[count - 1];
        if headers_of(payloads, count) is Ok {
            let before = headers_of(payloads, count - 1)->Ok_0;
            let headers = headers_of(payloads, count)->Ok_0;
            assert forall|i: int| 0 <= i < count implies (#[trigger] headers[i]).index
                == payloads[i].0 && jb2_header(jb2_start(payloads[i].1)).1 == Ok::<
                Jb2ImageHeader,
                Seq<char>,
            >(headers[i].header) by {
                if i < count - 1 {
                    assert(headers[i] == before[i]);
                }
            }
        }
    }
}

/// The first records of bitonal images are told in the order of the images, each under the
/// number of its chunk, as reading that image alone tells them.
pub proof fn lemma_prefixes_in_order(
    payloads: Seq<(usize, Seq<u8>)>,
    limit: int,
    count: int,
)
    requires
        0 <= count <= payloads.len(),
    ensures
        prefixes_of(payloads, limit, count) matches Ok(prefixes) ==> {
            &&& prefixes.len() == count
            &&& forall|i: int|
                0 <= i < count ==> (#[trigger] prefixes[i]).0 == payloads[i].0 && jb2_prefix(
                    payloads[i].1,
                    limit,
                ) == Ok::<PrefixModel, Seq<char>>(prefixes[i].1)
        },
        prefixes_of(payloads, limit, count) is Ok <==> forall|i: int|
            0 <= i < count ==> jb2_prefix((#[trigger] payloads[i]).1, limit) is Ok,
    decreases count,
{
    if count > 0 {
        lemma_prefixes_in_order(payloads, limit, count - 1);
        let last = payloads[count - 1];
        if prefixes_of(payloads, limit, count - 1) is Ok && jb2_prefix(last.1, limit) is Ok {
            let before = prefixes_of(payloads, limit, count - 1)->Ok_0;
            let prefixes = prefixes_of(payloads, limit, count)->Ok_0;
            assert forall|i: int| 0 <= i < count implies (#[trigger] prefixes[i]).0
                == payloads[i].0 && jb2_prefix(payloads[i].1, limit) == Ok::<
                PrefixModel,
                Seq<char>,
            >(prefixes[i].1) by {
                if i < count - 1 {
                    assert(prefixes[i] == before[i]);
                }
            }
        }
    }
}

/// What the first records of bitonal images paint is told in the order of the images, each
/// under the number of its chunk, as painting that image alone gives it.
pub proof fn lemma_partial_masks_in_order(
    payloads: Seq<(usize, Seq<u8>)>,
    limit: int,
    count: int,
)
    requires
        0 <= count <= payloads.len(),
    ensures
        partial_masks_of(payloads, limit, count) matches Ok(masks) ==> {
            &&& masks.len() == count
            &&& forall|i: int|
                0 <= i < count ==> (#[trigger] masks[i]).0 == payloads[i].0 && jb2_render(
                    payloads[i].1,
                    limit,
                    None,
                ) == Ok::<MaskModel, Seq<char>>(masks[i].1)
        },
        partial_masks_of(payloads, limit, count) is Ok <==> forall|i: int|
            0 <= i < count ==> jb2_render((#[trigger] payloads[i]).1, limit, None) is Ok,
    decreases count,
{
    if count > 0 {
        lemma_partial_masks_in_order(payloads, limit, count - 1);
        let last = payloads[count - 1];
        if partial_masks_of(payloads, limit, count - 1) is Ok && jb2_render(
            last.1,
            limit,
            None,
        ) is Ok {
            let before = partial_masks_of(payloads, limit, count - 1)->Ok_0;
            let masks = partial_masks_of(payloads, limit, count)->Ok_0;
            assert forall|i: int| 0 <= i < count implies (#[trigger] masks[i]).0 == payloads[i].0
                && jb2_render(payloads[i].1, limit, None) == Ok::<MaskModel, Seq<char>>(
                masks[i].1,
            ) by {
                if i < count - 1 {
                    assert(masks[i] == before[i]);
                }
            }
        }
    }
}

proof fn lemma_slices_keep_image(
    run: ChunkRun,
    image: Iw44ImageHeader,
    target: Option<Iw44CoefficientTraceTarget>,
    left: int,
)
    ensures
        run_slices(run, image, target, left).model.image == run.model.image,
    decreases left,
{
    if left > 0 {
        lemma_slices_keep_image(run_slice(run, image, target), image, target, left - 1);
    }
}

/// An image is of the kind and the size that its first chunk says, however many chunks refine
/// it, and its luminance plane has a sample for every pixel of it.
pub proof fn lemma_image_of_first_chunk(chunks: Seq<Seq<u8>>, count: int)
    requires
        0 < count <= chunks.len(),
        decode_all(chunks, count) is Ok,
    ensures
        ({
            let model = decode_all(chunks, count)->Ok_0;
            &&& chunk_header(chunks[0]) is Ok
            &&& chunk_header(chunks[0])->Ok_0.image is Some
            &&& model.image == chunk_header(chunks[0])->Ok_0.image
            &&& model.y.width == model.image->0.width
            &&& model.y.height == model.image->0.height
        }),
{
    lemma_decoded_so_far(chunks, count);
}

proof fn lemma_decoded_so_far(chunks: Seq<Seq<u8>>, count: int)
    requires
        0 <= count <= chunks.len(),
        decode_all(chunks, count) is Ok,
    ensures
        ({
            let model = decode_all(chunks, count)->Ok_0;
            &&& shaped(model)
            &&& model.chunks == count
            &&& 0 <= model.slices <= 255 * model.chunks
            &&& count > 0 ==> {
                &&& chunk_header(chunks[0]) is Ok
                &&& model.image is Some
                &&& model.image == chunk_header(chunks[0])->Ok_0.image
            }
        }),
    decreases count,
{
    if count == 0 {
        lemma_decoders_are_shaped(blank_decoder(), Seq::empty(), None);
    } else {
        lemma_decoded_so_far(chunks, count - 1);
        let before = decode_all(chunks, count - 1)->Ok_0;
        let bytes = chunks[count - 1];
        lemma_slices_cover(before, bytes, None);
        let header = chunk_header(bytes)->Ok_0;
        let start = entered(before, header);
        let run = ChunkRun {
            model: start,
            zp: crate::zp::zp_start(bytes.skip(header.payload_start as int)),
            events: Seq::empty(),
            reports: Seq::empty(),
            states: Seq::empty(),
        };
        lemma_slices_keep_image(run, start.image->0, None, header.slices as int);
        assert(decoded_chunk(before, bytes, None)->Ok_0.1.model.image == start.image);
    }
}

proof fn lemma_first_header(chunks: Seq<Seq<u8>>, count: int)
    requires
        0 < count <= chunks.len(),
        layer_headers(chunks, count) is Ok,
    ensures
        layer_headers(chunks, count)->Ok_0.len() == count,
        chunk_header(chunks[0]) is Ok,
        layer_headers(chunks, count)->Ok_0[0] == chunk_header(chunks[0])->Ok_0,
    decreases count,
{
    if count > 1 {
        lemma_first_header(chunks, count - 1);
    } else {
        assert(layer_headers(chunks, 0)->Ok_0.len() == 0);
    }
}

/// The image of a layer is as wide and as high as the summary of the layer says, and as the
/// layer is taken to be where it lies on the page.
pub proof fn lemma_layer_is_as_large_as_told(
    info: PageInfo,
    payloads: Seq<(usize, Seq<u8>)>,
    role: Iw44LayerRole,
)
    ensures
        layer_of(info, payloads, role) matches Ok(Some(layer)) ==> {
            &&& layer.image.width == layer.summary.image.width
            &&& layer.image.height == layer.summary.image.height
            &&& layer.image.width == layer.mapping.layer_width
            &&& layer.image.height == layer.mapping.layer_height
        },
{
    if let Ok(Some(layer)) = layer_of(info, payloads, role) {
        let chunks = data_of(payloads);
        let count = chunks.len() as int;
        assert(count == payloads.len() && count > 0);
        lemma_image_of_first_chunk(chunks, count);
        lemma_first_header(chunks, count);
    }
}

/// Half of an extent is rounded up: so many chrominance samples stand for two pixels each, the
/// last perhaps for one.
pub proof fn lemma_half_extent(extent: int)
    requires
        0 <= extent,
    ensures
        extent <= 2 * chroma_extent(extent, true) <= extent + 1,
        chroma_extent(extent, false) == extent,
{
}

} // verus!
