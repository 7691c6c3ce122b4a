//! The plan of a page in words.

use super::words::{
    field, flag, padded, push_field, push_flag, push_padded, push_padded_number,
};
use super::{format_jb2_record_geometry, format_page_chunk_source, geometry_text, source_text};
use crate::bitonal::{ones, BitonalBitmap};
use crate::bitstream::{bit_of, byte_bit};
use crate::document::{resolved_view, ResolvedModel, ResolvedPageChunk};
use crate::info::PageInfo;
use crate::iw44::header::{
    chunk_header, read_iw44_chunk_header, Iw44ChunkHeader, Iw44ImageHeader, Iw44PageMapping,
    SummaryModel,
};
use crate::iw44::Iw44Error;
use crate::jb2::{
    kind_name as record_kind_name, stopping_record, Jb2PartialImage, Jb2RecordPrefix,
    Jb2RecordSummary,
};
use crate::page::kind_name as chunk_kind_name;
use crate::render::plan::{
    headers_of, mask_shows, masks_of, masks_show, page_mapping_of, payloads_of, payloads_view,
    prefixes_of, prefixes_show, summary_of, BitonalImageHeader, Iw44LayerGeometry, MaskModel,
    PageRenderPlan, PlanModel, PrefixModel, RenderChunkPayload,
};
use crate::text::{decimal, text_of};
use vstd::prelude::*;

verus! {

/// How many records of a bitonal image are shown.
pub const PLAN_RECORD_LIMIT: usize = 8;

/// What a page says of itself.
pub open spec fn info_text(info: PageInfo) -> Seq<char> {
    field("INFO: "@, info.width as int) + field("x"@, info.height as int) + field(
        " dpi="@,
        info.dpi as int,
    ) + field(" gamma="@, info.gamma_tenths as int / 10) + field(
        "."@,
        info.gamma_tenths as int % 10,
    ) + field(" version="@, info.version as int) + field(" rotation="@, info.rotation as int)
        + "\n"@
}

/// Appends what a page says of itself.
fn push_info(text: &mut String, info: &PageInfo)
    ensures
        final(text)@ == old(text)@ + info_text(*info),
{
    let ghost before = text@;
    push_field(text, "INFO: ", info.width as u64);
    push_field(text, "x", info.height as u64);
    push_field(text, " dpi=", info.dpi as u64);
    push_field(text, " gamma=", (info.gamma_tenths / 10) as u64);
    push_field(text, ".", (info.gamma_tenths % 10) as u64);
    push_field(text, " version=", info.version as u64);
    push_field(text, " rotation=", info.rotation as u64);
    text.append("\n");
    assert(text@ =~= before + info_text(*info));
}

/// How many chunks there are for each use.
pub open spec fn uses_text(plan: PlanModel) -> Seq<char> {
    field("layers: bitonal dictionaries="@, plan.bitonal_dictionaries.len() as int) + field(
        " bitonal images="@,
        plan.bitonal_images.len() as int,
    ) + field(" foreground="@, plan.foreground_layers.len() as int) + field(
        " background="@,
        plan.background_layers.len() as int,
    ) + field(" text="@, plan.text_chunks.len() as int) + field(
        " unknown="@,
        plan.unknown_chunks.len() as int,
    ) + flag(
        "\nhas image data: "@,
        plan.bitonal_images.len() > 0 || plan.foreground_layers.len() > 0
            || plan.background_layers.len() > 0,
    ) + flag("\nhas text: "@, plan.text_chunks.len() > 0) + "\n"@
}

/// Appends how many chunks there are for each use.
fn push_uses(text: &mut String, plan: &PageRenderPlan<'_>)
    ensures
        final(text)@ == old(text)@ + uses_text(plan@),
{
    let ghost before = text@;
    push_field(text, "layers: bitonal dictionaries=", plan.bitonal_dictionaries.len() as u64);
    push_field(text, " bitonal images=", plan.bitonal_images.len() as u64);
    push_field(text, " foreground=", plan.foreground_layers.len() as u64);
    push_field(text, " background=", plan.background_layers.len() as u64);
    push_field(text, " text=", plan.text_chunks.len() as u64);
    push_field(text, " unknown=", plan.unknown_chunks.len() as u64);
    push_flag(text, "\nhas image data: ", plan.has_image_data());
    push_flag(text, "\nhas text: ", plan.has_text());
    text.append("\n");
    assert(text@ =~= before + uses_text(plan@));
}

/// A remark on what is not there, and why.
pub open spec fn unavailable(what: Seq<char>, why: Seq<char>) -> Seq<char> {
    what + ": unavailable ("@ + why + ")\n"@
}

/// Appends a remark on what is not there, and why.
fn push_unavailable(text: &mut String, what: &str, why: &str)
    ensures
        final(text)@ == old(text)@ + unavailable(what@, why@),
{
    let ghost before = text@;
    text.append(what);
    text.append(": unavailable (");
    text.append(why);
    text.append(")\n");
    assert(text@ =~= before + unavailable(what@, why@));
}

/// The header of a bitonal image.
pub open spec fn header_text(image: BitonalImageHeader) -> Seq<char> {
    field("bitonal image #"@, image.index as int) + field(": JB2 "@, image.header.width as int)
        + field("x"@, image.header.height as int) + field(
        " inherited_dict_symbols="@,
        image.header.inherited_dictionary_symbols as int,
    ) + "\n"@
}

/// The headers of the first `count` bitonal images.
pub open spec fn headers_text(images: Seq<BitonalImageHeader>, count: int) -> Seq<char>
    decreases count,
{
    if count <= 0 {
        Seq::empty()
    } else {
        headers_text(images, count - 1) + header_text(images[count - 1])
    }
}

/// The headers of the bitonal images, or why there are none.
pub open spec fn all_headers_text(plan: PlanModel, bytes: Seq<u8>) -> Seq<char> {
    let payloads = payloads_of(plan, bytes, plan.bitonal_images);
    match headers_of(payloads, payloads.len() as int) {
        Ok(images) => headers_text(images, images.len() as int),
        Err(message) => unavailable("bitonal image headers"@, message),
    }
}

/// Appends the headers of the bitonal images.
fn push_headers(text: &mut String, plan: &PageRenderPlan<'_>, bytes: &[u8])
    ensures
        final(text)@ == old(text)@ + all_headers_text(plan@, bytes@),
{
    let ghost before = text@;
    match plan.bitonal_image_headers(bytes) {
        Err(error) => {
            push_unavailable(text, "bitonal image headers", error.message());
        },
        Ok(images) => {
            let mut i: usize = 0;
            assert(text@ =~= before + headers_text(images@, 0));
            while i < images.len()
                invariant
                    i <= images@.len(),
                    text@ == before + headers_text(images@, i as int),
                decreases images@.len() - i,
            {
                let ghost so_far = text@;
                push_field(text, "bitonal image #", images[i].index as u64);
                push_field(text, ": JB2 ", images[i].header.width as u64);
                push_field(text, "x", images[i].header.height as u64);
                push_field(
                    text,
                    " inherited_dict_symbols=",
                    images[i].header.inherited_dictionary_symbols as u64,
                );
                text.append("\n");
                assert(text@ =~= so_far + header_text(images@[i as int]));
                i = i + 1;
                assert(text@ =~= before + headers_text(images@, i as int));
            }
        },
    }
}

/// A record of a bitonal image.
pub open spec fn record_text(record: Jb2RecordSummary) -> Seq<char> {
    "  rec #"@ + padded(decimal(record.index as nat), 3) + " "@ + padded(
        record_kind_name(record.kind),
        27,
    ) + geometry_text(record) + "\n"@
}

/// The first `count` records of a bitonal image.
pub open spec fn records_text(records: Seq<Jb2RecordSummary>, count: int) -> Seq<char>
    decreases count,
{
    if count <= 0 {
        Seq::empty()
    } else {
        records_text(records, count - 1) + record_text(records[count - 1])
    }
}

/// The smaller number.
pub open spec fn up_to(count: int, limit: int) -> int {
    if count < limit {
        count
    } else {
        limit
    }
}

/// The first records of a bitonal image, and before which of them reading stopped.
pub open spec fn prefix_text(index: usize, prefix: PrefixModel) -> Seq<char> {
    let (_, records, stopped) = prefix;
    field("bitonal image #"@, index as int) + field(": first "@, records.len() as int)
        + " JB2 records"@ + (match stopped {
        Some(kind) => "; stopped before "@ + record_kind_name(kind),
        None => Seq::empty(),
    }) + "\n"@ + records_text(records, up_to(records.len() as int, PLAN_RECORD_LIMIT as int))
}

/// The first records of the first `count` bitonal images.
pub open spec fn prefixes_text(prefixes: Seq<(usize, PrefixModel)>, count: int) -> Seq<char>
    decreases count,
{
    if count <= 0 {
        Seq::empty()
    } else {
        prefixes_text(prefixes, count - 1) + prefix_text(
            prefixes[count - 1].0,
            prefixes[count - 1].1,
        )
    }
}

/// The first records of the bitonal images, or why there are none.
pub open spec fn all_prefixes_text(plan: PlanModel, bytes: Seq<u8>) -> Seq<char> {
    let payloads = payloads_of(plan, bytes, plan.bitonal_images);
    match prefixes_of(payloads, PLAN_RECORD_LIMIT as int, payloads.len() as int) {
        Ok(prefixes) => prefixes_text(prefixes, prefixes.len() as int),
        Err(message) => unavailable("bitonal record prefix"@, message),
    }
}

/// Appends a record of a bitonal image.
fn push_record(text: &mut String, record: &Jb2RecordSummary)
    ensures
        final(text)@ == old(text)@ + record_text(*record),
{
    text.append("  rec #");
    push_padded_number(text, record.index as u64, 3);
    text.append(" ");
    push_padded(text, record.kind.as_str(), 27);
    text.append(format_jb2_record_geometry(record).as_str());
    text.append("\n");
    assert(text@ =~= old(text)@ + record_text(*record));
}

/// Appends records of a bitonal image.
fn push_records(text: &mut String, records: &Vec<Jb2RecordSummary>)
    ensures
        final(text)@ == old(text)@ + records_text(
            records@,
            up_to(records@.len() as int, PLAN_RECORD_LIMIT as int),
        ),
{
    let ghost before = text@;
    let mut i: usize = 0;
    assert(text@ =~= before + records_text(records@, 0));
    while i < records.len() && i < PLAN_RECORD_LIMIT
        invariant
            i <= records@.len(),
            i <= PLAN_RECORD_LIMIT,
            text@ == before + records_text(records@, i as int),
        decreases records@.len() - i,
    {
        push_record(text, &records[i]);
        i = i + 1;
        assert(text@ =~= before + records_text(records@, i as int));
    }
}

/// Appends the first records of a bitonal image.
fn push_prefix(
    text: &mut String,
    index: usize,
    prefix: &Jb2RecordPrefix,
    Ghost(model): Ghost<PrefixModel>,
)
    requires
        prefix.records@ == model.1,
        prefix.stopped_before == model.2,
    ensures
        final(text)@ == old(text)@ + prefix_text(index, model),
{
    push_field(text, "bitonal image #", index as u64);
    push_field(text, ": first ", prefix.records.len() as u64);
    text.append(" JB2 records");
    match prefix.stopped_before {
        Some(kind) => {
            text.append("; stopped before ");
            text.append(kind.as_str());
        },
        None => {},
    }
    text.append("\n");
    push_records(text, &prefix.records);
    assert(text@ =~= old(text)@ + prefix_text(index, model));
}

/// Appends the first records of the bitonal images.
fn push_prefixes(text: &mut String, plan: &PageRenderPlan<'_>, bytes: &[u8])
    ensures
        final(text)@ == old(text)@ + all_prefixes_text(plan@, bytes@),
{
    let ghost before = text@;
    let ghost payloads = payloads_of(plan@, bytes@, plan@.bitonal_images);
    match plan.bitonal_record_prefixes(bytes, PLAN_RECORD_LIMIT) {
        Err(error) => {
            push_unavailable(text, "bitonal record prefix", error.message());
        },
        Ok(prefixes) => {
            let ghost models = prefixes_of(
                payloads,
                PLAN_RECORD_LIMIT as int,
                payloads.len() as int,
            )->Ok_0;
            let mut i: usize = 0;
            assert(text@ =~= before + prefixes_text(models, 0));
            while i < prefixes.len()
                invariant
                    i <= prefixes@.len(),
                    prefixes_show(prefixes@, models),
                    text@ == before + prefixes_text(models, i as int),
                decreases prefixes@.len() - i,
            {
                assert(prefixes@[i as int].0 == models[i as int].0);
                push_prefix(text, prefixes[i].0, &prefixes[i].1, Ghost(models[i as int].1));
                i = i + 1;
                assert(text@ =~= before + prefixes_text(models, i as int));
            }
        },
    }
}

/// A mask: its black pixels, the symbols at hand when it was done, and where it ended.
pub open spec fn mask_text(index: usize, mask: MaskModel) -> Seq<char> {
    let (header, run, end) = mask;
    field("bitonal image #"@, index as int) + field(
        ": mask black_pixels="@,
        ones(run.page, header.width * header.height),
    ) + field(" dictionary_symbols="@, run.dictionary.len() as int) + flag(
        " end_of_data="@,
        end is EndOfData,
    ) + " stopped_before="@ + (match stopping_record(end) {
        Some(kind) => record_kind_name(kind),
        None => "none"@,
    }) + "\n"@
}

/// The first `count` masks.
pub open spec fn masks_text(masks: Seq<(usize, MaskModel)>, count: int) -> Seq<char>
    decreases count,
{
    if count <= 0 {
        Seq::empty()
    } else {
        masks_text(masks, count - 1) + mask_text(masks[count - 1].0, masks[count - 1].1)
    }
}

/// The masks, or why there are none.
pub open spec fn all_masks_text(plan: PlanModel, bytes: Seq<u8>) -> Seq<char> {
    match masks_of(plan, bytes) {
        Ok(masks) => masks_text(masks, masks.len() as int),
        Err(message) => unavailable("bitonal mask"@, message),
    }
}

/// How many pixels of a mask are black.
fn black_pixels(mask: &BitonalBitmap) -> (count: usize)
    requires
        mask.wf(),
    ensures
        count == ones(mask@, mask.width * mask.height),
{
    let total: usize = mask.width as usize * mask.height as usize;
    let mut count: usize = 0;
    let mut i: usize = 0;
    while i < total
        invariant
            i <= total,
            total == mask.width * mask.height,
            mask.wf(),
            count == ones(mask@, i as int),
            count <= i,
        decreases total - i,
    {
        assert(mask@[i as int] == (byte_bit(mask.bits@[i as int / 8], i as int % 8) == 1));
        if bit_of(mask.bits[i / 8], (i % 8) as u8) {
            count = count + 1;
        }
        i = i + 1;
    }
    count
}

/// Appends the masks.
fn push_masks(text: &mut String, plan: &PageRenderPlan<'_>, bytes: &[u8])
    ensures
        final(text)@ == old(text)@ + all_masks_text(plan@, bytes@),
{
    let ghost before = text@;
    match plan.bitonal_masks(bytes) {
        Err(error) => {
            push_unavailable(text, "bitonal mask", error.message());
        },
        Ok(masks) => {
            let ghost models = masks_of(plan@, bytes@)->Ok_0;
            let mut i: usize = 0;
            assert(text@ =~= before + masks_text(models, 0));
            while i < masks.len()
                invariant
                    i <= masks@.len(),
                    masks_show(masks@, models),
                    text@ == before + masks_text(models, i as int),
                decreases masks@.len() - i,
            {
                assert(masks@[i as int].0 == models[i as int].0);
                assert(mask_shows(masks@[i as int].1, models[i as int].1));
                push_mask(text, masks[i].0, &masks[i].1, Ghost(models[i as int].1));
                i = i + 1;
                assert(text@ =~= before + masks_text(models, i as int));
            }
        },
    }
}

/// Appends a mask.
fn push_mask(
    text: &mut String,
    index: usize,
    partial: &Jb2PartialImage,
    Ghost(model): Ghost<MaskModel>,
)
    requires
        mask_shows(*partial, model),
    ensures
        final(text)@ == old(text)@ + mask_text(index, model),
{
    let ghost before = text@;
    push_field(text, "bitonal image #", index as u64);
    push_field(text, ": mask black_pixels=", black_pixels(&partial.mask) as u64);
    push_field(text, " dictionary_symbols=", partial.dictionary_symbol_count as u64);
    push_flag(text, " end_of_data=", partial.reached_end_of_data);
    text.append(" stopped_before=");
    match partial.stopped_before {
        Some(kind) => {
            text.append(kind.as_str());
        },
        None => {
            text.append("none");
        },
    }
    text.append("\n");
    assert(text@ =~= before + mask_text(index, model));
}

/// What the first chunk of a layer says of its image.
pub open spec fn image_text(image: Iw44ImageHeader) -> Seq<char> {
    flag(" grayscale="@, image.grayscale) + flag(" chroma_half="@, image.chroma_half) + field(
        " delay="@,
        image.delay as int,
    )
}

/// Appends what the first chunk of a layer says of its image.
fn push_image(text: &mut String, image: &Iw44ImageHeader)
    ensures
        final(text)@ == old(text)@ + image_text(*image),
{
    let ghost before = text@;
    push_flag(text, " grayscale=", image.grayscale);
    push_flag(text, " chroma_half=", image.chroma_half);
    push_field(text, " delay=", image.delay as u64);
    assert(text@ =~= before + image_text(*image));
}

/// How a layer lies on its page.
pub open spec fn mapping_text(mapping: Iw44PageMapping) -> Seq<char> {
    field(" subsample="@, mapping.subsample as int) + field(
        " scaled="@,
        mapping.scaled_width as int,
    ) + field("x"@, mapping.scaled_height as int) + field(
        " overscan="@,
        mapping.horizontal_overscan as int,
    ) + field("x"@, mapping.vertical_overscan as int)
}

/// Appends how a layer lies on its page.
fn push_mapping(text: &mut String, mapping: &Iw44PageMapping)
    ensures
        final(text)@ == old(text)@ + mapping_text(*mapping),
{
    let ghost before = text@;
    push_field(text, " subsample=", mapping.subsample as u64);
    push_field(text, " scaled=", mapping.scaled_width as u64);
    push_field(text, "x", mapping.scaled_height as u64);
    push_field(text, " overscan=", mapping.horizontal_overscan as u64);
    push_field(text, "x", mapping.vertical_overscan as u64);
    assert(text@ =~= before + mapping_text(*mapping));
}

/// A layer in numbers.
pub open spec fn layer_text(
    role: Seq<char>,
    summary: SummaryModel,
    mapping: Iw44PageMapping,
) -> Seq<char> {
    "  "@ + role + field(": chunks="@, summary.chunks.len() as int) + field(
        " total_slices="@,
        summary.total_slices,
    ) + field(" payload_bytes="@, summary.total_payload_bytes as int) + field(
        " image="@,
        summary.image.width as int,
    ) + field("x"@, summary.image.height as int) + mapping_text(mapping) + image_text(
        summary.image,
    ) + "\n"@
}

/// Appends a layer in numbers.
fn push_layer_numbers(text: &mut String, role: &str, geometry: &Iw44LayerGeometry)
    ensures
        final(text)@ == old(text)@ + layer_text(role@, geometry.summary@, geometry.mapping),
{
    let ghost before = text@;
    let summary = &geometry.summary;
    text.append("  ");
    text.append(role);
    push_field(text, ": chunks=", summary.chunks.len() as u64);
    push_field(text, " total_slices=", summary.total_slices as u64);
    push_field(text, " payload_bytes=", summary.total_payload_bytes as u64);
    push_field(text, " image=", summary.image.width as u64);
    push_field(text, "x", summary.image.height as u64);
    push_mapping(text, &geometry.mapping);
    push_image(text, &summary.image);
    text.append("\n");
    assert(text@ =~= before + layer_text(role@, geometry.summary@, geometry.mapping));
}

/// The chunk of a layer at a place of the plan, before what its header says.
pub open spec fn chunk_start_text(
    role: Seq<char>,
    chunk_id: Seq<char>,
    payload: (usize, Seq<u8>),
) -> Seq<char> {
    "  "@ + role + field(" chunk #"@, payload.0 as int) + ": "@ + chunk_id + field(
        " bytes="@,
        payload.1.len() as int,
    )
}

/// The header of a chunk of a layer.
pub open spec fn chunk_header_text(header: Iw44ChunkHeader) -> Seq<char> {
    field(" serial="@, header.serial as int) + field(" slices="@, header.slices as int) + field(
        " payload_bytes="@,
        header.payload_len as int,
    ) + (match header.image {
        Some(image) => field(" image="@, image.width as int) + field("x"@, image.height as int)
            + image_text(image),
        None => Seq::empty(),
    })
}

/// A chunk of a layer.
pub open spec fn payload_text(
    role: Seq<char>,
    chunk_id: Seq<char>,
    payload: (usize, Seq<u8>),
) -> Seq<char> {
    chunk_start_text(role, chunk_id, payload) + (match chunk_header(payload.1) {
        Ok(header) => chunk_header_text(header),
        Err(message) => " header_error="@ + message,
    }) + "\n"@
}

/// The first `count` chunks of a layer.
pub open spec fn payloads_text(
    role: Seq<char>,
    chunk_id: Seq<char>,
    payloads: Seq<(usize, Seq<u8>)>,
    count: int,
) -> Seq<char>
    decreases count,
{
    if count <= 0 {
        Seq::empty()
    } else {
        payloads_text(role, chunk_id, payloads, count - 1) + payload_text(
            role,
            chunk_id,
            payloads[count - 1],
        )
    }
}

/// A layer and its chunks; nothing of a layer without any.
pub open spec fn layer_summary_text(
    info: PageInfo,
    role: Seq<char>,
    chunk_id: Seq<char>,
    payloads: Seq<(usize, Seq<u8>)>,
) -> Seq<char> {
    if payloads.len() == 0 {
        Seq::empty()
    } else {
        (match summary_of(payloads) {
            Ok(Some(summary)) => layer_text(role, summary, page_mapping_of(info, summary)),
            Ok(None) => Seq::empty(),
            Err(message) => "  "@ + role + ": "@ + chunk_id + " layer_error="@ + message
                + "\n"@,
        }) + payloads_text(role, chunk_id, payloads, payloads.len() as int)
    }
}

/// Appends the header of a chunk of a layer.
fn push_chunk_header(text: &mut String, header: &Iw44ChunkHeader)
    ensures
        final(text)@ == old(text)@ + chunk_header_text(*header),
{
    let ghost before = text@;
    push_field(text, " serial=", header.serial as u64);
    push_field(text, " slices=", header.slices as u64);
    push_field(text, " payload_bytes=", header.payload_len as u64);
    match &header.image {
        Some(image) => {
            push_field(text, " image=", image.width as u64);
            push_field(text, "x", image.height as u64);
            push_image(text, image);
        },
        None => {},
    }
    assert(text@ =~= before + chunk_header_text(*header));
}

/// Appends a chunk of a layer.
fn push_payload(
    text: &mut String,
    role: &str,
    chunk_id: &str,
    payload: &RenderChunkPayload<'_>,
)
    ensures
        final(text)@ == old(text)@ + payload_text(
            role@,
            chunk_id@,
            (payload.index, payload.bytes@),
        ),
{
    let ghost before = text@;
    text.append("  ");
    text.append(role);
    push_field(text, " chunk #", payload.index as u64);
    text.append(": ");
    text.append(chunk_id);
    push_field(text, " bytes=", payload.bytes.len() as u64);
    assert(text@ =~= before + chunk_start_text(
        role@,
        chunk_id@,
        (payload.index, payload.bytes@),
    ));
    match read_iw44_chunk_header(payload.bytes) {
        Ok(header) => {
            push_chunk_header(text, &header);
        },
        Err(error) => {
            text.append(" header_error=");
            text.append(error.message());
        },
    }
    text.append("\n");
    assert(text@ =~= before + payload_text(role@, chunk_id@, (payload.index, payload.bytes@)));
}

/// Appends a layer and its chunks.
fn push_layer(
    text: &mut String,
    role: &str,
    chunk_id: &str,
    geometry: &Result<Option<Iw44LayerGeometry>, Iw44Error>,
    payloads: &Vec<RenderChunkPayload<'_>>,
    Ghost(info): Ghost<PageInfo>,
)
    requires
        match summary_of(payloads_view(payloads@)) {
            Err(message) => geometry is Err && geometry->Err_0@ == message,
            Ok(None) => geometry is Ok && geometry->Ok_0 is None,
            Ok(Some(model)) => geometry is Ok && geometry->Ok_0 is Some
                && geometry->Ok_0->0.summary@ == model && geometry->Ok_0->0.mapping
                == page_mapping_of(info, model),
        },
    ensures
        final(text)@ == old(text)@ + layer_summary_text(
            info,
            role@,
            chunk_id@,
            payloads_view(payloads@),
        ),
{
    let ghost all = payloads_view(payloads@);
    let ghost before = text@;
    if payloads.len() == 0 {
        assert(text@ =~= before + layer_summary_text(info, role@, chunk_id@, all));
        return;
    }
    match geometry {
        Ok(Some(geometry)) => {
            push_layer_numbers(text, role, geometry);
        },
        Ok(None) => {},
        Err(error) => {
            text.append("  ");
            text.append(role);
            text.append(": ");
            text.append(chunk_id);
            text.append(" layer_error=");
            text.append(error.message());
            text.append("\n");
        },
    }
    let ghost head = match summary_of(all) {
        Ok(Some(summary)) => layer_text(role@, summary, page_mapping_of(info, summary)),
        Ok(None) => Seq::empty(),
        Err(message) => "  "@ + role@ + ": "@ + chunk_id@ + " layer_error="@ + message + "\n"@,
    };
    assert(text@ =~= before + head);
    let mut i: usize = 0;
    assert(text@ =~= before + head + payloads_text(role@, chunk_id@, all, 0));
    while i < payloads.len()
        invariant
            i <= payloads@.len(),
            all == payloads_view(payloads@),
            text@ == before + head + payloads_text(role@, chunk_id@, all, i as int),
        decreases payloads@.len() - i,
    {
        assert(all[i as int] == (payloads@[i as int].index, payloads@[i as int].bytes@));
        push_payload(text, role, chunk_id, &payloads[i]);
        i = i + 1;
        assert(text@ =~= before + head + payloads_text(role@, chunk_id@, all, i as int));
    }
    assert(text@ =~= before + layer_summary_text(info, role@, chunk_id@, all));
}

/// The layers of a plan; nothing where it has none.
pub open spec fn layers_text(plan: PlanModel, bytes: Seq<u8>) -> Seq<char> {
    let foreground = payloads_of(plan, bytes, plan.foreground_layers);
    let background = payloads_of(plan, bytes, plan.background_layers);
    if foreground.len() == 0 && background.len() == 0 {
        Seq::empty()
    } else {
        "IW44 layers:\n"@ + layer_summary_text(
            plan.info,
            "foreground"@,
            "FG44"@,
            foreground,
        ) + layer_summary_text(plan.info, "background"@, "BG44"@, background)
    }
}

/// Appends the layers of a plan.
fn push_layers(text: &mut String, plan: &PageRenderPlan<'_>, bytes: &[u8])
    ensures
        final(text)@ == old(text)@ + layers_text(plan@, bytes@),
{
    let ghost before = text@;
    let foreground = plan.foreground_layer_payloads(bytes);
    let background = plan.background_layer_payloads(bytes);
    assert(payloads_view(foreground@).len() == foreground@.len());
    assert(payloads_view(background@).len() == background@.len());
    if foreground.len() == 0 && background.len() == 0 {
        assert(text@ =~= before + layers_text(plan@, bytes@));
        return;
    }
    text.append("IW44 layers:\n");
    push_layer(
        text,
        "foreground",
        "FG44",
        &plan.foreground_layer_geometry(bytes),
        &foreground,
        Ghost(plan@.info),
    );
    push_layer(
        text,
        "background",
        "BG44",
        &plan.background_layer_geometry(bytes),
        &background,
        Ghost(plan@.info),
    );
    assert(text@ =~= before + layers_text(plan@, bytes@));
}

/// A chunk of a plan.
pub open spec fn chunk_row(index: int, chunk: ResolvedModel) -> Seq<char> {
    padded(decimal(index as nat), 6) + " "@ + padded(source_text(chunk.source), 11) + " "@ + padded(
        chunk.chunk.chunk.id,
        5,
    ) + " "@ + padded(chunk_kind_name(chunk.chunk.kind), 9) + " "@ + padded(
        decimal(chunk.chunk.chunk.size as nat),
        9,
    ) + field(" @"@, chunk.chunk.chunk.data_start - 8) + "\n"@
}

/// The first `count` chunks of a plan.
pub open spec fn chunk_rows(chunks: Seq<ResolvedModel>, count: int) -> Seq<char>
    decreases count,
{
    if count <= 0 {
        Seq::empty()
    } else {
        chunk_rows(chunks, count - 1) + chunk_row(count - 1, chunks[count - 1])
    }
}

/// Appends a chunk of a plan.
fn push_chunk_row(text: &mut String, index: usize, chunk: &ResolvedPageChunk<'_>)
    requires
        chunk.chunk.chunk.data_start >= 8,
    ensures
        final(text)@ == old(text)@ + chunk_row(index as int, chunk@),
{
    let ghost before = text@;
    push_padded_number(text, index as u64, 6);
    text.append(" ");
    push_padded(text, format_page_chunk_source(chunk.source).as_str(), 11);
    text.append(" ");
    push_padded(text, chunk.chunk.chunk.id, 5);
    text.append(" ");
    push_padded(text, chunk.chunk.kind.as_str(), 9);
    text.append(" ");
    push_padded_number(text, chunk.chunk.chunk.size as u64, 9);
    push_field(text, " @", (chunk.chunk.chunk.data_start - 8) as u64);
    text.append("\n");
    assert(text@ =~= before + chunk_row(index as int, chunk@));
}

/// What is said of the bitonal images of a plan; nothing where it has none.
pub open spec fn bitonal_text(plan: PlanModel, bytes: Seq<u8>) -> Seq<char> {
    if plan.bitonal_images.len() == 0 {
        Seq::empty()
    } else {
        all_headers_text(plan, bytes) + all_prefixes_text(plan, bytes) + all_masks_text(
            plan,
            bytes,
        )
    }
}

/// The plan of a page in words.
pub open spec fn plan_text(plan: PlanModel, bytes: Seq<u8>) -> Seq<char> {
    info_text(plan.info) + uses_text(plan) + bitonal_text(plan, bytes) + layers_text(plan, bytes)
        + "\neffective chunks:\nindex  source      chunk  role      size      offset\n"@
        + chunk_rows(plan.chunks, plan.chunks.len() as int)
}

/// The plan of a page in words. Each chunk starts with its tag and its size.
#[must_use]
pub fn format_render_plan(plan: &PageRenderPlan<'_>, bytes: &[u8]) -> (text: String)
    requires
        forall|i: int|
            0 <= i < plan.chunks@.len() ==> (#[trigger] plan.chunks@[i]).chunk.chunk.data_start
                >= 8,
    ensures
        text@ == plan_text(plan@, bytes@),
{
    let mut text: String = text_of("");
    proof {
        reveal_strlit("");
        assert(text@ =~= Seq::empty());
    }
    push_info(&mut text, &plan.info);
    push_uses(&mut text, plan);
    if plan.bitonal_images.len() != 0 {
        let ghost start = text@;
        push_headers(&mut text, plan, bytes);
        push_prefixes(&mut text, plan, bytes);
        push_masks(&mut text, plan, bytes);
        assert(text@ =~= start + bitonal_text(plan@, bytes@));
    }
    assert(text@ =~= info_text(plan@.info) + uses_text(plan@) + bitonal_text(plan@, bytes@));
    push_layers(&mut text, plan, bytes);
    text.append("\neffective chunks:\nindex  source      chunk  role      size      offset\n");
    let ghost head = text@;
    let ghost chunks = plan@.chunks;
    let mut i: usize = 0;
    assert(text@ =~= head + chunk_rows(chunks, 0));
    while i < plan.chunks.len()
        invariant
            i <= plan.chunks@.len(),
            chunks == resolved_view(plan.chunks@),
            forall|k: int|
                0 <= k < plan.chunks@.len() ==> (
                #[trigger] plan.chunks@[k]).chunk.chunk.data_start >= 8,
            text@ == head + chunk_rows(chunks, i as int),
        decreases plan.chunks@.len() - i,
    {
        assert(chunks[i as int] == plan.chunks@[i as int]@);
        push_chunk_row(&mut text, i, &plan.chunks[i]);
        i = i + 1;
        assert(text@ =~= head + chunk_rows(chunks, i as int));
    }
    assert(text@ =~= plan_text(plan@, bytes@));
    text
}

} // verus!
