//! What was found at a pixel, in words.

use super::words::{
    field, flag, hex, indented, push_field, push_flag, push_hex, push_indented, push_signed_field,
    signed_field, signed_text,
};
use crate::inspect::coefficients::{Iw44CoefficientBlockSummary, Iw44CoefficientEntry};
use crate::inspect::reconstruction::{
    Iw44CoefficientReconstructionAggregate, Iw44CoefficientReconstructionBandAggregate,
    Iw44CoefficientReconstructionBucketAggregate, Iw44CoefficientReconstructionSummary,
    Iw44CoefficientReconstructionTrace, Iw44TransformOrderTrace,
};
use crate::inspect::sample::{Iw44LumaNeighborhood, Iw44PlaneSample};
use crate::inspect::trace::{
    Iw44CoefficientEventTrace, Iw44CoefficientTraceEvent, Iw44CoefficientTraceStep,
};
use crate::inspect::{iw44_plane_name, plane_name, Iw44PixelInspection};
use crate::iw44::Iw44CoefficientEventKind;
use crate::render::plan::Iw44LayerRole;
use crate::text::{decimal, push_decimal, text_of};
use vstd::prelude::*;

verus! {

/// A sample of a plane.
#[verifier::opaque]
pub open spec fn sample_line(label: Seq<char>, sample: Iw44PlaneSample) -> Seq<char> {
    label
        + field(": sample_x="@, sample.x as int)
        + field(" sample_y="@, sample.y as int)
        + signed_field(" raw="@, sample.raw as int)
        + signed_field(" normalized="@, sample.normalized as int)
        + "\n"@
}

/// Appends a sample of a plane.
fn push_sample_line(text: &mut String, label: &str, sample: &Iw44PlaneSample)
    ensures
        final(text)@ == old(text)@ + sample_line(label@, *sample),
{
    reveal(sample_line);
    let ghost before = text@;
    text.append(label);
    push_field(text, ": sample_x=", sample.x as u64);
    push_field(text, " sample_y=", sample.y as u64);
    push_signed_field(text, " raw=", sample.raw as i32);
    push_signed_field(text, " normalized=", sample.normalized as i32);
    text.append("\n");
    assert(text@ =~= before + sample_line(label@, *sample));
}

/// The first samples of a row, as they are or normalized.
pub open spec fn row_text(row: Seq<Iw44PlaneSample>, raw: bool, count: int) -> Seq<char>
    decreases count,
{
    if count <= 0 {
        Seq::empty()
    } else if raw {
        row_text(row, raw, count - 1) + indented(signed_text(row[count - 1].raw as int), 7)
    } else {
        row_text(row, raw, count - 1) + indented(signed_text(row[count - 1].normalized as int), 5)
    }
}

/// The first rows of samples.
pub open spec fn rows_text(rows: Seq<Vec<Iw44PlaneSample>>, raw: bool, count: int) -> Seq<char>
    decreases count,
{
    if count <= 0 {
        Seq::empty()
    } else {
        rows_text(rows, raw, count - 1) + row_text(
            rows[count - 1]@,
            raw,
            rows[count - 1]@.len() as int,
        ) + "\n"@
    }
}

/// Appends a row of samples.
fn push_row(text: &mut String, row: &Vec<Iw44PlaneSample>, raw: bool)
    ensures
        final(text)@ == old(text)@ + row_text(row@, raw, row@.len() as int),
{
    let ghost before = text@;
    let mut i: usize = 0;
    assert(text@ =~= before + row_text(row@, raw, 0));
    while i < row.len()
        invariant
            i <= row@.len(),
            text@ == before + row_text(row@, raw, i as int),
        decreases row@.len() - i,
    {
        if raw {
            push_indented(text, row[i].raw as i32, 7);
        } else {
            push_indented(text, row[i].normalized, 5);
        }
        i = i + 1;
        assert(text@ =~= before + row_text(row@, raw, i as int));
    }
}

/// Appends rows of samples.
fn push_rows(text: &mut String, rows: &Vec<Vec<Iw44PlaneSample>>, raw: bool)
    ensures
        final(text)@ == old(text)@ + rows_text(rows@, raw, rows@.len() as int),
{
    let ghost before = text@;
    let mut i: usize = 0;
    assert(text@ =~= before + rows_text(rows@, raw, 0));
    while i < rows.len()
        invariant
            i <= rows@.len(),
            text@ == before + rows_text(rows@, raw, i as int),
        decreases rows@.len() - i,
    {
        push_row(text, &rows[i], raw);
        text.append("\n");
        i = i + 1;
        assert(text@ =~= before + rows_text(rows@, raw, i as int));
    }
}

/// The samples round a pixel, normalized and as they are.
#[verifier::opaque]
pub open spec fn neighborhood_text(neighborhood: Iw44LumaNeighborhood) -> Seq<char> {
    let rows = neighborhood.samples@;
    let width = if rows.len() > 0 {
        rows[0]@.len() as int
    } else {
        0
    };
    field("Y neighborhood: page_origin="@, neighborhood.page_min_x as int) + field(
        "x"@,
        neighborhood.page_min_y as int,
    ) + field(" source_origin="@, neighborhood.source_min_x as int) + field(
        "x"@,
        neighborhood.source_min_y as int,
    ) + field(" width="@, width) + field(" height="@, rows.len() as int) + "\nY normalized:\n"@
        + rows_text(rows, false, rows.len() as int) + "Y raw:\n"@ + rows_text(
        rows,
        true,
        rows.len() as int,
    )
}

/// Appends the samples round a pixel.
fn push_neighborhood(text: &mut String, neighborhood: &Iw44LumaNeighborhood)
    ensures
        final(text)@ == old(text)@ + neighborhood_text(*neighborhood),
{
    reveal(neighborhood_text);
    let ghost before = text@;
    let width: usize = if neighborhood.samples.len() > 0 {
        neighborhood.samples[0].len()
    } else {
        0
    };
    push_field(text, "Y neighborhood: page_origin=", neighborhood.page_min_x as u64);
    push_field(text, "x", neighborhood.page_min_y as u64);
    push_field(text, " source_origin=", neighborhood.source_min_x as u64);
    push_field(text, "x", neighborhood.source_min_y as u64);
    push_field(text, " width=", width as u64);
    push_field(text, " height=", neighborhood.samples.len() as u64);
    text.append("\nY normalized:\n");
    push_rows(text, &neighborhood.samples, false);
    text.append("Y raw:\n");
    push_rows(text, &neighborhood.samples, true);
    assert(text@ =~= before + neighborhood_text(*neighborhood));
}

/// A coefficient.
pub open spec fn entry_line(entry: Iw44CoefficientEntry) -> Seq<char> {
    field("  coefficient: x="@, entry.x as int)
        + field(" y="@, entry.y as int)
        + field(" local="@, entry.local_x as int)
        + field("x"@, entry.local_y as int)
        + field(" index="@, entry.index as int)
        + field(" bucket="@, entry.bucket as int)
        + field(" offset="@, entry.bucket_offset as int)
        + field(" band="@, entry.band as int)
        + signed_field(" value="@, entry.value as int)
        + field(" abs="@, entry.absolute as int)
        + "\n"@
}

/// Appends a coefficient.
fn push_entry_line(text: &mut String, entry: &Iw44CoefficientEntry)
    ensures
        final(text)@ == old(text)@ + entry_line(*entry),
{
    let ghost before = text@;
    push_field(text, "  coefficient: x=", entry.x as u64);
    push_field(text, " y=", entry.y as u64);
    push_field(text, " local=", entry.local_x as u64);
    push_field(text, "x", entry.local_y as u64);
    push_field(text, " index=", entry.index as u64);
    push_field(text, " bucket=", entry.bucket as u64);
    push_field(text, " offset=", entry.bucket_offset as u64);
    push_field(text, " band=", entry.band as u64);
    push_signed_field(text, " value=", entry.value as i32);
    push_field(text, " abs=", entry.absolute as u64);
    text.append("\n");
    assert(text@ =~= before + entry_line(*entry));
}

/// The first coefficients of a list.
pub open spec fn entry_lines(items: Seq<Iw44CoefficientEntry>, count: int) -> Seq<char>
    decreases count,
{
    if count <= 0 {
        Seq::empty()
    } else {
        entry_lines(items, count - 1) + entry_line(items[count - 1])
    }
}

/// Appends all of these.
fn push_entry_lines(text: &mut String, items: &Vec<Iw44CoefficientEntry>)
    ensures
        final(text)@ == old(text)@ + entry_lines(items@, items@.len() as int),
{
    let ghost before = text@;
    let mut i: usize = 0;
    assert(text@ =~= before + entry_lines(items@, 0));
    while i < items.len()
        invariant
            i <= items@.len(),
            text@ == before + entry_lines(items@, i as int),
        decreases items@.len() - i,
    {
        push_entry_line(text, &items[i]);
        i = i + 1;
        assert(text@ =~= before + entry_lines(items@, i as int));
    }
}

/// A block in numbers.
#[verifier::opaque]
pub open spec fn block_line(block: Iw44CoefficientBlockSummary) -> Seq<char> {
    plane_name(block.plane)
        + field(" coefficient block: block="@, block.block_col as int)
        + field("x"@, block.block_row as int)
        + field(" origin="@, block.block_x as int)
        + field("x"@, block.block_y as int)
        + field(" size="@, block.width as int)
        + field("x"@, block.height as int)
        + field(" non_zero="@, block.non_zero as int)
        + field(" max_abs="@, block.max_abs as int)
        + field(" abs_sum="@, block.abs_sum as int)
        + "\n"@
}

/// Appends a block in numbers.
fn push_block_line(text: &mut String, block: &Iw44CoefficientBlockSummary)
    ensures
        final(text)@ == old(text)@ + block_line(*block),
{
    reveal(block_line);
    let ghost before = text@;
    text.append(iw44_plane_name(block.plane));
    push_field(text, " coefficient block: block=", block.block_col as u64);
    push_field(text, "x", block.block_row as u64);
    push_field(text, " origin=", block.block_x as u64);
    push_field(text, "x", block.block_y as u64);
    push_field(text, " size=", block.width as u64);
    push_field(text, "x", block.height as u64);
    push_field(text, " non_zero=", block.non_zero as u64);
    push_field(text, " max_abs=", block.max_abs as u64);
    push_field(text, " abs_sum=", block.abs_sum as u64);
    text.append("\n");
    assert(text@ =~= before + block_line(*block));
}

/// The value of a coefficient at a time.
pub open spec fn value_piece(entry: Iw44CoefficientEntry) -> Seq<char> {
    field(" index="@, entry.index as int)
        + field(" bucket="@, entry.bucket as int)
        + field(" band="@, entry.band as int)
        + signed_field(" value="@, entry.value as int)
}

/// Appends the value of a coefficient at a time.
fn push_value_piece(text: &mut String, entry: &Iw44CoefficientEntry)
    ensures
        final(text)@ == old(text)@ + value_piece(*entry),
{
    let ghost before = text@;
    push_field(text, " index=", entry.index as u64);
    push_field(text, " bucket=", entry.bucket as u64);
    push_field(text, " band=", entry.band as u64);
    push_signed_field(text, " value=", entry.value as i32);
    assert(text@ =~= before + value_piece(*entry));
}

/// The first values of a list.
pub open spec fn value_pieces(items: Seq<Iw44CoefficientEntry>, count: int) -> Seq<char>
    decreases count,
{
    if count <= 0 {
        Seq::empty()
    } else {
        value_pieces(items, count - 1) + value_piece(items[count - 1])
    }
}

/// Appends all of these.
fn push_value_pieces(text: &mut String, items: &Vec<Iw44CoefficientEntry>)
    ensures
        final(text)@ == old(text)@ + value_pieces(items@, items@.len() as int),
{
    let ghost before = text@;
    let mut i: usize = 0;
    assert(text@ =~= before + value_pieces(items@, 0));
    while i < items.len()
        invariant
            i <= items@.len(),
            text@ == before + value_pieces(items@, i as int),
        decreases items@.len() - i,
    {
        push_value_piece(text, &items[i]);
        i = i + 1;
        assert(text@ =~= before + value_pieces(items@, i as int));
    }
}

/// The values of coefficients after a chunk, or after a slice of it.
pub open spec fn step_line(step: Iw44CoefficientTraceStep) -> Seq<char> {
    field("  chunk #"@, step.chunk_index as int) + field(" serial="@, step.chunk_serial as int) + (
    match step.slice_index {
        Some(index) => field(" slice="@, index as int),
        None => Seq::empty(),
    }) + field(" slices="@, step.slices_decoded as int) + value_pieces(
        step.values@,
        step.values@.len() as int,
    ) + "\n"@
}

/// Appends the values of coefficients at a time.
fn push_step_line(text: &mut String, step: &Iw44CoefficientTraceStep)
    ensures
        final(text)@ == old(text)@ + step_line(*step),
{
    let ghost before = text@;
    push_field(text, "  chunk #", step.chunk_index as u64);
    push_field(text, " serial=", step.chunk_serial as u64);
    match step.slice_index {
        Some(index) => {
            push_field(text, " slice=", index as u64);
        },
        None => {},
    }
    push_field(text, " slices=", step.slices_decoded as u64);
    push_value_pieces(text, &step.values);
    text.append("\n");
    assert(text@ =~= before + step_line(*step));
}

/// The first steps of a trace.
pub open spec fn step_lines(items: Seq<Iw44CoefficientTraceStep>, count: int) -> Seq<char>
    decreases count,
{
    if count <= 0 {
        Seq::empty()
    } else {
        step_lines(items, count - 1) + step_line(items[count - 1])
    }
}

/// Appends all of these.
fn push_step_lines(text: &mut String, items: &Vec<Iw44CoefficientTraceStep>)
    ensures
        final(text)@ == old(text)@ + step_lines(items@, items@.len() as int),
{
    let ghost before = text@;
    let mut i: usize = 0;
    assert(text@ =~= before + step_lines(items@, 0));
    while i < items.len()
        invariant
            i <= items@.len(),
            text@ == before + step_lines(items@, i as int),
        decreases items@.len() - i,
    {
        push_step_line(text, &items[i]);
        i = i + 1;
        assert(text@ =~= before + step_lines(items@, i as int));
    }
}

/// What an event is.
pub open spec fn event_kind_text(kind: Iw44CoefficientEventKind) -> Seq<char> {
    match kind {
        Iw44CoefficientEventKind::BucketDecision {
            context,
            decision,
            block_state,
            bucket_state,
        } => field(" bucket context="@, context as int) + flag(" decision="@, decision)
            + " block_state=0x"@ + hex(block_state as int, 2) + " bucket_state=0x"@ + hex(
            bucket_state as int,
            2,
        ),
        Iw44CoefficientEventKind::ActivationDecision { context, decision, unknown_count } => field(
            " activation context="@,
            context as int,
        ) + flag(" decision="@, decision) + field(" unknown_count="@, unknown_count as int),
        Iw44CoefficientEventKind::Activated { sign } => signed_field(
            " activated sign="@,
            sign as int,
        ),
        Iw44CoefficientEventKind::RefinementDecision { context_coded, decision, magnitude } => flag(
            " refinement context_coded="@,
            context_coded,
        ) + flag(" decision="@, decision) + signed_field(" magnitude="@, magnitude as int),
        Iw44CoefficientEventKind::Refined => " refined"@,
    }
}

/// Appends what an event is.
fn push_event_kind(text: &mut String, kind: Iw44CoefficientEventKind)
    ensures
        final(text)@ == old(text)@ + event_kind_text(kind),
{
    let ghost before = text@;
    match kind {
        Iw44CoefficientEventKind::BucketDecision {
            context,
            decision,
            block_state,
            bucket_state,
        } => {
            push_field(text, " bucket context=", context as u64);
            push_flag(text, " decision=", decision);
            text.append(" block_state=0x");
            push_hex(text, block_state as u64, 2);
            text.append(" bucket_state=0x");
            push_hex(text, bucket_state as u64, 2);
        },
        Iw44CoefficientEventKind::ActivationDecision { context, decision, unknown_count } => {
            push_field(text, " activation context=", context as u64);
            push_flag(text, " decision=", decision);
            push_field(text, " unknown_count=", unknown_count as u64);
        },
        Iw44CoefficientEventKind::Activated { sign } => {
            push_signed_field(text, " activated sign=", sign);
        },
        Iw44CoefficientEventKind::RefinementDecision { context_coded, decision, magnitude } => {
            push_flag(text, " refinement context_coded=", context_coded);
            push_flag(text, " decision=", decision);
            push_signed_field(text, " magnitude=", magnitude);
        },
        Iw44CoefficientEventKind::Refined => {
            text.append(" refined");
        },
    }
    assert(text@ =~= before + event_kind_text(kind));
}

/// An event at a coefficient.
pub open spec fn event_line(traced: Iw44CoefficientTraceEvent) -> Seq<char> {
    let event = traced.event;
    field("    chunk #"@, traced.chunk_index as int) + field(
        " serial="@,
        traced.chunk_serial as int,
    ) + field(" slice="@, event.slice_index as int) + field(" band="@, event.band as int) + field(
        " q="@,
        event.quant as int,
    ) + signed_field(" before="@, event.before as int) + signed_field(
        " after="@,
        event.after as int,
    ) + event_kind_text(event.kind) + "\n"@
}

/// Appends an event at a coefficient.
fn push_event_line(text: &mut String, traced: &Iw44CoefficientTraceEvent)
    ensures
        final(text)@ == old(text)@ + event_line(*traced),
{
    let ghost before = text@;
    let event = traced.event;
    push_field(text, "    chunk #", traced.chunk_index as u64);
    push_field(text, " serial=", traced.chunk_serial as u64);
    push_field(text, " slice=", event.slice_index as u64);
    push_field(text, " band=", event.band as u64);
    push_field(text, " q=", event.quant as u64);
    push_signed_field(text, " before=", event.before as i32);
    push_signed_field(text, " after=", event.after as i32);
    push_event_kind(text, event.kind);
    text.append("\n");
    assert(text@ =~= before + event_line(*traced));
}

/// The first events of a list.
pub open spec fn event_lines(items: Seq<Iw44CoefficientTraceEvent>, count: int) -> Seq<char>
    decreases count,
{
    if count <= 0 {
        Seq::empty()
    } else {
        event_lines(items, count - 1) + event_line(items[count - 1])
    }
}

/// Appends all of these.
fn push_event_lines(text: &mut String, items: &Vec<Iw44CoefficientTraceEvent>)
    ensures
        final(text)@ == old(text)@ + event_lines(items@, items@.len() as int),
{
    let ghost before = text@;
    let mut i: usize = 0;
    assert(text@ =~= before + event_lines(items@, 0));
    while i < items.len()
        invariant
            i <= items@.len(),
            text@ == before + event_lines(items@, i as int),
        decreases items@.len() - i,
    {
        push_event_line(text, &items[i]);
        i = i + 1;
        assert(text@ =~= before + event_lines(items@, i as int));
    }
}

/// All events at a coefficient.
pub open spec fn events_text(trace: Iw44CoefficientEventTrace) -> Seq<char> {
    field("  index="@, trace.entry.index as int) + field(" bucket="@, trace.entry.bucket as int)
        + field(" band="@, trace.entry.band as int) + field(" x="@, trace.entry.x as int) + field(
        " y="@,
        trace.entry.y as int,
    ) + field(" events="@, trace.events@.len() as int) + "\n"@ + event_lines(
        trace.events@,
        trace.events@.len() as int,
    )
}

/// Appends all events at a coefficient.
fn push_events_text(text: &mut String, trace: &Iw44CoefficientEventTrace)
    ensures
        final(text)@ == old(text)@ + events_text(*trace),
{
    let ghost before = text@;
    push_field(text, "  index=", trace.entry.index as u64);
    push_field(text, " bucket=", trace.entry.bucket as u64);
    push_field(text, " band=", trace.entry.band as u64);
    push_field(text, " x=", trace.entry.x as u64);
    push_field(text, " y=", trace.entry.y as u64);
    push_field(text, " events=", trace.events.len() as u64);
    text.append("\n");
    push_event_lines(text, &trace.events);
    assert(text@ =~= before + events_text(*trace));
}

/// The events at the first coefficients of a list.
pub open spec fn event_texts(items: Seq<Iw44CoefficientEventTrace>, count: int) -> Seq<char>
    decreases count,
{
    if count <= 0 {
        Seq::empty()
    } else {
        event_texts(items, count - 1) + events_text(items[count - 1])
    }
}

/// Appends all of these.
fn push_event_texts(text: &mut String, items: &Vec<Iw44CoefficientEventTrace>)
    ensures
        final(text)@ == old(text)@ + event_texts(items@, items@.len() as int),
{
    let ghost before = text@;
    let mut i: usize = 0;
    assert(text@ =~= before + event_texts(items@, 0));
    while i < items.len()
        invariant
            i <= items@.len(),
            text@ == before + event_texts(items@, i as int),
        decreases items@.len() - i,
    {
        push_events_text(text, &items[i]);
        i = i + 1;
        assert(text@ =~= before + event_texts(items@, i as int));
    }
}

/// What becomes of a sample without coefficients.
#[verifier::opaque]
pub open spec fn aggregate_line(label: Seq<char>, effect: Iw44CoefficientReconstructionAggregate) -> Seq<char> {
    "  "@ + label
        + field(" count="@, effect.coefficient_count as int)
        + field(" sample="@, effect.sample_x as int)
        + field("x"@, effect.sample_y as int)
        + signed_field(" original_raw="@, effect.original_raw as int)
        + signed_field(" zeroed_raw="@, effect.zeroed_raw as int)
        + signed_field(" raw_delta="@, effect.raw_delta as int)
        + signed_field(" original_norm="@, effect.original_normalized as int)
        + signed_field(" zeroed_norm="@, effect.zeroed_normalized as int)
        + signed_field(" norm_delta="@, effect.normalized_delta as int)
        + "\n"@
}

/// Appends what becomes of a sample without coefficients.
fn push_aggregate_line(text: &mut String, label: &str, effect: &Iw44CoefficientReconstructionAggregate)
    ensures
        final(text)@ == old(text)@ + aggregate_line(label@, *effect),
{
    reveal(aggregate_line);
    let ghost before = text@;
    text.append("  ");
    text.append(label);
    push_field(text, " count=", effect.coefficient_count as u64);
    push_field(text, " sample=", effect.sample_x as u64);
    push_field(text, "x", effect.sample_y as u64);
    push_signed_field(text, " original_raw=", effect.original_raw as i32);
    push_signed_field(text, " zeroed_raw=", effect.zeroed_raw as i32);
    push_signed_field(text, " raw_delta=", effect.raw_delta as i32);
    push_signed_field(text, " original_norm=", effect.original_normalized as i32);
    push_signed_field(text, " zeroed_norm=", effect.zeroed_normalized as i32);
    push_signed_field(text, " norm_delta=", effect.normalized_delta as i32);
    text.append("\n");
    assert(text@ =~= before + aggregate_line(label@, *effect));
}

/// What another way of reconstruction makes of a sample.
#[verifier::opaque]
pub open spec fn variant_line(label: Seq<char>, trace: Iw44TransformOrderTrace) -> Seq<char> {
    "  "@ + label
        + field(" sample="@, trace.sample_x as int)
        + field("x"@, trace.sample_y as int)
        + signed_field(" original_raw="@, trace.original_raw as int)
        + signed_field(" alternate_raw="@, trace.alternate_raw as int)
        + signed_field(" raw_delta="@, trace.raw_delta as int)
        + signed_field(" original_norm="@, trace.original_normalized as int)
        + signed_field(" alternate_norm="@, trace.alternate_normalized as int)
        + signed_field(" norm_delta="@, trace.normalized_delta as int)
        + "\n"@
}

/// Appends what another way of reconstruction makes of a sample.
fn push_variant_line(text: &mut String, label: &str, trace: &Iw44TransformOrderTrace)
    ensures
        final(text)@ == old(text)@ + variant_line(label@, *trace),
{
    reveal(variant_line);
    let ghost before = text@;
    text.append("  ");
    text.append(label);
    push_field(text, " sample=", trace.sample_x as u64);
    push_field(text, "x", trace.sample_y as u64);
    push_signed_field(text, " original_raw=", trace.original_raw as i32);
    push_signed_field(text, " alternate_raw=", trace.alternate_raw as i32);
    push_signed_field(text, " raw_delta=", trace.raw_delta as i32);
    push_signed_field(text, " original_norm=", trace.original_normalized as i32);
    push_signed_field(text, " alternate_norm=", trace.alternate_normalized as i32);
    push_signed_field(text, " norm_delta=", trace.normalized_delta as i32);
    text.append("\n");
    assert(text@ =~= before + variant_line(label@, *trace));
}

/// What becomes of a sample without a band.
#[verifier::opaque]
pub open spec fn band_line(effect: Iw44CoefficientReconstructionBandAggregate) -> Seq<char> {
    field("  band_zeroed band="@, effect.band as int)
        + field(" count="@, effect.coefficient_count as int)
        + field(" sample="@, effect.sample_x as int)
        + field("x"@, effect.sample_y as int)
        + signed_field(" original_raw="@, effect.original_raw as int)
        + signed_field(" zeroed_raw="@, effect.zeroed_raw as int)
        + signed_field(" raw_delta="@, effect.raw_delta as int)
        + signed_field(" original_norm="@, effect.original_normalized as int)
        + signed_field(" zeroed_norm="@, effect.zeroed_normalized as int)
        + signed_field(" norm_delta="@, effect.normalized_delta as int)
        + "\n"@
}

/// Appends what becomes of a sample without a band.
fn push_band_line(text: &mut String, effect: &Iw44CoefficientReconstructionBandAggregate)
    ensures
        final(text)@ == old(text)@ + band_line(*effect),
{
    reveal(band_line);
    let ghost before = text@;
    push_field(text, "  band_zeroed band=", effect.band as u64);
    push_field(text, " count=", effect.coefficient_count as u64);
    push_field(text, " sample=", effect.sample_x as u64);
    push_field(text, "x", effect.sample_y as u64);
    push_signed_field(text, " original_raw=", effect.original_raw as i32);
    push_signed_field(text, " zeroed_raw=", effect.zeroed_raw as i32);
    push_signed_field(text, " raw_delta=", effect.raw_delta as i32);
    push_signed_field(text, " original_norm=", effect.original_normalized as i32);
    push_signed_field(text, " zeroed_norm=", effect.zeroed_normalized as i32);
    push_signed_field(text, " norm_delta=", effect.normalized_delta as i32);
    text.append("\n");
    assert(text@ =~= before + band_line(*effect));
}

/// The effects of the first bands.
pub open spec fn band_lines(items: Seq<Iw44CoefficientReconstructionBandAggregate>, count: int) -> Seq<char>
    decreases count,
{
    if count <= 0 {
        Seq::empty()
    } else {
        band_lines(items, count - 1) + band_line(items[count - 1])
    }
}

/// Appends all of these.
fn push_band_lines(text: &mut String, items: &Vec<Iw44CoefficientReconstructionBandAggregate>)
    ensures
        final(text)@ == old(text)@ + band_lines(items@, items@.len() as int),
{
    let ghost before = text@;
    let mut i: usize = 0;
    assert(text@ =~= before + band_lines(items@, 0));
    while i < items.len()
        invariant
            i <= items@.len(),
            text@ == before + band_lines(items@, i as int),
        decreases items@.len() - i,
    {
        push_band_line(text, &items[i]);
        i = i + 1;
        assert(text@ =~= before + band_lines(items@, i as int));
    }
}

/// A coefficient of a bucket.
pub open spec fn contributor_line(entry: Iw44CoefficientEntry) -> Seq<char> {
    field("    contributor index="@, entry.index as int)
        + field(" offset="@, entry.bucket_offset as int)
        + field(" x="@, entry.x as int)
        + field(" y="@, entry.y as int)
        + signed_field(" value="@, entry.value as int)
        + field(" abs="@, entry.absolute as int)
        + "\n"@
}

/// Appends a coefficient of a bucket.
fn push_contributor_line(text: &mut String, entry: &Iw44CoefficientEntry)
    ensures
        final(text)@ == old(text)@ + contributor_line(*entry),
{
    let ghost before = text@;
    push_field(text, "    contributor index=", entry.index as u64);
    push_field(text, " offset=", entry.bucket_offset as u64);
    push_field(text, " x=", entry.x as u64);
    push_field(text, " y=", entry.y as u64);
    push_signed_field(text, " value=", entry.value as i32);
    push_field(text, " abs=", entry.absolute as u64);
    text.append("\n");
    assert(text@ =~= before + contributor_line(*entry));
}

/// The first coefficients of a bucket.
pub open spec fn contributor_lines(items: Seq<Iw44CoefficientEntry>, count: int) -> Seq<char>
    decreases count,
{
    if count <= 0 {
        Seq::empty()
    } else {
        contributor_lines(items, count - 1) + contributor_line(items[count - 1])
    }
}

/// Appends all of these.
fn push_contributor_lines(text: &mut String, items: &Vec<Iw44CoefficientEntry>)
    ensures
        final(text)@ == old(text)@ + contributor_lines(items@, items@.len() as int),
{
    let ghost before = text@;
    let mut i: usize = 0;
    assert(text@ =~= before + contributor_lines(items@, 0));
    while i < items.len()
        invariant
            i <= items@.len(),
            text@ == before + contributor_lines(items@, i as int),
        decreases items@.len() - i,
    {
        push_contributor_line(text, &items[i]);
        i = i + 1;
        assert(text@ =~= before + contributor_lines(items@, i as int));
    }
}

/// What becomes of a sample without a bucket.
#[verifier::opaque]
pub open spec fn bucket_line(effect: Iw44CoefficientReconstructionBucketAggregate) -> Seq<char> {
    field("  bucket_zeroed bucket="@, effect.bucket as int)
        + field(" band="@, effect.band as int)
        + field(" count="@, effect.coefficient_count as int)
        + field(" sample="@, effect.sample_x as int)
        + field("x"@, effect.sample_y as int)
        + signed_field(" original_raw="@, effect.original_raw as int)
        + signed_field(" zeroed_raw="@, effect.zeroed_raw as int)
        + signed_field(" raw_delta="@, effect.raw_delta as int)
        + signed_field(" original_norm="@, effect.original_normalized as int)
        + signed_field(" zeroed_norm="@, effect.zeroed_normalized as int)
        + signed_field(" norm_delta="@, effect.normalized_delta as int)
        + "\n"@
}

/// Appends what becomes of a sample without a bucket.
fn push_bucket_line(text: &mut String, effect: &Iw44CoefficientReconstructionBucketAggregate)
    ensures
        final(text)@ == old(text)@ + bucket_line(*effect),
{
    reveal(bucket_line);
    let ghost before = text@;
    push_field(text, "  bucket_zeroed bucket=", effect.bucket as u64);
    push_field(text, " band=", effect.band as u64);
    push_field(text, " count=", effect.coefficient_count as u64);
    push_field(text, " sample=", effect.sample_x as u64);
    push_field(text, "x", effect.sample_y as u64);
    push_signed_field(text, " original_raw=", effect.original_raw as i32);
    push_signed_field(text, " zeroed_raw=", effect.zeroed_raw as i32);
    push_signed_field(text, " raw_delta=", effect.raw_delta as i32);
    push_signed_field(text, " original_norm=", effect.original_normalized as i32);
    push_signed_field(text, " zeroed_norm=", effect.zeroed_normalized as i32);
    push_signed_field(text, " norm_delta=", effect.normalized_delta as i32);
    text.append("\n");
    assert(text@ =~= before + bucket_line(*effect));
}

/// The effect of a bucket, and its strongest coefficients.
pub open spec fn bucket_text(effect: Iw44CoefficientReconstructionBucketAggregate) -> Seq<char> {
    bucket_line(effect) + contributor_lines(
        effect.contributors@,
        effect.contributors@.len() as int,
    )
}

/// Appends the effect of a bucket.
fn push_bucket_text(text: &mut String, effect: &Iw44CoefficientReconstructionBucketAggregate)
    ensures
        final(text)@ == old(text)@ + bucket_text(*effect),
{
    push_bucket_line(text, effect);
    push_contributor_lines(text, &effect.contributors);
    assert(text@ =~= old(text)@ + bucket_text(*effect));
}

/// The effects of the first buckets.
pub open spec fn bucket_texts(items: Seq<Iw44CoefficientReconstructionBucketAggregate>, count: int) -> Seq<char>
    decreases count,
{
    if count <= 0 {
        Seq::empty()
    } else {
        bucket_texts(items, count - 1) + bucket_text(items[count - 1])
    }
}

/// Appends all of these.
fn push_bucket_texts(text: &mut String, items: &Vec<Iw44CoefficientReconstructionBucketAggregate>)
    ensures
        final(text)@ == old(text)@ + bucket_texts(items@, items@.len() as int),
{
    let ghost before = text@;
    let mut i: usize = 0;
    assert(text@ =~= before + bucket_texts(items@, 0));
    while i < items.len()
        invariant
            i <= items@.len(),
            text@ == before + bucket_texts(items@, i as int),
        decreases items@.len() - i,
    {
        push_bucket_text(text, &items[i]);
        i = i + 1;
        assert(text@ =~= before + bucket_texts(items@, i as int));
    }
}

/// What becomes of a sample without a coefficient.
#[verifier::opaque]
pub open spec fn effect_line(trace: Iw44CoefficientReconstructionTrace) -> Seq<char> {
    field("  index="@, trace.entry.index as int)
        + field(" bucket="@, trace.entry.bucket as int)
        + field(" band="@, trace.entry.band as int)
        + signed_field(" coefficient="@, trace.entry.value as int)
        + field(" sample="@, trace.sample_x as int)
        + field("x"@, trace.sample_y as int)
        + signed_field(" original_raw="@, trace.original_raw as int)
        + signed_field(" zeroed_raw="@, trace.zeroed_raw as int)
        + signed_field(" raw_delta="@, trace.raw_delta as int)
        + signed_field(" original_norm="@, trace.original_normalized as int)
        + signed_field(" zeroed_norm="@, trace.zeroed_normalized as int)
        + signed_field(" norm_delta="@, trace.normalized_delta as int)
        + "\n"@
}

/// Appends what becomes of a sample without a coefficient.
fn push_effect_line(text: &mut String, trace: &Iw44CoefficientReconstructionTrace)
    ensures
        final(text)@ == old(text)@ + effect_line(*trace),
{
    reveal(effect_line);
    let ghost before = text@;
    push_field(text, "  index=", trace.entry.index as u64);
    push_field(text, " bucket=", trace.entry.bucket as u64);
    push_field(text, " band=", trace.entry.band as u64);
    push_signed_field(text, " coefficient=", trace.entry.value as i32);
    push_field(text, " sample=", trace.sample_x as u64);
    push_field(text, "x", trace.sample_y as u64);
    push_signed_field(text, " original_raw=", trace.original_raw as i32);
    push_signed_field(text, " zeroed_raw=", trace.zeroed_raw as i32);
    push_signed_field(text, " raw_delta=", trace.raw_delta as i32);
    push_signed_field(text, " original_norm=", trace.original_normalized as i32);
    push_signed_field(text, " zeroed_norm=", trace.zeroed_normalized as i32);
    push_signed_field(text, " norm_delta=", trace.normalized_delta as i32);
    text.append("\n");
    assert(text@ =~= before + effect_line(*trace));
}

/// The effects of the first coefficients.
pub open spec fn effect_lines(items: Seq<Iw44CoefficientReconstructionTrace>, count: int) -> Seq<char>
    decreases count,
{
    if count <= 0 {
        Seq::empty()
    } else {
        effect_lines(items, count - 1) + effect_line(items[count - 1])
    }
}

/// Appends all of these.
fn push_effect_lines(text: &mut String, items: &Vec<Iw44CoefficientReconstructionTrace>)
    ensures
        final(text)@ == old(text)@ + effect_lines(items@, items@.len() as int),
{
    let ghost before = text@;
    let mut i: usize = 0;
    assert(text@ =~= before + effect_lines(items@, 0));
    while i < items.len()
        invariant
            i <= items@.len(),
            text@ == before + effect_lines(items@, i as int),
        decreases items@.len() - i,
    {
        push_effect_line(text, &items[i]);
        i = i + 1;
        assert(text@ =~= before + effect_lines(items@, i as int));
    }
}

/// What becomes of a sample when coefficients are set to 0.
#[verifier::opaque]
pub open spec fn reconstruction_text(summary: Iw44CoefficientReconstructionSummary) -> Seq<char> {
    "Y coefficient reconstruction trace:\n"@ + aggregate_line(
        "all_listed_zeroed"@,
        summary.all_zeroed,
    ) + aggregate_line("block_zeroed"@, summary.block_zeroed) + variant_line(
        "rows_then_columns"@,
        summary.rows_then_columns,
    ) + variant_line("padded_extent"@, summary.padded_extent) + band_lines(
        summary.band_zeroed@,
        summary.band_zeroed@.len() as int,
    ) + bucket_texts(summary.bucket_zeroed@, summary.bucket_zeroed@.len() as int) + effect_lines(
        summary.entries@,
        summary.entries@.len() as int,
    )
}

/// Appends what becomes of a sample.
fn push_reconstruction(text: &mut String, summary: &Iw44CoefficientReconstructionSummary)
    ensures
        final(text)@ == old(text)@ + reconstruction_text(*summary),
{
    reveal(reconstruction_text);
    let ghost before = text@;
    text.append("Y coefficient reconstruction trace:\n");
    push_aggregate_line(text, "all_listed_zeroed", &summary.all_zeroed);
    push_aggregate_line(text, "block_zeroed", &summary.block_zeroed);
    push_variant_line(text, "rows_then_columns", &summary.rows_then_columns);
    push_variant_line(text, "padded_extent", &summary.padded_extent);
    push_band_lines(text, &summary.band_zeroed);
    push_bucket_texts(text, &summary.bucket_zeroed);
    push_effect_lines(text, &summary.entries);
    assert(text@ =~= before + reconstruction_text(*summary));
}

/// A colour.
#[verifier::opaque]
pub open spec fn color_text(rgb: Seq<u8>) -> Seq<char> {
    "#"@ + hex(rgb[0] as int, 2) + hex(rgb[1] as int, 2) + hex(rgb[2] as int, 2)
}

/// Appends a colour.
fn push_color(text: &mut String, rgb: [u8; 3])
    ensures
        final(text)@ == old(text)@ + color_text(rgb@),
{
    reveal(color_text);
    text.append("#");
    push_hex(text, rgb[0] as u64, 2);
    push_hex(text, rgb[1] as u64, 2);
    push_hex(text, rgb[2] as u64, 2);
    assert(text@ =~= old(text)@ + color_text(rgb@));
}

/// The pixel of the layer, its colour, and the samples that this is made of.
pub open spec fn pixel_text(inspection: Iw44PixelInspection) -> Seq<char> {
    (match inspection.role {
        Iw44LayerRole::Foreground => "IW44 role: foreground\nsource pixel: x="@,
        Iw44LayerRole::Background => "IW44 role: background\nsource pixel: x="@,
    }) + decimal(inspection.source_x as nat) + field(" y="@, inspection.source_y as int)
        + "\nrgb: actual="@ + color_text(inspection.rgb@) + " computed="@ + color_text(
        inspection.computed_rgb@,
    ) + "\n"@ + sample_line("Y"@, inspection.y) + (match inspection.cb {
        Some(cb) => sample_line("Cb"@, cb),
        None => Seq::empty(),
    }) + (match inspection.cr {
        Some(cr) => sample_line("Cr"@, cr),
        None => Seq::empty(),
    })
}

/// Appends the pixel of the layer.
fn push_pixel(text: &mut String, inspection: &Iw44PixelInspection)
    ensures
        final(text)@ == old(text)@ + pixel_text(*inspection),
{
    let ghost before = text@;
    match inspection.role {
        Iw44LayerRole::Foreground => {
            text.append("IW44 role: foreground\nsource pixel: x=");
        },
        Iw44LayerRole::Background => {
            text.append("IW44 role: background\nsource pixel: x=");
        },
    }
    push_decimal(text, inspection.source_x as u64);
    push_field(text, " y=", inspection.source_y as u64);
    text.append("\nrgb: actual=");
    push_color(text, inspection.rgb);
    text.append(" computed=");
    push_color(text, inspection.computed_rgb);
    text.append("\n");
    push_sample_line(text, "Y", &inspection.y);
    match &inspection.cb {
        Some(cb) => {
            push_sample_line(text, "Cb", cb);
        },
        None => {},
    }
    match &inspection.cr {
        Some(cr) => {
            push_sample_line(text, "Cr", cr);
        },
        None => {},
    }
    assert(text@ =~= before + pixel_text(*inspection));
}

/// The samples round the pixel, if they were asked for.
#[verifier::opaque]
pub open spec fn samples_part(part: Option<Iw44LumaNeighborhood>) -> Seq<char> {
    match part {
        Some(found) => neighborhood_text(found),
        None => Seq::empty(),
    }
}

/// Appends the samples round the pixel, if they were asked for.
fn push_samples_part(text: &mut String, part: &Option<Iw44LumaNeighborhood>)
    ensures
        final(text)@ == old(text)@ + samples_part(*part),
{
    reveal(samples_part);
    let ghost before = text@;
    match part {
        Some(found) => {
            push_neighborhood(text, found);
        },
        None => {},
    }
    assert(text@ =~= before + samples_part(*part));
}

/// The block of the pixel, if it was asked for.
#[verifier::opaque]
pub open spec fn block_part(part: Option<Iw44CoefficientBlockSummary>) -> Seq<char> {
    match part {
        Some(found) => block_line(found) + entry_lines(
            found.entries@,
            found.entries@.len() as int,
        ),
        None => Seq::empty(),
    }
}

/// Appends the block of the pixel, if it was asked for.
fn push_block_part(text: &mut String, part: &Option<Iw44CoefficientBlockSummary>)
    ensures
        final(text)@ == old(text)@ + block_part(*part),
{
    reveal(block_part);
    let ghost before = text@;
    match part {
        Some(found) => {
            push_block_line(text, found);
            push_entry_lines(text, &found.entries);
        },
        None => {},
    }
    assert(text@ =~= before + block_part(*part));
}

/// The values of coefficients in the course of decoding, if they were asked for.
#[verifier::opaque]
pub open spec fn trace_part(part: Option<Vec<Iw44CoefficientTraceStep>>) -> Seq<char> {
    match part {
        Some(found) => "Y coefficient trace:\n"@ + step_lines(found@, found@.len() as int),
        None => Seq::empty(),
    }
}

/// Appends the values of coefficients in the course of decoding, if they were asked for.
fn push_trace_part(text: &mut String, part: &Option<Vec<Iw44CoefficientTraceStep>>)
    ensures
        final(text)@ == old(text)@ + trace_part(*part),
{
    reveal(trace_part);
    let ghost before = text@;
    match part {
        Some(found) => {
            text.append("Y coefficient trace:\n");
            push_step_lines(text, found);
        },
        None => {},
    }
    assert(text@ =~= before + trace_part(*part));
}

/// The events at coefficients, if they were asked for.
#[verifier::opaque]
pub open spec fn events_part(part: Option<Vec<Iw44CoefficientEventTrace>>) -> Seq<char> {
    match part {
        Some(found) => "Y coefficient event trace:\n"@ + event_texts(
            found@,
            found@.len() as int,
        ),
        None => Seq::empty(),
    }
}

/// Appends the events at coefficients, if they were asked for.
fn push_events_part(text: &mut String, part: &Option<Vec<Iw44CoefficientEventTrace>>)
    ensures
        final(text)@ == old(text)@ + events_part(*part),
{
    reveal(events_part);
    let ghost before = text@;
    match part {
        Some(found) => {
            text.append("Y coefficient event trace:\n");
            push_event_texts(text, found);
        },
        None => {},
    }
    assert(text@ =~= before + events_part(*part));
}

/// The effects of coefficients, if they were asked for.
#[verifier::opaque]
pub open spec fn effects_part(part: Option<Iw44CoefficientReconstructionSummary>) -> Seq<char> {
    match part {
        Some(found) => reconstruction_text(found),
        None => Seq::empty(),
    }
}

/// Appends the effects of coefficients, if they were asked for.
fn push_effects_part(text: &mut String, part: &Option<Iw44CoefficientReconstructionSummary>)
    ensures
        final(text)@ == old(text)@ + effects_part(*part),
{
    reveal(effects_part);
    let ghost before = text@;
    match part {
        Some(found) => {
            push_reconstruction(text, found);
        },
        None => {},
    }
    assert(text@ =~= before + effects_part(*part));
}

/// What was asked for besides the pixel.
pub open spec fn diagnostics_text(inspection: Iw44PixelInspection) -> Seq<char> {
    samples_part(inspection.y_neighborhood)
        + block_part(inspection.y_coefficients)
        + trace_part(inspection.y_coefficient_trace)
        + events_part(inspection.y_coefficient_event_traces)
        + effects_part(inspection.y_coefficient_reconstruction)
}

/// Appends what was asked for besides the pixel.
fn push_diagnostics(text: &mut String, inspection: &Iw44PixelInspection)
    ensures
        final(text)@ == old(text)@ + diagnostics_text(*inspection),
{
    let ghost before = text@;
    push_samples_part(text, &inspection.y_neighborhood);
    push_block_part(text, &inspection.y_coefficients);
    push_trace_part(text, &inspection.y_coefficient_trace);
    push_events_part(text, &inspection.y_coefficient_event_traces);
    push_effects_part(text, &inspection.y_coefficient_reconstruction);
    assert(text@ =~= before + diagnostics_text(*inspection));
}

/// All that was found at a pixel, in words.
#[must_use]
pub fn format_iw44_pixel_inspection(inspection: &Iw44PixelInspection) -> (text: String)
    ensures
        text@ == pixel_text(*inspection) + diagnostics_text(*inspection),
{
    let mut text: String = text_of("");
    proof {
        reveal_strlit("");
        assert(text@ =~= Seq::empty());
    }
    push_pixel(&mut text, inspection);
    assert(text@ =~= pixel_text(*inspection));
    push_diagnostics(&mut text, inspection);
    text
}

} // verus!
