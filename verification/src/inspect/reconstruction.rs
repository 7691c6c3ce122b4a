//! What becomes of a sample when coefficients are set to 0.

use super::coefficients::{
    bucket_band, entry_of, entry_weight, find_coefficients, insert_ranked, iw44_bucket_band,
    iw44_coefficient_entry, lemma_ranked_push, outside_edge, plane_coefficients, BlockModel,
    Iw44CoefficientBlockSummary, Iw44CoefficientEntry,
};
use crate::ranking::{lemma_ranked_falls, rank_insert, rank_place, ranked, ranked_prefix};
use super::sample::{find_plane, visible_samples, Iw44PlaneSample};
use super::{
    iw44_plane_name, missing_plane, missing_plane_error, plain, plain_error, plane_name,
    InspectError, InspectFault,
};
use crate::bitonal::lemma_pixel_index;
use crate::iw44::blocks::{
    blocks_along, iw44_zigzag_col, iw44_zigzag_row, zigzag_col, zigzag_row,
};
use crate::iw44::color::{at_most, normalize_iw44_sample, normalized};
use crate::iw44::decoder::{
    coefficients_show, overridden, overrides_fit, plane_of, plane_samples, DecoderModel,
    Iw44CoefficientPlane, Iw44Decoder,
};
use crate::iw44::slice::PlaneModel;
use crate::iw44::{Iw44Plane, Iw44ReconstructionExtent, Iw44ReconstructionOrder};
use crate::text::{push_decimal, text_of};
use vstd::prelude::*;

verus! {

/// A sample as it is, and as another way of reconstruction gives it.
#[derive(Debug, Clone, Copy, Eq, PartialEq, Structural)]
pub struct Iw44TransformOrderTrace {
    pub sample_x: usize,
    pub sample_y: usize,
    pub original_raw: i16,
    pub alternate_raw: i16,
    pub raw_delta: i32,
    pub original_normalized: i32,
    pub alternate_normalized: i32,
    pub normalized_delta: i32,
}

/// A sample as it is, and with one coefficient set to 0.
#[derive(Debug, Clone, Copy, Eq, PartialEq, Structural)]
pub struct Iw44CoefficientReconstructionTrace {
    pub entry: Iw44CoefficientEntry,
    pub sample_x: usize,
    pub sample_y: usize,
    pub original_raw: i16,
    pub zeroed_raw: i16,
    pub raw_delta: i32,
    pub original_normalized: i32,
    pub zeroed_normalized: i32,
    pub normalized_delta: i32,
}

/// A sample as it is, and with a number of coefficients set to 0.
#[derive(Debug, Clone, Copy, Eq, PartialEq, Structural)]
pub struct Iw44CoefficientReconstructionAggregate {
    pub coefficient_count: usize,
    pub sample_x: usize,
    pub sample_y: usize,
    pub original_raw: i16,
    pub zeroed_raw: i16,
    pub raw_delta: i32,
    pub original_normalized: i32,
    pub zeroed_normalized: i32,
    pub normalized_delta: i32,
}

/// A sample as it is, and with the coefficients of a band set to 0.
#[derive(Debug, Clone, Copy, Eq, PartialEq, Structural)]
pub struct Iw44CoefficientReconstructionBandAggregate {
    pub band: usize,
    pub coefficient_count: usize,
    pub sample_x: usize,
    pub sample_y: usize,
    pub original_raw: i16,
    pub zeroed_raw: i16,
    pub raw_delta: i32,
    pub original_normalized: i32,
    pub zeroed_normalized: i32,
    pub normalized_delta: i32,
}

/// A sample as it is, and with the coefficients of a bucket set to 0; and the strongest of
/// these.
#[derive(Debug, Clone, Eq, PartialEq)]
pub struct Iw44CoefficientReconstructionBucketAggregate {
    pub bucket: usize,
    pub band: usize,
    pub coefficient_count: usize,
    pub sample_x: usize,
    pub sample_y: usize,
    pub original_raw: i16,
    pub zeroed_raw: i16,
    pub raw_delta: i32,
    pub original_normalized: i32,
    pub zeroed_normalized: i32,
    pub normalized_delta: i32,
    pub contributors: Vec<Iw44CoefficientEntry>,
}

/// What becomes of a sample when coefficients are set to 0, or the reconstruction is
/// varied.
#[derive(Debug, Clone, Eq, PartialEq)]
pub struct Iw44CoefficientReconstructionSummary {
    pub entries: Vec<Iw44CoefficientReconstructionTrace>,
    pub all_zeroed: Iw44CoefficientReconstructionAggregate,
    pub block_zeroed: Iw44CoefficientReconstructionAggregate,
    pub rows_then_columns: Iw44TransformOrderTrace,
    pub padded_extent: Iw44TransformOrderTrace,
    pub band_zeroed: Vec<Iw44CoefficientReconstructionBandAggregate>,
    pub bucket_zeroed: Vec<Iw44CoefficientReconstructionBucketAggregate>,
}

/// The effect of a bucket, as a value.
#[verifier::ext_equal]
pub struct BucketModel {
    pub bucket: usize,
    pub band: usize,
    pub effect: Iw44CoefficientReconstructionAggregate,
    pub contributors: Seq<Iw44CoefficientEntry>,
}

/// What becomes of a sample, as a value.
#[verifier::ext_equal]
pub struct ReconstructionModel {
    pub entries: Seq<Iw44CoefficientReconstructionTrace>,
    pub all_zeroed: Iw44CoefficientReconstructionAggregate,
    pub block_zeroed: Iw44CoefficientReconstructionAggregate,
    pub rows_then_columns: Iw44TransformOrderTrace,
    pub padded_extent: Iw44TransformOrderTrace,
    pub band_zeroed: Seq<Iw44CoefficientReconstructionBandAggregate>,
    pub bucket_zeroed: Seq<BucketModel>,
}

impl View for Iw44CoefficientReconstructionBucketAggregate {
    type V = BucketModel;

    open spec fn view(&self) -> BucketModel {
        BucketModel {
            bucket: self.bucket,
            band: self.band,
            effect: Iw44CoefficientReconstructionAggregate {
                coefficient_count: self.coefficient_count,
                sample_x: self.sample_x,
                sample_y: self.sample_y,
                original_raw: self.original_raw,
                zeroed_raw: self.zeroed_raw,
                raw_delta: self.raw_delta,
                original_normalized: self.original_normalized,
                zeroed_normalized: self.zeroed_normalized,
                normalized_delta: self.normalized_delta,
            },
            contributors: self.contributors@,
        }
    }
}

/// The effects of buckets by their values.
pub open spec fn buckets_view(
    buckets: Seq<Iw44CoefficientReconstructionBucketAggregate>,
) -> Seq<BucketModel> {
    Seq::new(buckets.len(), |i: int| buckets[i]@)
}

impl View for Iw44CoefficientReconstructionSummary {
    type V = ReconstructionModel;

    open spec fn view(&self) -> ReconstructionModel {
        ReconstructionModel {
            entries: self.entries@,
            all_zeroed: self.all_zeroed,
            block_zeroed: self.block_zeroed,
            rows_then_columns: self.rows_then_columns,
            padded_extent: self.padded_extent,
            band_zeroed: self.band_zeroed@,
            bucket_zeroed: buckets_view(self.bucket_zeroed@),
        }
    }
}

/// A sample lies in a plane of an image, and is brought to eight bits.
pub open spec fn sample_placed(
    model: DecoderModel,
    which: Iw44Plane,
    sample: Iw44PlaneSample,
) -> bool {
    &&& -128 <= sample.normalized <= 127
    &&& plane_of(model, which) is Some ==> {
        &&& sample.x < plane_of(model, which)->0.width
        &&& sample.y < plane_of(model, which)->0.height
    }
}

/// The sample that stands at a place when coefficients are replaced.
pub open spec fn replaced_sample(
    plane: PlaneModel,
    overrides: Seq<(usize, usize, i16)>,
    x: int,
    y: int,
) -> i16 {
    visible_samples(
        PlaneModel {
            values: overridden(plane.values, overrides, overrides.len() as int),
            ..plane
        },
    )[y * plane.width + x]
}

/// A sample as it is, and with coefficients replaced; or why there is no such thing.
#[verifier::opaque]
pub open spec fn aggregate_of(
    model: DecoderModel,
    which: Iw44Plane,
    overrides: Seq<(usize, usize, i16)>,
    coefficient_count: usize,
    sample: Iw44PlaneSample,
    label: Seq<char>,
) -> Result<Iw44CoefficientReconstructionAggregate, InspectFault> {
    let plane = plane_of(model, which);
    if plane is Some && overrides_fit(plane->0, overrides) {
        let raw = replaced_sample(plane->0, overrides, sample.x as int, sample.y as int);
        Ok(
            Iw44CoefficientReconstructionAggregate {
                coefficient_count,
                sample_x: sample.x,
                sample_y: sample.y,
                original_raw: sample.raw,
                zeroed_raw: raw,
                raw_delta: (sample.raw - raw) as i32,
                original_normalized: sample.normalized,
                zeroed_normalized: normalized(raw) as i32,
                normalized_delta: (sample.normalized - normalized(raw)) as i32,
            },
        )
    } else {
        Err(
            plain(
                "failed to reconstruct "@ + plane_name(which) + " plane with "@ + label
                    + " zeroed"@,
            ),
        )
    }
}

/// A sample as it is, and with coefficients replaced.
pub(crate) fn iw44_reconstruction_aggregate(
    decoder: &Iw44Decoder,
    plane: Iw44Plane,
    overrides: &Vec<(usize, usize, i16)>,
    coefficient_count: usize,
    sample: Iw44PlaneSample,
    label: &str,
) -> (aggregate: Result<Iw44CoefficientReconstructionAggregate, InspectError>)
    requires
        decoder.wf(),
        sample_placed(decoder@, plane, sample),
    ensures
        match aggregate_of(decoder@, plane, overrides@, coefficient_count, sample, label@) {
            Err(fault) => aggregate is Err && aggregate->Err_0@ == fault,
            Ok(expected) => aggregate is Ok && aggregate->Ok_0 == expected,
        },
{
    reveal(aggregate_of);
    match decoder.reconstruct_plane_with_coefficient_values(plane, overrides.as_slice()) {
        None => {
            let mut message: String = text_of("failed to reconstruct ");
            message.append(iw44_plane_name(plane));
            message.append(" plane with ");
            message.append(label);
            message.append(" zeroed");
            Err(plain_error(message))
        },
        Some(zeroed) => {
            proof {
                lemma_pixel_index(
                    zeroed.width as int,
                    zeroed.height as int,
                    sample.x as int,
                    sample.y as int,
                );
            }
            assert(zeroed.samples@.len() == zeroed.samples.len());
            let zeroed_raw: i16 = zeroed.samples[sample.y * zeroed.width + sample.x];
            let zeroed_normalized = normalize_iw44_sample(zeroed_raw);
            Ok(
                Iw44CoefficientReconstructionAggregate {
                    coefficient_count,
                    sample_x: sample.x,
                    sample_y: sample.y,
                    original_raw: sample.raw,
                    zeroed_raw,
                    raw_delta: sample.raw as i32 - zeroed_raw as i32,
                    original_normalized: sample.normalized,
                    zeroed_normalized,
                    normalized_delta: sample.normalized - zeroed_normalized,
                },
            )
        },
    }
}

/// A sample as it is, and as another way of reconstruction gives it.
pub open spec fn alternate_of(
    model: DecoderModel,
    which: Iw44Plane,
    order: Iw44ReconstructionOrder,
    extent: Iw44ReconstructionExtent,
    sample: Iw44PlaneSample,
) -> Result<Iw44TransformOrderTrace, InspectFault> {
    match plane_of(model, which) {
        None => Err(missing_plane(which, " reconstruction plane"@)),
        Some(plane) => {
            let raw = plane_samples(plane, order, extent)[sample.y * plane.width + sample.x];
            Ok(
                Iw44TransformOrderTrace {
                    sample_x: sample.x,
                    sample_y: sample.y,
                    original_raw: sample.raw,
                    alternate_raw: raw,
                    raw_delta: (sample.raw - raw) as i32,
                    original_normalized: sample.normalized,
                    alternate_normalized: normalized(raw) as i32,
                    normalized_delta: (sample.normalized - normalized(raw)) as i32,
                },
            )
        },
    }
}

/// A sample as it is, and as another way of reconstruction gives it.
fn alternate_trace(
    decoder: &Iw44Decoder,
    plane: Iw44Plane,
    order: Iw44ReconstructionOrder,
    extent: Iw44ReconstructionExtent,
    sample: Iw44PlaneSample,
) -> (trace: Result<Iw44TransformOrderTrace, InspectError>)
    requires
        decoder.wf(),
        decoder@.image is Some,
        sample_placed(decoder@, plane, sample),
    ensures
        match alternate_of(decoder@, plane, order, extent, sample) {
            Err(fault) => trace is Err && trace->Err_0@ == fault,
            Ok(expected) => trace is Ok && trace->Ok_0 == expected,
        },
{
    let planes = decoder.reconstruct_planes_with_options(order, extent);
    let alternate = match find_plane(
        &planes,
        plane,
        Ghost(decoder@),
        Ghost(order),
        Ghost(extent),
    ) {
        None => {
            return Err(missing_plane_error(plane, " reconstruction plane"));
        },
        Some(alternate) => alternate,
    };
    proof {
        lemma_pixel_index(
            alternate.width as int,
            alternate.height as int,
            sample.x as int,
            sample.y as int,
        );
    }
    assert(alternate.samples@.len() == alternate.samples.len());
    let alternate_raw: i16 = alternate.samples[sample.y * alternate.width + sample.x];
    let alternate_normalized = normalize_iw44_sample(alternate_raw);
    Ok(
        Iw44TransformOrderTrace {
            sample_x: sample.x,
            sample_y: sample.y,
            original_raw: sample.raw,
            alternate_raw,
            raw_delta: sample.raw as i32 - alternate_raw as i32,
            original_normalized: sample.normalized,
            alternate_normalized,
            normalized_delta: sample.normalized - alternate_normalized,
        },
    )
}

/// A sample as it is, and as it comes out when rows are transformed before columns.
pub(crate) fn iw44_transform_order_trace(
    decoder: &Iw44Decoder,
    plane: Iw44Plane,
    sample: Iw44PlaneSample,
) -> (trace: Result<Iw44TransformOrderTrace, InspectError>)
    requires
        decoder.wf(),
        decoder@.image is Some,
        sample_placed(decoder@, plane, sample),
    ensures
        match alternate_of(
            decoder@,
            plane,
            Iw44ReconstructionOrder::RowsThenColumns,
            Iw44ReconstructionExtent::Visible,
            sample,
        ) {
            Err(fault) => trace is Err && trace->Err_0@ == fault,
            Ok(expected) => trace is Ok && trace->Ok_0 == expected,
        },
{
    alternate_trace(
        decoder,
        plane,
        Iw44ReconstructionOrder::RowsThenColumns,
        Iw44ReconstructionExtent::Visible,
        sample,
    )
}

/// A sample as it is, and as it comes out when whole blocks are transformed.
pub(crate) fn iw44_padded_extent_trace(
    decoder: &Iw44Decoder,
    plane: Iw44Plane,
    sample: Iw44PlaneSample,
) -> (trace: Result<Iw44TransformOrderTrace, InspectError>)
    requires
        decoder.wf(),
        decoder@.image is Some,
        sample_placed(decoder@, plane, sample),
    ensures
        match alternate_of(
            decoder@,
            plane,
            Iw44ReconstructionOrder::ColumnsThenRows,
            Iw44ReconstructionExtent::Padded,
            sample,
        ) {
            Err(fault) => trace is Err && trace->Err_0@ == fault,
            Ok(expected) => trace is Ok && trace->Ok_0 == expected,
        },
{
    alternate_trace(
        decoder,
        plane,
        Iw44ReconstructionOrder::ColumnsThenRows,
        Iw44ReconstructionExtent::Padded,
        sample,
    )
}

/// The effect of one coefficient.
pub open spec fn entry_effect(
    entry: Iw44CoefficientEntry,
    effect: Iw44CoefficientReconstructionAggregate,
) -> Iw44CoefficientReconstructionTrace {
    Iw44CoefficientReconstructionTrace {
        entry,
        sample_x: effect.sample_x,
        sample_y: effect.sample_y,
        original_raw: effect.original_raw,
        zeroed_raw: effect.zeroed_raw,
        raw_delta: effect.raw_delta,
        original_normalized: effect.original_normalized,
        zeroed_normalized: effect.zeroed_normalized,
        normalized_delta: effect.normalized_delta,
    }
}

/// The effects of the first `count` coefficients of a list, each on its own.
pub open spec fn individual_of(
    model: DecoderModel,
    which: Iw44Plane,
    block: usize,
    entries: Seq<Iw44CoefficientEntry>,
    sample: Iw44PlaneSample,
    count: int,
) -> Result<Seq<Iw44CoefficientReconstructionTrace>, InspectFault>
    decreases count,
{
    if count <= 0 {
        Ok(Seq::empty())
    } else {
        match individual_of(model, which, block, entries, sample, count - 1) {
            Err(fault) => Err(fault),
            Ok(before) => match aggregate_of(
                model,
                which,
                seq![(block, entries[count - 1].index, 0i16)],
                1,
                sample,
                "coefficient"@,
            ) {
                Err(fault) => Err(fault),
                Ok(effect) => Ok(before.push(entry_effect(entries[count - 1], effect))),
            },
        }
    }
}

proof fn lemma_individual_fault(
    model: DecoderModel,
    which: Iw44Plane,
    block: usize,
    entries: Seq<Iw44CoefficientEntry>,
    sample: Iw44PlaneSample,
    count: int,
    total: int,
)
    requires
        0 <= count <= total,
        individual_of(model, which, block, entries, sample, count) is Err,
    ensures
        individual_of(model, which, block, entries, sample, total) == individual_of(
            model,
            which,
            block,
            entries,
            sample,
            count,
        ),
    decreases total - count,
{
    if count < total {
        lemma_individual_fault(model, which, block, entries, sample, count, total - 1);
    }
}

/// The effects of the coefficients of a list, each on its own.
fn iw44_individual_coefficient_reconstruction_traces(
    decoder: &Iw44Decoder,
    plane: Iw44Plane,
    block: usize,
    entries: &Vec<Iw44CoefficientEntry>,
    sample: Iw44PlaneSample,
) -> (traces: Result<Vec<Iw44CoefficientReconstructionTrace>, InspectError>)
    requires
        decoder.wf(),
        sample_placed(decoder@, plane, sample),
    ensures
        match individual_of(
            decoder@,
            plane,
            block,
            entries@,
            sample,
            entries@.len() as int,
        ) {
            Err(fault) => traces is Err && traces->Err_0@ == fault,
            Ok(expected) => traces is Ok && traces->Ok_0@ == expected,
        },
{
    let mut traces: Vec<Iw44CoefficientReconstructionTrace> = Vec::new();
    let mut i: usize = 0;
    while i < entries.len()
        invariant
            i <= entries@.len(),
            decoder.wf(),
            sample_placed(decoder@, plane, sample),
            individual_of(decoder@, plane, block, entries@, sample, i as int) == Ok::<
                _,
                InspectFault,
            >(traces@),
        decreases entries@.len() - i,
    {
        let entry = entries[i];
        let mut overrides: Vec<(usize, usize, i16)> = Vec::new();
        overrides.push((block, entry.index, 0));
        assert(overrides@ =~= seq![(block, entries@[i as int].index, 0i16)]);
        match iw44_reconstruction_aggregate(
            decoder,
            plane,
            &overrides,
            1,
            sample,
            "coefficient",
        ) {
            Err(error) => {
                proof {
                    lemma_individual_fault(
                        decoder@,
                        plane,
                        block,
                        entries@,
                        sample,
                        i + 1,
                        entries@.len() as int,
                    );
                }
                return Err(error);
            },
            Ok(aggregate) => {
                traces.push(
                    Iw44CoefficientReconstructionTrace {
                        entry,
                        sample_x: aggregate.sample_x,
                        sample_y: aggregate.sample_y,
                        original_raw: aggregate.original_raw,
                        zeroed_raw: aggregate.zeroed_raw,
                        raw_delta: aggregate.raw_delta,
                        original_normalized: aggregate.original_normalized,
                        zeroed_normalized: aggregate.zeroed_normalized,
                        normalized_delta: aggregate.normalized_delta,
                    },
                );
            },
        }
        i = i + 1;
    }
    Ok(traces)
}

/// Replacements that set those of the first `count` coefficients of a block to 0 that
/// belong to a band.
pub open spec fn band_overrides(block: usize, band: int, count: int) -> Seq<(usize, usize, i16)>
    decreases count,
{
    if count <= 0 {
        Seq::empty()
    } else {
        let before = band_overrides(block, band, count - 1);
        if bucket_band((count - 1) / 16) == band {
            before.push((block, (count - 1) as usize, 0i16))
        } else {
            before
        }
    }
}

/// Replacements that set the coefficients of a block that belong to a band to 0.
fn zeroed_band(block: usize, band: usize) -> (overrides: Vec<(usize, usize, i16)>)
    ensures
        overrides@ == band_overrides(block, band as int, 1024),
{
    let mut overrides: Vec<(usize, usize, i16)> = Vec::new();
    let mut i: usize = 0;
    while i < 1024
        invariant
            i <= 1024,
            overrides@ == band_overrides(block, band as int, i as int),
        decreases 1024 - i,
    {
        if iw44_bucket_band(i / 16) == band {
            overrides.push((block, i, 0));
        }
        i = i + 1;
    }
    overrides
}

/// The effect of a band.
pub open spec fn band_effect(
    band: usize,
    effect: Iw44CoefficientReconstructionAggregate,
) -> Iw44CoefficientReconstructionBandAggregate {
    Iw44CoefficientReconstructionBandAggregate {
        band,
        coefficient_count: effect.coefficient_count,
        sample_x: effect.sample_x,
        sample_y: effect.sample_y,
        original_raw: effect.original_raw,
        zeroed_raw: effect.zeroed_raw,
        raw_delta: effect.raw_delta,
        original_normalized: effect.original_normalized,
        zeroed_normalized: effect.zeroed_normalized,
        normalized_delta: effect.normalized_delta,
    }
}

/// The effects of the first `count` bands.
pub open spec fn bands_of(
    model: DecoderModel,
    which: Iw44Plane,
    block: usize,
    sample: Iw44PlaneSample,
    count: int,
) -> Result<Seq<Iw44CoefficientReconstructionBandAggregate>, InspectFault>
    decreases count,
{
    if count <= 0 {
        Ok(Seq::empty())
    } else {
        match bands_of(model, which, block, sample, count - 1) {
            Err(fault) => Err(fault),
            Ok(before) => {
                let overrides = band_overrides(block, count - 1, 1024);
                if overrides.len() == 0 {
                    Ok(before)
                } else {
                    match aggregate_of(
                        model,
                        which,
                        overrides,
                        overrides.len() as usize,
                        sample,
                        "band"@,
                    ) {
                        Err(fault) => Err(fault),
                        Ok(effect) => Ok(
                            before.push(band_effect((count - 1) as usize, effect)),
                        ),
                    }
                }
            },
        }
    }
}

proof fn lemma_bands_fault(
    model: DecoderModel,
    which: Iw44Plane,
    block: usize,
    sample: Iw44PlaneSample,
    count: int,
    total: int,
)
    requires
        0 <= count <= total,
        bands_of(model, which, block, sample, count) is Err,
    ensures
        bands_of(model, which, block, sample, total) == bands_of(
            model,
            which,
            block,
            sample,
            count,
        ),
    decreases total - count,
{
    if count < total {
        lemma_bands_fault(model, which, block, sample, count, total - 1);
    }
}

/// The effects of all bands.
fn iw44_band_zeroed_reconstruction(
    decoder: &Iw44Decoder,
    plane: Iw44Plane,
    block: usize,
    sample: Iw44PlaneSample,
) -> (bands: Result<Vec<Iw44CoefficientReconstructionBandAggregate>, InspectError>)
    requires
        decoder.wf(),
        sample_placed(decoder@, plane, sample),
    ensures
        match bands_of(decoder@, plane, block, sample, 10) {
            Err(fault) => bands is Err && bands->Err_0@ == fault,
            Ok(expected) => bands is Ok && bands->Ok_0@ == expected,
        },
{
    let mut bands: Vec<Iw44CoefficientReconstructionBandAggregate> = Vec::new();
    let mut band: usize = 0;
    while band < 10
        invariant
            band <= 10,
            decoder.wf(),
            sample_placed(decoder@, plane, sample),
            bands_of(decoder@, plane, block, sample, band as int) == Ok::<_, InspectFault>(
                bands@,
            ),
        decreases 10 - band,
    {
        let overrides = zeroed_band(block, band);
        let count: usize = overrides.len();
        if count != 0 {
            match iw44_reconstruction_aggregate(
                decoder,
                plane,
                &overrides,
                count,
                sample,
                "band",
            ) {
                Err(error) => {
                    proof {
                        lemma_bands_fault(decoder@, plane, block, sample, band + 1, 10);
                    }
                    return Err(error);
                },
                Ok(aggregate) => {
                    bands.push(
                        Iw44CoefficientReconstructionBandAggregate {
                            band,
                            coefficient_count: aggregate.coefficient_count,
                            sample_x: aggregate.sample_x,
                            sample_y: aggregate.sample_y,
                            original_raw: aggregate.original_raw,
                            zeroed_raw: aggregate.zeroed_raw,
                            raw_delta: aggregate.raw_delta,
                            original_normalized: aggregate.original_normalized,
                            zeroed_normalized: aggregate.zeroed_normalized,
                            normalized_delta: aggregate.normalized_delta,
                        },
                    );
                },
            }
        }
        band = band + 1;
    }
    Ok(bands)
}

/// A band whose loss changes the sample by ten steps or more.
pub open spec fn high_impact(
    bands: Seq<Iw44CoefficientReconstructionBandAggregate>,
    band: int,
) -> bool {
    exists|i: int|
        0 <= i < bands.len() && (#[trigger] bands[i]).band == band && (bands[i].normalized_delta
            >= 10 || bands[i].normalized_delta <= -10)
}

/// Whether the loss of a band changes the sample by ten steps or more.
fn is_high_impact(
    bands: &Vec<Iw44CoefficientReconstructionBandAggregate>,
    band: usize,
) -> (high: bool)
    ensures
        high == high_impact(bands@, band as int),
{
    let mut i: usize = 0;
    while i < bands.len()
        invariant
            i <= bands@.len(),
            forall|k: int|
                0 <= k < i ==> !((#[trigger] bands@[k]).band == band && (
                bands@[k].normalized_delta >= 10 || bands@[k].normalized_delta <= -10)),
        decreases bands@.len() - i,
    {
        let candidate = bands[i];
        if candidate.band == band && (candidate.normalized_delta >= 10
            || candidate.normalized_delta <= -10) {
            return true;
        }
        i = i + 1;
    }
    false
}

/// Replacements that set the coefficients of a bucket to 0.
pub open spec fn bucket_overrides(block: usize, bucket: int) -> Seq<(usize, usize, i16)> {
    Seq::new(16, |i: int| (block, (16 * bucket + i) as usize, 0i16))
}

/// Replacements that set `count` coefficients of a block to 0, from the given one on.
fn zeroed_range(block: usize, first: usize, count: usize) -> (overrides: Vec<
    (usize, usize, i16),
>)
    requires
        first + count <= usize::MAX,
    ensures
        overrides@ == Seq::new(count as nat, |i: int| (block, (first + i) as usize, 0i16)),
{
    let mut overrides: Vec<(usize, usize, i16)> = Vec::new();
    let mut i: usize = 0;
    while i < count
        invariant
            i <= count,
            first + count <= usize::MAX,
            overrides@ == Seq::new(i as nat, |k: int| (block, (first + k) as usize, 0i16)),
        decreases count - i,
    {
        overrides.push((block, first + i, 0));
        i = i + 1;
        assert(overrides@ =~= Seq::new(i as nat, |k: int| (block, (first + k) as usize, 0i16)));
    }
    overrides
}

/// The effects of those of the first `count` buckets that belong to bands of high impact
/// and have one.
pub open spec fn buckets_of(
    model: DecoderModel,
    which: Iw44Plane,
    block: usize,
    sample: Iw44PlaneSample,
    bands: Seq<Iw44CoefficientReconstructionBandAggregate>,
    count: int,
) -> Result<Seq<BucketModel>, InspectFault>
    decreases count,
{
    if count <= 0 {
        Ok(Seq::empty())
    } else {
        match buckets_of(model, which, block, sample, bands, count - 1) {
            Err(fault) => Err(fault),
            Ok(before) => if !high_impact(bands, bucket_band(count - 1)) {
                Ok(before)
            } else {
                match aggregate_of(
                    model,
                    which,
                    bucket_overrides(block, count - 1),
                    16,
                    sample,
                    "bucket"@,
                ) {
                    Err(fault) => Err(fault),
                    Ok(effect) => if effect.raw_delta == 0 && effect.normalized_delta == 0 {
                        Ok(before)
                    } else {
                        Ok(
                            before.push(
                                BucketModel {
                                    bucket: (count - 1) as usize,
                                    band: bucket_band(count - 1) as usize,
                                    effect,
                                    contributors: Seq::empty(),
                                },
                            ),
                        )
                    },
                }
            },
        }
    }
}

proof fn lemma_buckets_fault(
    model: DecoderModel,
    which: Iw44Plane,
    block: usize,
    sample: Iw44PlaneSample,
    bands: Seq<Iw44CoefficientReconstructionBandAggregate>,
    count: int,
    total: int,
)
    requires
        0 <= count <= total,
        buckets_of(model, which, block, sample, bands, count) is Err,
    ensures
        buckets_of(model, which, block, sample, bands, total) == buckets_of(
            model,
            which,
            block,
            sample,
            bands,
            count,
        ),
    decreases total - count,
{
    if count < total {
        lemma_buckets_fault(model, which, block, sample, bands, count, total - 1);
    }
}

/// How much a bucket counts in a ranking.
pub open spec fn bucket_weight() -> spec_fn(BucketModel) -> int {
    |bucket: BucketModel|
        if bucket.effect.raw_delta < 0 {
            -bucket.effect.raw_delta
        } else {
            bucket.effect.raw_delta as int
        }
}

/// How much a bucket counts in a ranking.
fn weight_of(bucket: &Iw44CoefficientReconstructionBucketAggregate) -> (weight: i64)
    ensures
        weight == bucket_weight()(bucket@),
{
    if bucket.raw_delta < 0 {
        -(bucket.raw_delta as i64)
    } else {
        bucket.raw_delta as i64
    }
}

/// Puts a bucket into a ranked list.
fn insert_ranked_bucket(
    list: &mut Vec<Iw44CoefficientReconstructionBucketAggregate>,
    bucket: Iw44CoefficientReconstructionBucketAggregate,
)
    ensures
        buckets_view(final(list)@) == rank_insert(
            buckets_view(old(list)@),
            bucket_weight(),
            bucket@,
        ),
{
    let ghost weight = bucket_weight();
    let ghost models = buckets_view(list@);
    let own = weight_of(&bucket);
    let mut place: usize = list.len();
    while place > 0 && weight_of(&list[place - 1]) < own
        invariant
            place <= list@.len(),
            weight == bucket_weight(),
            own == weight(bucket@),
            models == buckets_view(list@),
            list@ == old(list)@,
            rank_place(models, weight, weight(bucket@), models.len() as int) == rank_place(
                models,
                weight,
                weight(bucket@),
                place as int,
            ),
        decreases place,
    {
        assert(models[place - 1] == list@[place - 1]@);
        place = place - 1;
    }
    assert(place > 0 ==> models[place - 1] == list@[place - 1]@);
    list.insert(place, bucket);
    assert(buckets_view(list@) =~= models.insert(place as int, bucket@));
}

proof fn lemma_buckets_ranked_push(buckets: Seq<BucketModel>, bucket: BucketModel)
    ensures
        ranked(buckets.push(bucket), bucket_weight()) == rank_insert(
            ranked(buckets, bucket_weight()),
            bucket_weight(),
            bucket,
        ),
{
    lemma_buckets_ranked_prefix(buckets, buckets.push(bucket), buckets.len() as int);
}

proof fn lemma_buckets_ranked_prefix(left: Seq<BucketModel>, right: Seq<BucketModel>, count: int)
    requires
        0 <= count <= left.len(),
        count <= right.len(),
        forall|i: int| 0 <= i < count ==> left[i] == right[i],
    ensures
        ranked_prefix(left, bucket_weight(), count) == ranked_prefix(
            right,
            bucket_weight(),
            count,
        ),
    decreases count,
{
    if count > 0 {
        lemma_buckets_ranked_prefix(left, right, count - 1);
    }
}

/// The effects of the buckets of bands of high impact, strongest first.
fn ranked_buckets(
    decoder: &Iw44Decoder,
    plane: Iw44Plane,
    block: usize,
    sample: Iw44PlaneSample,
    bands: &Vec<Iw44CoefficientReconstructionBandAggregate>,
) -> (buckets: Result<Vec<Iw44CoefficientReconstructionBucketAggregate>, InspectError>)
    requires
        decoder.wf(),
        sample_placed(decoder@, plane, sample),
    ensures
        match buckets_of(decoder@, plane, block, sample, bands@, 64) {
            Err(fault) => buckets is Err && buckets->Err_0@ == fault,
            Ok(expected) => buckets is Ok && buckets_view(buckets->Ok_0@) == ranked(
                expected,
                bucket_weight(),
            ),
        },
{
    let mut buckets: Vec<Iw44CoefficientReconstructionBucketAggregate> = Vec::new();
    let ghost mut found: Seq<BucketModel> = Seq::empty();
    assert(buckets_view(buckets@) =~= ranked(found, bucket_weight()));
    let mut bucket: usize = 0;
    while bucket < 64
        invariant
            bucket <= 64,
            decoder.wf(),
            sample_placed(decoder@, plane, sample),
            buckets_of(decoder@, plane, block, sample, bands@, bucket as int) == Ok::<
                _,
                InspectFault,
            >(found),
            buckets_view(buckets@) == ranked(found, bucket_weight()),
        decreases 64 - bucket,
    {
        let band = iw44_bucket_band(bucket);
        if is_high_impact(bands, band) {
            let overrides = zeroed_range(block, 16 * bucket, 16);
            assert(overrides@ =~= bucket_overrides(block, bucket as int));
            match iw44_reconstruction_aggregate(
                decoder,
                plane,
                &overrides,
                16,
                sample,
                "bucket",
            ) {
                Err(error) => {
                    proof {
                        lemma_buckets_fault(
                            decoder@,
                            plane,
                            block,
                            sample,
                            bands@,
                            bucket + 1,
                            64,
                        );
                    }
                    return Err(error);
                },
                Ok(aggregate) => {
                    if aggregate.raw_delta != 0 || aggregate.normalized_delta != 0 {
                        let entry = Iw44CoefficientReconstructionBucketAggregate {
                            bucket,
                            band,
                            coefficient_count: aggregate.coefficient_count,
                            sample_x: aggregate.sample_x,
                            sample_y: aggregate.sample_y,
                            original_raw: aggregate.original_raw,
                            zeroed_raw: aggregate.zeroed_raw,
                            raw_delta: aggregate.raw_delta,
                            original_normalized: aggregate.original_normalized,
                            zeroed_normalized: aggregate.zeroed_normalized,
                            normalized_delta: aggregate.normalized_delta,
                            contributors: Vec::new(),
                        };
                        proof {
                            let model = BucketModel {
                                bucket,
                                band: bucket_band(bucket as int) as usize,
                                effect: aggregate,
                                contributors: Seq::empty(),
                            };
                            assert(entry@ =~= model);
                            lemma_buckets_ranked_push(found, model);
                            found = found.push(model);
                        }
                        insert_ranked_bucket(&mut buckets, entry);
                    }
                },
            }
        }
        bucket = bucket + 1;
    }
    Ok(buckets)
}

/// A coefficient of a block as the rows of its plane hold it, if it is not 0. One that lies
/// behind the last row is not there.
#[verifier::opaque]
pub open spec fn bucket_entry(
    plane: PlaneModel,
    block_x: int,
    block_y: int,
    coefficient: int,
) -> Result<Option<Iw44CoefficientEntry>, InspectFault> {
    let x = block_x + zigzag_col(coefficient);
    let y = block_y + zigzag_row(coefficient);
    let place = y * plane.width + x;
    if place >= plane.width * plane.height {
        Err(outside_edge(coefficient as usize))
    } else if plane_coefficients(plane)[place] == 0 {
        Ok(None)
    } else {
        Ok(Some(entry_of(block_x, block_y, x, y, plane_coefficients(plane)[place])))
    }
}

/// Those of the first `count` coefficients of a bucket that are not 0; or why one of them
/// is not there.
pub open spec fn bucket_entries(
    plane: PlaneModel,
    block_x: int,
    block_y: int,
    bucket: int,
    count: int,
) -> Result<Seq<Iw44CoefficientEntry>, InspectFault>
    decreases count,
{
    if count <= 0 {
        Ok(Seq::empty())
    } else {
        match bucket_entries(plane, block_x, block_y, bucket, count - 1) {
            Err(fault) => Err(fault),
            Ok(before) => match bucket_entry(plane, block_x, block_y, 16 * bucket + count - 1) {
                Err(fault) => Err(fault),
                Ok(None) => Ok(before),
                Ok(Some(entry)) => Ok(before.push(entry)),
            },
        }
    }
}

/// The four strongest coefficients of a bucket.
pub open spec fn contributors_of(
    model: DecoderModel,
    which: Iw44Plane,
    block_x: int,
    block_y: int,
    bucket: int,
) -> Result<Seq<Iw44CoefficientEntry>, InspectFault> {
    match plane_of(model, which) {
        None => Err(missing_plane(which, " coefficient plane"@)),
        Some(plane) => match bucket_entries(plane, block_x, block_y, bucket, 16) {
            Err(fault) => Err(fault),
            Ok(entries) => Ok(
                ranked(entries, entry_weight()).take(at_most(4, entries.len() as int)),
            ),
        },
    }
}

proof fn lemma_bucket_entries_fault(
    plane: PlaneModel,
    block_x: int,
    block_y: int,
    bucket: int,
    count: int,
    total: int,
)
    requires
        0 <= count <= total,
        bucket_entries(plane, block_x, block_y, bucket, count) is Err,
    ensures
        bucket_entries(plane, block_x, block_y, bucket, total) == bucket_entries(
            plane,
            block_x,
            block_y,
            bucket,
            count,
        ),
    decreases total - count,
{
    if count < total {
        lemma_bucket_entries_fault(plane, block_x, block_y, bucket, count, total - 1);
    }
}

/// The error on a coefficient that lies behind the last row of its plane.
fn outside_edge_error(index: usize) -> (error: InspectError)
    ensures
        error@ == outside_edge(index),
{
    let mut message: String = text_of("IW44 coefficient index ");
    push_decimal(&mut message, index as u64);
    message.append(" is outside the edge block");
    plain_error(message)
}

/// A coefficient of a block as the rows of its plane hold it, if it is not 0.
fn read_bucket_entry(
    data: &Iw44CoefficientPlane,
    block_x: usize,
    block_y: usize,
    coefficient: usize,
    Ghost(model): Ghost<PlaneModel>,
) -> (entry: Result<Option<Iw44CoefficientEntry>, InspectError>)
    requires
        coefficients_show(*data, data.plane, model),
        data.width <= 0xffff,
        block_x <= 0xffff,
        block_y <= 0xffff,
    ensures
        match bucket_entry(model, block_x as int, block_y as int, coefficient as int) {
            Err(fault) => entry is Err && entry->Err_0@ == fault,
            Ok(expected) => entry is Ok && entry->Ok_0 == expected,
        },
{
    reveal(bucket_entry);
    let x: usize = block_x + iw44_zigzag_col(coefficient);
    let y: usize = block_y + iw44_zigzag_row(coefficient);
    assert(0 <= y * data.width <= 0x1_0020 * 0xffff) by (nonlinear_arith)
        requires
            0 <= y <= 0x1_0020,
            0 <= data.width <= 0xffff,
    ;
    let place: u64 = y as u64 * data.width as u64 + x as u64;
    assert(data.coefficients@.len() == data.coefficients.len());
    if place >= data.coefficients.len() as u64 {
        return Err(outside_edge_error(coefficient));
    }
    let value: i16 = data.coefficients[place as usize];
    if value == 0 {
        Ok(None)
    } else {
        Ok(Some(iw44_coefficient_entry(block_x, block_y, x, y, value)))
    }
}

/// The four strongest coefficients of a bucket.
fn iw44_bucket_coefficient_contributors(
    decoder: &Iw44Decoder,
    plane: Iw44Plane,
    block_x: usize,
    block_y: usize,
    bucket: usize,
) -> (contributors: Result<Vec<Iw44CoefficientEntry>, InspectError>)
    requires
        decoder.wf(),
        decoder@.image is Some,
        block_x <= 0xffff,
        block_y <= 0xffff,
        bucket < 64,
    ensures
        match contributors_of(
            decoder@,
            plane,
            block_x as int,
            block_y as int,
            bucket as int,
        ) {
            Err(fault) => contributors is Err && contributors->Err_0@ == fault,
            Ok(expected) => contributors is Ok && contributors->Ok_0@ == expected,
        },
{
    let planes = decoder.coefficient_planes();
    let data = match find_coefficients(&planes, plane, Ghost(decoder@)) {
        None => {
            return Err(missing_plane_error(plane, " coefficient plane"));
        },
        Some(data) => data,
    };
    let ghost model = plane_of(decoder@, plane)->0;
    let mut entries: Vec<Iw44CoefficientEntry> = Vec::new();
    let ghost mut found: Seq<Iw44CoefficientEntry> = Seq::empty();
    assert(entries@ =~= ranked(found, entry_weight()));
    let mut offset: usize = 0;
    while offset < 16
        invariant
            offset <= 16,
            block_x <= 0xffff,
            block_y <= 0xffff,
            bucket < 64,
            plane_of(decoder@, plane) == Some(model),
            coefficients_show(*data, plane, model),
            data.width <= 0xffff,
            bucket_entries(
                model,
                block_x as int,
                block_y as int,
                bucket as int,
                offset as int,
            ) == Ok::<_, InspectFault>(found),
            entries@ == ranked(found, entry_weight()),
            entries@.len() == found.len(),
        decreases 16 - offset,
    {
        match read_bucket_entry(data, block_x, block_y, 16 * bucket + offset, Ghost(model)) {
            Err(error) => {
                proof {
                    lemma_bucket_entries_fault(
                        model,
                        block_x as int,
                        block_y as int,
                        bucket as int,
                        offset + 1,
                        16,
                    );
                }
                return Err(error);
            },
            Ok(None) => {},
            Ok(Some(entry)) => {
                proof {
                    lemma_ranked_push(found, entry);
                    found = found.push(entry);
                }
                insert_ranked(&mut entries, entry);
            },
        }
        offset = offset + 1;
    }
    let ghost all = entries@;
    if 4 < entries.len() {
        entries.truncate(4);
    }
    assert(entries@ =~= all.take(at_most(4, all.len() as int)));
    Ok(entries)
}

/// Buckets with the strongest coefficients of the first `count` of them.
pub open spec fn with_contributors(
    model: DecoderModel,
    which: Iw44Plane,
    block_x: int,
    block_y: int,
    buckets: Seq<BucketModel>,
    count: int,
) -> Result<Seq<BucketModel>, InspectFault>
    decreases count,
{
    if count <= 0 {
        Ok(buckets)
    } else {
        match with_contributors(model, which, block_x, block_y, buckets, count - 1) {
            Err(fault) => Err(fault),
            Ok(before) => match contributors_of(
                model,
                which,
                block_x,
                block_y,
                buckets[count - 1].bucket as int,
            ) {
                Err(fault) => Err(fault),
                Ok(contributors) => Ok(
                    before.update(
                        count - 1,
                        BucketModel { contributors, ..buckets[count - 1] },
                    ),
                ),
            },
        }
    }
}

proof fn lemma_contributors_fault(
    model: DecoderModel,
    which: Iw44Plane,
    block_x: int,
    block_y: int,
    buckets: Seq<BucketModel>,
    count: int,
    total: int,
)
    requires
        0 <= count <= total,
        with_contributors(model, which, block_x, block_y, buckets, count) is Err,
    ensures
        with_contributors(model, which, block_x, block_y, buckets, total) == with_contributors(
            model,
            which,
            block_x,
            block_y,
            buckets,
            count,
        ),
    decreases total - count,
{
    if count < total {
        lemma_contributors_fault(model, which, block_x, block_y, buckets, count, total - 1);
    }
}

/// Fills in the strongest coefficients of the first three buckets of a list.
fn fill_contributors(
    decoder: &Iw44Decoder,
    plane: Iw44Plane,
    block_x: usize,
    block_y: usize,
    ranked_list: Vec<Iw44CoefficientReconstructionBucketAggregate>,
) -> (filled: Result<Vec<Iw44CoefficientReconstructionBucketAggregate>, InspectError>)
    requires
        decoder.wf(),
        decoder@.image is Some,
        block_x <= 0xffff,
        block_y <= 0xffff,
        forall|i: int| 0 <= i < ranked_list@.len() ==> (#[trigger] ranked_list@[i]).bucket < 64,
    ensures
        match with_contributors(
            decoder@,
            plane,
            block_x as int,
            block_y as int,
            buckets_view(ranked_list@),
            at_most(3, ranked_list@.len() as int),
        ) {
            Err(fault) => filled is Err && filled->Err_0@ == fault,
            Ok(expected) => filled is Ok && buckets_view(filled->Ok_0@) == expected,
        },
{
    let ghost first = buckets_view(ranked_list@);
    let ghost given = ranked_list@;
    let mut buckets: Vec<Iw44CoefficientReconstructionBucketAggregate> = ranked_list;
    let total: usize = if buckets.len() < 3 {
        buckets.len()
    } else {
        3
    };
    let mut i: usize = 0;
    while i < total
        invariant
            i <= total,
            total == at_most(3, ranked_list@.len() as int),
            total <= buckets@.len(),
            decoder.wf(),
            decoder@.image is Some,
            block_x <= 0xffff,
            block_y <= 0xffff,
            given == ranked_list@,
            first == buckets_view(given),
            buckets@.len() == given.len(),
            forall|k: int| 0 <= k < given.len() ==> (#[trigger] given[k]).bucket < 64,
            forall|k: int| i <= k < buckets@.len() ==> #[trigger] buckets@[k] == given[k],
            with_contributors(
                decoder@,
                plane,
                block_x as int,
                block_y as int,
                first,
                i as int,
            ) == Ok::<_, InspectFault>(buckets_view(buckets@)),
        decreases total - i,
    {
        let ghost before = buckets@;
        assert(buckets@[i as int] == given[i as int]);
        let found = match iw44_bucket_coefficient_contributors(
            decoder,
            plane,
            block_x,
            block_y,
            buckets[i].bucket,
        ) {
            Err(error) => {
                proof {
                    lemma_contributors_fault(
                        decoder@,
                        plane,
                        block_x as int,
                        block_y as int,
                        first,
                        i + 1,
                        total as int,
                    );
                }
                return Err(error);
            },
            Ok(found) => found,
        };
        let mut bucket = buckets.remove(i);
        bucket.contributors = found;
        buckets.insert(i, bucket);
        assert(buckets@ =~= before.update(i as int, bucket));
        assert(buckets_view(buckets@) =~= buckets_view(before).update(i as int, bucket@));
        i = i + 1;
    }
    Ok(buckets)
}

/// The effects of the buckets of bands of high impact: strongest first, and of the first
/// three the strongest coefficients.
pub open spec fn ranked_buckets_of(
    model: DecoderModel,
    which: Iw44Plane,
    block: usize,
    block_x: int,
    block_y: int,
    sample: Iw44PlaneSample,
    bands: Seq<Iw44CoefficientReconstructionBandAggregate>,
) -> Result<Seq<BucketModel>, InspectFault> {
    match buckets_of(model, which, block, sample, bands, 64) {
        Err(fault) => Err(fault),
        Ok(found) => with_contributors(
            model,
            which,
            block_x,
            block_y,
            ranked(found, bucket_weight()),
            at_most(3, ranked(found, bucket_weight()).len() as int),
        ),
    }
}

/// The number of the block that a summary speaks of.
pub open spec fn block_number(summary: BlockModel) -> usize {
    (summary.block_row * blocks_along(summary.plane_width as int) + summary.block_col) as usize
}

/// What becomes of a sample when coefficients of its block are set to 0, or the
/// reconstruction is varied.
#[verifier::opaque]
pub open spec fn reconstruction_of(
    model: DecoderModel,
    summary: BlockModel,
    sample: Iw44PlaneSample,
) -> Result<ReconstructionModel, InspectFault> {
    let which = summary.plane;
    let block = block_number(summary);
    let count = summary.entries.len() as int;
    match individual_of(model, which, block, summary.entries, sample, count) {
        Err(fault) => Err(fault),
        Ok(entries) => match bands_of(model, which, block, sample, 10) {
            Err(fault) => Err(fault),
            Ok(band_zeroed) => match ranked_buckets_of(
                model,
                which,
                block,
                summary.block_x as int,
                summary.block_y as int,
                sample,
                band_zeroed,
            ) {
                Err(fault) => Err(fault),
                Ok(bucket_zeroed) => match aggregate_of(
                    model,
                    which,
                    listed_overrides(block, summary.entries),
                    count as usize,
                    sample,
                    "listed coefficients"@,
                ) {
                    Err(fault) => Err(fault),
                    Ok(all_zeroed) => match aggregate_of(
                        model,
                        which,
                        Seq::new(1024, |i: int| (block, i as usize, 0i16)),
                        1024,
                        sample,
                        "containing coefficient block"@,
                    ) {
                        Err(fault) => Err(fault),
                        Ok(block_zeroed) => match alternate_of(
                            model,
                            which,
                            Iw44ReconstructionOrder::RowsThenColumns,
                            Iw44ReconstructionExtent::Visible,
                            sample,
                        ) {
                            Err(fault) => Err(fault),
                            Ok(rows_then_columns) => match alternate_of(
                                model,
                                which,
                                Iw44ReconstructionOrder::ColumnsThenRows,
                                Iw44ReconstructionExtent::Padded,
                                sample,
                            ) {
                                Err(fault) => Err(fault),
                                Ok(padded_extent) => Ok(
                                    ReconstructionModel {
                                        entries,
                                        all_zeroed,
                                        block_zeroed,
                                        rows_then_columns,
                                        padded_extent,
                                        band_zeroed,
                                        bucket_zeroed,
                                    },
                                ),
                            },
                        },
                    },
                },
            },
        },
    }
}

/// Replacements that set the coefficients of a list to 0.
pub open spec fn listed_overrides(
    block: usize,
    entries: Seq<Iw44CoefficientEntry>,
) -> Seq<(usize, usize, i16)> {
    Seq::new(entries.len(), |i: int| (block, entries[i].index, 0i16))
}

/// Replacements that set the coefficients of a list to 0.
fn zeroed_list(block: usize, entries: &Vec<Iw44CoefficientEntry>) -> (overrides: Vec<
    (usize, usize, i16),
>)
    ensures
        overrides@ == listed_overrides(block, entries@),
{
    let mut overrides: Vec<(usize, usize, i16)> = Vec::new();
    let mut i: usize = 0;
    while i < entries.len()
        invariant
            i <= entries@.len(),
            overrides@.len() == i,
            forall|k: int|
                0 <= k < i ==> #[trigger] overrides@[k] == (block, entries@[k].index, 0i16),
        decreases entries@.len() - i,
    {
        overrides.push((block, entries[i].index, 0));
        i = i + 1;
    }
    assert(overrides@ =~= listed_overrides(block, entries@));
    overrides
}

/// The buckets that are found are those of a block.
proof fn lemma_buckets_in_block(
    model: DecoderModel,
    which: Iw44Plane,
    block: usize,
    sample: Iw44PlaneSample,
    bands: Seq<Iw44CoefficientReconstructionBandAggregate>,
    count: int,
)
    requires
        0 <= count <= 64,
        buckets_of(model, which, block, sample, bands, count) is Ok,
    ensures
        forall|i: int|
            0 <= i < buckets_of(model, which, block, sample, bands, count)->Ok_0.len() ==> (
            #[trigger] buckets_of(model, which, block, sample, bands, count)->Ok_0[i]).bucket < 64,
    decreases count,
{
    if count > 0 {
        lemma_buckets_in_block(model, which, block, sample, bands, count - 1);
    }
}

/// The effects of the buckets of bands of high impact: strongest first, and of the first
/// three the strongest coefficients.
fn iw44_bucket_zeroed_reconstruction(
    decoder: &Iw44Decoder,
    plane: Iw44Plane,
    block: usize,
    block_x: usize,
    block_y: usize,
    sample: Iw44PlaneSample,
    bands: &Vec<Iw44CoefficientReconstructionBandAggregate>,
) -> (buckets: Result<Vec<Iw44CoefficientReconstructionBucketAggregate>, InspectError>)
    requires
        decoder.wf(),
        decoder@.image is Some,
        sample_placed(decoder@, plane, sample),
        block_x <= 0xffff,
        block_y <= 0xffff,
    ensures
        match ranked_buckets_of(
            decoder@,
            plane,
            block,
            block_x as int,
            block_y as int,
            sample,
            bands@,
        ) {
            Err(fault) => buckets is Err && buckets->Err_0@ == fault,
            Ok(expected) => buckets is Ok && buckets_view(buckets->Ok_0@) == expected,
        },
{
    let found = match ranked_buckets(decoder, plane, block, sample, bands) {
        Err(error) => {
            return Err(error);
        },
        Ok(found) => found,
    };
    proof {
        let listed = buckets_of(decoder@, plane, block, sample, bands@, 64)->Ok_0;
        lemma_buckets_in_block(decoder@, plane, block, sample, bands@, 64);
        lemma_ranked_falls(listed, bucket_weight());
        let order = ranked(listed, bucket_weight());
        assert forall|i: int| 0 <= i < found@.len() implies (#[trigger] found@[i]).bucket
            < 64 by {
            assert(order[i] == found@[i]@);
            order.to_multiset_ensures();
            listed.to_multiset_ensures();
            assert(order.contains(order[i]));
            assert(order.to_multiset().count(order[i]) > 0);
            assert(listed.contains(order[i]));
        }
    }
    fill_contributors(decoder, plane, block_x, block_y, found)
}

/// What becomes of a sample when coefficients of its block are set to 0, or the
/// reconstruction is varied.
pub(crate) fn iw44_coefficient_reconstruction_trace(
    decoder: &Iw44Decoder,
    coefficients: &Iw44CoefficientBlockSummary,
    sample: Iw44PlaneSample,
) -> (trace: Result<Iw44CoefficientReconstructionSummary, InspectError>)
    requires
        decoder.wf(),
        decoder@.image is Some,
        sample_placed(decoder@, coefficients.plane, sample),
        coefficients.plane_width <= 0xffff,
        coefficients.block_x <= 0xffff,
        coefficients.block_y <= 0xffff,
        coefficients.block_col <= 0xffff,
        coefficients.block_row <= 0xffff,
    ensures
        match reconstruction_of(decoder@, coefficients@, sample) {
            Err(fault) => trace is Err && trace->Err_0@ == fault,
            Ok(expected) => trace is Ok && trace->Ok_0@ == expected,
        },
{
    reveal(reconstruction_of);
    let plane = coefficients.plane;
    let block = block_number_of(coefficients);
    let entries = match iw44_individual_coefficient_reconstruction_traces(
        decoder,
        plane,
        block,
        &coefficients.entries,
        sample,
    ) {
        Err(error) => {
            return Err(error);
        },
        Ok(entries) => entries,
    };
    let band_zeroed = match iw44_band_zeroed_reconstruction(decoder, plane, block, sample) {
        Err(error) => {
            return Err(error);
        },
        Ok(bands) => bands,
    };
    let bucket_zeroed = match iw44_bucket_zeroed_reconstruction(
        decoder,
        plane,
        block,
        coefficients.block_x,
        coefficients.block_y,
        sample,
        &band_zeroed,
    ) {
        Err(error) => {
            return Err(error);
        },
        Ok(buckets) => buckets,
    };
    let listed = zeroed_list(block, &coefficients.entries);
    let all_zeroed = match iw44_reconstruction_aggregate(
        decoder,
        plane,
        &listed,
        coefficients.entries.len(),
        sample,
        "listed coefficients",
    ) {
        Err(error) => {
            return Err(error);
        },
        Ok(aggregate) => aggregate,
    };
    let whole = zeroed_range(block, 0, 1024);
    assert(whole@ =~= Seq::new(1024, |i: int| (block, i as usize, 0i16)));
    let block_zeroed = match iw44_reconstruction_aggregate(
        decoder,
        plane,
        &whole,
        1024,
        sample,
        "containing coefficient block",
    ) {
        Err(error) => {
            return Err(error);
        },
        Ok(aggregate) => aggregate,
    };
    let rows_then_columns = match iw44_transform_order_trace(decoder, plane, sample) {
        Err(error) => {
            return Err(error);
        },
        Ok(trace) => trace,
    };
    let padded_extent = match iw44_padded_extent_trace(decoder, plane, sample) {
        Err(error) => {
            return Err(error);
        },
        Ok(trace) => trace,
    };
    Ok(
        Iw44CoefficientReconstructionSummary {
            entries,
            all_zeroed,
            block_zeroed,
            rows_then_columns,
            padded_extent,
            band_zeroed,
            bucket_zeroed,
        },
    )
}

/// The number of the block that a summary speaks of.
pub(crate) fn block_number_of(summary: &Iw44CoefficientBlockSummary) -> (block: usize)
    requires
        summary.plane_width <= 0xffff,
        summary.block_col <= 0xffff,
        summary.block_row <= 0xffff,
    ensures
        block == block_number(summary@),
{
    let columns: usize = (summary.plane_width + 31) / 32;
    let row: usize = summary.block_row;
    assert(0 <= row * columns <= 0xffff * 2048) by (nonlinear_arith)
        requires
            0 <= row <= 0xffff,
            0 <= columns <= 2048,
    ;
    row * columns + summary.block_col
}

/// Setting a coefficient that is 0 already to 0 changes no sample.
pub proof fn lemma_zeroing_zero_changes_nothing(
    model: DecoderModel,
    which: Iw44Plane,
    block: usize,
    coefficient: usize,
    sample: Iw44PlaneSample,
    label: Seq<char>,
)
    requires
        plane_of(model, which) is Some,
        overrides_fit(plane_of(model, which)->0, seq![(block, coefficient, 0i16)]),
        plane_of(model, which)->0.values[1024 * block + coefficient] == 0,
        0 <= 1024 * block + coefficient < plane_of(model, which)->0.values.len(),
        sample.raw == visible_samples(plane_of(model, which)->0)[sample.y * plane_of(
            model,
            which,
        )->0.width + sample.x],
        sample.normalized == normalized(sample.raw),
    ensures
        aggregate_of(
            model,
            which,
            seq![(block, coefficient, 0i16)],
            1,
            sample,
            label,
        ) is Ok,
        ({
            let effect = aggregate_of(
                model,
                which,
                seq![(block, coefficient, 0i16)],
                1,
                sample,
                label,
            )->Ok_0;
            effect.raw_delta == 0 && effect.normalized_delta == 0
        }),
{
    reveal(aggregate_of);
    reveal_with_fuel(overridden, 2);
    let plane = plane_of(model, which)->0;
    assert(overridden(plane.values, seq![(block, coefficient, 0i16)], 1) =~= plane.values);
}

} // verus!
