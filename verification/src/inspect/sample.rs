//! The samples of the planes that a pixel of a page is made of.

use super::{missing_plane, missing_plane_error, sized, InspectError, InspectFault};
use crate::bitonal::lemma_pixel_index;
use crate::iw44::color::{
    at_most, clamp, clamp_u8, normalize_iw44_sample, normalized, rgb_of, ycbcr_pixel_to_rgb,
};
use crate::iw44::decoder::{
    plane_of, plane_samples, planes_of, planes_show, reconstruction_shows, DecoderModel,
};
use crate::iw44::header::{larger, Iw44PageMapping};
use crate::iw44::slice::PlaneModel;
use crate::iw44::{
    Iw44Plane, Iw44ReconstructionExtent, Iw44ReconstructionOrder, Iw44ReconstructionPlane,
};
use vstd::prelude::*;

verus! {

/// A sample of a plane, and where it is.
#[derive(Debug, Clone, Copy, Eq, PartialEq, Structural)]
pub struct Iw44PlaneSample {
    pub plane: Iw44Plane,
    pub x: usize,
    pub y: usize,
    pub raw: i16,
    pub normalized: i32,
}

/// The luminance samples round a pixel of a page, row by row.
#[derive(Debug, Clone, Eq, PartialEq)]
pub struct Iw44LumaNeighborhood {
    pub page_min_x: u32,
    pub page_min_y: u32,
    pub source_min_x: usize,
    pub source_min_y: usize,
    pub samples: Vec<Vec<Iw44PlaneSample>>,
}

/// The luminance samples round a pixel of a page, by their values.
#[verifier::ext_equal]
pub struct NeighborhoodModel {
    pub page_min_x: u32,
    pub page_min_y: u32,
    pub source_min_x: usize,
    pub source_min_y: usize,
    pub samples: Seq<Seq<Iw44PlaneSample>>,
}

/// The rows of a list by their values.
pub open spec fn rows_view(rows: Seq<Vec<Iw44PlaneSample>>) -> Seq<Seq<Iw44PlaneSample>> {
    Seq::new(rows.len(), |i: int| rows[i]@)
}

impl View for Iw44LumaNeighborhood {
    type V = NeighborhoodModel;

    open spec fn view(&self) -> NeighborhoodModel {
        NeighborhoodModel {
            page_min_x: self.page_min_x,
            page_min_y: self.page_min_y,
            source_min_x: self.source_min_x,
            source_min_y: self.source_min_y,
            samples: rows_view(self.samples@),
        }
    }
}

/// The samples of a plane as they are seen.
pub open spec fn visible_samples(plane: PlaneModel) -> Seq<i16> {
    plane_samples(
        plane,
        Iw44ReconstructionOrder::ColumnsThenRows,
        Iw44ReconstructionExtent::Visible,
    )
}

/// The pixel of a layer for a pixel of the page, along one axis: half of the overscan lies
/// before the page.
pub open spec fn inspected_coordinate(
    page_coordinate: int,
    overscan: int,
    subsample: int,
    extent: int,
) -> int {
    at_most(
        at_most(page_coordinate + overscan / 2, u32::MAX as int) / larger(subsample, 1),
        larger(extent - 1, 0),
    )
}

/// The pixel of a layer for a pixel of the page, along one axis.
pub fn iw44_inspected_coordinate(
    page_coordinate: u32,
    overscan: u32,
    subsample: u32,
    source_extent: usize,
) -> (source: usize)
    ensures
        source == inspected_coordinate(
            page_coordinate as int,
            overscan as int,
            subsample as int,
            source_extent as int,
        ),
        source_extent > 0 ==> source < source_extent,
{
    let sum: u64 = page_coordinate as u64 + (overscan / 2) as u64;
    let centered: u32 = if sum > 0xffff_ffff {
        0xffff_ffff
    } else {
        sum as u32
    };
    let divisor: u32 = if subsample > 1 {
        subsample
    } else {
        1
    };
    let scaled: u32 = centered / divisor;
    let last: usize = if source_extent > 1 {
        source_extent - 1
    } else {
        0
    };
    if scaled as u64 > last as u64 {
        last
    } else {
        scaled as usize
    }
}

/// The sample of a plane for a pixel of its layer. The rows of a plane run from the bottom
/// up; where the chrominance planes have half the size, so has the place.
pub open spec fn plane_sample(
    plane: PlaneModel,
    which: Iw44Plane,
    source_x: int,
    source_y: int,
    half: bool,
) -> Iw44PlaneSample {
    let row = plane.height - 1 - at_most(source_y, plane.height - 1);
    let col = at_most(source_x, plane.width - 1);
    let y = if half {
        row / 2
    } else {
        row
    };
    let x = if half {
        col / 2
    } else {
        col
    };
    let raw = visible_samples(plane)[y * plane.width + x];
    Iw44PlaneSample {
        plane: which,
        x: x as usize,
        y: y as usize,
        raw,
        normalized: normalized(raw) as i32,
    }
}

/// The sample of a plane of an image for a pixel of its layer, if the plane is there.
pub open spec fn sample_of(
    model: DecoderModel,
    which: Iw44Plane,
    source_x: int,
    source_y: int,
    half: bool,
) -> Result<Iw44PlaneSample, InspectFault> {
    match plane_of(model, which) {
        None => Err(missing_plane(which, " reconstruction plane"@)),
        Some(plane) => Ok(plane_sample(plane, which, source_x, source_y, half)),
    }
}

/// Finds a plane among those of an image.
pub(crate) fn find_plane(
    planes: &Vec<Iw44ReconstructionPlane>,
    which: Iw44Plane,
    Ghost(model): Ghost<DecoderModel>,
    Ghost(order): Ghost<Iw44ReconstructionOrder>,
    Ghost(extent): Ghost<Iw44ReconstructionExtent>,
) -> (found: Option<&Iw44ReconstructionPlane>)
    requires
        planes_show(planes@, model, order, extent),
        model.image is Some,
    ensures
        match plane_of(model, which) {
            None => found is None,
            Some(plane) => found is Some && reconstruction_shows(
                *found->0,
                which,
                plane,
                order,
                extent,
            ),
        },
{
    let ghost all = planes_of(model);
    let mut i: usize = 0;
    while i < planes.len()
        invariant
            i <= planes@.len(),
            all == planes_of(model),
            planes_show(planes@, model, order, extent),
            model.image is Some,
            forall|k: int| 0 <= k < i ==> (#[trigger] all[k]).0 != which,
        decreases planes@.len() - i,
    {
        if planes[i].plane == which {
            assert(all[i as int].0 == which);
            return Some(&planes[i]);
        }
        assert(all[i as int].0 == planes@[i as int].plane);
        i = i + 1;
    }
    proof {
        assert(all[0].0 == Iw44Plane::Y);
        if model.cb is Some {
            assert(all[1].0 == Iw44Plane::Cb);
        }
        if model.cr is Some {
            assert(all[all.len() - 1].0 == Iw44Plane::Cr);
        }
    }
    None
}

/// The sample of a plane for a pixel of its layer.
pub(crate) fn iw44_plane_sample(
    planes: &Vec<Iw44ReconstructionPlane>,
    plane: Iw44Plane,
    source_x: usize,
    source_y: usize,
    chroma_half: bool,
    Ghost(model): Ghost<DecoderModel>,
) -> (sample: Result<Iw44PlaneSample, InspectError>)
    requires
        sized(model),
        planes_show(
            planes@,
            model,
            Iw44ReconstructionOrder::ColumnsThenRows,
            Iw44ReconstructionExtent::Visible,
        ),
    ensures
        match sample_of(model, plane, source_x as int, source_y as int, chroma_half) {
            Ok(expected) => {
                &&& sample is Ok
                &&& sample->Ok_0 == expected
                &&& expected.x < plane_of(model, plane)->0.width
                &&& expected.y < plane_of(model, plane)->0.height
                &&& -128 <= expected.normalized <= 127
            },
            Err(fault) => sample is Err && sample->Err_0@ == fault,
        },
{
    let data = match find_plane(
        planes,
        plane,
        Ghost(model),
        Ghost(Iw44ReconstructionOrder::ColumnsThenRows),
        Ghost(Iw44ReconstructionExtent::Visible),
    ) {
        None => {
            return Err(missing_plane_error(plane, " reconstruction plane"));
        },
        Some(data) => data,
    };
    let row: usize = if source_y > data.height - 1 {
        0
    } else {
        data.height - 1 - source_y
    };
    let col: usize = if source_x > data.width - 1 {
        data.width - 1
    } else {
        source_x
    };
    let x: usize = if chroma_half {
        col / 2
    } else {
        col
    };
    let y: usize = if chroma_half {
        row / 2
    } else {
        row
    };
    proof {
        lemma_pixel_index(data.width as int, data.height as int, x as int, y as int);
    }
    assert(data.samples@.len() == data.samples.len());
    let raw: i16 = data.samples[y * data.width + x];
    Ok(Iw44PlaneSample { plane, x, y, raw, normalized: normalize_iw44_sample(raw) })
}

/// The luminance sample for a pixel of a page.
pub open spec fn luma_at(
    model: DecoderModel,
    mapping: Iw44PageMapping,
    page_x: int,
    page_y: int,
) -> Iw44PlaneSample {
    plane_sample(
        model.y,
        Iw44Plane::Y,
        inspected_coordinate(
            page_x,
            mapping.horizontal_overscan as int,
            mapping.subsample as int,
            model.y.width,
        ),
        inspected_coordinate(
            page_y,
            mapping.vertical_overscan as int,
            mapping.subsample as int,
            model.y.height,
        ),
        false,
    )
}

/// The luminance samples of a row of pixels of a page.
pub open spec fn luma_row(
    model: DecoderModel,
    mapping: Iw44PageMapping,
    first: int,
    last: int,
    page_y: int,
) -> Seq<Iw44PlaneSample> {
    Seq::new((last + 1 - first) as nat, |i: int| luma_at(model, mapping, first + i, page_y))
}

/// The luminance samples of all pixels of a page within a distance of one.
pub open spec fn neighborhood_of(
    model: DecoderModel,
    mapping: Iw44PageMapping,
    x: int,
    y: int,
    radius: int,
) -> NeighborhoodModel {
    let left = larger(x - radius, 0);
    let top = larger(y - radius, 0);
    let right = at_most(x + radius, mapping.page_width - 1);
    let bottom = at_most(y + radius, mapping.page_height - 1);
    NeighborhoodModel {
        page_min_x: left as u32,
        page_min_y: top as u32,
        source_min_x: inspected_coordinate(
            left,
            mapping.horizontal_overscan as int,
            mapping.subsample as int,
            model.y.width,
        ) as usize,
        source_min_y: inspected_coordinate(
            top,
            mapping.vertical_overscan as int,
            mapping.subsample as int,
            model.y.height,
        ) as usize,
        samples: Seq::new(
            (bottom + 1 - top) as nat,
            |i: int| luma_row(model, mapping, left, right, top + i),
        ),
    }
}

/// The luminance samples of all pixels of a page within a distance of one.
pub(crate) fn iw44_luma_neighborhood(
    planes: &Vec<Iw44ReconstructionPlane>,
    mapping: &Iw44PageMapping,
    image_width: usize,
    image_height: usize,
    x: u32,
    y: u32,
    radius: u8,
    Ghost(model): Ghost<DecoderModel>,
) -> (around: Result<Iw44LumaNeighborhood, InspectError>)
    requires
        sized(model),
        planes_show(
            planes@,
            model,
            Iw44ReconstructionOrder::ColumnsThenRows,
            Iw44ReconstructionExtent::Visible,
        ),
        image_width == model.y.width,
        image_height == model.y.height,
        x < mapping.page_width,
        y < mapping.page_height,
    ensures
        around is Ok,
        around->Ok_0@ == neighborhood_of(model, *mapping, x as int, y as int, radius as int),
{
    let ghost expected = neighborhood_of(model, *mapping, x as int, y as int, radius as int);
    let reach: u32 = radius as u32;
    let left: u32 = if x > reach {
        x - reach
    } else {
        0
    };
    let top: u32 = if y > reach {
        y - reach
    } else {
        0
    };
    let right: u32 = if reach < mapping.page_width - x {
        x + reach
    } else {
        mapping.page_width - 1
    };
    let bottom: u32 = if reach < mapping.page_height - y {
        y + reach
    } else {
        mapping.page_height - 1
    };
    let source_min_x = iw44_inspected_coordinate(
        left,
        mapping.horizontal_overscan,
        mapping.subsample,
        image_width,
    );
    let source_min_y = iw44_inspected_coordinate(
        top,
        mapping.vertical_overscan,
        mapping.subsample,
        image_height,
    );
    let mut rows: Vec<Vec<Iw44PlaneSample>> = Vec::new();
    let mut page_y: u32 = top;
    while page_y <= bottom
        invariant
            sized(model),
            planes_show(
                planes@,
                model,
                Iw44ReconstructionOrder::ColumnsThenRows,
                Iw44ReconstructionExtent::Visible,
            ),
            image_width == model.y.width,
            image_height == model.y.height,
            left <= right < mapping.page_width,
            top <= page_y <= bottom + 1,
            bottom < mapping.page_height,
            rows@.len() == page_y - top,
            forall|i: int|
                0 <= i < rows@.len() ==> #[trigger] rows@[i]@ == luma_row(
                    model,
                    *mapping,
                    left as int,
                    right as int,
                    top + i,
                ),
        decreases bottom + 1 - page_y,
    {
        let source_y = iw44_inspected_coordinate(
            page_y,
            mapping.vertical_overscan,
            mapping.subsample,
            image_height,
        );
        let mut row: Vec<Iw44PlaneSample> = Vec::new();
        let mut page_x: u32 = left;
        while page_x <= right
            invariant
                sized(model),
                planes_show(
                    planes@,
                    model,
                    Iw44ReconstructionOrder::ColumnsThenRows,
                    Iw44ReconstructionExtent::Visible,
                ),
                image_width == model.y.width,
                image_height == model.y.height,
                left <= page_x <= right + 1,
                right < mapping.page_width,
                source_y == inspected_coordinate(
                    page_y as int,
                    mapping.vertical_overscan as int,
                    mapping.subsample as int,
                    model.y.height,
                ),
                row@.len() == page_x - left,
                forall|i: int|
                    0 <= i < row@.len() ==> #[trigger] row@[i] == luma_at(
                        model,
                        *mapping,
                        left + i,
                        page_y as int,
                    ),
            decreases right + 1 - page_x,
        {
            let source_x = iw44_inspected_coordinate(
                page_x,
                mapping.horizontal_overscan,
                mapping.subsample,
                image_width,
            );
            match iw44_plane_sample(
                planes,
                Iw44Plane::Y,
                source_x,
                source_y,
                false,
                Ghost(model),
            ) {
                Err(error) => {
                    return Err(error);
                },
                Ok(sample) => {
                    row.push(sample);
                },
            }
            page_x = page_x + 1;
        }
        assert(row@ =~= luma_row(model, *mapping, left as int, right as int, page_y as int));
        rows.push(row);
        page_y = page_y + 1;
    }
    assert(rows_view(rows@) =~= expected.samples);
    Ok(
        Iw44LumaNeighborhood {
            page_min_x: left,
            page_min_y: top,
            source_min_x,
            source_min_y,
            samples: rows,
        },
    )
}

/// The colour of a luminance and two chrominances; without these, a gray.
pub open spec fn samples_rgb(
    y: Iw44PlaneSample,
    cb: Option<Iw44PlaneSample>,
    cr: Option<Iw44PlaneSample>,
) -> Seq<u8> {
    match (cb, cr) {
        (Some(blue), Some(red)) => rgb_of(
            y.normalized as int,
            blue.normalized as int,
            red.normalized as int,
        ),
        _ => {
            let shade = clamp(127 - y.normalized, 0, 255) as u8;
            seq![shade, shade, shade]
        },
    }
}

/// The colour of a luminance and two chrominances; without these, a gray.
pub fn iw44_samples_to_rgb(
    y: Iw44PlaneSample,
    cb: Option<Iw44PlaneSample>,
    cr: Option<Iw44PlaneSample>,
) -> (rgb: [u8; 3])
    requires
        -128 <= y.normalized <= 127,
        cb is Some ==> -128 <= cb->0.normalized <= 127,
        cr is Some ==> -128 <= cr->0.normalized <= 127,
        cb is Some ==> cr is Some,
    ensures
        rgb@ == samples_rgb(y, cb, cr),
{
    match (cb, cr) {
        (Some(blue), Some(red)) => {
            ycbcr_pixel_to_rgb(y.normalized, blue.normalized, red.normalized)
        },
        _ => {
            let shade: u8 = clamp_u8(127 - y.normalized);
            let rgb: [u8; 3] = [shade, shade, shade];
            assert(rgb@ =~= samples_rgb(y, cb, cr));
            rgb
        },
    }
}

} // verus!
