//! The coefficients of the block that a sample lies in.

use crate::ranking::{rank_insert, rank_place, ranked, ranked_prefix};
use super::sample::Iw44PlaneSample;
use super::{
    missing_plane, missing_plane_error, plain, plain_error, InspectError, InspectFault,
};
use crate::bitonal::lemma_pixel_index;
use crate::iw44::blocks::{
    blocks_along, iw44_inverse_zigzag_index, iw44_zigzag_col, iw44_zigzag_row,
    lemma_zigzag_of_place, magnitude, magnitude_of, row_major, zigzag_col, zigzag_index, zigzag_row,
};
use crate::iw44::color::at_most;
use crate::iw44::decoder::{
    coefficients_show, plane_of, planes_of, DecoderModel, Iw44CoefficientPlane, Iw44Decoder,
};
use crate::iw44::slice::PlaneModel;
use crate::iw44::Iw44Plane;
use crate::text::{decimal, push_decimal, text_of};
use vstd::prelude::*;

verus! {

/// A coefficient: where it is in its plane and in its block, and its value.
#[derive(Debug, Clone, Copy, Eq, PartialEq, Structural)]
pub struct Iw44CoefficientEntry {
    pub x: usize,
    pub y: usize,
    pub local_x: usize,
    pub local_y: usize,
    pub index: usize,
    pub bucket: usize,
    pub bucket_offset: usize,
    pub band: usize,
    pub value: i16,
    pub absolute: u16,
}

/// A block of coefficients in numbers, and some of its coefficients.
#[derive(Debug, Clone, Eq, PartialEq)]
pub struct Iw44CoefficientBlockSummary {
    pub plane: Iw44Plane,
    pub plane_width: usize,
    pub block_x: usize,
    pub block_y: usize,
    pub block_col: usize,
    pub block_row: usize,
    pub width: usize,
    pub height: usize,
    pub non_zero: usize,
    pub max_abs: u16,
    pub abs_sum: u64,
    pub entries: Vec<Iw44CoefficientEntry>,
}

/// A block of coefficients in numbers, by its values.
#[verifier::ext_equal]
pub struct BlockModel {
    pub plane: Iw44Plane,
    pub plane_width: usize,
    pub block_x: usize,
    pub block_y: usize,
    pub block_col: usize,
    pub block_row: usize,
    pub width: usize,
    pub height: usize,
    pub non_zero: usize,
    pub max_abs: u16,
    pub abs_sum: u64,
    pub entries: Seq<Iw44CoefficientEntry>,
}

impl View for Iw44CoefficientBlockSummary {
    type V = BlockModel;

    open spec fn view(&self) -> BlockModel {
        BlockModel {
            plane: self.plane,
            plane_width: self.plane_width,
            block_x: self.block_x,
            block_y: self.block_y,
            block_col: self.block_col,
            block_row: self.block_row,
            width: self.width,
            height: self.height,
            non_zero: self.non_zero,
            max_abs: self.max_abs,
            abs_sum: self.abs_sum,
            entries: self.entries@,
        }
    }
}

/// The band that a bucket belongs to.
pub open spec fn bucket_band(bucket: int) -> int {
    if bucket <= 3 {
        bucket
    } else if bucket <= 7 {
        4
    } else if bucket <= 11 {
        5
    } else if bucket <= 15 {
        6
    } else if bucket <= 31 {
        7
    } else if bucket <= 47 {
        8
    } else if bucket <= 63 {
        9
    } else {
        10
    }
}

/// The band that a bucket belongs to.
pub fn iw44_bucket_band(bucket: usize) -> (band: usize)
    ensures
        band == bucket_band(bucket as int),
{
    if bucket <= 3 {
        bucket
    } else if bucket <= 7 {
        4
    } else if bucket <= 11 {
        5
    } else if bucket <= 15 {
        6
    } else if bucket <= 31 {
        7
    } else if bucket <= 47 {
        8
    } else if bucket <= 63 {
        9
    } else {
        10
    }
}

/// A coefficient at a place of a plane, in the block that starts at another.
#[verifier::opaque]
pub open spec fn entry_of(
    block_x: int,
    block_y: int,
    x: int,
    y: int,
    value: i16,
) -> Iw44CoefficientEntry {
    let index = zigzag_index(x - block_x, y - block_y);
    Iw44CoefficientEntry {
        x: x as usize,
        y: y as usize,
        local_x: (x - block_x) as usize,
        local_y: (y - block_y) as usize,
        index: index as usize,
        bucket: (index / 16) as usize,
        bucket_offset: (index % 16) as usize,
        band: bucket_band(index / 16) as usize,
        value,
        absolute: magnitude(value) as u16,
    }
}

/// A coefficient at a place of a plane, in the block that starts at another.
pub fn iw44_coefficient_entry(
    block_x: usize,
    block_y: usize,
    x: usize,
    y: usize,
    value: i16,
) -> (entry: Iw44CoefficientEntry)
    requires
        block_x <= x,
        block_y <= y,
    ensures
        entry == entry_of(block_x as int, block_y as int, x as int, y as int, value),
{
    reveal(entry_of);
    let local_x: usize = x - block_x;
    let local_y: usize = y - block_y;
    let index = iw44_inverse_zigzag_index(local_x, local_y);
    let bucket: usize = index / 16;
    Iw44CoefficientEntry {
        x,
        y,
        local_x,
        local_y,
        index,
        bucket,
        bucket_offset: index % 16,
        band: iw44_bucket_band(bucket),
        value,
        absolute: magnitude_of(value),
    }
}

/// The coefficients of a plane, row by row.
pub open spec fn plane_coefficients(plane: PlaneModel) -> Seq<i16> {
    row_major(plane.values, blocks_along(plane.width), plane.width, plane.height)
}

/// Finds the coefficients of a plane among those of an image.
pub(crate) fn find_coefficients(
    planes: &Vec<Iw44CoefficientPlane>,
    which: Iw44Plane,
    Ghost(model): Ghost<DecoderModel>,
) -> (found: Option<&Iw44CoefficientPlane>)
    requires
        model.image is Some,
        planes@.len() == planes_of(model).len(),
        forall|i: int|
            0 <= i < planes@.len() ==> coefficients_show(
                #[trigger] planes@[i],
                planes_of(model)[i].0,
                planes_of(model)[i].1,
            ),
    ensures
        match plane_of(model, which) {
            None => found is None,
            Some(plane) => found is Some && coefficients_show(*found->0, which, plane),
        },
{
    let ghost all = planes_of(model);
    let mut i: usize = 0;
    while i < planes.len()
        invariant
            i <= planes@.len(),
            all == planes_of(model),
            model.image is Some,
            planes@.len() == all.len(),
            forall|k: int|
                0 <= k < planes@.len() ==> coefficients_show(
                    #[trigger] planes@[k],
                    all[k].0,
                    all[k].1,
                ),
            forall|k: int| 0 <= k < i ==> (#[trigger] all[k]).0 != which,
        decreases planes@.len() - i,
    {
        if planes[i].plane == which {
            assert(all[i as int].0 == which);
            return Some(&planes[i]);
        }
        assert(all[i as int].0 == planes@[i as int].plane);
        i = i + 1;
    }
    proof {
        assert(all[0].0 == Iw44Plane::Y);
        if model.cb is Some {
            assert(all[1].0 == Iw44Plane::Cb);
        }
        if model.cr is Some {
            assert(all[all.len() - 1].0 == Iw44Plane::Cr);
        }
    }
    None
}

/// The coefficients other than 0 among the first `count` of a block, row by row.
pub open spec fn block_entries(
    plane: PlaneModel,
    block_x: int,
    block_y: int,
    width: int,
    count: int,
) -> Seq<Iw44CoefficientEntry>
    decreases count,
{
    if count <= 0 {
        Seq::empty()
    } else {
        let before = block_entries(plane, block_x, block_y, width, count - 1);
        let x = block_x + (count - 1) % width;
        let y = block_y + (count - 1) / width;
        let value = plane_coefficients(plane)[y * plane.width + x];
        if value == 0 {
            before
        } else {
            before.push(entry_of(block_x, block_y, x, y, value))
        }
    }
}

/// How much a coefficient counts in a ranking.
pub open spec fn entry_weight() -> spec_fn(Iw44CoefficientEntry) -> int {
    |entry: Iw44CoefficientEntry| entry.absolute as int
}

/// The largest magnitude among the first `count` coefficients of a list.
pub open spec fn entries_max(entries: Seq<Iw44CoefficientEntry>, count: int) -> int
    decreases count,
{
    if count <= 0 {
        0
    } else {
        let rest = entries_max(entries, count - 1);
        if entries[count - 1].absolute > rest {
            entries[count - 1].absolute as int
        } else {
            rest
        }
    }
}

/// The sum of the magnitudes of the first `count` coefficients of a list.
pub open spec fn entries_sum(entries: Seq<Iw44CoefficientEntry>, count: int) -> int
    decreases count,
{
    if count <= 0 {
        0
    } else {
        entries_sum(entries, count - 1) + entries[count - 1].absolute
    }
}

/// Whether a list holds the coefficient with an index.
pub open spec fn lists_index(entries: Seq<Iw44CoefficientEntry>, index: usize) -> bool {
    exists|i: int| 0 <= i < entries.len() && (#[trigger] entries[i]).index == index
}

/// What is said of a coefficient that no block has.
pub open spec fn outside_block(index: usize) -> InspectFault {
    plain("IW44 coefficient index "@ + decimal(index as nat) + " is outside a 32x32 block"@)
}

/// What is said of a coefficient beyond the edge of its plane.
pub open spec fn outside_edge(index: usize) -> InspectFault {
    plain("IW44 coefficient index "@ + decimal(index as nat) + " is outside the edge block"@)
}

/// A list with a selected coefficient appended if it lacks it; or why it is not there.
pub open spec fn with_one_selected(
    plane: PlaneModel,
    block_x: int,
    block_y: int,
    entries: Seq<Iw44CoefficientEntry>,
    index: usize,
) -> Result<Seq<Iw44CoefficientEntry>, InspectFault> {
    let x = block_x + zigzag_col(index as int);
    let y = block_y + zigzag_row(index as int);
    if index >= 1024 {
        Err(outside_block(index))
    } else if lists_index(entries, index) {
        Ok(entries)
    } else if x >= plane.width || y >= plane.height {
        Err(outside_edge(index))
    } else {
        Ok(
            entries.push(
                entry_of(
                    block_x,
                    block_y,
                    x,
                    y,
                    plane_coefficients(plane)[y * plane.width + x],
                ),
            ),
        )
    }
}

/// A list with the first `count` of the selected coefficients appended that it lacks; or
/// why one of them is not there.
pub open spec fn with_selected(
    plane: PlaneModel,
    block_x: int,
    block_y: int,
    entries: Seq<Iw44CoefficientEntry>,
    selected: Seq<usize>,
    count: int,
) -> Result<Seq<Iw44CoefficientEntry>, InspectFault>
    decreases count,
{
    if count <= 0 {
        Ok(entries)
    } else {
        match with_selected(plane, block_x, block_y, entries, selected, count - 1) {
            Err(fault) => Err(fault),
            Ok(before) => with_one_selected(
                plane,
                block_x,
                block_y,
                before,
                selected[count - 1],
            ),
        }
    }
}

/// The block of coefficients that a sample lies in: its strongest coefficients, as many as
/// the limit allows, and the selected ones.
pub open spec fn block_of(
    model: DecoderModel,
    sample: Iw44PlaneSample,
    limit: int,
    selected: Seq<usize>,
) -> Result<BlockModel, InspectFault> {
    match plane_of(model, sample.plane) {
        None => Err(missing_plane(sample.plane, " coefficient plane"@)),
        Some(plane) => {
            let block_x = 32 * (sample.x as int / 32);
            let block_y = 32 * (sample.y as int / 32);
            let width = at_most(32, plane.width - block_x);
            let height = at_most(32, plane.height - block_y);
            let all = block_entries(plane, block_x, block_y, width, width * height);
            let strongest = ranked(all, entry_weight()).take(at_most(limit, all.len() as int));
            match with_selected(
                plane,
                block_x,
                block_y,
                strongest,
                selected,
                selected.len() as int,
            ) {
                Err(fault) => Err(fault),
                Ok(entries) => Ok(
                    BlockModel {
                        plane: sample.plane,
                        plane_width: plane.width as usize,
                        block_x: block_x as usize,
                        block_y: block_y as usize,
                        block_col: (block_x / 32) as usize,
                        block_row: (block_y / 32) as usize,
                        width: width as usize,
                        height: height as usize,
                        non_zero: all.len() as usize,
                        max_abs: entries_max(all, all.len() as int) as u16,
                        abs_sum: entries_sum(all, all.len() as int) as u64,
                        entries,
                    },
                ),
            }
        },
    }
}

/// A coefficient is where it says, within a plane and a block of it.
#[verifier::opaque]
pub open spec fn entry_placed(
    entry: Iw44CoefficientEntry,
    width: int,
    height: int,
    block_x: int,
    block_y: int,
) -> bool {
    &&& block_x <= entry.x < width
    &&& block_y <= entry.y < height
    &&& entry.x < block_x + 32
    &&& entry.y < block_y + 32
    &&& entry.index < 1024
    &&& entry.index == zigzag_index(entry.x - block_x, entry.y - block_y)
}

/// All coefficients of a list are where they say.
pub open spec fn entries_placed(
    entries: Seq<Iw44CoefficientEntry>,
    width: int,
    height: int,
    block_x: int,
    block_y: int,
) -> bool {
    forall|i: int|
        0 <= i < entries.len() ==> entry_placed(
            #[trigger] entries[i],
            width,
            height,
            block_x,
            block_y,
        )
}

/// Puts a coefficient into a ranked list.
pub(crate) fn insert_ranked(list: &mut Vec<Iw44CoefficientEntry>, entry: Iw44CoefficientEntry)
    ensures
        final(list)@ == rank_insert(old(list)@, entry_weight(), entry),
        final(list)@.len() == old(list)@.len() + 1,
        forall|k: int|
            0 <= k < final(list)@.len() ==> (#[trigger] final(list)@[k]) == entry || exists|m: int|
                0 <= m < old(list)@.len() && final(list)@[k] == old(list)@[m],
{
    let ghost weight = entry_weight();
    let mut place: usize = list.len();
    while place > 0 && list[place - 1].absolute < entry.absolute
        invariant
            place <= list@.len(),
            weight == entry_weight(),
            list@ == old(list)@,
            rank_place(list@, weight, weight(entry), list@.len() as int) == rank_place(
                list@,
                weight,
                weight(entry),
                place as int,
            ),
        decreases place,
    {
        assert(weight(list@[place - 1]) < weight(entry));
        place = place - 1;
    }
    assert(place > 0 ==> weight(list@[place - 1]) >= weight(entry));
    list.insert(place, entry);
    assert forall|k: int| 0 <= k < list@.len() implies (#[trigger] list@[k]) == entry || exists|
        m: int,
    |
        0 <= m < old(list)@.len() && list@[k] == old(list)@[m] by {
        if k < place {
            assert(list@[k] == old(list)@[k]);
        } else if k > place {
            assert(list@[k] == old(list)@[k - 1]);
        }
    }
}

/// Whether a list holds the coefficient with an index.
fn has_index(entries: &Vec<Iw44CoefficientEntry>, index: usize) -> (listed: bool)
    ensures
        listed == lists_index(entries@, index),
{
    let mut i: usize = 0;
    while i < entries.len()
        invariant
            i <= entries@.len(),
            forall|k: int| 0 <= k < i ==> (#[trigger] entries@[k]).index != index,
        decreases entries@.len() - i,
    {
        if entries[i].index == index {
            return true;
        }
        i = i + 1;
    }
    false
}

proof fn lemma_selected_fault(
    plane: PlaneModel,
    block_x: int,
    block_y: int,
    entries: Seq<Iw44CoefficientEntry>,
    selected: Seq<usize>,
    count: int,
    total: int,
)
    requires
        0 <= count <= total,
        with_selected(plane, block_x, block_y, entries, selected, count) is Err,
    ensures
        with_selected(plane, block_x, block_y, entries, selected, total) == with_selected(
            plane,
            block_x,
            block_y,
            entries,
            selected,
            count,
        ),
    decreases total - count,
{
    if count < total {
        lemma_selected_fault(plane, block_x, block_y, entries, selected, count, total - 1);
    }
}

/// The message on a coefficient that is not there.
fn index_error(index: usize, rest: &str) -> (error: InspectError)
    ensures
        error@ == plain("IW44 coefficient index "@ + decimal(index as nat) + rest@),
{
    let mut message: String = text_of("IW44 coefficient index ");
    push_decimal(&mut message, index as u64);
    message.append(rest);
    plain_error(message)
}

/// A coefficient made for a place within a plane and a block is where it says.
proof fn lemma_entry_placed(
    width: int,
    height: int,
    block_x: int,
    block_y: int,
    col: int,
    row: int,
    value: i16,
)
    requires
        0 <= block_x,
        0 <= block_y,
        0 <= col < 32,
        0 <= row < 32,
        block_x + col < width <= 0xffff,
        block_y + row < height <= 0xffff,
    ensures
        entry_placed(
            entry_of(block_x, block_y, block_x + col, block_y + row, value),
            width,
            height,
            block_x,
            block_y,
        ),
        entry_of(block_x, block_y, block_x + col, block_y + row, value).absolute == magnitude(
            value,
        ),
        entry_of(block_x, block_y, block_x + col, block_y + row, value).value == value,
{
    reveal(entry_of);
    reveal(entry_placed);
    lemma_zigzag_of_place(col, row);
}

/// Appends a selected coefficient if a list lacks it.
fn append_one_selected(
    plane: &Iw44CoefficientPlane,
    block_x: usize,
    block_y: usize,
    entries: &mut Vec<Iw44CoefficientEntry>,
    index: usize,
    Ghost(model): Ghost<PlaneModel>,
) -> (done: Result<(), InspectError>)
    requires
        coefficients_show(*plane, plane.plane, model),
        block_x < plane.width <= 0xffff,
        block_y < plane.height <= 0xffff,
        entries_placed(
            old(entries)@,
            model.width,
            model.height,
            block_x as int,
            block_y as int,
        ),
    ensures
        match with_one_selected(
            model,
            block_x as int,
            block_y as int,
            old(entries)@,
            index,
        ) {
            Err(fault) => done is Err && done->Err_0@ == fault,
            Ok(expected) => done is Ok && final(entries)@ == expected,
        },
        done is Ok ==> entries_placed(
            final(entries)@,
            model.width,
            model.height,
            block_x as int,
            block_y as int,
        ),
{
    if index >= 1024 {
        return Err(index_error(index, " is outside a 32x32 block"));
    }
    if has_index(entries, index) {
        return Ok(());
    }
    let col = iw44_zigzag_col(index);
    let row = iw44_zigzag_row(index);
    let x: usize = block_x + col;
    let y: usize = block_y + row;
    if x >= plane.width || y >= plane.height {
        return Err(index_error(index, " is outside the edge block"));
    }
    assert(plane.coefficients@.len() == plane.coefficients.len());
    proof {
        lemma_pixel_index(plane.width as int, plane.height as int, x as int, y as int);
    }
    let value: i16 = plane.coefficients[y * plane.width + x];
    proof {
        lemma_entry_placed(
            model.width,
            model.height,
            block_x as int,
            block_y as int,
            col as int,
            row as int,
            value,
        );
    }
    entries.push(iw44_coefficient_entry(block_x, block_y, x, y, value));
    Ok(())
}

/// Appends the selected coefficients that a list lacks.
fn append_selected(
    plane: &Iw44CoefficientPlane,
    block_x: usize,
    block_y: usize,
    strongest: Vec<Iw44CoefficientEntry>,
    selected: &[usize],
    Ghost(model): Ghost<PlaneModel>,
) -> (entries: Result<Vec<Iw44CoefficientEntry>, InspectError>)
    requires
        coefficients_show(*plane, plane.plane, model),
        block_x < plane.width <= 0xffff,
        block_y < plane.height <= 0xffff,
        entries_placed(
            strongest@,
            model.width,
            model.height,
            block_x as int,
            block_y as int,
        ),
    ensures
        match with_selected(
            model,
            block_x as int,
            block_y as int,
            strongest@,
            selected@,
            selected@.len() as int,
        ) {
            Err(fault) => entries is Err && entries->Err_0@ == fault,
            Ok(expected) => {
                &&& entries is Ok
                &&& entries->Ok_0@ == expected
                &&& entries_placed(
                    expected,
                    model.width,
                    model.height,
                    block_x as int,
                    block_y as int,
                )
            },
        },
{
    let ghost first = strongest@;
    let ghost total = selected@.len() as int;
    let mut entries: Vec<Iw44CoefficientEntry> = strongest;
    let mut i: usize = 0;
    while i < selected.len()
        invariant
            i <= selected@.len(),
            total == selected@.len(),
            first == strongest@,
            coefficients_show(*plane, plane.plane, model),
            block_x < plane.width <= 0xffff,
            block_y < plane.height <= 0xffff,
            entries_placed(
                entries@,
                model.width,
                model.height,
                block_x as int,
                block_y as int,
            ),
            with_selected(
                model,
                block_x as int,
                block_y as int,
                first,
                selected@,
                i as int,
            ) == Ok::<_, InspectFault>(entries@),
        decreases selected@.len() - i,
    {
        match append_one_selected(
            plane,
            block_x,
            block_y,
            &mut entries,
            selected[i],
            Ghost(model),
        ) {
            Err(error) => {
                proof {
                    lemma_selected_fault(
                        model,
                        block_x as int,
                        block_y as int,
                        first,
                        selected@,
                        i + 1,
                        total,
                    );
                }
                return Err(error);
            },
            Ok(_) => {},
        }
        i = i + 1;
    }
    Ok(entries)
}

/// The coefficients other than 0 of a block: ranked, and their largest magnitude and the
/// sum of their magnitudes.
fn scan_block(
    plane: &Iw44CoefficientPlane,
    block_x: usize,
    block_y: usize,
    width: usize,
    height: usize,
    Ghost(model): Ghost<PlaneModel>,
) -> (scan: (Vec<Iw44CoefficientEntry>, u16, u64))
    requires
        coefficients_show(*plane, plane.plane, model),
        0 < width <= 32,
        0 < height <= 32,
        block_x + width <= plane.width <= 0xffff,
        block_y + height <= plane.height <= 0xffff,
    ensures
        ({
            let all = block_entries(
                model,
                block_x as int,
                block_y as int,
                width as int,
                width * height,
            );
            &&& scan.0@ == ranked(all, entry_weight())
            &&& scan.0@.len() == all.len()
            &&& scan.1 == entries_max(all, all.len() as int)
            &&& scan.2 == entries_sum(all, all.len() as int)
        }),
        entries_placed(scan.0@, model.width, model.height, block_x as int, block_y as int),
{
    let mut entries: Vec<Iw44CoefficientEntry> = Vec::new();
    let mut max_abs: u16 = 0;
    let mut abs_sum: u64 = 0;
    let mut i: usize = 0;
    let ghost mut all: Seq<Iw44CoefficientEntry> = Seq::empty();
    assert(width * height <= 1024) by (nonlinear_arith)
        requires
            0 < width <= 32,
            0 < height <= 32,
    ;
    assert(plane.coefficients@.len() == plane.coefficients.len());
    while i < width * height
        invariant
            coefficients_show(*plane, plane.plane, model),
            plane.coefficients@.len() <= usize::MAX,
            0 < width <= 32,
            0 < height <= 32,
            width * height <= 1024,
            block_x + width <= plane.width <= 0xffff,
            block_y + height <= plane.height <= 0xffff,
            i <= width * height,
            all == block_entries(
                model,
                block_x as int,
                block_y as int,
                width as int,
                i as int,
            ),
            all.len() <= i,
            entries@ == ranked(all, entry_weight()),
            entries@.len() == all.len(),
            max_abs == entries_max(all, all.len() as int),
            abs_sum == entries_sum(all, all.len() as int),
            abs_sum <= 0xffff * i,
            entries_placed(
                entries@,
                model.width,
                model.height,
                block_x as int,
                block_y as int,
            ),
        decreases width * height - i,
    {
        let col: usize = i % width;
        let row: usize = i / width;
        assert(row < height) by (nonlinear_arith)
            requires
                i < width * height,
                row == i as int / width as int,
                0 < width,
        ;
        let x: usize = block_x + col;
        let y: usize = block_y + row;
        proof {
            lemma_pixel_index(plane.width as int, plane.height as int, x as int, y as int);
        }
        let value: i16 = plane.coefficients[y * plane.width + x];
        proof {
            lemma_entry_placed(
                model.width,
                model.height,
                block_x as int,
                block_y as int,
                col as int,
                row as int,
                value,
            );
        }
        let absolute: u16 = magnitude_of(value);
        if absolute != 0 {
            let entry = iw44_coefficient_entry(block_x, block_y, x, y, value);
            let ghost before = all;
            insert_ranked(&mut entries, entry);
            proof {
                all = all.push(entry);
                lemma_ranked_push(before, entry);
                lemma_totals_push(before, entry);
                assert(all.drop_last() =~= before);
            }
            if absolute > max_abs {
                max_abs = absolute;
            }
            abs_sum = abs_sum + absolute as u64;
        }
        i = i + 1;
    }
    (entries, max_abs, abs_sum)
}

/// Ranking a list with a coefficient more puts it into the ranked list.
pub(crate) proof fn lemma_ranked_push(
    entries: Seq<Iw44CoefficientEntry>,
    entry: Iw44CoefficientEntry,
)
    ensures
        ranked(entries.push(entry), entry_weight()) == rank_insert(
            ranked(entries, entry_weight()),
            entry_weight(),
            entry,
        ),
{
    lemma_ranked_prefix_of(entries, entries.push(entry), entries.len() as int);
}

proof fn lemma_ranked_prefix_of(
    left: Seq<Iw44CoefficientEntry>,
    right: Seq<Iw44CoefficientEntry>,
    count: int,
)
    requires
        0 <= count <= left.len(),
        count <= right.len(),
        forall|i: int| 0 <= i < count ==> left[i] == right[i],
    ensures
        ranked_prefix(left, entry_weight(), count) == ranked_prefix(right, entry_weight(), count),
    decreases count,
{
    if count > 0 {
        lemma_ranked_prefix_of(left, right, count - 1);
    }
}

proof fn lemma_totals_prefix(
    left: Seq<Iw44CoefficientEntry>,
    right: Seq<Iw44CoefficientEntry>,
    count: int,
)
    requires
        0 <= count <= left.len(),
        count <= right.len(),
        forall|i: int| 0 <= i < count ==> left[i] == right[i],
    ensures
        entries_max(left, count) == entries_max(right, count),
        entries_sum(left, count) == entries_sum(right, count),
    decreases count,
{
    if count > 0 {
        lemma_totals_prefix(left, right, count - 1);
    }
}

proof fn lemma_totals_push(entries: Seq<Iw44CoefficientEntry>, entry: Iw44CoefficientEntry)
    ensures
        ({
            let more = entries.push(entry);
            let largest = entries_max(entries, entries.len() as int);
            &&& entries_sum(more, more.len() as int) == entries_sum(
                entries,
                entries.len() as int,
            ) + entry.absolute
            &&& entries_max(more, more.len() as int) == if entry.absolute > largest {
                entry.absolute as int
            } else {
                largest
            }
        }),
{
    lemma_totals_prefix(entries, entries.push(entry), entries.len() as int);
}

/// The block of coefficients that a sample lies in: its strongest coefficients, as many as
/// the limit allows, and the selected ones.
pub fn iw44_coefficient_block_summary(
    decoder: &Iw44Decoder,
    sample: Iw44PlaneSample,
    entry_limit: usize,
    selected_indices: &[usize],
) -> (summary: Result<Iw44CoefficientBlockSummary, InspectError>)
    requires
        decoder.wf(),
        decoder@.image is Some,
        plane_of(decoder@, sample.plane) is Some ==> sample.x < plane_of(
            decoder@,
            sample.plane,
        )->0.width && sample.y < plane_of(decoder@, sample.plane)->0.height,
    ensures
        match block_of(decoder@, sample, entry_limit as int, selected_indices@) {
            Err(fault) => summary is Err && summary->Err_0@ == fault,
            Ok(expected) => {
                &&& summary is Ok
                &&& summary->Ok_0@ == expected
                &&& entries_placed(
                    expected.entries,
                    plane_of(decoder@, sample.plane)->0.width,
                    plane_of(decoder@, sample.plane)->0.height,
                    expected.block_x as int,
                    expected.block_y as int,
                )
            },
        },
{
    let planes = decoder.coefficient_planes();
    let plane = match find_coefficients(&planes, sample.plane, Ghost(decoder@)) {
        None => {
            return Err(missing_plane_error(sample.plane, " coefficient plane"));
        },
        Some(plane) => plane,
    };
    let ghost model = plane_of(decoder@, sample.plane)->0;
    let block_x: usize = 32 * (sample.x / 32);
    let block_y: usize = 32 * (sample.y / 32);
    let width: usize = if plane.width - block_x < 32 {
        plane.width - block_x
    } else {
        32
    };
    let height: usize = if plane.height - block_y < 32 {
        plane.height - block_y
    } else {
        32
    };
    let (mut entries, max_abs, abs_sum) = scan_block(
        plane,
        block_x,
        block_y,
        width,
        height,
        Ghost(model),
    );
    let non_zero: usize = entries.len();
    let ghost scanned = entries@;
    if entry_limit < entries.len() {
        entries.truncate(entry_limit);
    }
    assert(entries@ =~= scanned.take(at_most(entry_limit as int, scanned.len() as int)));
    match append_selected(plane, block_x, block_y, entries, selected_indices, Ghost(model)) {
        Err(error) => Err(error),
        Ok(entries) => Ok(
            Iw44CoefficientBlockSummary {
                plane: sample.plane,
                plane_width: plane.width,
                block_x,
                block_y,
                block_col: block_x / 32,
                block_row: block_y / 32,
                width,
                height,
                non_zero,
                max_abs,
                abs_sum,
                entries,
            },
        ),
    }
}

} // verus!
