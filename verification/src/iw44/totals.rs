//! What the numbers of a plane's coefficients count.

use super::blocks::{magnitude, magnitude_sum, max_magnitude, nonzero_count};
use super::decoder::summary_of;
use super::slice::PlaneModel;
use super::Iw44Plane;
use vstd::prelude::*;

verus! {

/// One more coefficient adds its magnitude to the sum, adds one to the count if it is not 0, and
/// is the largest if no other is larger.
pub proof fn lemma_coefficient_counted(values: Seq<i16>, value: i16)
    ensures
        ({
            let (all, n) = (values.push(value), values.len() as int);
            &&& nonzero_count(all, n + 1) == nonzero_count(values, n) + (if value == 0 {
                0int
            } else {
                1
            })
            &&& magnitude_sum(all, n + 1) == magnitude_sum(values, n) + magnitude(value)
            &&& max_magnitude(all, n + 1) >= magnitude(value)
            &&& max_magnitude(all, n + 1) >= max_magnitude(values, n)
            &&& max_magnitude(all, n + 1) == magnitude(value) || max_magnitude(all, n + 1)
                == max_magnitude(values, n)
        }),
{
    lemma_totals_of_first(values.push(value), values, values.len() as int);
}

/// Nothing is counted of no coefficients; and the magnitude of a coefficient is its distance from
/// 0.
pub proof fn lemma_nothing_counted(values: Seq<i16>, value: i16)
    ensures
        nonzero_count(values, 0) == 0,
        magnitude_sum(values, 0) == 0,
        max_magnitude(values, 0) == 0,
        value >= 0 ==> magnitude(value) == value,
        value <= 0 ==> magnitude(value) == -value,
{
}

proof fn lemma_totals_of_first(longer: Seq<i16>, shorter: Seq<i16>, count: int)
    requires
        0 <= count <= shorter.len() <= longer.len(),
        forall|i: int| 0 <= i < shorter.len() ==> longer[i] == shorter[i],
    ensures
        nonzero_count(longer, count) == nonzero_count(shorter, count),
        magnitude_sum(longer, count) == magnitude_sum(shorter, count),
        max_magnitude(longer, count) == max_magnitude(shorter, count),
    decreases count,
{
    if count > 0 {
        lemma_totals_of_first(longer, shorter, count - 1);
    }
}

/// The numbers that are told of a plane are those of all its coefficients: where they are all 0,
/// all three numbers are, and where one is not, none is.
pub proof fn lemma_plane_counted(which: Iw44Plane, plane: PlaneModel, place: int)
    requires
        0 <= place < plane.values.len() < 0x1_0000_0000,
        plane.values[place] != 0,
        plane.values.len() <= usize::MAX,
    ensures
        ({
            let summary = summary_of(which, plane);
            &&& summary.plane == which
            &&& 1 <= summary.non_zero_coefficients <= plane.values.len()
            &&& magnitude(plane.values[place]) <= summary.max_abs_coefficient
            &&& summary.max_abs_coefficient <= summary.coefficient_abs_sum
        }),
{
    lemma_totals_hold(plane.values, plane.values.len() as int, place);
}

proof fn lemma_totals_hold(values: Seq<i16>, count: int, place: int)
    requires
        0 <= count <= values.len(),
    ensures
        0 <= nonzero_count(values, count) <= count,
        0 <= max_magnitude(values, count) <= magnitude_sum(values, count) <= 0x8000 * count,
        max_magnitude(values, count) <= 0x8000,
        0 <= place < count ==> magnitude(values[place]) <= max_magnitude(values, count),
        0 <= place < count && values[place] != 0 ==> nonzero_count(values, count) >= 1,
    decreases count,
{
    if count > 0 {
        lemma_totals_hold(values, count - 1, place);
    }
}

} // verus!
