//! What the inverse transform makes of smooth lines.

use super::wavelet::{prediction, unlift, unlift_even};
use vstd::prelude::*;

verus! {

/// The value of a polynomial of degree 3.
pub open spec fn cubic(a: int, b: int, c: int, d: int, i: int) -> int {
    a + b * i + c * (i * i) + d * (i * i * i)
}

proof fn lemma_cubic_predicted(a: int, b: int, c: int, d: int, i: int)
    ensures
        9 * (cubic(a, b, c, d, i - 1) + cubic(a, b, c, d, i + 1)) - (cubic(a, b, c, d, i - 3)
            + cubic(a, b, c, d, i + 3)) == 16 * cubic(a, b, c, d, i),
{
    let (s, q) = (i * i, i * i * i);
    assert((i - 1) * (i - 1) == s - 2 * i + 1 && (i + 1) * (i + 1) == s + 2 * i + 1 && (i - 3) * (i
        - 3) == s - 6 * i + 9 && (i + 3) * (i + 3) == s + 6 * i + 9) by (nonlinear_arith)
        requires
            s == i * i,
    ;
    assert((i - 1) * (i - 1) * (i - 1) == q - 3 * s + 3 * i - 1) by (nonlinear_arith)
        requires
            s == i * i,
            q == i * i * i,
    ;
    assert((i + 1) * (i + 1) * (i + 1) == q + 3 * s + 3 * i + 1) by (nonlinear_arith)
        requires
            s == i * i,
            q == i * i * i,
    ;
    assert((i - 3) * (i - 3) * (i - 3) == q - 9 * s + 27 * i - 27) by (nonlinear_arith)
        requires
            s == i * i,
            q == i * i * i,
    ;
    assert((i + 3) * (i + 3) * (i + 3) == q + 9 * s + 27 * i + 27) by (nonlinear_arith)
        requires
            s == i * i,
            q == i * i * i,
    ;
    assert(b * (i - 1) == b * i - b && b * (i + 1) == b * i + b && b * (i - 3) == b * i - 3 * b && b
        * (i + 3) == b * i + 3 * b) by (nonlinear_arith);
    assert(c * (s - 2 * i + 1) == c * s - 2 * (c * i) + c && c * (s + 2 * i + 1) == c * s + 2 * (c
        * i) + c && c * (s - 6 * i + 9) == c * s - 6 * (c * i) + 9 * c && c * (s + 6 * i + 9) == c
        * s + 6 * (c * i) + 9 * c) by (nonlinear_arith);
    assert(d * (q - 3 * s + 3 * i - 1) == d * q - 3 * (d * s) + 3 * (d * i) - d && d * (q + 3 * s
        + 3 * i + 1) == d * q + 3 * (d * s) + 3 * (d * i) + d) by (nonlinear_arith);
    assert(d * (q - 9 * s + 27 * i - 27) == d * q - 9 * (d * s) + 27 * (d * i) - 27 * d && d * (q
        + 9 * s + 27 * i + 27) == d * q + 9 * (d * s) + 27 * (d * i) + 27 * d)
        by (nonlinear_arith);
}

/// Where there is no detail at the odd places of a line, the samples there come to lie on the
/// curve of degree 3 through their neighbours at the even places, two to each side; and the
/// samples at the even places stay.
pub proof fn lemma_curve_continued(line: Seq<i16>, a: int, b: int, c: int, d: int, i: int)
    requires
        forall|k: int| 0 <= k < line.len() && k % 2 == 1 ==> #[trigger] line[k] == 0,
        forall|k: int|
            0 <= k < line.len() && k % 2 == 0 ==> #[trigger] line[k] == cubic(a, b, c, d, k),
        3 <= i,
        i + 3 < line.len(),
        -0x8000 <= cubic(a, b, c, d, i) <= 0x7fff,
    ensures
        unlift(line).len() == line.len(),
        unlift(line)[i] == cubic(a, b, c, d, i),
{
    let even = unlift_even(line);
    assert forall|k: int| 0 <= k < line.len() implies #[trigger] even[k] == line[k] by {
        if k % 2 == 0 {
            assert(prediction(line, k) == 0);
        }
    }
    if i % 2 == 1 {
        lemma_cubic_predicted(a, b, c, d, i);
        assert(prediction(even, i) == 16 * cubic(a, b, c, d, i));
    }
}

/// Near the ends of a line, where there is no detail, a sample at an odd place is the mean of
/// its two neighbours, rounded up; at the very end it is its only neighbour again.
pub proof fn lemma_ends_continued(line: Seq<i16>, i: int)
    requires
        forall|k: int| 0 <= k < line.len() && k % 2 == 1 ==> #[trigger] line[k] == 0,
        i % 2 == 1,
        0 < i < line.len(),
        i < 3 || i + 3 >= line.len(),
    ensures
        i + 1 < line.len() ==> 0 <= 2 * unlift(line)[i] - (line[i - 1] + line[i + 1]) <= 1,
        i + 1 == line.len() ==> unlift(line)[i] == line[i - 1],
{
    let even = unlift_even(line);
    assert forall|k: int| 0 <= k < line.len() implies #[trigger] even[k] == line[k] by {
        if k % 2 == 0 {
            assert(prediction(line, k) == 0);
        }
    }
}

/// Detail that is the same at all odd places takes half of itself, rounded up, from the samples
/// at the even places, except near the ends of the line.
pub proof fn lemma_even_places_give_half(line: Seq<i16>, detail: i16, i: int)
    requires
        forall|k: int| 0 <= k < line.len() && k % 2 == 1 ==> #[trigger] line[k] == detail,
        i % 2 == 0,
        3 <= i,
        i + 3 < line.len(),
        -0x4000 <= line[i] <= 0x3fff,
        -0x4000 <= detail <= 0x3fff,
    ensures
        0 <= 2 * (line[i] - unlift(line)[i]) - detail <= 1,
{
    assert(prediction(line, i) == 16 * detail);
    assert(unlift(line)[i] == unlift_even(line)[i]);
}

} // verus!
