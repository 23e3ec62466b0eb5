//! Rectangle sums over a plane of integers, stored row-major with a
//! given row stride. `region` is the direct double sum of the entries of
//! a rectangle; `prefix` is the integral-image value (the sum of all
//! entries up and to the left, inclusive). The corner lemma justifies
//! reading any rectangle sum from four integral-image lookups.

use vstd::prelude::*;

verus! {

/// Sum of the entries of row `r`, columns `c0..=c1`.
pub open spec fn seg(v: Seq<int>, w: int, r: int, c0: int, c1: int) -> int
    decreases c1 - c0 + 1,
{
    if c1 < c0 {
        0
    } else {
        seg(v, w, r, c0, c1 - 1) + v[r * w + c1]
    }
}

/// Sum of the entries of the rectangle with columns `c0..=c1` and rows
/// `r0..=r1`.
pub open spec fn region(v: Seq<int>, w: int, c0: int, r0: int, c1: int, r1: int) -> int
    decreases r1 - r0 + 1,
{
    if r1 < r0 {
        0
    } else {
        region(v, w, c0, r0, c1, r1 - 1) + seg(v, w, r1, c0, c1)
    }
}

/// Row-major position of row `r`, column `c` in a plane of stride `w`.
pub open spec fn pidx(w: int, r: int, c: int) -> int {
    r * w + c
}

/// Distinct in-range coordinates land on distinct row-major positions.
pub proof fn lemma_pidx_distinct(w: int)
    ensures
        forall|r1: int, c1: int, r2: int, c2: int|
            0 <= c1 < w && 0 <= c2 < w && 0 <= r1 && 0 <= r2 && (r1 != r2 || c1 != c2)
                ==> #[trigger] pidx(w, r1, c1) != #[trigger] pidx(w, r2, c2),
{
    assert forall|r1: int, c1: int, r2: int, c2: int|
        0 <= c1 < w && 0 <= c2 < w && 0 <= r1 && 0 <= r2 && (r1 != r2 || c1 != c2) implies #[trigger] pidx(
        w,
        r1,
        c1,
    ) != #[trigger] pidx(w, r2, c2) by {
        assert(r1 * w + c1 != r2 * w + c2) by (nonlinear_arith)
            requires
                0 <= c1 < w,
                0 <= c2 < w,
                0 <= r1,
                0 <= r2,
                r1 != r2 || c1 != c2,
        ;
    }
}

/// Products of non-negative factors are non-negative.
pub proof fn lemma_mul_nonneg(a: int, b: int)
    requires
        0 <= a,
        0 <= b,
    ensures
        0 <= a * b,
{
    assert(0 <= a * b) by (nonlinear_arith)
        requires
            0 <= a,
            0 <= b,
    ;
}

/// Multiplication by a non-negative factor is monotone.
pub proof fn lemma_mul_le_mono(a: int, b: int, c: int)
    requires
        a <= b,
        0 <= c,
    ensures
        a * c <= b * c,
{
    assert(a * c <= b * c) by (nonlinear_arith)
        requires
            a <= b,
            0 <= c,
    ;
}

/// In-range coordinates index into the plane.
pub proof fn lemma_pidx_bounds(w: int, h: int, r: int, c: int)
    requires
        0 <= r < h,
        0 <= c < w,
    ensures
        0 <= pidx(w, r, c) < w * h,
{
    assert(0 <= r * w + c < w * h) by (nonlinear_arith)
        requires
            0 <= r < h,
            0 <= c < w,
    ;
}

/// The integral-image value at row `r`, column `c`.
pub open spec fn prefix(v: Seq<int>, w: int, r: int, c: int) -> int {
    region(v, w, 0, 0, c, r)
}

/// A row segment is the difference of two row prefixes.
pub proof fn lemma_seg_split(v: Seq<int>, w: int, r: int, c0: int, c1: int)
    requires
        1 <= c0,
        c0 - 1 <= c1,
    ensures
        seg(v, w, r, c0, c1) == seg(v, w, r, 0, c1) - seg(v, w, r, 0, c0 - 1),
    decreases c1 - c0 + 1,
{
    if c1 == c0 - 1 {
    } else {
        lemma_seg_split(v, w, r, c0, c1 - 1);
    }
}

/// A rectangle is the difference of two full-width-from-column-zero
/// rectangles.
pub proof fn lemma_region_split_cols(v: Seq<int>, w: int, c0: int, r0: int, c1: int, r1: int)
    requires
        1 <= c0,
        c0 - 1 <= c1,
    ensures
        region(v, w, c0, r0, c1, r1) == region(v, w, 0, r0, c1, r1) - region(v, w, 0, r0, c0 - 1, r1),
    decreases r1 - r0 + 1,
{
    if r1 < r0 {
    } else {
        lemma_region_split_cols(v, w, c0, r0, c1, r1 - 1);
        lemma_seg_split(v, w, r1, c0, c1);
    }
}

/// A rectangle is the difference of two from-row-zero rectangles.
pub proof fn lemma_region_split_rows(v: Seq<int>, w: int, c0: int, r0: int, c1: int, r1: int)
    requires
        1 <= r0,
        r0 - 1 <= r1,
    ensures
        region(v, w, c0, r0, c1, r1) == region(v, w, c0, 0, c1, r1) - region(v, w, c0, 0, c1, r0 - 1),
    decreases r1 - r0 + 1,
{
    if r1 == r0 - 1 {
    } else {
        lemma_region_split_rows(v, w, c0, r0, c1, r1 - 1);
    }
}

/// Any rectangle sum is a four-corner combination of integral-image
/// values; corners on the top or left edge fall away.
pub proof fn lemma_region_corners(v: Seq<int>, w: int, x0: int, y0: int, x1: int, y1: int)
    requires
        0 <= x0 <= x1,
        0 <= y0 <= y1,
    ensures
        region(v, w, x0, y0, x1, y1) == prefix(v, w, y1, x1) - (if y0 > 0 {
            prefix(v, w, y0 - 1, x1)
        } else {
            0
        }) - (if x0 > 0 {
            prefix(v, w, y1, x0 - 1)
        } else {
            0
        }) + (if x0 > 0 && y0 > 0 {
            prefix(v, w, y0 - 1, x0 - 1)
        } else {
            0
        }),
{
    if x0 > 0 {
        lemma_region_split_cols(v, w, x0, y0, x1, y1);
        if y0 > 0 {
            lemma_region_split_rows(v, w, 0, y0, x1, y1);
            lemma_region_split_rows(v, w, 0, y0, x0 - 1, y1);
        }
    } else {
        if y0 > 0 {
            lemma_region_split_rows(v, w, 0, y0, x1, y1);
        }
    }
}

/// Entrywise bounds on a plane bound each of its rectangle sums.
pub proof fn lemma_seg_bounds(
    v: Seq<int>,
    w: int,
    h: int,
    r: int,
    c0: int,
    c1: int,
    lo: int,
    hi: int,
)
    requires
        v.len() == w * h,
        0 <= r < h,
        0 <= c0,
        c1 < w,
        lo <= 0 <= hi,
        forall|i: int| 0 <= i < v.len() ==> lo <= #[trigger] v[i] <= hi,
    ensures
        (if c1 >= c0 {
            (c1 - c0 + 1) * lo
        } else {
            0
        }) <= seg(v, w, r, c0, c1) <= (if c1 >= c0 {
            (c1 - c0 + 1) * hi
        } else {
            0
        }),
    decreases c1 - c0 + 1,
{
    if c1 >= c0 {
        lemma_seg_bounds(v, w, h, r, c0, c1 - 1, lo, hi);
        lemma_pidx_bounds(w, h, r, c1);
        assert(seg(v, w, r, c0, c1) == seg(v, w, r, c0, c1 - 1) + v[r * w + c1]);
        assert(lo <= v[r * w + c1] <= hi);
        if c1 == c0 {
            assert((c1 - c0 + 1) * lo == lo && (c1 - c0 + 1) * hi == hi) by (nonlinear_arith)
                requires
                    c1 == c0,
            ;
        } else {
            assert((c1 - c0 + 1) * lo == (c1 - c0) * lo + lo) by (nonlinear_arith);
            assert((c1 - c0 + 1) * hi == (c1 - c0) * hi + hi) by (nonlinear_arith);
        }
    }
}

/// Row-count times the row bounds bound the rectangle sum.
pub proof fn lemma_region_bounds(
    v: Seq<int>,
    w: int,
    h: int,
    c0: int,
    r0: int,
    c1: int,
    r1: int,
    lo: int,
    hi: int,
)
    requires
        v.len() == w * h,
        lo <= 0 <= hi,
        forall|i: int| 0 <= i < v.len() ==> lo <= #[trigger] v[i] <= hi,
        0 <= c0,
        c1 < w,
        c1 >= c0 - 1,
        0 <= r0,
        r1 < h,
    ensures
        (if r1 >= r0 {
            (r1 - r0 + 1) * ((c1 - c0 + 1) * lo)
        } else {
            0
        }) <= region(v, w, c0, r0, c1, r1) <= (if r1 >= r0 {
            (r1 - r0 + 1) * ((c1 - c0 + 1) * hi)
        } else {
            0
        }),
    decreases r1 - r0 + 1,
{
    if r1 >= r0 {
        lemma_region_bounds(v, w, h, c0, r0, c1, r1 - 1, lo, hi);
        lemma_seg_bounds(v, w, h, r1, c0, c1, lo, hi);
        assert(region(v, w, c0, r0, c1, r1) == region(v, w, c0, r0, c1, r1 - 1) + seg(
            v,
            w,
            r1,
            c0,
            c1,
        ));
        if c1 >= c0 {
            if r1 == r0 {
                assert((r1 - r0 + 1) * ((c1 - c0 + 1) * lo) == (c1 - c0 + 1) * lo && (r1 - r0 + 1)
                    * ((c1 - c0 + 1) * hi) == (c1 - c0 + 1) * hi) by (nonlinear_arith)
                    requires
                        r1 == r0,
                ;
            } else {
                assert((r1 - r0 + 1) * ((c1 - c0 + 1) * lo) == (r1 - r0) * ((c1 - c0 + 1) * lo) + (
                c1 - c0 + 1) * lo) by (nonlinear_arith);
                assert((r1 - r0 + 1) * ((c1 - c0 + 1) * hi) == (r1 - r0) * ((c1 - c0 + 1) * hi) + (
                c1 - c0 + 1) * hi) by (nonlinear_arith);
            }
        } else {
            assert((r1 - r0 + 1) * ((c1 - c0 + 1) * lo) == 0 && (r1 - r0) * ((c1 - c0 + 1) * lo)
                == 0) by (nonlinear_arith)
                requires
                    c1 == c0 - 1,
            ;
            assert((r1 - r0 + 1) * ((c1 - c0 + 1) * hi) == 0 && (r1 - r0) * ((c1 - c0 + 1) * hi)
                == 0) by (nonlinear_arith)
                requires
                    c1 == c0 - 1,
            ;
        }
    }
}

} // verus!
