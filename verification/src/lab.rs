//! The LAB (Locally Assembled Binary) feature map: integral images of
//! pixel intensities and squared intensities, a plane of 3x3 block sums,
//! and the 8-bit comparison code of each 3x3 arrangement of blocks.

use crate::arith::{
    lemma_wrap_i32_add, lemma_wrap_i32_id, lemma_wrap_i32_sub, lemma_wrap_u32_add,
    lemma_wrap_u32_id, lemma_wrap_u32_sub, wrap_i32, wrap_u32,
};
use crate::common::{ImageData, Rectangle};
use crate::math;
use crate::plane::{
    lemma_mul_nonneg, lemma_pidx_bounds, lemma_pidx_distinct, lemma_region_bounds,
    lemma_region_corners, pidx, prefix, region, seg,
};
use vstd::prelude::*;

verus! {

/// The pixel intensities of an image, as a plane of integers.
pub open spec fn intensity_plane(img: Seq<u8>) -> Seq<int> {
    Seq::new(img.len(), |i: int| img[i] as int)
}

/// The squared pixel intensities of an image.
pub open spec fn square_plane(img: Seq<u8>) -> Seq<int> {
    Seq::new(img.len(), |i: int| img[i] * img[i])
}

/// The view of a stored i32 plane as mathematical integers.
pub open spec fn i32_plane(s: Seq<i32>) -> Seq<int> {
    Seq::new(s.len(), |i: int| s[i] as int)
}

/// The view of a stored u32 plane as mathematical integers.
pub open spec fn u32_plane(s: Seq<u32>) -> Seq<int> {
    Seq::new(s.len(), |i: int| s[i] as int)
}

/// In-place integral image over an i32 plane: afterwards every cell
/// holds the sum (modulo 2^32) of the original entries up and to the
/// left, inclusive.
#[verifier::loop_isolation(false)]
pub(crate) fn compute_integral_i32(data: &mut Vec<i32>, width: usize, height: usize)
    requires
        old(data)@.len() == width * height,
        1 <= width,
        1 <= height,
    ensures
        final(data)@.len() == width * height,
        forall|r: int, c: int|
            0 <= r < height && 0 <= c < width ==> final(data)@[pidx(width as int, r, c)]
                == wrap_i32(#[trigger] prefix(i32_plane(old(data)@), width as int, r, c)),
{
    let ghost wi = width as int;
    let ghost hi = height as int;
    let ghost v = i32_plane(old(data)@);
    let ghost len = (width * height) as int;
    let data_len = data.len();
    proof {
        lemma_pidx_distinct(wi);
        assert(data_len == len);
        assert(width <= width * height) by (nonlinear_arith)
            requires
                1 <= width,
                1 <= height,
        ;
        assert(prefix(v, wi, 0, 0) == region(v, wi, 0, 0, 0, -1) + seg(v, wi, 0, 0, 0));
        assert(region(v, wi, 0, 0, 0, -1) == 0);
        assert(seg(v, wi, 0, 0, 0) == seg(v, wi, 0, 0, -1) + v[0]);
        lemma_wrap_i32_id(v[0]);
    }

    let mut c: usize = 1;
    while c < width
        invariant
            1 <= c <= width,
            data@.len() == len,
            forall|j: int|
                0 <= j < c ==> data@[#[trigger] pidx(wi, 0, j)] == wrap_i32(prefix(v, wi, 0, j)),
            forall|j: int| c <= j < len ==> data@[j] == old(data)@[j],
        decreases width - c,
    {
        proof {
            assert(pidx(wi, 0, c as int) == c as int);
            assert(pidx(wi, 0, c - 1) == c - 1);
            assert(prefix(v, wi, 0, c as int) == region(v, wi, 0, 0, c as int, -1) + seg(
                v,
                wi,
                0,
                0,
                c as int,
            ));
            assert(region(v, wi, 0, 0, c as int, -1) == 0);
            assert(prefix(v, wi, 0, c - 1) == region(v, wi, 0, 0, c - 1, -1) + seg(
                v,
                wi,
                0,
                0,
                c - 1,
            ));
            assert(region(v, wi, 0, 0, c - 1, -1) == 0);
            assert(seg(v, wi, 0, 0, c as int) == seg(v, wi, 0, 0, c - 1) + v[c as int]);
            assert(v[c as int] == old(data)@[c as int] as int);
            lemma_wrap_i32_id(v[c as int]);
            lemma_wrap_i32_add(prefix(v, wi, 0, c - 1), v[c as int]);
        }
        let prev = data[c - 1];
        let cur = data[c];
        data[c] = prev.wrapping_add(cur);
        c += 1;
    }

    let mut r: usize = 1;
    while r < height
        invariant
            1 <= r <= height,
            data@.len() == len,
            forall|rr: int, cc: int|
                0 <= rr < r && 0 <= cc < width ==> data@[pidx(wi, rr, cc)] == wrap_i32(
                    #[trigger] prefix(v, wi, rr, cc),
                ),
            forall|j: int| r * width <= j < len ==> data@[j] == old(data)@[j],
        decreases height - r,
    {
        let mut s: i32 = 0;
        let mut cc: usize = 0;
        proof {
            assert(seg(v, wi, r as int, 0, -1) == 0);
            lemma_wrap_i32_id(0);
        }
        while cc < width
            invariant
                0 <= cc <= width,
                r < height,
                data@.len() == len,
                s == wrap_i32(seg(v, wi, r as int, 0, cc - 1)),
                forall|rr: int, ccc: int|
                    0 <= rr < r && 0 <= ccc < width ==> data@[pidx(wi, rr, ccc)] == wrap_i32(
                        #[trigger] prefix(v, wi, rr, ccc),
                    ),
                forall|j: int|
                    0 <= j < cc ==> data@[#[trigger] pidx(wi, r as int, j)] == wrap_i32(
                        prefix(v, wi, r as int, j),
                    ),
                forall|j: int| r * width + cc <= j < len ==> data@[j] == old(data)@[j],
            decreases width - cc,
        {
            proof {
                lemma_pidx_bounds(wi, hi, r as int, cc as int);
                lemma_pidx_bounds(wi, hi, r - 1, cc as int);
                assert(r * width + cc == pidx(wi, r as int, cc as int));
                assert((r - 1) * width + cc == pidx(wi, r - 1, cc as int));
                assert(r * width + cc < len);
                assert(data@[pidx(wi, r as int, cc as int)] == old(data)@[pidx(
                    wi,
                    r as int,
                    cc as int,
                )]);
                assert(v[pidx(wi, r as int, cc as int)] == old(data)@[pidx(
                    wi,
                    r as int,
                    cc as int,
                )] as int);
                assert(seg(v, wi, r as int, 0, cc as int) == seg(v, wi, r as int, 0, cc - 1)
                    + v[pidx(wi, r as int, cc as int)]);
                lemma_wrap_i32_id(v[pidx(wi, r as int, cc as int)]);
                lemma_wrap_i32_add(
                    seg(v, wi, r as int, 0, cc - 1),
                    v[pidx(wi, r as int, cc as int)],
                );
                assert(data@[pidx(wi, r - 1, cc as int)] == wrap_i32(
                    prefix(v, wi, r - 1, cc as int),
                ));
                assert(prefix(v, wi, r as int, cc as int) == region(v, wi, 0, 0, cc as int, r - 1)
                    + seg(v, wi, r as int, 0, cc as int));
                lemma_wrap_i32_add(
                    prefix(v, wi, r - 1, cc as int),
                    seg(v, wi, r as int, 0, cc as int),
                );
            }
            let idx = r * width + cc;
            let cur = data[idx];
            s = s.wrapping_add(cur);
            let above = data[(r - 1) * width + cc];
            data[idx] = above.wrapping_add(s);
            proof {
                assert forall|rr: int, ccc: int| 0 <= rr < r && 0 <= ccc < width implies data@[pidx(
                    wi,
                    rr,
                    ccc,
                )] == wrap_i32(#[trigger] prefix(v, wi, rr, ccc)) by {
                    lemma_pidx_bounds(wi, hi, rr, ccc);
                    assert(rr * wi + ccc != r * wi + cc) by (nonlinear_arith)
                        requires
                            0 <= ccc < wi,
                            0 <= cc < wi,
                            0 <= rr < r,
                    ;
                }
            }
            cc += 1;
        }
        r += 1;
        proof {
            assert(r * width == (r - 1) * width + width) by (nonlinear_arith);
        }
    }
}

/// In-place integral image over a u32 plane, modulo 2^32.
#[verifier::loop_isolation(false)]
fn compute_integral_u32(data: &mut Vec<u32>, width: usize, height: usize)
    requires
        old(data)@.len() == width * height,
        1 <= width,
        1 <= height,
    ensures
        final(data)@.len() == width * height,
        forall|r: int, c: int|
            0 <= r < height && 0 <= c < width ==> final(data)@[pidx(width as int, r, c)]
                == wrap_u32(#[trigger] prefix(u32_plane(old(data)@), width as int, r, c)),
{
    let ghost wi = width as int;
    let ghost hi = height as int;
    let ghost v = u32_plane(old(data)@);
    let ghost len = (width * height) as int;
    let data_len = data.len();
    proof {
        lemma_pidx_distinct(wi);
        assert(data_len == len);
        assert(width <= width * height) by (nonlinear_arith)
            requires
                1 <= width,
                1 <= height,
        ;
        assert(prefix(v, wi, 0, 0) == region(v, wi, 0, 0, 0, -1) + seg(v, wi, 0, 0, 0));
        assert(region(v, wi, 0, 0, 0, -1) == 0);
        assert(seg(v, wi, 0, 0, 0) == seg(v, wi, 0, 0, -1) + v[0]);
        lemma_wrap_u32_id(v[0]);
    }

    let mut c: usize = 1;
    while c < width
        invariant
            1 <= c <= width,
            data@.len() == len,
            forall|j: int|
                0 <= j < c ==> data@[#[trigger] pidx(wi, 0, j)] == wrap_u32(prefix(v, wi, 0, j)),
            forall|j: int| c <= j < len ==> data@[j] == old(data)@[j],
        decreases width - c,
    {
        proof {
            assert(pidx(wi, 0, c as int) == c as int);
            assert(pidx(wi, 0, c - 1) == c - 1);
            assert(prefix(v, wi, 0, c as int) == region(v, wi, 0, 0, c as int, -1) + seg(
                v,
                wi,
                0,
                0,
                c as int,
            ));
            assert(region(v, wi, 0, 0, c as int, -1) == 0);
            assert(prefix(v, wi, 0, c - 1) == region(v, wi, 0, 0, c - 1, -1) + seg(
                v,
                wi,
                0,
                0,
                c - 1,
            ));
            assert(region(v, wi, 0, 0, c - 1, -1) == 0);
            assert(seg(v, wi, 0, 0, c as int) == seg(v, wi, 0, 0, c - 1) + v[c as int]);
            assert(v[c as int] == old(data)@[c as int] as int);
            lemma_wrap_u32_id(v[c as int]);
            lemma_wrap_u32_add(prefix(v, wi, 0, c - 1), v[c as int]);
        }
        let prev = data[c - 1];
        let cur = data[c];
        data[c] = prev.wrapping_add(cur);
        c += 1;
    }

    let mut r: usize = 1;
    while r < height
        invariant
            1 <= r <= height,
            data@.len() == len,
            forall|rr: int, cc: int|
                0 <= rr < r && 0 <= cc < width ==> data@[pidx(wi, rr, cc)] == wrap_u32(
                    #[trigger] prefix(v, wi, rr, cc),
                ),
            forall|j: int| r * width <= j < len ==> data@[j] == old(data)@[j],
        decreases height - r,
    {
        let mut s: u32 = 0;
        let mut cc: usize = 0;
        proof {
            assert(seg(v, wi, r as int, 0, -1) == 0);
            lemma_wrap_u32_id(0);
        }
        while cc < width
            invariant
                0 <= cc <= width,
                r < height,
                data@.len() == len,
                s == wrap_u32(seg(v, wi, r as int, 0, cc - 1)),
                forall|rr: int, ccc: int|
                    0 <= rr < r && 0 <= ccc < width ==> data@[pidx(wi, rr, ccc)] == wrap_u32(
                        #[trigger] prefix(v, wi, rr, ccc),
                    ),
                forall|j: int|
                    0 <= j < cc ==> data@[#[trigger] pidx(wi, r as int, j)] == wrap_u32(
                        prefix(v, wi, r as int, j),
                    ),
                forall|j: int| r * width + cc <= j < len ==> data@[j] == old(data)@[j],
            decreases width - cc,
        {
            proof {
                lemma_pidx_bounds(wi, hi, r as int, cc as int);
                lemma_pidx_bounds(wi, hi, r - 1, cc as int);
                assert(r * width + cc == pidx(wi, r as int, cc as int));
                assert((r - 1) * width + cc == pidx(wi, r - 1, cc as int));
                assert(r * width + cc < len);
                assert(data@[pidx(wi, r as int, cc as int)] == old(data)@[pidx(
                    wi,
                    r as int,
                    cc as int,
                )]);
                assert(v[pidx(wi, r as int, cc as int)] == old(data)@[pidx(
                    wi,
                    r as int,
                    cc as int,
                )] as int);
                assert(seg(v, wi, r as int, 0, cc as int) == seg(v, wi, r as int, 0, cc - 1)
                    + v[pidx(wi, r as int, cc as int)]);
                lemma_wrap_u32_id(v[pidx(wi, r as int, cc as int)]);
                lemma_wrap_u32_add(
                    seg(v, wi, r as int, 0, cc - 1),
                    v[pidx(wi, r as int, cc as int)],
                );
                assert(data@[pidx(wi, r - 1, cc as int)] == wrap_u32(
                    prefix(v, wi, r - 1, cc as int),
                ));
                assert(prefix(v, wi, r as int, cc as int) == region(v, wi, 0, 0, cc as int, r - 1)
                    + seg(v, wi, r as int, 0, cc as int));
                lemma_wrap_u32_add(
                    prefix(v, wi, r - 1, cc as int),
                    seg(v, wi, r as int, 0, cc as int),
                );
            }
            let idx = r * width + cc;
            let cur = data[idx];
            s = s.wrapping_add(cur);
            let above = data[(r - 1) * width + cc];
            data[idx] = above.wrapping_add(s);
            proof {
                assert forall|rr: int, ccc: int| 0 <= rr < r && 0 <= ccc < width implies data@[pidx(
                    wi,
                    rr,
                    ccc,
                )] == wrap_u32(#[trigger] prefix(v, wi, rr, ccc)) by {
                    lemma_pidx_bounds(wi, hi, rr, ccc);
                    assert(rr * wi + ccc != r * wi + cc) by (nonlinear_arith)
                        requires
                            0 <= ccc < wi,
                            0 <= cc < wi,
                            0 <= rr < r,
                    ;
                }
            }
            cc += 1;
        }
        r += 1;
        proof {
            assert(r * width == (r - 1) * width + width) by (nonlinear_arith);
        }
    }
}


/// The block sum of the 3x3 rectangle whose top-left corner is `(x, y)`,
/// modulo 2^32.
pub open spec fn lab_rect(img: Seq<u8>, w: int, x: int, y: int) -> i32 {
    wrap_i32(region(intensity_plane(img), w, x, y, x + 2, y + 2))
}

/// The LAB byte at cell `(x, y)`: the center block (one block right and
/// down) is compared against its eight neighbours; a neighbour's bit is
/// set when the center sum is at least the neighbour's sum.
pub open spec fn lab_code(img: Seq<u8>, w: int, x: int, y: int) -> u8 {
    let center = lab_rect(img, w, x + 3, y + 3);
    ((if center >= lab_rect(img, w, x, y) {
        0x80int
    } else {
        0
    }) + (if center >= lab_rect(img, w, x + 3, y) {
        0x40int
    } else {
        0
    }) + (if center >= lab_rect(img, w, x + 6, y) {
        0x20int
    } else {
        0
    }) + (if center >= lab_rect(img, w, x, y + 3) {
        0x10int
    } else {
        0
    }) + (if center >= lab_rect(img, w, x + 6, y + 3) {
        0x08int
    } else {
        0
    }) + (if center >= lab_rect(img, w, x, y + 6) {
        0x04int
    } else {
        0
    }) + (if center >= lab_rect(img, w, x + 3, y + 6) {
        0x02int
    } else {
        0
    }) + (if center >= lab_rect(img, w, x + 6, y + 6) {
        0x01int
    } else {
        0
    })) as u8
}

/// Fill the block-sum plane: cell `(r, c)` receives the sum of the 3x3
/// pixel rectangle with top-left corner `(c, r)`, read off the integral
/// image by four-corner differences.
#[verifier::loop_isolation(false)]
fn fill_rect_sum(
    rect_sum: &mut Vec<i32>,
    int_img: &Vec<i32>,
    width: usize,
    height: usize,
    Ghost(img): Ghost<Seq<u8>>,
)
    requires
        img.len() == width * height,
        3 <= width,
        3 <= height,
        old(rect_sum)@.len() == width * height,
        int_img@.len() == width * height,
        forall|r: int, c: int|
            0 <= r < height && 0 <= c < width ==> int_img@[#[trigger] pidx(width as int, r, c)]
                == wrap_i32(prefix(intensity_plane(img), width as int, r, c)),
    ensures
        final(rect_sum)@.len() == width * height,
        forall|r: int, c: int|
            0 <= r < height - 2 && 0 <= c < width - 2 ==> final(rect_sum)@[#[trigger] pidx(
                width as int,
                r,
                c,
            )] == wrap_i32(region(intensity_plane(img), width as int, c, r, c + 2, r + 2)),
{
    let ghost wi = width as int;
    let ghost hi = height as int;
    let ghost v = intensity_plane(img);
    let ghost len = (width * height) as int;
    let rs_len = rect_sum.len();
    proof {
        lemma_pidx_distinct(wi);
        assert(rs_len == len);
    }
    let mut r: usize = 0;
    while r < height - 2
        invariant
            0 <= r <= height - 2,
            rect_sum@.len() == len,
            forall|rr: int, cc: int|
                0 <= rr < r && 0 <= cc < width - 2 ==> rect_sum@[#[trigger] pidx(wi, rr, cc)]
                    == wrap_i32(region(v, wi, cc, rr, cc + 2, rr + 2)),
        decreases height - 2 - r,
    {
        let mut c: usize = 0;
        while c < width - 2
            invariant
                0 <= c <= width - 2,
                r < height - 2,
                rect_sum@.len() == len,
                forall|rr: int, cc: int|
                    0 <= rr < r && 0 <= cc < width - 2 ==> rect_sum@[#[trigger] pidx(wi, rr, cc)]
                        == wrap_i32(region(v, wi, cc, rr, cc + 2, rr + 2)),
                forall|cc: int|
                    0 <= cc < c ==> rect_sum@[#[trigger] pidx(wi, r as int, cc)] == wrap_i32(
                        region(v, wi, cc, r as int, cc + 2, r as int + 2),
                    ),
            decreases width - 2 - c,
        {
            proof {
                lemma_pidx_bounds(wi, hi, r as int, c as int);
                lemma_pidx_bounds(wi, hi, r + 2, c + 2);
                assert((r + 2) * width + (c + 2) == pidx(wi, r + 2, c + 2));
                lemma_region_corners(v, wi, c as int, r as int, c + 2, r + 2);
            }
            let ghost p_br = prefix(v, wi, r + 2, c + 2);
            let ghost p_tr: int = if r > 0 {
                prefix(v, wi, r - 1, c + 2)
            } else {
                0
            };
            let ghost p_bl: int = if c > 0 {
                prefix(v, wi, r + 2, c - 1)
            } else {
                0
            };
            let ghost p_tl: int = if r > 0 && c > 0 {
                prefix(v, wi, r - 1, c - 1)
            } else {
                0
            };
            let br = int_img[(r + 2) * width + (c + 2)];
            let tr = if r > 0 {
                proof {
                    lemma_pidx_bounds(wi, hi, r - 1, c + 2);
                    assert((r - 1) * width + (c + 2) == pidx(wi, r - 1, c + 2));
                }
                int_img[(r - 1) * width + (c + 2)]
            } else {
                0
            };
            let bl = if c > 0 {
                proof {
                    lemma_pidx_bounds(wi, hi, r + 2, c - 1);
                    assert((r + 2) * width + (c - 1) == pidx(wi, r + 2, c - 1));
                }
                int_img[(r + 2) * width + (c - 1)]
            } else {
                0
            };
            let tl = if r > 0 && c > 0 {
                proof {
                    lemma_pidx_bounds(wi, hi, r - 1, c - 1);
                    assert((r - 1) * width + (c - 1) == pidx(wi, r - 1, c - 1));
                }
                int_img[(r - 1) * width + (c - 1)]
            } else {
                0
            };
            proof {
                lemma_wrap_i32_id(0);
                assert(br == wrap_i32(p_br));
                assert(tr == wrap_i32(p_tr));
                assert(bl == wrap_i32(p_bl));
                assert(tl == wrap_i32(p_tl));
                lemma_wrap_i32_sub(p_br, p_tr);
                lemma_wrap_i32_sub(p_br - p_tr, p_bl);
                lemma_wrap_i32_add(p_br - p_tr - p_bl, p_tl);
                assert(region(v, wi, c as int, r as int, c + 2, r + 2) == p_br - p_tr - p_bl
                    + p_tl);
            }
            let val = br.wrapping_sub(tr).wrapping_sub(bl).wrapping_add(tl);
            let idx = r * width + c;
            rect_sum[idx] = val;
            proof {
                assert(rect_sum@[pidx(wi, r as int, c as int)] == wrap_i32(
                    region(v, wi, c as int, r as int, c + 2, r + 2),
                ));
                assert forall|rr: int, cc: int|
                    0 <= rr < r && 0 <= cc < width - 2 implies rect_sum@[#[trigger] pidx(
                    wi,
                    rr,
                    cc,
                )] == wrap_i32(region(v, wi, cc, rr, cc + 2, rr + 2)) by {
                    lemma_pidx_bounds(wi, hi, rr, cc);
                }
                assert forall|cc: int| 0 <= cc < c implies rect_sum@[#[trigger] pidx(
                    wi,
                    r as int,
                    cc,
                )] == wrap_i32(region(v, wi, cc, r as int, cc + 2, r as int + 2)) by {
                    lemma_pidx_bounds(wi, hi, r as int, cc);
                }
            }
            c += 1;
        }
        r += 1;
    }
}

/// Fill the LAB byte plane: every cell where a 9x9 pixel arrangement of
/// nine blocks fits receives its comparison code; every other cell is
/// zero.
#[verifier::loop_isolation(false)]
fn fill_feature_map(
    feat_map: &mut Vec<u8>,
    rect_sum: &Vec<i32>,
    width: usize,
    height: usize,
    Ghost(img): Ghost<Seq<u8>>,
)
    requires
        img.len() == width * height,
        9 <= width,
        9 <= height,
        old(feat_map)@.len() == width * height,
        rect_sum@.len() == width * height,
        forall|r: int, c: int|
            0 <= r < height - 2 && 0 <= c < width - 2 ==> rect_sum@[#[trigger] pidx(
                width as int,
                r,
                c,
            )] == wrap_i32(region(intensity_plane(img), width as int, c, r, c + 2, r + 2)),
    ensures
        final(feat_map)@.len() == width * height,
        forall|r: int, c: int|
            0 <= r < height && 0 <= c < width ==> final(feat_map)@[#[trigger] pidx(
                width as int,
                r,
                c,
            )] == (if r < height - 8 && c < width - 8 {
                lab_code(img, width as int, c, r)
            } else {
                0u8
            }),
{
    let ghost wi = width as int;
    let ghost hi = height as int;
    let ghost v = intensity_plane(img);
    let ghost len = (width * height) as int;
    let fm_len = feat_map.len();
    proof {
        lemma_pidx_distinct(wi);
        assert(fm_len == len);
    }
    let mut i: usize = 0;
    while i < fm_len
        invariant
            0 <= i <= len,
            feat_map@.len() == len,
            forall|j: int| 0 <= j < i ==> feat_map@[j] == 0u8,
        decreases len - i,
    {
        feat_map[i] = 0;
        i += 1;
    }
    proof {
        assert forall|rr: int, cc: int| 0 <= rr < hi && 0 <= cc < wi implies feat_map@[
            #[trigger] pidx(wi, rr, cc)
        ] == 0u8 by {
            lemma_pidx_bounds(wi, hi, rr, cc);
        }
    }

    let mut r: usize = 0;
    while r < height - 8
        invariant
            0 <= r <= height - 8,
            feat_map@.len() == len,
            forall|rr: int, cc: int|
                0 <= rr < hi && 0 <= cc < wi ==> feat_map@[#[trigger] pidx(wi, rr, cc)] == (
                if rr < r && rr < hi - 8 && cc < wi - 8 {
                    lab_code(img, wi, cc, rr)
                } else {
                    0u8
                }),
        decreases height - 8 - r,
    {
        let mut c: usize = 0;
        while c < width - 8
            invariant
                0 <= c <= width - 8,
                r < height - 8,
                feat_map@.len() == len,
                forall|rr: int, cc: int|
                    0 <= rr < hi && 0 <= cc < wi ==> feat_map@[#[trigger] pidx(wi, rr, cc)] == (
                    if (rr < r || (rr == r && cc < c)) && rr < hi - 8 && cc < wi - 8 {
                        lab_code(img, wi, cc, rr)
                    } else {
                        0u8
                    }),
            decreases width - 8 - c,
        {
            proof {
                lemma_pidx_bounds(wi, hi, r as int, c as int);
                lemma_pidx_bounds(wi, hi, r + 3, c + 3);
                lemma_pidx_bounds(wi, hi, r as int, c + 3);
                lemma_pidx_bounds(wi, hi, r as int, c + 6);
                lemma_pidx_bounds(wi, hi, r + 3, c as int);
                lemma_pidx_bounds(wi, hi, r + 3, c + 6);
                lemma_pidx_bounds(wi, hi, r + 6, c as int);
                lemma_pidx_bounds(wi, hi, r + 6, c + 3);
                lemma_pidx_bounds(wi, hi, r + 6, c + 6);
                assert((r + 3) * width + (c + 3) == pidx(wi, r + 3, c + 3));
                assert(r * width + c == pidx(wi, r as int, c as int));
                assert(r * width + (c + 3) == pidx(wi, r as int, c + 3));
                assert(r * width + (c + 6) == pidx(wi, r as int, c + 6));
                assert((r + 3) * width + c == pidx(wi, r + 3, c as int));
                assert((r + 3) * width + (c + 6) == pidx(wi, r + 3, c + 6));
                assert((r + 6) * width + c == pidx(wi, r + 6, c as int));
                assert((r + 6) * width + (c + 3) == pidx(wi, r + 6, c + 3));
                assert((r + 6) * width + (c + 6) == pidx(wi, r + 6, c + 6));
            }
            let center = rect_sum[(r + 3) * width + (c + 3)];
            let mut code: u8 = 0;
            if center >= rect_sum[r * width + c] {
                code += 0x80;
            }
            if center >= rect_sum[r * width + (c + 3)] {
                code += 0x40;
            }
            if center >= rect_sum[r * width + (c + 6)] {
                code += 0x20;
            }
            if center >= rect_sum[(r + 3) * width + c] {
                code += 0x10;
            }
            if center >= rect_sum[(r + 3) * width + (c + 6)] {
                code += 0x08;
            }
            if center >= rect_sum[(r + 6) * width + c] {
                code += 0x04;
            }
            if center >= rect_sum[(r + 6) * width + (c + 3)] {
                code += 0x02;
            }
            if center >= rect_sum[(r + 6) * width + (c + 6)] {
                code += 0x01;
            }
            proof {
                assert(code == lab_code(img, wi, c as int, r as int));
            }
            let idx = r * width + c;
            feat_map[idx] = code;
            proof {
                assert forall|rr: int, cc: int|
                    0 <= rr < hi && 0 <= cc < wi implies feat_map@[#[trigger] pidx(wi, rr, cc)]
                    == (if (rr < r || (rr == r && cc < c + 1)) && rr < hi - 8 && cc < wi - 8 {
                    lab_code(img, wi, cc, rr)
                } else {
                    0u8
                }) by {
                    lemma_pidx_bounds(wi, hi, rr, cc);
                }
            }
            c += 1;
        }
        r += 1;
    }
}

/// The LAB feature map. `compute` digests one grayscale view; the query
/// methods then read single cells of the byte plane and ROI statistics
/// off the integral images. The `src` field records, for specification
/// purposes only, the pixels the planes were computed from.
pub struct LabBoostedFeatureMap {
    pub width: u32,
    pub height: u32,
    pub length: usize,
    pub feat_map: Vec<u8>,
    pub rect_sum: Vec<i32>,
    pub int_img: Vec<i32>,
    pub square_int_img: Vec<u32>,
    pub rect_width: u32,
    pub rect_height: u32,
    pub num_rect: u32,
    pub src: Ghost<Seq<u8>>,
}

impl LabBoostedFeatureMap {
    /// The fixed 3x3-blocks-of-3x3-pixels geometry.
    pub open spec fn geometry_ok(&self) -> bool {
        self.rect_width == 3 && self.rect_height == 3 && self.num_rect == 3
    }

    /// All planes hold the digests of the `src` pixels at the current
    /// dimensions.
    pub open spec fn computed(&self) -> bool {
        let wi = self.width as int;
        let hi = self.height as int;
        let img = self.src@;
        &&& self.geometry_ok()
        &&& 9 <= wi && 9 <= hi
        &&& img.len() == wi * hi
        &&& self.length == wi * hi
        &&& self.feat_map@.len() == wi * hi
        &&& self.rect_sum@.len() == wi * hi
        &&& self.int_img@.len() == wi * hi
        &&& self.square_int_img@.len() == wi * hi
        &&& forall|r: int, c: int|
            0 <= r < hi && 0 <= c < wi ==> self.int_img@[#[trigger] pidx(wi, r, c)] == wrap_i32(
                prefix(intensity_plane(img), wi, r, c),
            )
        &&& forall|r: int, c: int|
            0 <= r < hi && 0 <= c < wi ==> self.square_int_img@[#[trigger] pidx(wi, r, c)]
                == wrap_u32(prefix(square_plane(img), wi, r, c))
        &&& forall|r: int, c: int|
            0 <= r < hi - 2 && 0 <= c < wi - 2 ==> self.rect_sum@[#[trigger] pidx(wi, r, c)]
                == wrap_i32(region(intensity_plane(img), wi, c, r, c + 2, r + 2))
        &&& forall|r: int, c: int|
            0 <= r < hi && 0 <= c < wi ==> self.feat_map@[#[trigger] pidx(wi, r, c)] == (if r < hi
                - 8 && c < wi - 8 {
                lab_code(img, wi, c, r)
            } else {
                0u8
            })
    }

    pub fn new() -> (r: Self)
        ensures
            r.geometry_ok(),
            r.width == 0,
            r.height == 0,
    {
        LabBoostedFeatureMap {
            width: 0,
            height: 0,
            length: 0,
            feat_map: Vec::new(),
            rect_sum: Vec::new(),
            int_img: Vec::new(),
            square_int_img: Vec::new(),
            rect_width: 3,
            rect_height: 3,
            num_rect: 3,
            src: Ghost(Seq::empty()),
        }
    }

    /// Digest one grayscale view: build both integral images, the block
    /// sums and the LAB byte plane.
    fn compute_map(&mut self, image: &ImageData<'_>)
        requires
            old(self).geometry_ok(),
            image.valid(),
            9 <= image.width,
            9 <= image.height,
        ensures
            final(self).computed(),
            final(self).src@ == image.data@,
            final(self).width == image.width,
            final(self).height == image.height,
    {
        let input = image.data();
        let w = image.width();
        let h = image.height();
        let len = input.len();
        let wu = w as usize;
        let hu = h as usize;
        proof {
            assert(len == wu * hu);
        }
        self.width = w;
        self.height = h;
        self.length = len;
        self.src = Ghost(input@);

        self.feat_map.resize(len, 0);
        self.rect_sum.resize(len, 0);
        self.int_img.resize(len, 0);
        self.square_int_img.resize(len, 0);

        math::copy_u8_to_i32(input, &mut self.int_img);
        math::square(self.int_img.as_slice(), &mut self.square_int_img);
        let ghost ip = i32_plane(self.int_img@);
        let ghost sp = u32_plane(self.square_int_img@);
        proof {
            assert(ip =~= intensity_plane(input@));
            assert forall|i: int| 0 <= i < len implies sp[i] == square_plane(input@)[i] by {
                assert(self.int_img@[i] == input@[i] as i32);
                assert(input@[i] * input@[i] < 0x1_0000_0000) by (nonlinear_arith)
                    requires
                        0 <= input@[i] < 256,
                ;
                lemma_wrap_u32_id(input@[i] * input@[i]);
            }
            assert(sp =~= square_plane(input@));
        }
        compute_integral_i32(&mut self.int_img, wu, hu);
        compute_integral_u32(&mut self.square_int_img, wu, hu);
        fill_rect_sum(&mut self.rect_sum, &self.int_img, wu, hu, Ghost(input@));
        fill_feature_map(&mut self.feat_map, &self.rect_sum, wu, hu, Ghost(input@));
        proof {
            let wi = self.width as int;
            let hi = self.height as int;
            let img = self.src@;
            assert forall|r: int, c: int|
                0 <= r < hi && 0 <= c < wi implies self.int_img@[#[trigger] pidx(wi, r, c)]
                == wrap_i32(prefix(intensity_plane(img), wi, r, c)) by {
                assert(self.int_img@[pidx(wi, r, c)] == wrap_i32(prefix(ip, wi, r, c)));
            }
            assert forall|r: int, c: int|
                0 <= r < hi && 0 <= c < wi implies self.square_int_img@[#[trigger] pidx(wi, r, c)]
                == wrap_u32(prefix(square_plane(img), wi, r, c)) by {
                assert(self.square_int_img@[pidx(wi, r, c)] == wrap_u32(prefix(sp, wi, r, c)));
            }
        }
    }

    /// Read the LAB byte at the probe site `(roi.x + offset_x,
    /// roi.y + offset_y)`.
    pub fn get_feature_val(&self, offset_x: i32, offset_y: i32, roi: Rectangle) -> (r: u8)
        requires
            self.computed(),
            self.width * self.height <= i32::MAX,
            0 <= roi.x + offset_x < self.width,
            0 <= roi.y + offset_y < self.height,
        ensures
            r == self.feat_map@[pidx(self.width as int, roi.y + offset_y, roi.x + offset_x)],
    {
        let ghost wi = self.width as int;
        let ghost hi = self.height as int;
        proof {
            assert(wi <= 0x7fff_ffff && hi <= 0x7fff_ffff) by (nonlinear_arith)
                requires
                    9 <= wi,
                    9 <= hi,
                    wi * hi <= 0x7fff_ffff,
            ;
        }
        let row = roi.y + offset_y;
        let col = roi.x + offset_x;
        proof {
            lemma_pidx_bounds(wi, hi, row as int, col as int);
            lemma_mul_nonneg(row as int, wi);
            assert(row * wi + col == pidx(wi, row as int, col as int));
        }
        let i = row * (self.width as i32) + col;
        self.feat_map[i as usize]
    }

    /// The two integral-image readings over an ROI: the sum of its
    /// pixels and the sum of their squares, each modulo 2^32. The
    /// standard deviation of the ROI is derived from these two values.
    pub fn get_roi_sums(&self, roi: Rectangle) -> (r: (i32, u32))
        requires
            self.computed(),
            self.width * self.height <= i32::MAX,
            0 <= roi.x,
            0 <= roi.y,
            1 <= roi.width,
            1 <= roi.height,
            roi.x + roi.width <= self.width,
            roi.y + roi.height <= self.height,
        ensures
            r.0 == wrap_i32(
                region(
                    intensity_plane(self.src@),
                    self.width as int,
                    roi.x as int,
                    roi.y as int,
                    roi.x + roi.width - 1,
                    roi.y + roi.height - 1,
                ),
            ),
            r.1 == wrap_u32(
                region(
                    square_plane(self.src@),
                    self.width as int,
                    roi.x as int,
                    roi.y as int,
                    roi.x + roi.width - 1,
                    roi.y + roi.height - 1,
                ),
            ),
    {
        let ghost wi = self.width as int;
        let ghost hi = self.height as int;
        let ghost iv = intensity_plane(self.src@);
        let ghost sv = square_plane(self.src@);
        let ghost x0 = roi.x as int;
        let ghost y0 = roi.y as int;
        let ghost x1 = roi.x + roi.width - 1;
        let ghost y1 = roi.y + roi.height - 1;
        proof {
            assert(wi <= 0x7fff_ffff && hi <= 0x7fff_ffff) by (nonlinear_arith)
                requires
                    9 <= wi,
                    9 <= hi,
                    wi * hi <= 0x7fff_ffff,
            ;
        }
        let w = self.width as i32;
        let bottom = roi.y + roi.height as i32 - 1;
        let right = roi.x + roi.width as i32 - 1;
        proof {
            lemma_pidx_bounds(wi, hi, y1, x1);
            lemma_region_corners(iv, wi, x0, y0, x1, y1);
            lemma_region_corners(sv, wi, x0, y0, x1, y1);
            lemma_mul_nonneg(y1, wi);
            assert(bottom * w + right == pidx(wi, y1, x1));
        }
        let ghost p_br_i = prefix(iv, wi, y1, x1);
        let ghost p_tr_i: int = if y0 > 0 { prefix(iv, wi, y0 - 1, x1) } else { 0 };
        let ghost p_bl_i: int = if x0 > 0 { prefix(iv, wi, y1, x0 - 1) } else { 0 };
        let ghost p_tl_i: int = if x0 > 0 && y0 > 0 { prefix(iv, wi, y0 - 1, x0 - 1) } else { 0 };
        let ghost p_br_s = prefix(sv, wi, y1, x1);
        let ghost p_tr_s: int = if y0 > 0 { prefix(sv, wi, y0 - 1, x1) } else { 0 };
        let ghost p_bl_s: int = if x0 > 0 { prefix(sv, wi, y1, x0 - 1) } else { 0 };
        let ghost p_tl_s: int = if x0 > 0 && y0 > 0 { prefix(sv, wi, y0 - 1, x0 - 1) } else { 0 };

        let br_i = self.int_img[(bottom * w + right) as usize];
        let br_s = self.square_int_img[(bottom * w + right) as usize];
        let mut tr_i: i32 = 0;
        let mut tr_s: u32 = 0;
        if roi.y > 0 {
            proof {
                lemma_pidx_bounds(wi, hi, y0 - 1, x1);
                lemma_mul_nonneg(y0 - 1, wi);
                assert((roi.y - 1) * w + right == pidx(wi, y0 - 1, x1));
            }
            tr_i = self.int_img[((roi.y - 1) * w + right) as usize];
            tr_s = self.square_int_img[((roi.y - 1) * w + right) as usize];
        }
        let mut bl_i: i32 = 0;
        let mut bl_s: u32 = 0;
        if roi.x > 0 {
            proof {
                lemma_pidx_bounds(wi, hi, y1, x0 - 1);
                lemma_mul_nonneg(y1, wi);
                assert(bottom * w + (roi.x - 1) == pidx(wi, y1, x0 - 1));
            }
            bl_i = self.int_img[(bottom * w + (roi.x - 1)) as usize];
            bl_s = self.square_int_img[(bottom * w + (roi.x - 1)) as usize];
        }
        let mut tl_i: i32 = 0;
        let mut tl_s: u32 = 0;
        if roi.x > 0 && roi.y > 0 {
            proof {
                lemma_pidx_bounds(wi, hi, y0 - 1, x0 - 1);
                lemma_mul_nonneg(y0 - 1, wi);
                assert((roi.y - 1) * w + (roi.x - 1) == pidx(wi, y0 - 1, x0 - 1));
            }
            tl_i = self.int_img[((roi.y - 1) * w + (roi.x - 1)) as usize];
            tl_s = self.square_int_img[((roi.y - 1) * w + (roi.x - 1)) as usize];
        }
        proof {
            lemma_wrap_i32_id(0);
            lemma_wrap_u32_id(0);
            lemma_wrap_i32_sub(p_br_i, p_tr_i);
            lemma_wrap_i32_sub(p_br_i - p_tr_i, p_bl_i);
            lemma_wrap_i32_add(p_br_i - p_tr_i - p_bl_i, p_tl_i);
            lemma_wrap_u32_sub(p_br_s, p_tr_s);
            lemma_wrap_u32_sub(p_br_s - p_tr_s, p_bl_s);
            lemma_wrap_u32_add(p_br_s - p_tr_s - p_bl_s, p_tl_s);
        }
        let sum = br_i.wrapping_sub(tr_i).wrapping_sub(bl_i).wrapping_add(tl_i);
        let sq_sum = br_s.wrapping_sub(tr_s).wrapping_sub(bl_s).wrapping_add(tl_s);
        (sum, sq_sum)
    }
}


impl crate::feat::FeatureMap for LabBoostedFeatureMap {
    /// The LAB map accepts any valid view in which the nine-block
    /// arrangement fits at least once.
    open spec fn accepts(&self, image: &ImageData<'_>) -> bool {
        &&& self.geometry_ok()
        &&& image.valid()
        &&& 9 <= image.width
        &&& 9 <= image.height
    }

    /// Digesting leaves the planes computed from exactly the view's
    /// pixels at the view's dimensions.
    open spec fn digested(pre: &Self, post: &Self, image: &ImageData<'_>) -> bool {
        &&& post.computed()
        &&& post.src@ == image.data@
        &&& post.width == image.width
        &&& post.height == image.height
    }

    fn compute(&mut self, image: &ImageData<'_>) {
        self.compute_map(image);
    }
}


/// Law: a rectangle sum read off an integral image equals the direct sum
/// of the plane's entries, whenever per-entry bounds keep that sum inside
/// the i32 range. Together with the contracts of `get_roi_sums` and the
/// block-sum plane, every four-corner integral reading of a plane of
/// bounded entries round-trips to the direct double sum.
pub proof fn lemma_region_sum_exact(
    v: Seq<int>,
    w: int,
    h: int,
    x0: int,
    y0: int,
    x1: int,
    y1: int,
    hi: int,
)
    requires
        v.len() == w * h,
        0 <= x0 <= x1 < w,
        0 <= y0 <= y1 < h,
        0 <= hi,
        forall|i: int| 0 <= i < v.len() ==> 0 <= #[trigger] v[i] <= hi,
        (y1 - y0 + 1) * ((x1 - x0 + 1) * hi) <= i32::MAX,
    ensures
        wrap_i32(region(v, w, x0, y0, x1, y1)) == region(v, w, x0, y0, x1, y1),
        0 <= region(v, w, x0, y0, x1, y1) <= (y1 - y0 + 1) * ((x1 - x0 + 1) * hi),
{
    lemma_region_bounds(v, w, h, x0, y0, x1, y1, 0, hi);
    assert((y1 - y0 + 1) * ((x1 - x0 + 1) * 0) == 0) by (nonlinear_arith);
    crate::arith::lemma_wrap_i32_id(region(v, w, x0, y0, x1, y1));
}

/// The intensity plane of an image is bounded by the byte range, so any
/// ROI of up to eight million pixels reads back exactly.
pub proof fn lemma_intensity_roi_exact(img: Seq<u8>, w: int, h: int, x0: int, y0: int, x1: int, y1: int)
    requires
        img.len() == w * h,
        0 <= x0 <= x1 < w,
        0 <= y0 <= y1 < h,
        (y1 - y0 + 1) * ((x1 - x0 + 1) * 255) <= i32::MAX,
    ensures
        wrap_i32(region(intensity_plane(img), w, x0, y0, x1, y1)) == region(
            intensity_plane(img),
            w,
            x0,
            y0,
            x1,
            y1,
        ),
        0 <= region(intensity_plane(img), w, x0, y0, x1, y1),
{
    assert forall|i: int| 0 <= i < intensity_plane(img).len() implies 0 <= #[trigger] intensity_plane(
        img,
    )[i] <= 255 by {}
    lemma_region_sum_exact(intensity_plane(img), w, h, x0, y0, x1, y1, 255);
}

} // verus!
