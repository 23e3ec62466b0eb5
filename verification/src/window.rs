//! Window geometry for the cascade driver: cropping a candidate window
//! out of the full image with zero padding, and the rectangle
//! intersection used by non-maximum suppression.

use crate::common::{ImageData, Rectangle};
use crate::plane::{lemma_mul_nonneg, lemma_pidx_bounds, lemma_pidx_distinct, pidx};
use vstd::prelude::*;

verus! {

/// The pixel the cropped window shows at `(c, r)`: the image pixel under
/// the window's original position, or zero where the window leaves the
/// image.
pub open spec fn padded_pixel(
    img: Seq<u8>,
    img_w: int,
    img_h: int,
    wnd_x: int,
    wnd_y: int,
    c: int,
    r: int,
) -> u8 {
    if 0 <= wnd_y + r < img_h && 0 <= wnd_x + c < img_w {
        img[pidx(img_w, wnd_y + r, wnd_x + c)]
    } else {
        0
    }
}

/// Copy the window `roi` out of the image into `out`, padding with
/// zeroes where the window extends outside; afterwards the window's
/// origin is clamped to the image origin, as the cascade driver expects.
#[verifier::loop_isolation(false)]
pub fn get_window_data(img: &ImageData<'_>, roi: &mut Rectangle, out: &mut Vec<u8>)
    requires
        img.valid(),
        1 <= img.width,
        1 <= img.height,
        1 <= old(roi).width,
        1 <= old(roi).height,
        old(roi).width * old(roi).height <= usize::MAX,
        old(roi).width <= i32::MAX,
        old(roi).height <= i32::MAX,
        old(roi).x + old(roi).width > 0,
        old(roi).y + old(roi).height > 0,
        old(roi).x + old(roi).width <= i32::MAX,
        old(roi).y + old(roi).height <= i32::MAX,
        old(roi).x <= img.width,
        old(roi).y <= img.height,
        img.width * img.height <= i32::MAX,
    ensures
        final(roi).x == (if old(roi).x >= 0 {
            old(roi).x as int
        } else {
            0
        }),
        final(roi).y == (if old(roi).y >= 0 {
            old(roi).y as int
        } else {
            0
        }),
        final(roi).width == old(roi).width,
        final(roi).height == old(roi).height,
        final(out)@.len() == old(roi).width * old(roi).height,
        forall|r: int, c: int|
            0 <= r < old(roi).height && 0 <= c < old(roi).width ==> final(out)@[#[trigger] pidx(
                old(roi).width as int,
                r,
                c,
            )] == padded_pixel(
                img.data@,
                img.width as int,
                img.height as int,
                old(roi).x as int,
                old(roi).y as int,
                c,
                r,
            ),
{
    let ghost iw = img.width as int;
    let ghost ih = img.height as int;
    let wnd_x = roi.x;
    let wnd_y = roi.y;
    let rw = roi.width as usize;
    let rh = roi.height as usize;
    let ghost rwi = rw as int;
    let ghost rhi = rh as int;
    proof {
        lemma_pidx_distinct(rwi);
        assert(ih <= 0x7fff_ffff && iw <= 0x7fff_ffff) by (nonlinear_arith)
            requires
                1 <= iw,
                1 <= ih,
                iw * ih <= 0x7fff_ffff,
        ;
    }

    if roi.x < 0 {
        roi.set_x(0);
    }
    if roi.y < 0 {
        roi.set_y(0);
    }

    out.clear();
    let mut r: usize = 0;
    while r < rh
        invariant
            r <= rh,
            out@.len() == r * rw,
            forall|rr: int, cc: int|
                0 <= rr < r && 0 <= cc < rwi ==> out@[#[trigger] pidx(rwi, rr, cc)]
                    == padded_pixel(img.data@, iw, ih, wnd_x as int, wnd_y as int, cc, rr),
        decreases rh - r,
    {
        let mut c: usize = 0;
        while c < rw
            invariant
                r < rh,
                c <= rw,
                out@.len() == r * rw + c,
                forall|rr: int, cc: int|
                    0 <= rr < r && 0 <= cc < rwi ==> out@[#[trigger] pidx(rwi, rr, cc)]
                        == padded_pixel(img.data@, iw, ih, wnd_x as int, wnd_y as int, cc, rr),
                forall|cc: int|
                    0 <= cc < c ==> out@[#[trigger] pidx(rwi, r as int, cc)] == padded_pixel(
                        img.data@,
                        iw,
                        ih,
                        wnd_x as int,
                        wnd_y as int,
                        cc,
                        r as int,
                    ),
            decreases rw - c,
        {
            proof {
                lemma_pidx_bounds(rwi, rhi, r as int, c as int);
            }
            let sy = wnd_y + r as i32;
            let sx = wnd_x + c as i32;
            let v: u8 = if 0 <= sy && sy < img.height as i32 && 0 <= sx && sx < img.width as i32 {
                proof {
                    lemma_pidx_bounds(iw, ih, sy as int, sx as int);
                    lemma_mul_nonneg(sy as int, iw);
                }
                img.data[(sy * img.width as i32 + sx) as usize]
            } else {
                0
            };
            out.push(v);
            proof {
                assert(out@[pidx(rwi, r as int, c as int)] == padded_pixel(
                    img.data@,
                    iw,
                    ih,
                    wnd_x as int,
                    wnd_y as int,
                    c as int,
                    r as int,
                ));
                assert forall|rr: int, cc: int|
                    0 <= rr < r && 0 <= cc < rwi implies out@[#[trigger] pidx(rwi, rr, cc)]
                    == padded_pixel(img.data@, iw, ih, wnd_x as int, wnd_y as int, cc, rr) by {
                    lemma_pidx_bounds(rwi, rhi, rr, cc);
                    assert(rr * rwi + cc < r * rwi) by (nonlinear_arith)
                        requires
                            0 <= rr < r,
                            0 <= cc < rwi,
                    ;
                }
                assert forall|cc: int| 0 <= cc < c implies out@[#[trigger] pidx(rwi, r as int, cc)]
                    == padded_pixel(img.data@, iw, ih, wnd_x as int, wnd_y as int, cc, r as int) by {
                    lemma_pidx_bounds(rwi, rhi, r as int, cc);
                }
            }
            c += 1;
        }
        r += 1;
        proof {
            assert(r * rw == (r - 1) * rw + rw) by (nonlinear_arith);
        }
    }
    proof {
        assert(rh * rw == rw * rh) by (nonlinear_arith);
    }
}

/// A rectangle covers a point.
pub open spec fn covers(rect: Rectangle, px: int, py: int) -> bool {
    rect.x <= px < rect.x + rect.width && rect.y <= py < rect.y + rect.height
}

/// The width and height of the intersection of two boxes, computed from
/// their integer corner coordinates; non-positive values mean the boxes
/// do not overlap.
pub fn rect_intersection(a: &Rectangle, b: &Rectangle) -> (r: (i32, i32))
    requires
        1 <= a.width <= 0x4000_0000,
        1 <= a.height <= 0x4000_0000,
        1 <= b.width <= 0x4000_0000,
        1 <= b.height <= 0x4000_0000,
        -0x4000_0000 <= a.x && a.x + a.width <= 0x4000_0000,
        -0x4000_0000 <= a.y && a.y + a.height <= 0x4000_0000,
        -0x4000_0000 <= b.x && b.x + b.width <= 0x4000_0000,
        -0x4000_0000 <= b.y && b.y + b.height <= 0x4000_0000,
    ensures
        r.0 == (if a.x + a.width - 1 <= b.x + b.width - 1 {
            a.x + a.width - 1
        } else {
            b.x + b.width - 1
        }) - (if a.x >= b.x {
            a.x as int
        } else {
            b.x as int
        }) + 1,
        r.1 == (if a.y + a.height - 1 <= b.y + b.height - 1 {
            a.y + a.height - 1
        } else {
            b.y + b.height - 1
        }) - (if a.y >= b.y {
            a.y as int
        } else {
            b.y as int
        }) + 1,
        (r.0 >= 1 && r.1 >= 1) <==> (exists|px: int, py: int|
            #[trigger] covers(*a, px, py) && covers(*b, px, py)),
{
    let x = if a.x >= b.x {
        a.x
    } else {
        b.x
    };
    let y = if a.y >= b.y {
        a.y
    } else {
        b.y
    };
    let ax2 = a.x + a.width as i32 - 1;
    let bx2 = b.x + b.width as i32 - 1;
    let ay2 = a.y + a.height as i32 - 1;
    let by2 = b.y + b.height as i32 - 1;
    let x2 = if ax2 <= bx2 {
        ax2
    } else {
        bx2
    };
    let y2 = if ay2 <= by2 {
        ay2
    } else {
        by2
    };
    let w = x2 - x + 1;
    let h = y2 - y + 1;
    proof {
        if w >= 1 && h >= 1 {
            assert(covers(*a, x as int, y as int) && covers(*b, x as int, y as int));
        }
    }
    (w, h)
}

} // verus!
