//! The SURF feature map: x/y gradients, an 8-channel gradient integral
//! plane, and pooled per-feature descriptor vectors over a fixed 40x40
//! sample, enumerated by the feature pool.

use crate::arith::{
    lemma_wrap_i32_add, lemma_wrap_i32_id, lemma_wrap_i32_sub, wrap_i32,
};
use crate::common::{ImageData, Rectangle};
use crate::plane::{
    lemma_mul_le_mono, lemma_mul_nonneg, lemma_pidx_bounds, lemma_pidx_distinct,
    lemma_region_corners, pidx, prefix, region,
};
use vstd::prelude::*;

verus! {

/// A patch shape: the aspect ratio of the patch in units, and its cell
/// grid.
pub struct PatchFormat {
    pub width: u32,
    pub height: u32,
    pub num_cell_per_row: u32,
    pub num_cell_per_col: u32,
}

/// One pooled feature: a patch inside the 40x40 sample and its cell
/// partition.
pub struct Feature {
    pub patch: Rectangle,
    pub num_cell_per_row: u32,
    pub num_cell_per_col: u32,
}

/// A registered patch format stays within the sample square.
pub open spec fn format_ok(f: PatchFormat) -> bool {
    &&& 1 <= f.width <= 40
    &&& 1 <= f.height <= 40
    &&& 1 <= f.num_cell_per_row <= 40
    &&& 1 <= f.num_cell_per_col <= 40
}

/// The geometric well-formedness of a pooled feature with respect to the
/// sample square.
pub open spec fn feature_ok(f: Feature, sample_width: int, sample_height: int) -> bool {
    &&& 0 <= f.patch.x
    &&& 0 <= f.patch.y
    &&& 1 <= f.num_cell_per_row
    &&& 1 <= f.num_cell_per_col
    &&& 1 <= f.patch.width
    &&& 1 <= f.patch.height
    &&& f.patch.width as int % f.num_cell_per_row as int == 0
    &&& f.patch.height as int % f.num_cell_per_col as int == 0
    &&& f.num_cell_per_row <= f.patch.width
    &&& f.num_cell_per_col <= f.patch.height
    &&& f.patch.x + f.patch.width <= sample_width
    &&& f.patch.y + f.patch.height <= sample_height
}

/// The features of one row of patch positions: `(x, y)` and every
/// position 16 to the right of it, while the patch fits the sample.
pub open spec fn grid_row(w: int, h: int, per_row: int, per_col: int, y: int, x: int) -> Seq<
    Feature,
>
    decreases 41 - x,
{
    if 16 <= w <= 40 && 16 <= h <= 40 && 0 <= x <= 40 - w && 0 <= y {
        seq![
            Feature {
                patch: Rectangle { x: x as i32, y: y as i32, width: w as u32, height: h as u32 },
                num_cell_per_row: per_row as u32,
                num_cell_per_col: per_col as u32,
            },
        ] + grid_row(w, h, per_row, per_col, y, x + 16)
    } else {
        Seq::empty()
    }
}

/// All positions of one patch size: the rows at `y`, `y + 16`, ... while
/// the patch fits, each walked left to right.
pub open spec fn grid(w: int, h: int, per_row: int, per_col: int, y: int) -> Seq<Feature>
    decreases 41 - y,
{
    if 16 <= w <= 40 && 16 <= h <= 40 && 0 <= y <= 40 - h {
        grid_row(w, h, per_row, per_col, y, 0) + grid(w, h, per_row, per_col, y + 16)
    } else {
        Seq::empty()
    }
}

/// The features a format contributes for patch heights `h..=40`: for
/// every height that its cell grid and unit shape divide, the positions
/// of the implied patch size, when that size fits the sample.
pub open spec fn format_features(f: PatchFormat, h: int) -> Seq<Feature>
    decreases 41 - h,
{
    if 16 <= h <= 40 {
        let cur: Seq<Feature> = if h % (f.num_cell_per_col as int) == 0 && h % (
        f.height as int) == 0 {
            let w = h / (f.height as int) * (f.width as int);
            if w % (f.num_cell_per_row as int) == 0 && 16 <= w <= 40 {
                grid(w, h, f.num_cell_per_row as int, f.num_cell_per_col as int, 0)
            } else {
                Seq::empty()
            }
        } else {
            Seq::empty()
        };
        cur + format_features(f, h + 1)
    } else {
        Seq::empty()
    }
}

/// The whole pool: the contributions of the formats from index `fi` on,
/// in registration order.
pub open spec fn pool_features(formats: Seq<PatchFormat>, fi: int) -> Seq<Feature>
    decreases formats.len() - fi,
{
    if 0 <= fi < formats.len() {
        format_features(formats[fi], 16) + pool_features(formats, fi + 1)
    } else {
        Seq::empty()
    }
}

/// Enumerates all patches of the registered formats that fit in the
/// sample at the fixed move step.
pub struct FeaturePool {
    pub sample_width: u32,
    pub sample_height: u32,
    pub patch_move_step_x: u32,
    pub patch_move_step_y: u32,
    pub patch_size_inc_step: u32,
    pub patch_min_width: u32,
    pub patch_min_height: u32,
    pub features: Vec<Feature>,
    pub patch_formats: Vec<PatchFormat>,
}

impl FeaturePool {
    /// Every enumerated feature fits the sample and has a valid cell
    /// grid.
    pub open spec fn wf(&self) -> bool {
        &&& self.sample_width == 40
        &&& self.sample_height == 40
        &&& forall|i: int|
            0 <= i < self.features@.len() ==> feature_ok(#[trigger] self.features@[i], 40, 40)
        &&& forall|i: int|
            0 <= i < self.patch_formats@.len() ==> format_ok(#[trigger] self.patch_formats@[i])
    }

    pub fn new() -> (r: Self)
        ensures
            r.wf(),
            r.features@.len() == 0,
            r.patch_formats@.len() == 0,
            r.patch_min_width == 16,
            r.patch_min_height == 16,
            r.patch_size_inc_step == 1,
            r.patch_move_step_x == 16,
            r.patch_move_step_y == 16,
    {
        FeaturePool {
            sample_width: 40,
            sample_height: 40,
            patch_move_step_x: 16,
            patch_move_step_y: 16,
            patch_size_inc_step: 1,
            patch_min_width: 16,
            patch_min_height: 16,
            features: Vec::new(),
            patch_formats: Vec::new(),
        }
    }

    pub fn add_patch_format(
        &mut self,
        width: u32,
        height: u32,
        num_cell_per_row: u32,
        num_cell_per_col: u32,
    )
        requires
            1 <= width <= 40,
            1 <= height <= 40,
            1 <= num_cell_per_row <= 40,
            1 <= num_cell_per_col <= 40,
        ensures
            *final(self) == (FeaturePool {
                patch_formats: final(self).patch_formats,
                ..*old(self)
            }),
            final(self).patch_formats@ == old(self).patch_formats@.push(
                PatchFormat { width, height, num_cell_per_row, num_cell_per_col },
            ),
    {
        self.patch_formats.push(
            PatchFormat { width, height, num_cell_per_row, num_cell_per_col },
        );
    }

    /// All positions of a `width` x `height` patch with the given cell
    /// grid, at the fixed move step, in scan order.
    #[verifier::loop_isolation(false)]
    fn collect_features(
        &self,
        width: u32,
        height: u32,
        num_cell_per_row: u32,
        num_cell_per_col: u32,
        dest: &mut Vec<Feature>,
    )
        requires
            self.sample_width == 40,
            self.sample_height == 40,
            self.patch_move_step_x == 16,
            self.patch_move_step_y == 16,
            16 <= width <= 40,
            16 <= height <= 40,
            1 <= num_cell_per_row <= width,
            1 <= num_cell_per_col <= height,
            width as int % num_cell_per_row as int == 0,
            height as int % num_cell_per_col as int == 0,
            forall|i: int| 0 <= i < old(dest)@.len() ==> feature_ok(#[trigger] old(dest)@[i], 40, 40),
        ensures
            final(dest)@ == old(dest)@ + grid(
                width as int,
                height as int,
                num_cell_per_row as int,
                num_cell_per_col as int,
                0,
            ),
            forall|i: int| 0 <= i < final(dest)@.len() ==> feature_ok(#[trigger] final(dest)@[i], 40, 40),
    {
        let y_lim = self.sample_height - height;
        let x_lim = self.sample_width - width;
        let ghost wi = width as int;
        let ghost hi = height as int;
        let ghost pr = num_cell_per_row as int;
        let ghost pc = num_cell_per_col as int;
        let ghost g0 = grid(wi, hi, pr, pc, 0);
        let mut gacc: Ghost<Seq<Feature>> = Ghost(Seq::empty());
        proof {
            assert(old(dest)@ + gacc@ =~= old(dest)@);
        }

        let mut y: u32 = 0;
        while y <= y_lim
            invariant
                y <= y_lim + 16,
                y % 16 == 0,
                dest@ == old(dest)@ + gacc@,
                g0 == gacc@ + grid(wi, hi, pr, pc, y as int),
                forall|i: int| 0 <= i < dest@.len() ==> feature_ok(#[trigger] dest@[i], 40, 40),
            decreases y_lim + 16 - y,
        {
            let ghost row0 = grid_row(wi, hi, pr, pc, y as int, 0);
            proof {
                assert(grid(wi, hi, pr, pc, y as int) == row0 + grid(wi, hi, pr, pc, y as int + 16));
            }
            let mut racc: Ghost<Seq<Feature>> = Ghost(Seq::empty());
            let mut x: u32 = 0;
            while x <= x_lim
                invariant
                    y <= y_lim,
                    x <= x_lim + 16,
                    dest@ == old(dest)@ + gacc@ + racc@,
                    row0 == racc@ + grid_row(wi, hi, pr, pc, y as int, x as int),
                    forall|i: int| 0 <= i < dest@.len() ==> feature_ok(#[trigger] dest@[i], 40, 40),
                decreases x_lim + 16 - x,
            {
                let f = Feature {
                    patch: Rectangle::new(x as i32, y as i32, width, height),
                    num_cell_per_row,
                    num_cell_per_col,
                };
                let ghost fv = f;
                dest.push(f);
                proof {
                    assert(grid_row(wi, hi, pr, pc, y as int, x as int) == seq![fv] + grid_row(
                        wi,
                        hi,
                        pr,
                        pc,
                        y as int,
                        x as int + 16,
                    ));
                    racc@ = racc@.push(fv);
                    assert(dest@ =~= old(dest)@ + gacc@ + racc@);
                    assert(row0 =~= racc@ + grid_row(wi, hi, pr, pc, y as int, x as int + 16));
                }
                x += 16;
            }
            proof {
                assert(grid_row(wi, hi, pr, pc, y as int, x as int) =~= Seq::<Feature>::empty());
                assert(row0 =~= racc@);
                gacc@ = gacc@ + racc@;
                assert(dest@ =~= old(dest)@ + gacc@);
                assert(g0 =~= gacc@ + grid(wi, hi, pr, pc, y as int + 16));
            }
            y += 16;
        }
        proof {
            assert(grid(wi, hi, pr, pc, y as int) =~= Seq::<Feature>::empty());
            assert(final(dest)@ =~= old(dest)@ + g0);
        }
    }

    /// Enumerate every patch size of every registered format that fits
    /// the sample, and collect its positions, format by format.
    #[verifier::loop_isolation(false)]
    pub fn create(&mut self)
        requires
            old(self).wf(),
            old(self).patch_move_step_x == 16,
            old(self).patch_move_step_y == 16,
            old(self).patch_size_inc_step == 1,
            old(self).patch_min_width == 16,
            old(self).patch_min_height == 16,
        ensures
            final(self).wf(),
            final(self).patch_move_step_x == 16,
            final(self).patch_move_step_y == 16,
            final(self).patch_size_inc_step == 1,
            final(self).patch_min_width == 16,
            final(self).patch_min_height == 16,
            final(self).patch_formats@ == old(self).patch_formats@,
            final(self).features@ == old(self).features@ + pool_features(
                old(self).patch_formats@,
                0,
            ),
    {
        let mut feature_vecs: Vec<Feature> = Vec::new();
        let ghost formats = self.patch_formats@;
        let ghost p0 = pool_features(formats, 0);
        proof {
            assert(Seq::<Feature>::empty() + pool_features(formats, 0) =~= pool_features(
                formats,
                0,
            ));
        }

        if self.sample_height - self.patch_min_height <= self.sample_width - self.patch_min_width {
            let mut fi: usize = 0;
            while fi < self.patch_formats.len()
                invariant
                    fi <= formats.len(),
                    self == old(self),
                    p0 == feature_vecs@ + pool_features(formats, fi as int),
                    forall|i: int|
                        0 <= i < feature_vecs@.len() ==> feature_ok(
                            #[trigger] feature_vecs@[i],
                            40,
                            40,
                        ),
                decreases self.patch_formats@.len() - fi,
            {
                let fw = self.patch_formats[fi].width;
                let fh = self.patch_formats[fi].height;
                let f_rows = self.patch_formats[fi].num_cell_per_row;
                let f_cols = self.patch_formats[fi].num_cell_per_col;
                proof {
                    assert(format_ok(formats[fi as int]));
                    assert(pool_features(formats, fi as int) == format_features(
                        formats[fi as int],
                        16,
                    ) + pool_features(formats, fi as int + 1));
                }
                let ghost pre = feature_vecs@;
                let mut h: u32 = self.patch_min_height;
                while h <= self.sample_height
                    invariant
                        16 <= h <= 41,
                        self == old(self),
                        format_features(formats[fi as int], 16) == feature_vecs@.skip(
                            pre.len() as int,
                        ) + format_features(formats[fi as int], h as int),
                        feature_vecs@.len() >= pre.len(),
                        feature_vecs@.subrange(0, pre.len() as int) == pre,
                        forall|i: int|
                            0 <= i < feature_vecs@.len() ==> feature_ok(
                                #[trigger] feature_vecs@[i],
                                40,
                                40,
                            ),
                    decreases 41 - h,
                {
                    let ghost hacc = feature_vecs@.skip(pre.len() as int);
                    if !(h % f_cols != 0 || h % fh != 0) {
                        proof {
                            assert(h as int / fh as int * fw as int <= 40 * 40) by (nonlinear_arith)
                                requires
                                    1 <= fh <= 40,
                                    1 <= fw <= 40,
                                    1 <= h <= 40,
                            ;
                            lemma_mul_nonneg(h as int / fh as int, fw as int);
                        }
                        let w = h / fh * fw;
                        if !(w % f_rows != 0 || w < self.patch_min_width || w
                            > self.sample_width) {
                            proof {
                                assert(w >= f_rows && w >= 1) by (nonlinear_arith)
                                    requires
                                        w as int % f_rows as int == 0,
                                        w >= 16,
                                        1 <= f_rows <= 40,
                                ;
                                assert(h >= f_cols && h >= 1) by (nonlinear_arith)
                                    requires
                                        h as int % f_cols as int == 0,
                                        h >= 16,
                                        1 <= f_cols <= 40,
                                ;
                            }
                            self.collect_features(w, h, f_rows, f_cols, &mut feature_vecs);
                        }
                    }
                    proof {
                        let fmt = formats[fi as int];
                        assert(format_features(fmt, h as int) == (if h as int % (
                        fmt.num_cell_per_col as int) == 0 && h as int % (fmt.height as int) == 0 {
                            let w = h as int / (fmt.height as int) * (fmt.width as int);
                            if w % (fmt.num_cell_per_row as int) == 0 && 16 <= w <= 40 {
                                grid(w, h as int, fmt.num_cell_per_row as int, fmt.num_cell_per_col as int, 0)
                            } else {
                                Seq::empty()
                            }
                        } else {
                            Seq::empty()
                        }) + format_features(fmt, h as int + 1));
                        assert(feature_vecs@.subrange(0, pre.len() as int) =~= pre);
                        assert(format_features(formats[fi as int], 16) =~= feature_vecs@.skip(
                            pre.len() as int,
                        ) + format_features(formats[fi as int], h as int + 1));
                    }
                    h += 1;
                }
                proof {
                    assert(format_features(formats[fi as int], h as int) =~= Seq::<
                        Feature,
                    >::empty());
                    assert(format_features(formats[fi as int], 16) =~= feature_vecs@.skip(
                        pre.len() as int,
                    ));
                    assert(p0 =~= feature_vecs@ + pool_features(formats, fi as int + 1));
                }
                fi += 1;
            }
            proof {
                assert(pool_features(formats, fi as int) =~= Seq::<Feature>::empty());
                assert(p0 =~= feature_vecs@);
            }
        } else {
            proof {
                assert(false);
            }
        }

        self.features.append(&mut feature_vecs);
        proof {
            assert forall|i: int| 0 <= i < self.features@.len() implies feature_ok(
                #[trigger] self.features@[i],
                40,
                40,
            ) by {
                if i < old(self).features@.len() {
                    assert(self.features@[i] == old(self).features@[i]);
                } else {
                    assert(self.features@[i] == p0[i - old(self).features@.len()]);
                }
            }
        }
    }

    pub fn size(&self) -> (r: usize)
        ensures
            r == self.features@.len(),
    {
        self.features.len()
    }

    /// The length of the pooled descriptor of a feature: eight channel
    /// sums per cell.
    pub fn get_feature_vector_dim(&self, feature_id: usize) -> (r: usize)
        requires
            feature_id < self.features@.len(),
            self.wf(),
        ensures
            r == self.features@[feature_id as int].num_cell_per_col as int
                * self.features@[feature_id as int].num_cell_per_row as int * 8,
    {
        let f = &self.features[feature_id];
        proof {
            assert(f.num_cell_per_col as int * f.num_cell_per_row as int * 8 <= 40 * 40 * 8)
                by (nonlinear_arith)
                requires
                    1 <= f.num_cell_per_row <= 40,
                    1 <= f.num_cell_per_col <= 40,
            ;
            lemma_mul_nonneg(f.num_cell_per_col as int, f.num_cell_per_row as int);
        }
        (f.num_cell_per_col as usize) * (f.num_cell_per_row as usize) * 8
    }
}


/// The pixel at column `x`, row `y`.
pub open spec fn px(img: Seq<u8>, w: int, x: int, y: int) -> int {
    img[pidx(w, y, x)] as int
}

/// Horizontal gradient: doubled one-sided difference on the row edges,
/// central difference inside.
pub open spec fn grad_x_at(img: Seq<u8>, w: int, x: int, y: int) -> int {
    if x == 0 {
        2 * (px(img, w, 1, y) - px(img, w, 0, y))
    } else if x == w - 1 {
        2 * (px(img, w, w - 1, y) - px(img, w, w - 2, y))
    } else {
        px(img, w, x + 1, y) - px(img, w, x - 1, y)
    }
}

/// Vertical gradient, analogous over columns.
pub open spec fn grad_y_at(img: Seq<u8>, w: int, h: int, x: int, y: int) -> int {
    if y == 0 {
        2 * (px(img, w, x, 1) - px(img, w, x, 0))
    } else if y == h - 1 {
        2 * (px(img, w, x, h - 1) - px(img, w, x, h - 2))
    } else {
        px(img, w, x, y + 1) - px(img, w, x, y - 1)
    }
}

pub open spec fn abs_int(v: int) -> int {
    if v >= 0 {
        v
    } else {
        -v
    }
}

/// The value of one of the eight gradient channels at a pixel. Channels
/// 0..4 carry the horizontal gradient and its magnitude, gated on the
/// sign of the vertical gradient; channels 4..8 carry the vertical
/// gradient and its magnitude, gated on the sign of the horizontal one.
pub open spec fn chan_val(img: Seq<u8>, w: int, h: int, x: int, y: int, ch: int) -> int {
    let dx = grad_x_at(img, w, x, y);
    let dy = grad_y_at(img, w, h, x, y);
    if ch == 0 {
        if dy >= 0 {
            dx
        } else {
            0
        }
    } else if ch == 1 {
        if dy >= 0 {
            abs_int(dx)
        } else {
            0
        }
    } else if ch == 2 {
        if dy < 0 {
            dx
        } else {
            0
        }
    } else if ch == 3 {
        if dy < 0 {
            abs_int(dx)
        } else {
            0
        }
    } else if ch == 4 {
        if dx >= 0 {
            dy
        } else {
            0
        }
    } else if ch == 5 {
        if dx >= 0 {
            abs_int(dy)
        } else {
            0
        }
    } else if ch == 6 {
        if dx < 0 {
            dy
        } else {
            0
        }
    } else {
        if dx < 0 {
            abs_int(dy)
        } else {
            0
        }
    }
}

/// The horizontal-gradient plane, indexed linearly.
pub open spec fn gx_plane(img: Seq<u8>, w: int, h: int) -> Seq<int> {
    Seq::new((w * h) as nat, |i: int| grad_x_at(img, w, i % w, i / w))
}

/// The vertical-gradient plane, indexed linearly.
pub open spec fn gy_plane(img: Seq<u8>, w: int, h: int) -> Seq<int> {
    Seq::new((w * h) as nat, |i: int| grad_y_at(img, w, h, i % w, i / w))
}

/// One gradient channel as a plane, indexed linearly.
pub open spec fn chan_plane(img: Seq<u8>, w: int, h: int, ch: int) -> Seq<int> {
    Seq::new((w * h) as nat, |i: int| chan_val(img, w, h, i % w, i / w, ch))
}

/// Linear index `pidx(w, r, c)` decomposes back into `(r, c)`.
pub proof fn lemma_linear_coords(w: int, h: int, r: int, c: int)
    requires
        0 <= r < h,
        0 <= c < w,
    ensures
        pidx(w, r, c) / w == r,
        pidx(w, r, c) % w == c,
        0 <= pidx(w, r, c) < w * h,
{
    lemma_pidx_bounds(w, h, r, c);
    vstd::arithmetic::div_mod::lemma_fundamental_div_mod_converse(pidx(w, r, c), w, r, c);
}

/// Fill the horizontal-gradient plane of an image.
#[verifier::loop_isolation(false)]
fn fill_grad_x(grad: &mut Vec<i32>, img: &[u8], width: usize, height: usize)
    requires
        img@.len() == width * height,
        2 <= width,
        1 <= height,
        old(grad)@.len() == width * height,
    ensures
        final(grad)@.len() == width * height,
        forall|i: int|
            0 <= i < width * height ==> final(grad)@[i] == gx_plane(
                img@,
                width as int,
                height as int,
            )[i],
{
    let ghost wi = width as int;
    let ghost hi = height as int;
    let ghost len = (width * height) as int;
    let g_len = grad.len();
    proof {
        lemma_pidx_distinct(wi);
        assert(g_len == len);
    }
    let mut r: usize = 0;
    while r < height
        invariant
            0 <= r <= height,
            grad@.len() == len,
            forall|i: int| 0 <= i < r * width ==> grad@[i] == gx_plane(img@, wi, hi)[i],
        decreases height - r,
    {
        let mut c: usize = 0;
        while c < width
            invariant
                0 <= c <= width,
                r < height,
                grad@.len() == len,
                forall|i: int| 0 <= i < r * width + c ==> grad@[i] == gx_plane(img@, wi, hi)[i],
            decreases width - c,
        {
            proof {
                lemma_linear_coords(wi, hi, r as int, c as int);
                if c > 0 {
                    lemma_pidx_bounds(wi, hi, r as int, c - 1);
                }
                if c + 1 < width {
                    lemma_pidx_bounds(wi, hi, r as int, c + 1);
                }
            }
            let idx = r * width + c;
            let v: i32 = if c == 0 {
                2 * (img[idx + 1] as i32 - img[idx] as i32)
            } else if c == width - 1 {
                2 * (img[idx] as i32 - img[idx - 1] as i32)
            } else {
                img[idx + 1] as i32 - img[idx - 1] as i32
            };
            grad[idx] = v;
            proof {
                assert(grad@[idx as int] == gx_plane(img@, wi, hi)[idx as int]);
            }
            c += 1;
        }
        r += 1;
        proof {
            assert(r * width == (r - 1) * width + width) by (nonlinear_arith);
        }
    }
    proof {
        assert(height * width == width * height) by (nonlinear_arith);
    }
}

/// Fill the vertical-gradient plane of an image.
#[verifier::loop_isolation(false)]
fn fill_grad_y(grad: &mut Vec<i32>, img: &[u8], width: usize, height: usize)
    requires
        img@.len() == width * height,
        1 <= width,
        2 <= height,
        old(grad)@.len() == width * height,
    ensures
        final(grad)@.len() == width * height,
        forall|i: int|
            0 <= i < width * height ==> final(grad)@[i] == gy_plane(
                img@,
                width as int,
                height as int,
            )[i],
{
    let ghost wi = width as int;
    let ghost hi = height as int;
    let ghost len = (width * height) as int;
    let g_len = grad.len();
    proof {
        lemma_pidx_distinct(wi);
        assert(g_len == len);
    }
    let mut r: usize = 0;
    while r < height
        invariant
            0 <= r <= height,
            grad@.len() == len,
            forall|i: int| 0 <= i < r * width ==> grad@[i] == gy_plane(img@, wi, hi)[i],
        decreases height - r,
    {
        let mut c: usize = 0;
        while c < width
            invariant
                0 <= c <= width,
                r < height,
                grad@.len() == len,
                forall|i: int| 0 <= i < r * width + c ==> grad@[i] == gy_plane(img@, wi, hi)[i],
            decreases width - c,
        {
            proof {
                lemma_linear_coords(wi, hi, r as int, c as int);
                if r > 0 {
                    lemma_pidx_bounds(wi, hi, r - 1, c as int);
                    assert(r * width - width == (r - 1) * width) by (nonlinear_arith);
                }
                if r + 1 < height {
                    lemma_pidx_bounds(wi, hi, r + 1, c as int);
                    assert(r * width + width == (r + 1) * width) by (nonlinear_arith);
                }
                assert(r * width + c == pidx(wi, r as int, c as int));
                if r == 0 {
                    lemma_pidx_bounds(wi, hi, 1, c as int);
                    assert(1 * width + c == pidx(wi, 1, c as int));
                }
                if r == height - 1 {
                    lemma_pidx_bounds(wi, hi, r - 1, c as int);
                }
            }
            let idx = r * width + c;
            let v: i32 = if r == 0 {
                2 * (img[width + c] as i32 - img[c] as i32)
            } else if r == height - 1 {
                2 * (img[idx] as i32 - img[idx - width] as i32)
            } else {
                img[idx + width] as i32 - img[idx - width] as i32
            };
            grad[idx] = v;
            proof {
                assert(grad@[idx as int] == gy_plane(img@, wi, hi)[idx as int]);
            }
            c += 1;
        }
        r += 1;
        proof {
            assert(r * width == (r - 1) * width + width) by (nonlinear_arith);
        }
    }
    proof {
        assert(height * width == width * height) by (nonlinear_arith);
    }
}


/// Fill one channel plane from the two gradient planes.
#[verifier::loop_isolation(false)]
fn fill_channel(
    tmp: &mut Vec<i32>,
    gx: &Vec<i32>,
    gy: &Vec<i32>,
    ch: usize,
    width: usize,
    height: usize,
    Ghost(img): Ghost<Seq<u8>>,
)
    requires
        img.len() == width * height,
        2 <= width,
        2 <= height,
        ch < 8,
        old(tmp)@.len() == width * height,
        gx@.len() == width * height,
        gy@.len() == width * height,
        forall|i: int|
            0 <= i < width * height ==> gx@[i] == gx_plane(img, width as int, height as int)[i],
        forall|i: int|
            0 <= i < width * height ==> gy@[i] == gy_plane(img, width as int, height as int)[i],
    ensures
        final(tmp)@.len() == width * height,
        forall|i: int|
            0 <= i < width * height ==> final(tmp)@[i] == chan_plane(
                img,
                width as int,
                height as int,
                ch as int,
            )[i],
{
    let ghost wi = width as int;
    let ghost hi = height as int;
    let len = gx.len();
    let mut i: usize = 0;
    while i < len
        invariant
            0 <= i <= len,
            tmp@.len() == len,
            forall|j: int| 0 <= j < i ==> tmp@[j] == chan_plane(img, wi, hi, ch as int)[j],
        decreases len - i,
    {
        let dx = gx[i];
        let dy = gy[i];
        proof {
            assert(dx == grad_x_at(img, wi, i as int % wi, i as int / wi));
            assert(dy == grad_y_at(img, wi, hi, i as int % wi, i as int / wi));
        }
        let v: i32 = if ch < 4 {
            let base: i32 = if ch == 0 || ch == 2 {
                dx
            } else if dx >= 0 {
                dx
            } else {
                -dx
            };
            if ch < 2 {
                if dy >= 0 {
                    base
                } else {
                    0
                }
            } else {
                if dy < 0 {
                    base
                } else {
                    0
                }
            }
        } else {
            let base: i32 = if ch == 4 || ch == 6 {
                dy
            } else if dy >= 0 {
                dy
            } else {
                -dy
            };
            if ch < 6 {
                if dx >= 0 {
                    base
                } else {
                    0
                }
            } else {
                if dx < 0 {
                    base
                } else {
                    0
                }
            }
        };
        tmp[i] = v;
        proof {
            assert(tmp@[i as int] == chan_plane(img, wi, hi, ch as int)[i as int]);
        }
        i += 1;
    }
}

/// A multiple of eight plus a channel number keeps that channel number
/// modulo eight.
pub proof fn lemma_mod8(k: int, c: int)
    requires
        0 <= c < 8,
    ensures
        (k * 8 + c) % 8 == c,
{
    vstd::arithmetic::div_mod::lemma_mod_multiples_vanish(k, c, 8);
    vstd::arithmetic::div_mod::lemma_small_mod(c as nat, 8nat);
    assert(k * 8 == 8 * k) by (nonlinear_arith);
}

/// Spread one integrated channel plane into its interleaved slots.
#[verifier::loop_isolation(false)]
fn scatter_channel(int_img: &mut Vec<i32>, tmp: &Vec<i32>, ch: usize, width: usize, height: usize)
    requires
        ch < 8,
        old(int_img)@.len() == width * height * 8,
        tmp@.len() == width * height,
    ensures
        final(int_img)@.len() == width * height * 8,
        forall|i: int| 0 <= i < width * height ==> final(int_img)@[i * 8 + ch] == tmp@[i],
        forall|j: int|
            0 <= j < width * height * 8 && j % 8 != ch ==> final(int_img)@[j] == old(int_img)@[j],
{
    let len = tmp.len();
    let ghost total = (width * height * 8) as int;
    let tot = int_img.len();
    proof {
        assert(tot == total);
    }
    let mut i: usize = 0;
    while i < len
        invariant
            0 <= i <= len,
            int_img@.len() == total,
            forall|j: int| 0 <= j < i ==> int_img@[j * 8 + ch] == tmp@[j],
            forall|j: int| 0 <= j < total && j % 8 != ch ==> int_img@[j] == old(int_img)@[j],
        decreases len - i,
    {
        proof {
            assert(i * 8 + ch < total);
            lemma_mod8(i as int, ch as int);
        }
        let idx = i * 8 + ch;
        int_img[idx] = tmp[i];
        proof {
            assert forall|j: int| 0 <= j < i + 1 implies int_img@[j * 8 + ch] == tmp@[j] by {
                if j < i {
                    assert(j * 8 + ch != i * 8 + ch);
                    assert(0 <= j * 8 + ch < total) by (nonlinear_arith)
                        requires
                            0 <= j < len,
                            0 <= ch < 8,
                            total == len * 8,
                    ;
                }
            }
        }
        i += 1;
    }
}

/// The five patch formats every SURF map registers.
pub open spec fn standard_formats() -> Seq<PatchFormat> {
    seq![
        PatchFormat { width: 1, height: 1, num_cell_per_row: 2, num_cell_per_col: 2 },
        PatchFormat { width: 1, height: 2, num_cell_per_row: 2, num_cell_per_col: 2 },
        PatchFormat { width: 2, height: 1, num_cell_per_row: 2, num_cell_per_col: 2 },
        PatchFormat { width: 2, height: 3, num_cell_per_row: 2, num_cell_per_col: 2 },
        PatchFormat { width: 3, height: 2, num_cell_per_row: 2, num_cell_per_col: 2 },
    ]
}

/// The interleaved integral plane holds, in every slot of channel `ch`,
/// the integral-image value of that channel's plane.
pub open spec fn int8_ok(s: Seq<i32>, img: Seq<u8>, w: int, h: int, ch: int) -> bool {
    forall|r: int, c: int|
        0 <= r < h && 0 <= c < w ==> s[#[trigger] pidx(w, r, c) * 8 + ch] == wrap_i32(
            prefix(chan_plane(img, w, h, ch), w, r, c),
        )
}

/// The length of a pooled descriptor: eight channel sums per cell.
pub open spec fn feat_dim(f: Feature) -> int {
    f.num_cell_per_col as int * f.num_cell_per_row as int * 8
}

/// Position of cell `(i, j)` channel `ch` in a descriptor with `cols`
/// cells per row.
pub open spec fn vidx(cols: int, i: int, j: int, ch: int) -> int {
    (i * cols + j) * 8 + ch
}

/// One entry of a pooled descriptor: the sum (modulo 2^32) of channel
/// `ch` over cell `(i, j)` of the feature's patch, placed at the ROI.
pub open spec fn cell_sum(
    img: Seq<u8>,
    w: int,
    h: int,
    f: Feature,
    roi: Rectangle,
    i: int,
    j: int,
    ch: int,
) -> i32 {
    let cw = f.patch.width as int / f.num_cell_per_row as int;
    let chh = f.patch.height as int / f.num_cell_per_col as int;
    let x0 = roi.x + f.patch.x + j * cw;
    let y0 = roi.y + f.patch.y + i * chh;
    wrap_i32(region(chan_plane(img, w, h, ch), w, x0, y0, x0 + cw - 1, y0 + chh - 1))
}

/// The SURF feature map: the 8-channel gradient integral plane of one
/// grayscale view, the feature pool over the 40x40 sample, and one raw
/// descriptor buffer per pooled feature. The `src` field records, for
/// specification purposes only, the pixels the plane was computed from.
pub struct SurfMlpFeatureMap {
    pub width: u32,
    pub height: u32,
    pub length: usize,
    pub feature_pool: FeaturePool,
    pub feature_vectors: Vec<Vec<i32>>,
    pub grad_x: Vec<i32>,
    pub grad_y: Vec<i32>,
    pub int_img: Vec<i32>,
    pub src: Ghost<Seq<u8>>,
}

impl SurfMlpFeatureMap {
    /// The pool is well-formed and every descriptor buffer has its
    /// feature's dimension.
    pub open spec fn pool_ok(&self) -> bool {
        &&& self.feature_pool.wf()
        &&& self.feature_vectors@.len() == self.feature_pool.features@.len()
        &&& forall|i: int|
            0 <= i < self.feature_vectors@.len() ==> (#[trigger] self.feature_vectors@[i])@.len()
                == feat_dim(self.feature_pool.features@[i])
    }

    /// The integral plane holds the digest of the `src` pixels at the
    /// current dimensions.
    pub open spec fn computed(&self) -> bool {
        let wi = self.width as int;
        let hi = self.height as int;
        &&& 2 <= wi && 2 <= hi
        &&& self.src@.len() == wi * hi
        &&& self.length == wi * hi
        &&& self.int_img@.len() == wi * hi * 8
        &&& forall|ch: int| 0 <= ch < 8 ==> int8_ok(self.int_img@, self.src@, wi, hi, ch)
    }

    /// A map over the standard pool: the five patch formats, their
    /// enumerated features, and zeroed descriptor buffers.
    #[verifier::loop_isolation(false)]
    pub fn new() -> (r: Self)
        ensures
            r.pool_ok(),
            r.width == 0,
            r.height == 0,
            r.feature_pool.features@ == pool_features(standard_formats(), 0),
    {
        let mut feature_pool = FeaturePool::new();
        feature_pool.add_patch_format(1, 1, 2, 2);
        feature_pool.add_patch_format(1, 2, 2, 2);
        feature_pool.add_patch_format(2, 1, 2, 2);
        feature_pool.add_patch_format(2, 3, 2, 2);
        feature_pool.add_patch_format(3, 2, 2, 2);
        proof {
            assert(feature_pool.patch_formats@ =~= standard_formats());
        }
        feature_pool.create();
        proof {
            assert(feature_pool.features@ =~= pool_features(standard_formats(), 0));
        }
        let feature_pool_size = feature_pool.size();
        let mut feature_vectors: Vec<Vec<i32>> = Vec::new();
        let mut feature_id: usize = 0;
        while feature_id < feature_pool_size
            invariant
                feature_pool.wf(),
                feature_pool_size == feature_pool.features@.len(),
                feature_id <= feature_pool_size,
                feature_vectors@.len() == feature_id,
                forall|i: int|
                    0 <= i < feature_id ==> (#[trigger] feature_vectors@[i])@.len() == feat_dim(
                        feature_pool.features@[i],
                    ),
            decreases feature_pool_size - feature_id,
        {
            let dim = feature_pool.get_feature_vector_dim(feature_id);
            let buf: Vec<i32> = vec![0i32; dim];
            proof {
                assert(buf@.len() == feat_dim(feature_pool.features@[feature_id as int]));
            }
            feature_vectors.push(buf);
            feature_id += 1;
        }

        SurfMlpFeatureMap {
            width: 0,
            height: 0,
            length: 0,
            feature_pool,
            feature_vectors,
            grad_x: Vec::new(),
            grad_y: Vec::new(),
            int_img: Vec::new(),
            src: Ghost(Seq::empty()),
        }
    }

    /// Digest one grayscale view: both gradient planes, then the
    /// integral of each of the eight gradient channels.
    #[verifier::loop_isolation(false)]
    fn compute_map(&mut self, image: &ImageData<'_>)
        requires
            old(self).pool_ok(),
            image.valid(),
            2 <= image.width,
            2 <= image.height,
            image.width * image.height * 8 <= usize::MAX,
        ensures
            final(self).computed(),
            final(self).pool_ok(),
            final(self).src@ == image.data@,
            final(self).width == image.width,
            final(self).height == image.height,
            final(self).feature_pool == old(self).feature_pool,
            final(self).feature_vectors == old(self).feature_vectors,
    {
        let input = image.data();
        let w = image.width();
        let h = image.height();
        let len = input.len();
        let wu = w as usize;
        let hu = h as usize;
        proof {
            assert(len == wu * hu);
        }
        self.width = w;
        self.height = h;
        self.length = len;
        self.src = Ghost(input@);

        self.grad_x.resize(len, 0);
        self.grad_y.resize(len, 0);
        self.int_img.resize(len * 8, 0);

        fill_grad_x(&mut self.grad_x, input, wu, hu);
        fill_grad_y(&mut self.grad_y, input, wu, hu);

        let mut tmp: Vec<i32> = vec![0i32; len];
        let mut ch: usize = 0;
        while ch < 8
            invariant
                ch <= 8,
                tmp@.len() == len,
                self.int_img@.len() == len * 8,
                self.width == w,
                self.height == h,
                self.length == len,
                self.src == Ghost::<Seq<u8>>(input@),
                self.grad_x@.len() == len,
                self.grad_y@.len() == len,
                forall|i: int| 0 <= i < len ==> self.grad_x@[i] == gx_plane(input@, wu as int, hu as int)[i],
                forall|i: int| 0 <= i < len ==> self.grad_y@[i] == gy_plane(input@, wu as int, hu as int)[i],
                self.feature_pool == old(self).feature_pool,
                self.feature_vectors == old(self).feature_vectors,
                forall|c: int|
                    0 <= c < ch ==> int8_ok(self.int_img@, input@, wu as int, hu as int, c),
            decreases 8 - ch,
        {
            fill_channel(&mut tmp, &self.grad_x, &self.grad_y, ch, wu, hu, Ghost(input@));
            let ghost pre = crate::lab::i32_plane(tmp@);
            proof {
                assert(pre =~= chan_plane(input@, wu as int, hu as int, ch as int));
            }
            crate::lab::compute_integral_i32(&mut tmp, wu, hu);
            let ghost pre_img = self.int_img@;
            scatter_channel(&mut self.int_img, &tmp, ch, wu, hu);
            proof {
                let wi = wu as int;
                let hi = hu as int;
                assert forall|r: int, c: int| 0 <= r < hi && 0 <= c < wi implies self.int_img@[
                    #[trigger] pidx(wi, r, c) * 8 + ch as int
                ] == wrap_i32(prefix(chan_plane(input@, wi, hi, ch as int), wi, r, c)) by {
                    lemma_pidx_bounds(wi, hi, r, c);
                    assert(tmp@[pidx(wi, r, c)] == wrap_i32(prefix(pre, wi, r, c)));
                }
                assert(int8_ok(self.int_img@, input@, wi, hi, ch as int));
                assert forall|c: int| 0 <= c < ch + 1 implies int8_ok(
                    self.int_img@,
                    input@,
                    wi,
                    hi,
                    c,
                ) by {
                    if c < ch {
                        assert(int8_ok(pre_img, input@, wi, hi, c));
                        assert forall|r: int, cc: int|
                            0 <= r < hi && 0 <= cc < wi implies self.int_img@[
                            #[trigger] pidx(wi, r, cc) * 8 + c
                        ] == wrap_i32(prefix(chan_plane(input@, wi, hi, c), wi, r, cc)) by {
                            lemma_pidx_bounds(wi, hi, r, cc);
                            lemma_mod8(pidx(wi, r, cc), c);
                            assert(0 <= pidx(wi, r, cc) * 8 + c < len * 8) by (nonlinear_arith)
                                requires
                                    0 <= pidx(wi, r, cc) < len,
                                    0 <= c < 8,
                            ;
                            assert(pre_img[pidx(wi, r, cc) * 8 + c] == wrap_i32(
                                prefix(chan_plane(input@, wi, hi, c), wi, r, cc),
                            ));
                        }
                    }
                }
            }
            ch += 1;
        }
    }
}


/// Descriptor positions grow with the lexicographic order of
/// (cell row, cell column, channel).
proof fn lemma_vidx_lt(cols: int, i1: int, j1: int, ch1: int, i2: int, j2: int, ch2: int)
    requires
        0 <= j1 < cols,
        0 <= ch1 < 8,
        0 <= j2,
        0 <= ch2,
        0 <= i1,
        i1 < i2 || (i1 == i2 && j1 < j2) || (i1 == i2 && j1 == j2 && ch1 < ch2),
    ensures
        vidx(cols, i1, j1, ch1) < vidx(cols, i2, j2, ch2),
{
    assert((i1 * cols + j1) * 8 + ch1 < (i2 * cols + j2) * 8 + ch2) by (nonlinear_arith)
        requires
            0 <= j1 < cols,
            0 <= ch1 < 8,
            0 <= j2,
            0 <= ch2,
            0 <= i1,
            i1 < i2 || (i1 == i2 && j1 < j2) || (i1 == i2 && j1 == j2 && ch1 < ch2),
    ;
}

impl SurfMlpFeatureMap {
    /// Fill the raw descriptor of one pooled feature for a window: for
    /// every cell of the feature's patch, translated by the window
    /// origin, the eight channel sums read off the integral plane in
    /// row-major cell order.
    #[verifier::loop_isolation(false)]
    pub fn compute_feature_vector(&mut self, feature_id: usize, roi: Rectangle)
        requires
            old(self).computed(),
            old(self).pool_ok(),
            feature_id < old(self).feature_pool.features@.len(),
            old(self).width * old(self).height <= i32::MAX,
            0 <= roi.x + old(self).feature_pool.features@[feature_id as int].patch.x,
            0 <= roi.y + old(self).feature_pool.features@[feature_id as int].patch.y,
            roi.x + old(self).feature_pool.features@[feature_id as int].patch.x + old(
                self,
            ).feature_pool.features@[feature_id as int].patch.width <= old(self).width,
            roi.y + old(self).feature_pool.features@[feature_id as int].patch.y + old(
                self,
            ).feature_pool.features@[feature_id as int].patch.height <= old(self).height,
        ensures
            *final(self) == (SurfMlpFeatureMap {
                feature_vectors: final(self).feature_vectors,
                ..*old(self)
            }),
            final(self).feature_vectors@ =~= old(self).feature_vectors@.update(
                feature_id as int,
                final(self).feature_vectors@[feature_id as int],
            ),
            final(self).computed(),
            final(self).pool_ok(),
            final(self).feature_vectors@[feature_id as int]@.len() == feat_dim(
                old(self).feature_pool.features@[feature_id as int],
            ),
            forall|i: int, j: int, ch: int|
                0 <= i < old(self).feature_pool.features@[feature_id as int].num_cell_per_col && 0
                    <= j < old(self).feature_pool.features@[feature_id as int].num_cell_per_row
                    && 0 <= ch < 8 ==> final(self).feature_vectors@[feature_id as int]@[
                    #[trigger] vidx(
                        old(self).feature_pool.features@[feature_id as int].num_cell_per_row as int,
                        i,
                        j,
                        ch,
                    )
                ] == cell_sum(
                    old(self).src@,
                    old(self).width as int,
                    old(self).height as int,
                    old(self).feature_pool.features@[feature_id as int],
                    roi,
                    i,
                    j,
                    ch,
                ),
    {
        let ghost wi = self.width as int;
        let ghost hi = self.height as int;
        let ghost img = self.src@;
        let ghost f = self.feature_pool.features@[feature_id as int];
        proof {
            assert(feature_ok(f, 40, 40));
            assert(wi <= 0x7fff_ffff && hi <= 0x7fff_ffff) by (nonlinear_arith)
                requires
                    2 <= wi,
                    2 <= hi,
                    wi * hi <= 0x7fff_ffff,
            ;
        }
        let patch: Rectangle = self.feature_pool.features[feature_id].patch;
        let cols = self.feature_pool.features[feature_id].num_cell_per_row;
        let rows = self.feature_pool.features[feature_id].num_cell_per_col;
        let cell_w = patch.width / cols;
        let cell_h = patch.height / rows;
        proof {
            vstd::arithmetic::div_mod::lemma_fundamental_div_mod(patch.width as int, cols as int);
            vstd::arithmetic::div_mod::lemma_fundamental_div_mod(patch.height as int, rows as int);
            assert(cols as int * cell_w as int == patch.width as int);
            assert(rows as int * cell_h as int == patch.height as int);
            assert(cell_w >= 1 && cell_h >= 1) by (nonlinear_arith)
                requires
                    cols as int * cell_w as int == patch.width as int,
                    rows as int * cell_h as int == patch.height as int,
                    1 <= cols <= patch.width,
                    1 <= rows <= patch.height,
                    0 <= cell_w,
                    0 <= cell_h,
            ;
        }
        let x0 = roi.x + patch.x;
        let y0 = roi.y + patch.y;
        let wu = self.width as usize;
        let ghost len8 = wi * hi * 8;
        let ii_len = self.int_img.len();
        proof {
            assert(ii_len == len8);
        }

        let mut out: Vec<i32> = Vec::new();
        let mut i: u32 = 0;
        while i < rows
            invariant
                0 <= i <= rows,
                out@.len() == vidx(cols as int, i as int, 0, 0),
                forall|i2: int, j2: int, ch2: int|
                    0 <= i2 < i && 0 <= j2 < cols && 0 <= ch2 < 8 ==> out@[#[trigger] vidx(
                        cols as int,
                        i2,
                        j2,
                        ch2,
                    )] == cell_sum(img, wi, hi, f, roi, i2, j2, ch2),
            decreases rows - i,
        {
            let mut j: u32 = 0;
            while j < cols
                invariant
                    0 <= i < rows,
                    0 <= j <= cols,
                    out@.len() == vidx(cols as int, i as int, j as int, 0),
                    forall|i2: int, j2: int, ch2: int|
                        (0 <= i2 < i && 0 <= j2 < cols && 0 <= ch2 < 8) || (i2 == i && 0 <= j2 < j
                            && 0 <= ch2 < 8) ==> out@[#[trigger] vidx(cols as int, i2, j2, ch2)]
                            == cell_sum(img, wi, hi, f, roi, i2, j2, ch2),
                decreases cols - j,
            {
                proof {
                    lemma_mul_le_mono(j as int + 1, cols as int, cell_w as int);
                    lemma_mul_le_mono(i as int + 1, rows as int, cell_h as int);
                    lemma_mul_nonneg(j as int, cell_w as int);
                    lemma_mul_nonneg(i as int, cell_h as int);
                    assert((j + 1) * cell_w == j * cell_w + cell_w) by (nonlinear_arith);
                    assert((i + 1) * cell_h == i * cell_h + cell_h) by (nonlinear_arith);
                    assert(cols as int * cell_w as int == cell_w as int * cols as int)
                        by (nonlinear_arith);
                    assert(rows as int * cell_h as int == cell_h as int * rows as int)
                        by (nonlinear_arith);
                }
                let cx0 = x0 + (j * cell_w) as i32;
                let cy0 = y0 + (i * cell_h) as i32;
                let cx1 = cx0 + cell_w as i32 - 1;
                let cy1 = cy0 + cell_h as i32 - 1;
                let mut ch: usize = 0;
                while ch < 8
                    invariant
                        0 <= i < rows,
                        0 <= j < cols,
                        0 <= ch <= 8,
                        cx0 == x0 + j * cell_w,
                        cy0 == y0 + i * cell_h,
                        cx1 == cx0 + cell_w - 1,
                        cy1 == cy0 + cell_h - 1,
                        0 <= cx0 <= cx1 < wi,
                        0 <= cy0 <= cy1 < hi,
                        out@.len() == vidx(cols as int, i as int, j as int, ch as int),
                        forall|i2: int, j2: int, ch2: int|
                            (0 <= i2 < i && 0 <= j2 < cols && 0 <= ch2 < 8) || (i2 == i && 0 <= j2
                                < j && 0 <= ch2 < 8) || (i2 == i && j2 == j && 0 <= ch2 < ch)
                                ==> out@[#[trigger] vidx(cols as int, i2, j2, ch2)] == cell_sum(
                                img,
                                wi,
                                hi,
                                f,
                                roi,
                                i2,
                                j2,
                                ch2,
                            ),
                    decreases 8 - ch,
                {
                    let ghost chv = chan_plane(img, wi, hi, ch as int);
                    proof {
                        lemma_pidx_bounds(wi, hi, cy1 as int, cx1 as int);
                        lemma_mul_nonneg(cy1 as int, wi);
                        lemma_region_corners(chv, wi, cx0 as int, cy0 as int, cx1 as int, cy1 as int);
                        assert(int8_ok(self.int_img@, img, wi, hi, ch as int));
                        assert(0 <= pidx(wi, cy1 as int, cx1 as int) * 8 + ch < len8)
                            by (nonlinear_arith)
                            requires
                                0 <= pidx(wi, cy1 as int, cx1 as int) < wi * hi,
                                0 <= ch < 8,
                                len8 == wi * hi * 8,
                        ;
                    }
                    let ghost p_br = prefix(chv, wi, cy1 as int, cx1 as int);
                    let ghost p_tr: int = if cy0 > 0 {
                        prefix(chv, wi, cy0 - 1, cx1 as int)
                    } else {
                        0
                    };
                    let ghost p_bl: int = if cx0 > 0 {
                        prefix(chv, wi, cy1 as int, cx0 - 1)
                    } else {
                        0
                    };
                    let ghost p_tl: int = if cx0 > 0 && cy0 > 0 {
                        prefix(chv, wi, cy0 - 1, cx0 - 1)
                    } else {
                        0
                    };
                    let br = self.int_img[((cy1 as usize) * wu + (cx1 as usize)) * 8 + ch];
                    let tr = if cy0 > 0 {
                        proof {
                            lemma_pidx_bounds(wi, hi, cy0 - 1, cx1 as int);
                            lemma_mul_nonneg(cy0 - 1, wi);
                            assert(0 <= pidx(wi, cy0 - 1, cx1 as int) * 8 + ch < len8)
                                by (nonlinear_arith)
                                requires
                                    0 <= pidx(wi, cy0 - 1, cx1 as int) < wi * hi,
                                    0 <= ch < 8,
                                    len8 == wi * hi * 8,
                            ;
                        }
                        self.int_img[((cy0 as usize - 1) * wu + (cx1 as usize)) * 8 + ch]
                    } else {
                        0
                    };
                    let bl = if cx0 > 0 {
                        proof {
                            lemma_pidx_bounds(wi, hi, cy1 as int, cx0 - 1);
                            assert(0 <= pidx(wi, cy1 as int, cx0 - 1) * 8 + ch < len8)
                                by (nonlinear_arith)
                                requires
                                    0 <= pidx(wi, cy1 as int, cx0 - 1) < wi * hi,
                                    0 <= ch < 8,
                                    len8 == wi * hi * 8,
                            ;
                        }
                        self.int_img[((cy1 as usize) * wu + (cx0 as usize - 1)) * 8 + ch]
                    } else {
                        0
                    };
                    let tl = if cx0 > 0 && cy0 > 0 {
                        proof {
                            lemma_pidx_bounds(wi, hi, cy0 - 1, cx0 - 1);
                            assert(0 <= pidx(wi, cy0 - 1, cx0 - 1) * 8 + ch < len8)
                                by (nonlinear_arith)
                                requires
                                    0 <= pidx(wi, cy0 - 1, cx0 - 1) < wi * hi,
                                    0 <= ch < 8,
                                    len8 == wi * hi * 8,
                            ;
                        }
                        self.int_img[((cy0 as usize - 1) * wu + (cx0 as usize - 1)) * 8 + ch]
                    } else {
                        0
                    };
                    proof {
                        lemma_wrap_i32_id(0);
                        assert(br == wrap_i32(p_br));
                        assert(tr == wrap_i32(p_tr));
                        assert(bl == wrap_i32(p_bl));
                        assert(tl == wrap_i32(p_tl));
                        lemma_wrap_i32_sub(p_br, p_tr);
                        lemma_wrap_i32_sub(p_br - p_tr, p_bl);
                        lemma_wrap_i32_add(p_br - p_tr - p_bl, p_tl);
                        assert(region(chv, wi, cx0 as int, cy0 as int, cx1 as int, cy1 as int)
                            == p_br - p_tr - p_bl + p_tl);
                    }
                    let val = br.wrapping_sub(tr).wrapping_sub(bl).wrapping_add(tl);
                    proof {
                        assert(val == cell_sum(img, wi, hi, f, roi, i as int, j as int, ch as int));
                    }
                    out.push(val);
                    proof {
                        assert forall|i2: int, j2: int, ch2: int|
                            (0 <= i2 < i && 0 <= j2 < cols && 0 <= ch2 < 8) || (i2 == i && 0 <= j2
                                < j && 0 <= ch2 < 8) || (i2 == i && j2 == j && 0 <= ch2 < ch
                                + 1) implies out@[#[trigger] vidx(cols as int, i2, j2, ch2)]
                            == cell_sum(img, wi, hi, f, roi, i2, j2, ch2) by {
                            if !(i2 == i && j2 == j && ch2 == ch) {
                                lemma_vidx_lt(
                                    cols as int,
                                    i2,
                                    j2,
                                    ch2,
                                    i as int,
                                    j as int,
                                    ch as int,
                                );
                                assert(0 <= vidx(cols as int, i2, j2, ch2)) by (nonlinear_arith)
                                    requires
                                        0 <= i2,
                                        0 <= j2,
                                        0 <= ch2,
                                        0 < cols,
                                ;
                            }
                        }
                    }
                    ch += 1;
                }
                j += 1;
                proof {
                    assert(vidx(cols as int, i as int, j as int, 0) == vidx(
                        cols as int,
                        i as int,
                        j - 1,
                        8,
                    ));
                }
            }
            i += 1;
            proof {
                assert((i as int) * (cols as int) == (i - 1) * (cols as int) + cols)
                    by (nonlinear_arith);
                assert(vidx(cols as int, i as int, 0, 0) == vidx(cols as int, i - 1, cols as int, 0));
            }
        }
        proof {
            assert(out@.len() == feat_dim(f)) by (nonlinear_arith)
                requires
                    out@.len() == ((rows as int) * (cols as int) + 0) * 8 + 0,
                    feat_dim(f) == (rows as int) * (cols as int) * 8,
            ;
        }
        self.feature_vectors[feature_id] = out;
    }

    /// The raw descriptor buffer of a feature, as last filled by
    /// `compute_feature_vector`.
    pub fn get_feature_vector(&self, feature_id: usize) -> (r: &Vec<i32>)
        requires
            self.pool_ok(),
            feature_id < self.feature_vectors@.len(),
        ensures
            r == self.feature_vectors@[feature_id as int],
    {
        &self.feature_vectors[feature_id]
    }

    /// The dimension of a feature's descriptor: cells times eight.
    pub fn get_feature_vector_dim(&self, feature_id: usize) -> (r: usize)
        requires
            self.pool_ok(),
            feature_id < self.feature_pool.features@.len(),
        ensures
            r == feat_dim(self.feature_pool.features@[feature_id as int]),
    {
        self.feature_pool.get_feature_vector_dim(feature_id)
    }

    /// The number of pooled features.
    pub fn get_feature_pool_size(&self) -> (r: usize)
        ensures
            r == self.feature_pool.features@.len(),
    {
        self.feature_pool.size()
    }
}


impl crate::feat::FeatureMap for SurfMlpFeatureMap {
    /// The SURF map accepts any valid view with two-pixel-wide gradients
    /// whose eight-channel plane fits in memory.
    open spec fn accepts(&self, image: &ImageData<'_>) -> bool {
        &&& self.pool_ok()
        &&& image.valid()
        &&& 2 <= image.width
        &&& 2 <= image.height
        &&& image.width * image.height * 8 <= usize::MAX
    }

    /// Digesting fills the integral plane from exactly the view's pixels
    /// and leaves the pool and the descriptor buffers as they were.
    open spec fn digested(pre: &Self, post: &Self, image: &ImageData<'_>) -> bool {
        &&& post.computed()
        &&& post.pool_ok()
        &&& post.src@ == image.data@
        &&& post.width == image.width
        &&& post.height == image.height
        &&& post.feature_pool == pre.feature_pool
        &&& post.feature_vectors == pre.feature_vectors
    }

    fn compute(&mut self, image: &ImageData<'_>) {
        self.compute_map(image);
    }
}

} // verus!
