//! Shared geometry and image-view types.

use vstd::prelude::*;

verus! {

/// An axis-aligned rectangle. The origin may be negative: detection
/// windows can extend outside the image before padding clamps them.
#[derive(Clone, Copy, Debug)]
pub struct Rectangle {
    pub x: i32,
    pub y: i32,
    pub width: u32,
    pub height: u32,
}

impl Rectangle {
    pub fn new(x: i32, y: i32, width: u32, height: u32) -> (r: Rectangle)
        ensures
            r.x == x,
            r.y == y,
            r.width == width,
            r.height == height,
    {
        Rectangle { x, y, width, height }
    }

    pub fn x(&self) -> (r: i32)
        ensures
            r == self.x,
    {
        self.x
    }

    pub fn set_x(&mut self, x: i32)
        ensures
            *final(self) == (Rectangle { x, ..*old(self) }),
    {
        self.x = x;
    }

    pub fn y(&self) -> (r: i32)
        ensures
            r == self.y,
    {
        self.y
    }

    pub fn set_y(&mut self, y: i32)
        ensures
            *final(self) == (Rectangle { y, ..*old(self) }),
    {
        self.y = y;
    }

    pub fn width(&self) -> (r: u32)
        ensures
            r == self.width,
    {
        self.width
    }

    pub fn set_width(&mut self, width: u32)
        ensures
            *final(self) == (Rectangle { width, ..*old(self) }),
    {
        self.width = width;
    }

    pub fn height(&self) -> (r: u32)
        ensures
            r == self.height,
    {
        self.height
    }

    pub fn set_height(&mut self, height: u32)
        ensures
            *final(self) == (Rectangle { height, ..*old(self) }),
    {
        self.height = height;
    }
}

/// A borrowed view of an 8-bit grayscale plane: `data` holds the pixels
/// row-major, with stride equal to `width` and a single channel.
#[derive(Debug)]
pub struct ImageData<'a> {
    pub data: &'a [u8],
    pub width: u32,
    pub height: u32,
    pub num_channels: u32,
}

impl<'a> ImageData<'a> {
    /// The well-formedness every consumer of a view relies on.
    pub open spec fn valid(&self) -> bool {
        &&& self.data@.len() == self.width * self.height
        &&& self.num_channels == 1
    }

    pub fn new(data: &'a [u8], width: u32, height: u32) -> (r: ImageData<'a>)
        requires
            data@.len() == width * height,
        ensures
            r.data@ == data@,
            r.width == width,
            r.height == height,
            r.num_channels == 1,
            r.valid(),
    {
        ImageData { data, width, height, num_channels: 1 }
    }

    pub fn width(&self) -> (r: u32)
        ensures
            r == self.width,
    {
        self.width
    }

    pub fn height(&self) -> (r: u32)
        ensures
            r == self.height,
    {
        self.height
    }

    pub fn num_channels(&self) -> (r: u32)
        ensures
            r == self.num_channels,
    {
        self.num_channels
    }

    pub fn data(&self) -> (r: &'a [u8])
        ensures
            r@ == self.data@,
    {
        self.data
    }
}

/// An image is accepted by the detector when it is single-channel with
/// non-zero dimensions.
pub fn is_legal_image(image: &ImageData<'_>) -> (r: bool)
    ensures
        r == (image.num_channels == 1 && image.width > 0 && image.height > 0),
{
    image.num_channels == 1 && image.width > 0 && image.height > 0
}


/// An arithmetic progression of 32-bit integers: a first element and a
/// fixed step. The detector's sliding-window positions and the feature
/// pool's patch sizes are walks of such progressions.
pub struct Progression {
    pub start: i32,
    pub step: i32,
}

impl Progression {
    pub fn new(first_element: i32, step: i32) -> (r: Progression)
        ensures
            r.start == first_element,
            r.step == step,
    {
        Progression { start: first_element, step }
    }

    /// The first `n` elements.
    #[verifier::loop_isolation(false)]
    pub fn take(self, n: usize) -> (r: Vec<i32>)
        requires
            n == 0 || (i32::MIN <= self.start + (n - 1) * self.step
                && self.start + (n - 1) * self.step <= i32::MAX),
        ensures
            r@.len() == n,
            forall|k: int| 0 <= k < n ==> r@[k] == self.start + k * self.step,
    {
        let mut out: Vec<i32> = Vec::new();
        let mut i: usize = 0;
        let mut cur = self.start;
        while i < n
            invariant
                i <= n,
                out@.len() == i,
                i < n ==> cur == self.start + i * self.step,
                forall|k: int| 0 <= k < i ==> out@[k] == self.start + k * self.step,
            decreases n - i,
        {
            proof {
                assert(i32::MIN <= self.start + i * self.step <= i32::MAX) by (nonlinear_arith)
                    requires
                        0 <= i <= n - 1,
                        i32::MIN <= self.start + (n - 1) * self.step <= i32::MAX,
                        i32::MIN <= self.start <= i32::MAX,
                ;
                assert(self.start + (i + 1) * self.step == self.start + i * self.step + self.step)
                    by (nonlinear_arith);
            }
            out.push(cur);
            i += 1;
            if i < n {
                proof {
                    assert(i32::MIN <= self.start + i * self.step <= i32::MAX) by (nonlinear_arith)
                        requires
                            0 <= i <= n - 1,
                            i32::MIN <= self.start + (n - 1) * self.step <= i32::MAX,
                            i32::MIN <= self.start <= i32::MAX,
                    ;
                }
                cur = cur + self.step;
            }
        }
        out
    }

    /// All leading elements below `limit`; the progression must climb.
    #[verifier::loop_isolation(false)]
    pub fn take_while_lt(self, limit: i32) -> (r: Vec<i32>)
        requires
            1 <= self.step,
            limit + self.step <= i32::MAX,
        ensures
            forall|k: int|
                0 <= k < r@.len() ==> #[trigger] r@[k] == self.start + k * self.step && r@[k]
                    < limit,
            self.start + r@.len() * self.step >= limit,
    {
        let mut out: Vec<i32> = Vec::new();
        let mut cur = self.start;
        proof {
            assert(0 * self.step == 0) by (nonlinear_arith);
        }
        while cur < limit
            invariant
                cur == self.start + out@.len() * self.step,
                self.start <= cur,
                forall|k: int|
                    0 <= k < out@.len() ==> #[trigger] out@[k] == self.start + k * self.step
                        && out@[k] < limit,
            decreases limit + self.step - cur,
        {
            out.push(cur);
            proof {
                assert(self.start + out@.len() * self.step == self.start + (out@.len() - 1)
                    * self.step + self.step) by (nonlinear_arith);
            }
            cur = cur + self.step;
        }
        out
    }

    /// All leading elements up to and including `limit`; the progression
    /// must climb.
    #[verifier::loop_isolation(false)]
    pub fn take_while_le(self, limit: i32) -> (r: Vec<i32>)
        requires
            1 <= self.step,
            limit + self.step <= i32::MAX - 1,
        ensures
            forall|k: int|
                0 <= k < r@.len() ==> #[trigger] r@[k] == self.start + k * self.step && r@[k]
                    <= limit,
            self.start + r@.len() * self.step > limit,
    {
        let mut out: Vec<i32> = Vec::new();
        let mut cur = self.start;
        proof {
            assert(0 * self.step == 0) by (nonlinear_arith);
        }
        while cur <= limit
            invariant
                cur == self.start + out@.len() * self.step,
                self.start <= cur,
                forall|k: int|
                    0 <= k < out@.len() ==> #[trigger] out@[k] == self.start + k * self.step
                        && out@[k] <= limit,
            decreases limit + self.step - cur,
        {
            out.push(cur);
            proof {
                assert(self.start + out@.len() * self.step == self.start + (out@.len() - 1)
                    * self.step + self.step) by (nonlinear_arith);
            }
            cur = cur + self.step;
        }
        out
    }
}

} // verus!
