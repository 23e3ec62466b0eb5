//! Element-wise kernels over contiguous buffers. All fixed-point results
//! are stated exactly; sums and differences that overflow wrap around,
//! matching the two's-complement behaviour the integral images rely on.

use crate::arith::{lemma_mod_range, lemma_wrap_i32_id, lemma_wrapping_add_i32, lemma_wrapping_sub_i32, pow2_32, wrap_i32, wrap_u32};
use vstd::prelude::*;

verus! {

/// Zero-extend bytes into the first `src.len()` slots of `dest`; the
/// tail of `dest` is left as it was.
pub fn copy_u8_to_i32(src: &[u8], dest: &mut Vec<i32>)
    requires
        src@.len() <= old(dest)@.len(),
    ensures
        final(dest)@.len() == old(dest)@.len(),
        forall|i: int| 0 <= i < src@.len() ==> final(dest)@[i] == src@[i] as i32,
        forall|i: int| src@.len() <= i < old(dest)@.len() ==> final(dest)@[i] == old(dest)@[i],
{
    let mut i: usize = 0;
    while i < src.len()
        invariant
            i <= src@.len() <= dest@.len(),
            dest@.len() == old(dest)@.len(),
            forall|j: int| 0 <= j < i ==> dest@[j] == src@[j] as i32,
            forall|j: int| i <= j < old(dest)@.len() ==> dest@[j] == old(dest)@[j],
        decreases src@.len() - i,
    {
        let v = src[i];
        dest[i] = v as i32;
        i += 1;
    }
}

/// `dest[i]` receives the square of `src[i]`, reduced modulo 2^32; the
/// squared-intensity integral expects exactly this wrap-around.
pub fn square(src: &[i32], dest: &mut Vec<u32>)
    requires
        src@.len() <= old(dest)@.len(),
    ensures
        final(dest)@.len() == old(dest)@.len(),
        forall|i: int| 0 <= i < src@.len() ==> final(dest)@[i] == wrap_u32(src@[i] * src@[i]),
        forall|i: int| src@.len() <= i < old(dest)@.len() ==> final(dest)@[i] == old(dest)@[i],
{
    let mut i: usize = 0;
    while i < src.len()
        invariant
            i <= src@.len() <= dest@.len(),
            dest@.len() == old(dest)@.len(),
            forall|j: int| 0 <= j < i ==> dest@[j] == wrap_u32(src@[j] * src@[j]),
            forall|j: int| i <= j < old(dest)@.len() ==> dest@[j] == old(dest)@[j],
        decreases src@.len() - i,
    {
        let v = src[i] as i64;
        proof {
            assert(0 <= v * v < 0x8000_0000_0000_0000) by (nonlinear_arith)
                requires
                    -0x8000_0000 <= v <= 0x7fff_ffff,
            ;
        }
        let p = v * v;
        let r = p % 0x1_0000_0000i64;
        proof {
            lemma_mod_range(p as int);
            assert(r == (p as int) % pow2_32());
        }
        dest[i] = r as u32;
        i += 1;
    }
}

/// Signed absolute value, element by element. `i32::MIN` has no i32
/// absolute value and is excluded.
pub fn abs(src: &[i32], dest: &mut Vec<i32>)
    requires
        src@.len() <= old(dest)@.len(),
        forall|i: int| 0 <= i < src@.len() ==> src@[i] != i32::MIN,
    ensures
        final(dest)@.len() == old(dest)@.len(),
        forall|i: int|
            0 <= i < src@.len() ==> final(dest)@[i] == (if src@[i] >= 0 {
                src@[i] as int
            } else {
                -(src@[i] as int)
            }),
        forall|i: int| src@.len() <= i < old(dest)@.len() ==> final(dest)@[i] == old(dest)@[i],
{
    let mut i: usize = 0;
    while i < src.len()
        invariant
            i <= src@.len() <= dest@.len(),
            dest@.len() == old(dest)@.len(),
            forall|j: int| 0 <= j < src@.len() ==> src@[j] != i32::MIN,
            forall|j: int|
                0 <= j < i ==> dest@[j] == (if src@[j] >= 0 {
                    src@[j] as int
                } else {
                    -(src@[j] as int)
                }),
            forall|j: int| i <= j < old(dest)@.len() ==> dest@[j] == old(dest)@[j],
        decreases src@.len() - i,
    {
        let v = src[i];
        dest[i] = if v >= 0 {
            v
        } else {
            -v
        };
        i += 1;
    }
}

/// Element-wise sum modulo 2^32. When the exact sum fits in an i32 the
/// result is that sum.
pub fn vector_add(left: &[i32], right: &[i32], dest: &mut Vec<i32>)
    requires
        left@.len() == right@.len(),
        left@.len() <= old(dest)@.len(),
    ensures
        final(dest)@.len() == old(dest)@.len(),
        forall|i: int| 0 <= i < left@.len() ==> final(dest)@[i] == wrap_i32(left@[i] + right@[i]),
        forall|i: int| left@.len() <= i < old(dest)@.len() ==> final(dest)@[i] == old(dest)@[i],
{
    let mut i: usize = 0;
    while i < left.len()
        invariant
            i <= left@.len() <= dest@.len(),
            left@.len() == right@.len(),
            dest@.len() == old(dest)@.len(),
            forall|j: int| 0 <= j < i ==> dest@[j] == wrap_i32(left@[j] + right@[j]),
            forall|j: int| i <= j < old(dest)@.len() ==> dest@[j] == old(dest)@[j],
        decreases left@.len() - i,
    {
        let a = left[i];
        let b = right[i];
        proof {
            lemma_wrapping_add_i32(a, b);
        }
        dest[i] = a.wrapping_add(b);
        i += 1;
    }
}

/// Element-wise difference modulo 2^32. When the exact difference fits
/// in an i32 the result is that difference.
pub fn vector_sub(left: &[i32], right: &[i32], dest: &mut Vec<i32>)
    requires
        left@.len() == right@.len(),
        left@.len() <= old(dest)@.len(),
    ensures
        final(dest)@.len() == old(dest)@.len(),
        forall|i: int| 0 <= i < left@.len() ==> final(dest)@[i] == wrap_i32(left@[i] - right@[i]),
        forall|i: int| left@.len() <= i < old(dest)@.len() ==> final(dest)@[i] == old(dest)@[i],
{
    let mut i: usize = 0;
    while i < left.len()
        invariant
            i <= left@.len() <= dest@.len(),
            left@.len() == right@.len(),
            dest@.len() == old(dest)@.len(),
            forall|j: int| 0 <= j < i ==> dest@[j] == wrap_i32(left@[j] - right@[j]),
            forall|j: int| i <= j < old(dest)@.len() ==> dest@[j] == old(dest)@[j],
        decreases left@.len() - i,
    {
        let a = left[i];
        let b = right[i];
        proof {
            lemma_wrapping_sub_i32(a, b);
        }
        dest[i] = a.wrapping_sub(b);
        i += 1;
    }
}

/// Sums that stay inside the i32 range are computed exactly by
/// `vector_add`; this is the overflow-free reading of its contract.
pub proof fn lemma_vector_add_exact(a: int, b: int)
    requires
        i32::MIN <= a + b <= i32::MAX,
    ensures
        wrap_i32(a + b) == a + b,
{
    lemma_wrap_i32_id(a + b);
}

/// Differences that stay inside the i32 range are computed exactly by
/// `vector_sub`.
pub proof fn lemma_vector_sub_exact(a: int, b: int)
    requires
        i32::MIN <= a - b <= i32::MAX,
    ensures
        wrap_i32(a - b) == a - b,
{
    lemma_wrap_i32_id(a - b);
}

} // verus!
