//! Two's-complement wrap-around arithmetic, stated over mathematical
//! integers. The integral-image planes intentionally overflow, so their
//! contracts are phrased with `wrap_i32` / `wrap_u32`.

use vstd::arithmetic::div_mod::*;
use vstd::prelude::*;

verus! {

pub open spec fn pow2_32() -> int {
    0x1_0000_0000
}

/// The i32 whose two's-complement bits encode `x` modulo 2^32.
pub open spec fn wrap_i32(x: int) -> i32 {
    let m = x % pow2_32();
    if m >= 0x8000_0000 {
        (m - pow2_32()) as i32
    } else {
        m as i32
    }
}

/// The u32 congruent to `x` modulo 2^32.
pub open spec fn wrap_u32(x: int) -> u32 {
    (x % pow2_32()) as u32
}

pub proof fn lemma_mod_range(x: int)
    ensures
        0 <= x % pow2_32() < pow2_32(),
{
    lemma_mod_bound(x, pow2_32());
}

/// Integers congruent modulo 2^32 wrap to the same i32.
pub proof fn lemma_wrap_i32_congruent(x: int, y: int)
    requires
        (x - y) % pow2_32() == 0,
    ensures
        wrap_i32(x) == wrap_i32(y),
{
    lemma_mod_equivalence(x, y, pow2_32());
}

pub proof fn lemma_wrap_u32_congruent(x: int, y: int)
    requires
        (x - y) % pow2_32() == 0,
    ensures
        wrap_u32(x) == wrap_u32(y),
{
    lemma_mod_equivalence(x, y, pow2_32());
}

/// Wrapping an in-range value is the identity.
pub proof fn lemma_wrap_i32_id(x: int)
    requires
        i32::MIN <= x <= i32::MAX,
    ensures
        wrap_i32(x) == x,
{
    if x >= 0 {
        lemma_small_mod(x as nat, pow2_32() as nat);
    } else {
        lemma_small_mod((x + pow2_32()) as nat, pow2_32() as nat);
        lemma_mod_equivalence(x, x + pow2_32(), pow2_32());
    }
}

pub proof fn lemma_wrap_u32_id(x: int)
    requires
        0 <= x <= u32::MAX,
    ensures
        wrap_u32(x) == x,
{
    lemma_small_mod(x as nat, pow2_32() as nat);
}

/// A wrapped value is congruent to the original modulo 2^32.
pub proof fn lemma_wrap_i32_mod(x: int)
    ensures
        (x - wrap_i32(x)) % pow2_32() == 0,
{
    lemma_fundamental_div_mod(x, pow2_32());
    let m = x % pow2_32();
    lemma_mod_range(x);
    if m >= 0x8000_0000 {
        lemma_mod_multiples_vanish(x / pow2_32() + 1, 0, pow2_32());
    } else {
        lemma_mod_multiples_vanish(x / pow2_32(), 0, pow2_32());
    }
}

pub proof fn lemma_wrap_u32_mod(x: int)
    ensures
        (x - wrap_u32(x)) % pow2_32() == 0,
{
    lemma_fundamental_div_mod(x, pow2_32());
    lemma_mod_range(x);
    lemma_mod_multiples_vanish(x / pow2_32(), 0, pow2_32());
}

/// The executable `i32::wrapping_add` computes `wrap_i32` of the exact sum.
pub proof fn lemma_wrapping_add_i32(a: i32, b: i32)
    ensures
        a.wrapping_add(b) == wrap_i32(a + b),
{
    let s = a + b;
    if s > i32::MAX {
        lemma_wrap_i32_id(s - pow2_32());
        lemma_wrap_i32_congruent(s, s - pow2_32());
    } else if s < i32::MIN {
        lemma_wrap_i32_id(s + pow2_32());
        lemma_wrap_i32_congruent(s, s + pow2_32());
    } else {
        lemma_wrap_i32_id(s);
    }
}

pub proof fn lemma_wrapping_sub_i32(a: i32, b: i32)
    ensures
        a.wrapping_sub(b) == wrap_i32(a - b),
{
    let s = a - b;
    if s > i32::MAX {
        lemma_wrap_i32_id(s - pow2_32());
        lemma_wrap_i32_congruent(s, s - pow2_32());
    } else if s < i32::MIN {
        lemma_wrap_i32_id(s + pow2_32());
        lemma_wrap_i32_congruent(s, s + pow2_32());
    } else {
        lemma_wrap_i32_id(s);
    }
}

pub proof fn lemma_wrapping_add_u32(a: u32, b: u32)
    ensures
        a.wrapping_add(b) == wrap_u32(a + b),
{
    let s = a + b;
    if s > u32::MAX {
        lemma_wrap_u32_id(s - pow2_32());
        lemma_wrap_u32_congruent(s, s - pow2_32());
    } else {
        lemma_wrap_u32_id(s);
    }
}

pub proof fn lemma_wrapping_sub_u32(a: u32, b: u32)
    ensures
        a.wrapping_sub(b) == wrap_u32(a - b),
{
    let s = a - b;
    if s < 0 {
        lemma_wrap_u32_id(s + pow2_32());
        lemma_wrap_u32_congruent(s, s + pow2_32());
    } else {
        lemma_wrap_u32_id(s);
    }
}

/// Adding wrapped summands wraps the exact sum.
pub proof fn lemma_wrap_i32_add(x: int, y: int)
    ensures
        wrap_i32(x).wrapping_add(wrap_i32(y)) == wrap_i32(x + y),
{
    lemma_wrapping_add_i32(wrap_i32(x), wrap_i32(y));
    lemma_wrap_i32_mod(x);
    lemma_wrap_i32_mod(y);
    let dx = x - wrap_i32(x);
    let dy = y - wrap_i32(y);
    lemma_add_mod_noop(dx, dy, pow2_32());
    lemma_wrap_i32_congruent(x + y, wrap_i32(x) + wrap_i32(y));
}

pub proof fn lemma_wrap_i32_sub(x: int, y: int)
    ensures
        wrap_i32(x).wrapping_sub(wrap_i32(y)) == wrap_i32(x - y),
{
    lemma_wrapping_sub_i32(wrap_i32(x), wrap_i32(y));
    lemma_wrap_i32_mod(x);
    lemma_wrap_i32_mod(y);
    let dx = x - wrap_i32(x);
    let dy = y - wrap_i32(y);
    lemma_sub_mod_noop(dx, dy, pow2_32());
    lemma_wrap_i32_congruent(x - y, wrap_i32(x) - wrap_i32(y));
}

pub proof fn lemma_wrap_u32_add(x: int, y: int)
    ensures
        wrap_u32(x).wrapping_add(wrap_u32(y)) == wrap_u32(x + y),
{
    lemma_wrapping_add_u32(wrap_u32(x), wrap_u32(y));
    lemma_wrap_u32_mod(x);
    lemma_wrap_u32_mod(y);
    let dx = x - wrap_u32(x);
    let dy = y - wrap_u32(y);
    lemma_add_mod_noop(dx, dy, pow2_32());
    lemma_wrap_u32_congruent(x + y, wrap_u32(x) + wrap_u32(y));
}

pub proof fn lemma_wrap_u32_sub(x: int, y: int)
    ensures
        wrap_u32(x).wrapping_sub(wrap_u32(y)) == wrap_u32(x - y),
{
    lemma_wrapping_sub_u32(wrap_u32(x), wrap_u32(y));
    lemma_wrap_u32_mod(x);
    lemma_wrap_u32_mod(y);
    let dx = x - wrap_u32(x);
    let dy = y - wrap_u32(y);
    lemma_sub_mod_noop(dx, dy, pow2_32());
    lemma_wrap_u32_congruent(x - y, wrap_u32(x) - wrap_u32(y));
}

} // verus!
