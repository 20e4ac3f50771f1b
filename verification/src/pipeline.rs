//! Dispatch geometry and shader words for compute passes.
use vstd::prelude::*;
use crate::bytes::{le_u32_words, le_u32_words_from};

verus! {

/// The 2D grid a flat workgroup count is split into when a device caps the
/// x dimension at `max_x` (a cap of 0 is treated as 1): `gx` is the count
/// itself when it fits (and at least 1), else the cap; `gy` is the least
/// number of rows of `gx` groups that cover the count.
pub open spec fn split_groups_spec(groups: u32, max_x: u32) -> (u32, u32) {
    let m: u32 = if max_x == 0 { 1 } else { max_x };
    let gx: u32 = if groups == 0 { 1 } else if groups < m { groups } else { m };
    let gy: u32 = if groups % gx == 0 { groups / gx } else { (groups / gx + 1) as u32 };
    (gx, gy)
}

proof fn lemma_ceil_div(n: int, d: int)
    requires
        0 <= n,
        0 < d,
    ensures
        ({
            let q = if n % d == 0 { n / d } else { n / d + 1 };
            &&& d * q >= n
            &&& n > 0 ==> d * (q - 1) < n
            &&& q <= n
            &&& n > 0 ==> q >= 1
        }),
{
    vstd::arithmetic::div_mod::lemma_fundamental_div_mod(n, d);
    vstd::arithmetic::div_mod::lemma_mod_bound(n, d);
    vstd::arithmetic::div_mod::lemma_div_pos_is_pos(n, d);
    let q0 = n / d;
    let r = n % d;
    assert(n == d * q0 + r);
    assert(d * (q0 + 1) == d * q0 + d) by (nonlinear_arith);
    assert(d * (q0 - 1) == d * q0 - d) by (nonlinear_arith);
    assert(d * q0 >= q0) by (nonlinear_arith)
        requires
            d >= 1,
            q0 >= 0,
    ;
    if r != 0 {
        assert(q0 + 1 <= n) by (nonlinear_arith)
            requires
                n == d * q0 + r,
                d >= 1,
                q0 >= 0,
                0 < r < d,
        ;
    } else if n > 0 {
        assert(q0 >= 1) by (nonlinear_arith)
            requires
                n == d * q0,
                d >= 1,
                n > 0,
        ;
    }
}

/// Splits a flat workgroup count into an `(x, y)` dispatch grid whose x
/// extent respects the device limit `max_x`.
pub fn split_groups(groups: u32, max_x: u32) -> (r: (u32, u32))
    ensures
        r == split_groups_spec(groups, max_x),
        1 <= r.0,
        r.0 <= groups || groups == 0,
        r.0 <= max_x || max_x == 0,
        r.0 as int * r.1 as int >= groups as int,
        groups > 0 ==> r.0 as int * (r.1 as int - 1) < groups as int,
        groups > 0 ==> r.1 >= 1,
        groups == 0 ==> r.1 == 0,
{
    let m: u32 = if max_x == 0 { 1 } else { max_x };
    let gx: u32 = if groups == 0 { 1 } else if groups < m { groups } else { m };
    proof {
        lemma_ceil_div(groups as int, gx as int);
    }
    let gy: u32 = if groups % gx == 0 { groups / gx } else { groups / gx + 1 };
    (gx, gy)
}

/// The dispatch grid for `groups` workgroups on a device whose grid is
/// capped at `max_x` by `max_y`: the split of `split_groups`, or `None` when
/// its row count exceeds `max_y` and the dispatch cannot be issued.
pub fn plan_dispatch(groups: u32, max_x: u32, max_y: u32) -> (r: Option<(u32, u32)>)
    ensures
        r == (if split_groups_spec(groups, max_x).1 <= max_y {
            Some(split_groups_spec(groups, max_x))
        } else {
            None
        }),
{
    let (gx, gy) = split_groups(groups, max_x);
    if gy <= max_y {
        Some((gx, gy))
    } else {
        None
    }
}

/// Workgroups of 64 invocations needed to cover `invocations` elements.
pub open spec fn workgroup_count_spec(invocations: u32) -> u32 {
    if invocations % 64 == 0 { invocations / 64 } else { (invocations / 64 + 1) as u32 }
}

/// Number of 64-wide workgroups that cover `invocations` elements (the
/// ceiling of `invocations / 64`).
pub fn workgroup_count(invocations: u32) -> (r: u32)
    ensures
        r == workgroup_count_spec(invocations),
        64 * r as int >= invocations as int,
        invocations > 0 ==> 64 * (r as int - 1) < invocations as int,
{
    proof {
        lemma_ceil_div(invocations as int, 64);
    }
    if invocations % 64 == 0 {
        invocations / 64
    } else {
        invocations / 64 + 1
    }
}

/// The SPIR-V words of a shader binary: its bytes read as consecutive
/// little-endian `u32`s. A binary whose length is not a multiple of four is
/// malformed and is not accepted.
pub fn spv_words(bytes: &[u8]) -> (r: Vec<u32>)
    requires
        bytes@.len() % 4 == 0,
    ensures
        r@ == le_u32_words(bytes@),
        4 * r@.len() == bytes@.len(),
{
    let r = le_u32_words_from(bytes, 0);
    assert(bytes@.subrange(0, bytes@.len() as int) =~= bytes@);
    r
}

} // verus!
