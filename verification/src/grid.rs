//! Row-major grid arithmetic shared by the bitmap decoder and the
//! compositor: bounds and injectivity of the cell-to-linear-index map.

use vstd::prelude::*;

verus! {

/// A cell (x, y) of a w-by-h row-major grid lies at a linear index inside
/// the grid.
pub proof fn lemma_row_major_bounds(w: int, h: int, x: int, y: int)
    by (nonlinear_arith)
    requires
        0 <= x < w,
        0 <= y < h,
    ensures
        0 <= y * w + x < w * h,
        y * w + x < h * w,
{
}

/// Distinct cells of a row-major grid have distinct linear indices.
pub proof fn lemma_row_major_injective(w: int, x1: int, y1: int, x2: int, y2: int)
    by (nonlinear_arith)
    requires
        0 <= x1 < w,
        0 <= x2 < w,
        0 <= y1,
        0 <= y2,
        x1 != x2 || y1 != y2,
    ensures
        y1 * w + x1 != y2 * w + x2,
{
}

/// Every byte index of a four-byte-per-cell row-major grid decomposes into a
/// cell inside the grid and a channel: the inverse of the cell-to-index map.
pub proof fn lemma_byte_decompose(t: int, w: int, h: int)
    requires
        0 <= w,
        0 <= h,
        0 <= t < 4 * (w * h),
    ensures
        0 <= t % 4 < 4,
        0 <= (t / 4) % w < w,
        0 <= (t / 4) / w < h,
        4 * (((t / 4) / w) * w + ((t / 4) % w)) + t % 4 == t,
{
    assert(0 < w && 0 < h) by (nonlinear_arith)
        requires
            0 <= w,
            0 <= h,
            0 < w * h,
    ;
    vstd::arithmetic::div_mod::lemma_fundamental_div_mod(t, 4);
    vstd::arithmetic::div_mod::lemma_mod_bound(t, 4);
    vstd::arithmetic::div_mod::lemma_div_pos_is_pos(t, 4);
    let p = t / 4;
    vstd::arithmetic::div_mod::lemma_multiply_divide_lt(t, 4, w * h);
    vstd::arithmetic::div_mod::lemma_fundamental_div_mod(p, w);
    vstd::arithmetic::div_mod::lemma_mod_bound(p, w);
    vstd::arithmetic::div_mod::lemma_div_pos_is_pos(p, w);
    vstd::arithmetic::div_mod::lemma_multiply_divide_lt(p, w, h);
    assert(w * (p / w) == (p / w) * w) by (nonlinear_arith);
}

/// Distinct (cell, channel) pairs of a four-byte-per-cell row-major grid lie
/// at distinct byte indices.
pub proof fn lemma_pixel_byte_injective(
    w: int,
    x1: int,
    y1: int,
    k1: int,
    x2: int,
    y2: int,
    k2: int,
)
    requires
        0 <= x1 < w,
        0 <= x2 < w,
        0 <= y1,
        0 <= y2,
        0 <= k1 < 4,
        0 <= k2 < 4,
        !(x1 == x2 && y1 == y2 && k1 == k2),
    ensures
        4 * (y1 * w + x1) + k1 != 4 * (y2 * w + x2) + k2,
{
    if x1 != x2 || y1 != y2 {
        lemma_row_major_injective(w, x1, y1, x2, y2);
    }
}

} // verus!
