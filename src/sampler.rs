use vstd::arithmetic::div_mod::{
    lemma_fundamental_div_mod,
    lemma_fundamental_div_mod_converse,
    lemma_mod_pos_bound,
};
use vstd::prelude::*;

verus! {

/// Column and row, each from 1 to `n`, of grid cell `idx` when an `n` by `n` grid
/// is read column by column, each column from row 1 to row `n`.
pub open spec fn grid_position(n: int, idx: int) -> (int, int) {
    (idx / n + 1, idx % n + 1)
}

/// The grid cell of the `k`-th sample of a pixel sampled on an `n` by `n` grid:
/// the cells are visited in grid order, starting halfway through and wrapping
/// around, so that an early stop has already seen the cells near the middle.
pub open spec fn sample_position(n: int, k: int) -> (int, int) {
    grid_position(n, (k + (n * n) / 2) % (n * n))
}

proof fn lemma_grid_position_in_range(n: int, idx: int)
    requires
        n > 0,
        0 <= idx < n * n,
    ensures
        0 <= idx / n < n,
        0 <= idx % n < n,
{
    lemma_fundamental_div_mod(idx, n);
    lemma_mod_pos_bound(idx, n);
    let q = idx / n;
    let r = idx % n;
    assert(0 <= q < n) by (nonlinear_arith)
        requires n * q + r == idx, 0 <= idx < n * n, 0 <= r < n, n > 0;
}

/// The grid cells at which a pixel is sampled, in the order in which they are
/// visited, for a grid of `sqrt_samples_per_pixel` cells along each side.
pub fn sample_order(sqrt_samples_per_pixel: u8) -> (r: Vec<(u8, u8)>)
    requires
        sqrt_samples_per_pixel > 0,
    ensures
        r@.len() == sqrt_samples_per_pixel * sqrt_samples_per_pixel,
        forall|k: int|
            0 <= k < r@.len() ==> ((#[trigger] r@[k]).0 as int, r@[k].1 as int) == sample_position(
                sqrt_samples_per_pixel as int,
                k,
            ),
{
    let n = sqrt_samples_per_pixel as usize;
    assert(n * n <= 255 * 255) by (nonlinear_arith)
        requires n <= 255;
    let total: usize = n * n;
    let start: usize = total / 2;
    let mut order: Vec<(u8, u8)> = Vec::with_capacity(total);
    let mut k: usize = 0;
    while k < total
        invariant
            n == sqrt_samples_per_pixel,
            0 < n <= 255,
            total == n * n,
            total <= 255 * 255,
            start == total / 2,
            k <= total,
            order@.len() == k,
            forall|j: int|
                0 <= j < k ==> ((#[trigger] order@[j]).0 as int, order@[j].1 as int) == sample_position(
                    n as int,
                    j,
                ),
        decreases total - k,
    {
        let idx: usize = if k + start < total {
            k + start
        } else {
            k + start - total
        };
        proof {
            if k + start < total {
                lemma_fundamental_div_mod_converse(k + start, total as int, 0, idx as int);
            } else {
                lemma_fundamental_div_mod_converse(k + start, total as int, 1, idx as int);
            }
            lemma_grid_position_in_range(n as int, idx as int);
        }
        let column = (idx / n + 1) as u8;
        let row = (idx % n + 1) as u8;
        order.push((column, row));
        k = k + 1;
    }
    order
}

/// Some sample of an `n` by `n` grid falls in the cell at column `i` and row `j`.
pub open spec fn visited(n: int, i: int, j: int) -> bool {
    exists|k: int| 0 <= k < n * n && #[trigger] sample_position(n, k) == (i, j)
}

/// The visiting order is a permutation of the grid: every cell is visited, and
/// no cell twice.
pub proof fn lemma_sample_order_visits_each_cell_once(n: int)
    requires
        n > 0,
    ensures
        forall|i: int, j: int| 1 <= i <= n && 1 <= j <= n ==> #[trigger] visited(n, i, j),
        forall|k1: int, k2: int|
            0 <= k1 < n * n && 0 <= k2 < n * n && #[trigger] sample_position(n, k1) == #[trigger] sample_position(
                n,
                k2,
            ) ==> k1 == k2,
{
    let total = n * n;
    let start = total / 2;
    assert(total > 0) by (nonlinear_arith)
        requires n > 0, total == n * n;
    assert forall|i: int, j: int| 1 <= i <= n && 1 <= j <= n implies #[trigger] visited(n, i, j) by {
        let idx = (i - 1) * n + (j - 1);
        assert(0 <= idx < total) by (nonlinear_arith)
            requires 1 <= i <= n, 1 <= j <= n, idx == (i - 1) * n + (j - 1), total == n * n;
        lemma_fundamental_div_mod_converse(idx, n, i - 1, j - 1);
        let k = if idx >= start { idx - start } else { idx + total - start };
        if idx >= start {
            lemma_fundamental_div_mod_converse(k + start, total, 0, idx);
        } else {
            lemma_fundamental_div_mod_converse(k + start, total, 1, idx);
        }
        assert(sample_position(n, k) == (i, j));
    }
    assert forall|k1: int, k2: int|
        0 <= k1 < n * n && 0 <= k2 < n * n && #[trigger] sample_position(n, k1) == #[trigger] sample_position(
            n,
            k2,
        ) implies k1 == k2 by {
        let idx1 = (k1 + start) % total;
        let idx2 = (k2 + start) % total;
        lemma_fundamental_div_mod(idx1, n);
        lemma_fundamental_div_mod(idx2, n);
        assert(idx1 == idx2);
        if k1 + start < total {
            lemma_fundamental_div_mod_converse(k1 + start, total, 0, k1 + start);
        } else {
            lemma_fundamental_div_mod_converse(k1 + start, total, 1, k1 + start - total);
        }
        if k2 + start < total {
            lemma_fundamental_div_mod_converse(k2 + start, total, 0, k2 + start);
        } else {
            lemma_fundamental_div_mod_converse(k2 + start, total, 1, k2 + start - total);
        }
    }
}

/// Offset of grid cell `position` (from 1 to `n`) from the middle of the pixel,
/// in units of `1 / n` of the pixel's extent.
pub open spec fn offset_numerator(n: int, position: int) -> int {
    2 * position - n - 1
}

/// The offset of a grid cell from the middle of the pixel, as a multiple of
/// `1 / sqrt_samples_per_pixel` of the pixel's extent.
pub fn sample_offset_numerator(position: u8, sqrt_samples_per_pixel: u8) -> (r: i16)
    requires
        1 <= position <= sqrt_samples_per_pixel,
    ensures
        r == offset_numerator(sqrt_samples_per_pixel as int, position as int),
{
    2 * (position as i16) - (sqrt_samples_per_pixel as i16) - 1
}

/// The grid is centered on the pixel: cells at the same distance from either
/// edge have opposite offsets, and neighbouring cells are evenly spaced.
pub proof fn lemma_offsets_centered(n: int, position: int)
    requires
        1 <= position <= n,
    ensures
        offset_numerator(n, position) + offset_numerator(n, n + 1 - position) == 0,
        position < n ==> offset_numerator(n, position + 1) - offset_numerator(n, position) == 2,
        -n < offset_numerator(n, position) < n,
{
}

} // verus!
