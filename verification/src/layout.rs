use vstd::arithmetic::div_mod::{
    lemma_div_pos_is_pos, lemma_fundamental_div_mod, lemma_mod_bound, lemma_multiply_divide_lt,
};
use vstd::prelude::*;

verus! {

/// Position of the entry at `(row, col)` in a row-major array whose rows are
/// `stride` entries apart.
pub open spec fn row_major(stride: int, row: int, col: int) -> int {
    row * stride + col
}

/// The largest number of singular values a `width` by `height` channel has.
pub open spec fn full_rank(width: int, height: int) -> int {
    if height <= width {
        height
    } else {
        width
    }
}

/// Every entry of a `rows` by `stride` array lies below `rows * stride`, and
/// so does the start of its row.
pub proof fn lemma_row_major_in_bounds(stride: int, rows: int, row: int, col: int)
    requires
        0 <= row < rows,
        0 <= col < stride,
    ensures
        0 <= row * stride <= row_major(stride, row, col) < rows * stride,
{
    assert(0 <= row * stride && (row + 1) * stride <= rows * stride) by (nonlinear_arith)
        requires
            0 <= row < rows,
            0 < stride,
    ;
    assert((row + 1) * stride == row * stride + stride) by (nonlinear_arith);
}

/// Position `k` of a `rows` by `stride` array is the entry at row
/// `k / stride` and column `k % stride`.
pub proof fn lemma_row_major_of_position(stride: int, rows: int, k: int)
    requires
        0 <= stride,
        0 <= k < rows * stride,
    ensures
        0 <= k / stride < rows,
        0 <= k % stride < stride,
        row_major(stride, k / stride, k % stride) == k,
{
    assert(stride != 0) by (nonlinear_arith)
        requires
            0 <= k < rows * stride,
    ;
    assert(rows * stride == stride * rows) by (nonlinear_arith);
    lemma_multiply_divide_lt(k, stride, rows);
    lemma_div_pos_is_pos(k, stride);
    lemma_mod_bound(k, stride);
    lemma_fundamental_div_mod(k, stride);
    assert((k / stride) * stride == stride * (k / stride)) by (nonlinear_arith);
}

} // verus!
