//! Small arithmetic lemmas used to discharge overflow obligations for the
//! wide-integer products the pipeline computes.

use vstd::prelude::*;

verus! {

/// A product of nonnegative values bounded above is bounded by the product of
/// the bounds.
pub proof fn lemma_mul_bound(x: int, y: int, bx: int, by: int)
    requires
        0 <= x <= bx,
        0 <= y <= by,
    ensures
        0 <= x * y <= bx * by,
{
    assert(0 <= x * y <= bx * by) by (nonlinear_arith)
        requires
            0 <= x <= bx,
            0 <= y <= by,
    ;
}

/// A product of values bounded in magnitude is bounded in magnitude by the
/// product of the bounds.
pub proof fn lemma_abs_mul_bound(x: int, y: int, bx: int, by: int)
    requires
        -bx <= x <= bx,
        -by <= y <= by,
        0 <= bx,
        0 <= by,
    ensures
        -(bx * by) <= x * y <= bx * by,
{
    assert(-(bx * by) <= x * y <= bx * by) by (nonlinear_arith)
        requires
            -bx <= x <= bx,
            -by <= y <= by,
            0 <= bx,
            0 <= by,
    ;
}

/// Multiplying both sides of `x <= y` by a nonnegative factor preserves the
/// inequality.
pub proof fn lemma_mul_le_mono(x: int, y: int, m: int)
    requires
        x <= y,
        0 <= m,
    ensures
        m * x <= m * y,
{
    assert(m * x <= m * y) by (nonlinear_arith)
        requires
            x <= y,
            0 <= m,
    ;
}

/// A quotient of nonnegative values is nonnegative and no larger than the
/// dividend.
pub proof fn lemma_div_bound(x: int, d: int)
    requires
        0 <= x,
        1 <= d,
    ensures
        0 <= x / d <= x,
{
    assert(0 <= x / d <= x) by (nonlinear_arith)
        requires
            0 <= x,
            1 <= d,
    ;
}

/// Rounding `p / d` half away from zero never exceeds a cap that bounds the
/// exact quotient: if `p <= cap * d` then `(2p + d) / (2d) <= cap`.
pub proof fn lemma_round_div_le(p: int, d: int, cap: int)
    requires
        0 <= p,
        1 <= d,
        0 <= cap,
        p <= cap * d,
    ensures
        (2 * p + d) / (2 * d) <= cap,
{
    assert(2 * cap * d + d == cap * (2 * d) + d) by (nonlinear_arith);
    vstd::arithmetic::div_mod::lemma_fundamental_div_mod_converse(
        2 * cap * d + d, 2 * d, cap, d);
    assert(2 * p + d <= 2 * cap * d + d) by (nonlinear_arith)
        requires
            p <= cap * d,
    ;
    vstd::arithmetic::div_mod::lemma_div_is_ordered(2 * p + d, 2 * cap * d + d, 2 * d);
}

/// A row-major grid index lies inside the flattened grid.
pub proof fn lemma_grid_index(r: int, c: int, rows: int, cols: int)
    requires
        0 <= r < rows,
        0 <= c < cols,
    ensures
        0 <= r * cols + c < rows * cols,
        0 <= r * cols,
{
    assert(0 <= r * cols && r * cols + c < rows * cols) by (nonlinear_arith)
        requires
            0 <= r < rows,
            0 <= c < cols,
    ;
}

/// Dividing an exact multiple recovers the factor.
pub proof fn lemma_div_exact(x: int, d: int)
    requires
        1 <= d,
    ensures
        (x * d) / d == x,
{
    assert((x * d) / d == x) by (nonlinear_arith)
        requires
            1 <= d,
    ;
}

} // verus!
