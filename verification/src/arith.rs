//! Bound-propagation lemmas for the exact integer arithmetic used by the
//! geometry kernel. Every executable computation in this crate is done in
//! `i64`/`i128`; these lemmas discharge the overflow obligations.

use vstd::prelude::*;

verus! {

/// |x| <= bx and |y| <= by imply |x * y| <= bx * by.
pub proof fn lemma_mul_bound(x: int, bx: int, y: int, by: int)
    requires
        -bx <= x <= bx,
        -by <= y <= by,
    ensures
        -(bx * by) <= x * y <= bx * by,
{
    assert(-(bx * by) <= x * y <= bx * by) by (nonlinear_arith)
        requires
            -bx <= x <= bx,
            -by <= y <= by,
    ;
}

/// A product of two non-negative quantities is monotone in both factors.
pub proof fn lemma_mul_mono(x: int, bx: int, y: int, by: int)
    requires
        0 <= x <= bx,
        0 <= y <= by,
    ensures
        0 <= x * y <= bx * by,
{
    assert(0 <= x * y <= bx * by) by (nonlinear_arith)
        requires
            0 <= x <= bx,
            0 <= y <= by,
    ;
}

/// A square is non-negative.
pub proof fn lemma_square_nonneg(x: int)
    ensures
        x * x >= 0,
{
    assert(x * x >= 0) by (nonlinear_arith);
}

/// Multiplying by zero gives zero.
pub proof fn lemma_zero_mul(x: int)
    ensures
        0 * x == 0,
        x * 0 == 0,
{
    assert(0 * x == 0 && x * 0 == 0) by (nonlinear_arith);
}

/// A negated factor negates the product.
pub proof fn lemma_neg_mul(a: int, b: int)
    ensures
        (-a) * b == -(a * b),
        a * (-b) == -(a * b),
        (-a) * (-b) == a * b,
{
    assert((-a) * b == -(a * b) && a * (-b) == -(a * b) && (-a) * (-b) == a * b)
        by (nonlinear_arith);
}

/// Multiplication distributes over a difference.
pub proof fn lemma_mul_sub(a: int, x: int, y: int)
    ensures
        a * (x - y) == a * x - a * y,
{
    assert(a * (x - y) == a * x - a * y) by (nonlinear_arith);
}

/// A product of positives is positive.
pub proof fn lemma_mul_pos(a: int, b: int)
    requires
        a > 0,
        b > 0,
    ensures
        a * b > 0,
{
    assert(a * b > 0) by (nonlinear_arith)
        requires
            a > 0,
            b > 0,
    ;
}

/// A product of non-zeros is non-zero.
pub proof fn lemma_mul_nonzero(a: int, b: int)
    requires
        a != 0,
        b != 0,
    ensures
        a * b != 0,
{
    assert(a * b != 0) by (nonlinear_arith)
        requires
            a != 0,
            b != 0,
    ;
}

/// Halving a non-negative quantity lands between zero and the quantity.
pub proof fn lemma_half_range(d: int)
    requires
        d >= 0,
    ensures
        0 <= d / 2 <= d,
        d / 2 + d / 2 <= d,
{
    assert(0 <= d / 2 <= d && d / 2 + d / 2 <= d) by (nonlinear_arith)
        requires
            d >= 0,
    ;
}

} // verus!
