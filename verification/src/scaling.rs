//! Cells of a scaled grid along one axis of the buffer.
//!
//! The scale is an exact ratio `num / den` of two pixel counts. Every edge of
//! a cell is the floor of the scale times a cell count, so that a cell ends
//! one pixel before the next one starts, whatever the ratio.

use vstd::arithmetic::div_mod::{
    lemma_div_is_ordered, lemma_div_multiples_vanish, lemma_fundamental_div_mod, lemma_mod_bound,
};
use vstd::arithmetic::mul::{lemma_mul_inequality, lemma_mul_is_commutative};
use vstd::prelude::*;

verus! {

/// The whole pixels that `cells` cells span at the scale `num / den`:
/// the floor of `num / den * cells`.
pub open spec fn scaled(num: int, den: int, cells: int) -> int {
    (num * cells) / den
}

/// The cell that holds pixel `p` at the scale `num / den`.
pub open spec fn cell_at(num: int, den: int, p: int) -> int {
    ((p + 1) * den - 1) / num
}

/// A floor of a quotient is the largest integer whose product with the
/// divisor stays at or below the dividend.
pub proof fn lemma_floor_bounds(n: int, d: int, k: int)
    requires
        d > 0,
    ensures
        k <= n / d <==> k * d <= n,
{
    lemma_fundamental_div_mod(n, d);
    lemma_mod_bound(n, d);
    let q = n / d;
    lemma_mul_is_commutative(d, q);
    if k <= q {
        lemma_mul_inequality(k, q, d);
    } else {
        lemma_mul_inequality(q + 1, k, d);
        assert((q + 1) * d == q * d + d) by (nonlinear_arith);
    }
}

/// More cells never span fewer pixels.
pub proof fn lemma_scaled_monotonic(num: int, den: int, a: int, b: int)
    requires
        den > 0,
        num >= 0,
        a <= b,
    ensures
        scaled(num, den, a) <= scaled(num, den, b),
{
    lemma_mul_inequality(a, b, num);
    lemma_mul_is_commutative(num, a);
    lemma_mul_is_commutative(num, b);
    lemma_div_is_ordered(num * a, num * b, den);
}

/// No cells span no pixels, and `den` cells span exactly `num` pixels.
pub proof fn lemma_scaled_whole(num: int, den: int)
    requires
        den > 0,
    ensures
        scaled(num, den, 0) == 0,
        scaled(num, den, den) == num,
{
    assert(num * 0 == 0) by (nonlinear_arith);
    lemma_mul_is_commutative(num, den);
    lemma_div_multiples_vanish(num, den);
}

/// At a scale of at least `k`, every cell is at least `k` pixels long.
pub proof fn lemma_scaled_step(num: int, den: int, cell: int, k: int)
    requires
        den > 0,
        num >= k * den,
    ensures
        scaled(num, den, cell + 1) >= scaled(num, den, cell) + k,
{
    let q = scaled(num, den, cell);
    lemma_floor_bounds(num * cell, den, q);
    assert((q + k) * den == q * den + k * den) by (nonlinear_arith);
    assert(num * (cell + 1) == num * cell + num) by (nonlinear_arith);
    lemma_floor_bounds(num * (cell + 1), den, q + k);
}

/// Cells whose count, at the scale `num / den`, does not exceed `extent`
/// pixels in exact arithmetic span at most `extent` whole pixels.
pub proof fn lemma_scaled_fits(num: int, den: int, cells: int, extent: int)
    requires
        den > 0,
        num * cells <= extent * den,
    ensures
        scaled(num, den, cells) <= extent,
{
    lemma_floor_bounds(num * cells, den, extent + 1);
    assert((extent + 1) * den == extent * den + den) by (nonlinear_arith);
}

/// Pixel `p` lies between the first pixel of `cell` and the pixel before the
/// first one of the next cell exactly if `cell_at` names that cell.
pub proof fn lemma_cell_at(num: int, den: int, cell: int, p: int)
    requires
        den > 0,
        num > 0,
    ensures
        scaled(num, den, cell) <= p < scaled(num, den, cell + 1) <==> cell_at(num, den, p) == cell,
{
    let x = (p + 1) * den - 1;
    lemma_floor_bounds(num * cell, den, p + 1);
    lemma_floor_bounds(x, num, cell);
    lemma_floor_bounds(num * (cell + 1), den, p + 1);
    lemma_floor_bounds(x, num, cell + 1);
    lemma_mul_is_commutative(num, cell);
    lemma_mul_is_commutative(num, cell + 1);
}

} // verus!
