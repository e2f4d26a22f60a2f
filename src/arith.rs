//! Bounds on products and quotients of non-negative integers.
use vstd::arithmetic::div_mod::{lemma_div_by_multiple, lemma_div_is_ordered, lemma_div_pos_is_pos};
use vstd::prelude::*;

verus! {

pub(crate) proof fn lemma_prod_le(a: int, b: int, c: int, d: int)
    requires
        0 <= a <= c,
        0 <= b <= d,
    ensures
        0 <= a * b <= c * d,
{
    assert(0 <= a * b <= c * d) by (nonlinear_arith)
        requires
            0 <= a <= c,
            0 <= b <= d,
    ;
}

pub(crate) proof fn lemma_div_le(x: int, y: int, d: int)
    requires
        0 <= x <= y * d,
        0 <= y,
        0 < d,
    ensures
        0 <= x / d <= y,
{
    lemma_div_pos_is_pos(x, d);
    lemma_div_is_ordered(x, y * d, d);
    lemma_div_by_multiple(y, d);
}

} // verus!
