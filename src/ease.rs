use crate::arith::{lemma_div_le, lemma_prod_le};
use vstd::prelude::*;

verus! {

/// Fixed-point representation of progress `1`; progress lies in `0..=ONE`.
pub const ONE: u64 = 1_000_000;

/// Easing curves mapping linear progress to eased progress.
#[derive(Clone, Copy, Debug, PartialEq, Eq, Structural)]
pub enum Ease {
    Linear,
    QuadIn,
    QuadOut,
    QuadInOut,
    CubicIn,
    CubicOut,
    CubicInOut,
}

/// The eased value of progress `t` (both scaled by `ONE`).
pub open spec fn ease_spec(e: Ease, t: int) -> int {
    let one = ONE as int;
    match e {
        Ease::Linear => t,
        Ease::QuadIn => t * t / one,
        Ease::QuadOut => one - (one - t) * (one - t) / one,
        Ease::QuadInOut => if 2 * t < one {
            2 * t * t / one
        } else {
            one - (2 * (one - t)) * (2 * (one - t)) / (2 * one)
        },
        Ease::CubicIn => t * t * t / (one * one),
        Ease::CubicOut => one - (one - t) * (one - t) * (one - t) / (one * one),
        Ease::CubicInOut => if 2 * t < one {
            4 * t * t * t / (one * one)
        } else {
            one - (2 * (one - t)) * (2 * (one - t)) * (2 * (one - t)) / (2 * one * one)
        },
    }
}

/// Every curve keeps progress within `0..=ONE` and fixes both endpoints.
pub proof fn lemma_ease_bounds(e: Ease, t: int)
    requires
        0 <= t <= ONE,
    ensures
        0 <= ease_spec(e, t) <= ONE,
        ease_spec(e, 0) == 0,
        ease_spec(e, ONE as int) == ONE,
{
    let one = ONE as int;
    let u = one - t;
    let w = 2 * u;
    lemma_prod_le(t, t, one, one);
    lemma_prod_le(t * t, t, one * one, one);
    lemma_prod_le(u, u, one, one);
    lemma_prod_le(u * u, u, one * one, one);
    match e {
        Ease::Linear => {},
        Ease::QuadIn => {
            lemma_div_le(t * t, one, one);
        },
        Ease::QuadOut => {
            lemma_div_le(u * u, one, one);
        },
        Ease::QuadInOut => {
            if 2 * t < one {
                lemma_prod_le(2 * t, t, one, one);
                assert(2 * t * t == (2 * t) * t) by (nonlinear_arith);
                lemma_div_le(2 * t * t, one, one);
            } else {
                lemma_prod_le(w, w, one, one);
                lemma_div_le(w * w, one, 2 * one);
            }
        },
        Ease::CubicIn => {
            lemma_div_le(t * t * t, one, one * one);
        },
        Ease::CubicOut => {
            lemma_div_le(u * u * u, one, one * one);
        },
        Ease::CubicInOut => {
            if 2 * t < one {
                lemma_prod_le(2 * t, 2 * t, one, one);
                lemma_prod_le((2 * t) * (2 * t), t, one * one, one);
                assert(4 * t * t * t == (2 * t) * (2 * t) * t) by (nonlinear_arith);
                lemma_div_le(4 * t * t * t, one, one * one);
            } else {
                lemma_prod_le(w, w, one, one);
                lemma_prod_le(w * w, w, one * one, one);
                lemma_div_le(w * w * w, one, 2 * one * one);
            }
        },
    }
    assert(ease_spec(e, 0) == 0);
    assert(ease_spec(e, ONE as int) == ONE);
}

impl Ease {
    /// Applies the curve to progress `t`.
    pub fn apply(self, t: u64) -> (r: u64)
        requires
            t <= ONE,
        ensures
            r == ease_spec(self, t as int),
            r <= ONE,
    {
        proof {
            lemma_ease_bounds(self, t as int);
        }
        let one: u64 = ONE;
        let u: u64 = one - t;
        proof {
            lemma_prod_le(t as int, t as int, ONE as int, ONE as int);
            lemma_prod_le(t * t, t as int, ONE * ONE, ONE as int);
            lemma_prod_le(u as int, u as int, ONE as int, ONE as int);
            lemma_prod_le(u * u, u as int, ONE * ONE, ONE as int);
        }
        match self {
            Ease::Linear => t,
            Ease::QuadIn => t * t / one,
            Ease::QuadOut => one - u * u / one,
            Ease::QuadInOut => {
                if 2 * t < one {
                    2 * t * t / one
                } else {
                    let w: u64 = 2 * u;
                    proof {
                        lemma_prod_le(w as int, w as int, ONE as int, ONE as int);
                    }
                    one - w * w / (2 * one)
                }
            },
            Ease::CubicIn => t * t * t / (one * one),
            Ease::CubicOut => one - u * u * u / (one * one),
            Ease::CubicInOut => {
                if 2 * t < one {
                    proof {
                        lemma_prod_le(4 * t, t as int, 2 * ONE, ONE as int);
                        lemma_prod_le(2 * t, 2 * t, ONE as int, ONE as int);
                        lemma_prod_le((2 * t) * (2 * t), t as int, ONE * ONE, ONE as int);
                        assert(4 * t * t * t == (2 * t) * (2 * t) * t) by (nonlinear_arith);
                    }
                    4 * t * t * t / (one * one)
                } else {
                    let w: u64 = 2 * u;
                    proof {
                        lemma_prod_le(w as int, w as int, ONE as int, ONE as int);
                        lemma_prod_le(w * w, w as int, ONE * ONE, ONE as int);
                    }
                    one - w * w * w / (2 * one * one)
                }
            },
        }
    }
}

} // verus!
