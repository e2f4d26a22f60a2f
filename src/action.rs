use crate::arith::{lemma_div_le, lemma_prod_le};
use crate::ease::{ease_spec, lemma_ease_bounds, Ease, ONE};
use vstd::prelude::*;

verus! {

/// How a value is blended from its start to its end by eased progress.
#[derive(Clone, Copy, Debug, PartialEq, Eq, Structural)]
pub enum Interp {
    /// Linear blend, rounded towards the start value.
    Linear,
    /// Holds the start value until progress reaches `ONE`, then the end value.
    Step,
}

/// Linear blend of `start` and `end` at progress `p`, rounded towards `start`.
pub open spec fn lerp_spec(start: int, end: int, p: int) -> int {
    if start <= end {
        start + (end - start) * p / (ONE as int)
    } else {
        start - (start - end) * p / (ONE as int)
    }
}

pub open spec fn interp_spec(i: Interp, start: int, end: int, p: int) -> int {
    match i {
        Interp::Linear => lerp_spec(start, end, p),
        Interp::Step => if p >= ONE {
            end
        } else {
            start
        },
    }
}

/// An atomic animation: drive `field` of the object `target_id` from `start`
/// to `end`, shaped by `ease` and blended by `interp`.
#[derive(Clone, Copy, Debug, PartialEq, Eq, Structural)]
pub struct Action {
    /// Handle of the object whose field is animated.
    pub target_id: u64,
    /// Which field of the target object is animated.
    pub field: u64,
    /// Initial value of the action.
    pub start: i64,
    /// Final value of the action.
    pub end: i64,
    /// How the value is blended.
    pub interp: Interp,
    /// How linear progress is shaped before blending.
    pub ease: Ease,
}

/// The value an action produces at linear progress `p`.
pub open spec fn action_value(a: Action, p: int) -> int {
    interp_spec(a.interp, a.start as int, a.end as int, ease_spec(a.ease, p))
}

impl Interp {
    /// Blends `start` and `end` at progress `p`.
    pub fn blend(self, start: i64, end: i64, p: u64) -> (r: i64)
        requires
            p <= ONE,
        ensures
            r == interp_spec(self, start as int, end as int, p as int),
    {
        match self {
            Interp::Step => if p >= ONE {
                end
            } else {
                start
            },
            Interp::Linear => {
                if start <= end {
                    let diff: u128 = (end as i128 - start as i128) as u128;
                    proof {
                        lemma_prod_le(diff as int, p as int, diff as int, ONE as int);
                        lemma_div_le(diff * p, diff as int, ONE as int);
                    }
                    let q: u128 = diff * (p as u128) / (ONE as u128);
                    (start as i128 + q as i128) as i64
                } else {
                    let diff: u128 = (start as i128 - end as i128) as u128;
                    proof {
                        lemma_prod_le(diff as int, p as int, diff as int, ONE as int);
                        lemma_div_le(diff * p, diff as int, ONE as int);
                    }
                    let q: u128 = diff * (p as u128) / (ONE as u128);
                    (start as i128 - q as i128) as i64
                }
            },
        }
    }
}

impl Action {
    /// An action with the default cubic ease-in-out curve.
    pub fn new(target_id: u64, start: i64, end: i64, interp: Interp, field: u64) -> (r: Self)
        ensures
            r == (Action { target_id, field, start, end, interp, ease: Ease::CubicInOut }),
    {
        Action { target_id, field, start, end, interp, ease: Ease::CubicInOut }
    }

    /// An action blended linearly, with the default cubic ease-in-out curve.
    pub fn new_f32lerp(target_id: u64, start: i64, end: i64, field: u64) -> (r: Self)
        ensures
            r == (Action {
                target_id,
                field,
                start,
                end,
                interp: Interp::Linear,
                ease: Ease::CubicInOut,
            }),
    {
        Action { target_id, field, start, end, interp: Interp::Linear, ease: Ease::CubicInOut }
    }

    pub fn with_ease(self, ease: Ease) -> (r: Self)
        ensures
            r == (Action { ease, ..self }),
    {
        Action { ease, ..self }
    }

    pub fn with_interp(self, interp: Interp) -> (r: Self)
        ensures
            r == (Action { interp, ..self }),
    {
        Action { interp, ..self }
    }

    /// Pairs the action with the duration it should run for.
    pub fn animate(self, duration: u64) -> (r: Motion)
        ensures
            r == (Motion { action: self, duration }),
    {
        Motion { action: self, duration }
    }

    /// The value this action takes at linear progress `p`.
    pub fn sample(&self, p: u64) -> (r: i64)
        requires
            p <= ONE,
        ensures
            r == action_value(*self, p as int),
    {
        proof {
            lemma_ease_bounds(self.ease, p as int);
        }
        let eased = self.ease.apply(p);
        self.interp.blend(self.start, self.end, eased)
    }
}

/// An action together with the duration it runs for.
#[derive(Clone, Copy, Debug, PartialEq, Eq, Structural)]
pub struct Motion {
    pub action: Action,
    pub duration: u64,
}

/// The timing of one registered action inside a sequence.
#[derive(Clone, Copy, Debug, PartialEq, Eq, Structural)]
pub struct ActionMeta {
    /// Slot of the registered action.
    pub action_id: usize,
    /// Time at which the action begins, relative to its sequence.
    pub start_time: u64,
    /// How long the action runs.
    pub duration: u64,
    /// Slide that this action belongs to.
    pub slide_index: usize,
}

/// End time of an entry.
pub open spec fn end_of(m: ActionMeta) -> int {
    m.start_time + m.duration
}

impl ActionMeta {
    pub fn new(action_id: usize) -> (r: Self)
        ensures
            r == (ActionMeta { action_id, start_time: 0, duration: 0, slide_index: 0 }),
    {
        ActionMeta { action_id, start_time: 0, duration: 0, slide_index: 0 }
    }

    pub fn id(&self) -> (r: usize)
        ensures
            r == self.action_id,
    {
        self.action_id
    }

    pub fn with_start_time(self, start_time: u64) -> (r: Self)
        ensures
            r == (ActionMeta { start_time, ..self }),
    {
        ActionMeta { start_time, ..self }
    }

    pub fn end_time(&self) -> (r: u64)
        requires
            end_of(*self) <= u64::MAX,
        ensures
            r == end_of(*self),
    {
        self.start_time + self.duration
    }
}

} // verus!
