use crate::action::{action_value, end_of, Action, ActionMeta};
use crate::builder::ActionPool;
use crate::arith::{lemma_div_le, lemma_prod_le};
use crate::ease::{lemma_ease_bounds, ONE};
use crate::sequence::{all_wf, tag_entries, view_wf, views, Sequence, SequenceView};
use vstd::arithmetic::div_mod::lemma_div_by_multiple;
use vstd::prelude::*;

verus! {

/// A value to be written into one field of one object.
#[derive(Clone, Copy, Debug, PartialEq, Eq, Structural)]
pub struct FieldWrite {
    pub target_id: u64,
    pub field: u64,
    pub value: i64,
}

/// An entry is active while the playback time lies within its window,
/// both ends included.
pub open spec fn is_active(m: ActionMeta, t: int) -> bool {
    m.start_time <= t <= end_of(m)
}

/// Linear progress of an entry at time `t`, scaled by `ONE`; an entry that
/// takes no time is complete.
pub open spec fn progress(m: ActionMeta, t: int) -> int {
    if m.duration > 0 {
        (t - m.start_time) * (ONE as int) / (m.duration as int)
    } else {
        ONE as int
    }
}

pub open spec fn write_of(a: Action, m: ActionMeta, t: int) -> FieldWrite {
    FieldWrite { target_id: a.target_id, field: a.field, value: action_value(a, progress(m, t)) as i64 }
}

/// The writes that the active entries among `es` produce at time `t`, in entry order.
pub open spec fn writes_spec(es: Seq<ActionMeta>, actions: Seq<Action>, t: int) -> Seq<FieldWrite>
    decreases es.len(),
{
    if es.len() == 0 {
        Seq::empty()
    } else {
        let p = writes_spec(es.drop_last(), actions, t);
        let m = es.last();
        if is_active(m, t) {
            p.push(write_of(actions[m.action_id as int], m, t))
        } else {
            p
        }
    }
}

/// What a slide controller is.
pub struct SlideView {
    pub slides: Seq<SequenceView>,
    pub actions: Seq<Action>,
    pub current: nat,
    pub local_time: nat,
    pub time_scale: int,
}

/// Span of the current slide, `0` when there is none.
pub open spec fn slide_duration(v: SlideView) -> nat {
    if v.current < v.slides.len() {
        v.slides[v.current as int].duration
    } else {
        0
    }
}

/// The writes that evaluating the controller produces.
pub open spec fn evaluate_spec(v: SlideView) -> Seq<FieldWrite> {
    if v.current < v.slides.len() {
        writes_spec(v.slides[v.current as int].entries, v.actions, v.local_time as int)
    } else {
        Seq::empty()
    }
}

/// Playback time moved by `delta * scale` and held within `0..=hi`.
pub open spec fn clamp_time(t: int, delta: int, scale: int, hi: nat) -> nat {
    let x = t + delta * scale;
    if x < 0 {
        0
    } else if x > hi {
        hi
    } else {
        x as nat
    }
}

/// The sequences as slides: the `i`-th one's entries assigned to slide `i`.
pub open spec fn tag_slides(vs: Seq<SequenceView>) -> Seq<SequenceView> {
    Seq::new(
        vs.len(),
        |i: int| SequenceView { entries: tag_entries(vs[i].entries, i as usize), duration: vs[i].duration },
    )
}

pub open spec fn controller_wf(v: SlideView) -> bool {
    &&& v.slides.len() == 0 ==> v.current == 0
    &&& v.slides.len() > 0 ==> v.current < v.slides.len()
    &&& forall|i: int| 0 <= i < v.slides.len() ==> view_wf(#[trigger] v.slides[i])
    &&& forall|i: int, j: int|
        0 <= i < v.slides.len() && 0 <= j < v.slides[i].entries.len() ==> (
        #[trigger] v.slides[i].entries[j]).action_id < v.actions.len()
    &&& v.local_time <= slide_duration(v)
    &&& i32::MIN <= v.time_scale <= i32::MAX
}

/// Plays a list of slides: one slide at a time, at a local playback time
/// that moves by a signed time scale.
pub struct SlideController {
    slides: Vec<Sequence>,
    actions: Vec<Action>,
    current: usize,
    local_time: u64,
    time_scale: i32,
}

impl View for SlideController {
    type V = SlideView;

    closed spec fn view(&self) -> SlideView {
        SlideView {
            slides: views(self.slides@),
            actions: self.actions@,
            current: self.current as nat,
            local_time: self.local_time as nat,
            time_scale: self.time_scale as int,
        }
    }
}

/// Gathers the sequences as the slides of a controller, the `i`-th sequence
/// becoming slide `i`, playing forward from the start of the first slide.
pub fn create_slide(pool: ActionPool, sequences: Vec<Sequence>) -> (r: SlideController)
    requires
        all_wf(sequences@),
        forall|i: int, j: int|
            0 <= i < sequences@.len() && 0 <= j < sequences@[i]@.entries.len() ==> (
            #[trigger] sequences@[i]@.entries[j]).action_id < pool@.len(),
    ensures
        r.wf(),
        r@ == (SlideView {
            slides: tag_slides(views(sequences@)),
            actions: pool@,
            current: 0,
            local_time: 0,
            time_scale: 1,
        }),
{
    let mut slides: Vec<Sequence> = Vec::new();
    let mut i: usize = 0;
    while i < sequences.len()
        invariant
            i <= sequences@.len(),
            views(slides@) == tag_slides(views(sequences@)).take(i as int),
            all_wf(sequences@),
            forall|k: int| 0 <= k < i ==> view_wf(#[trigger] slides@[k]@),
        decreases sequences@.len() - i,
    {
        assert(view_wf(sequences@[i as int]@));
        let s = sequences[i].with_slide_index(i);
        assert(s@ == tag_slides(views(sequences@))[i as int]);
        let ghost before = slides@;
        slides.push(s);
        assert(views(slides@) =~= views(before).push(s@));
        assert(tag_slides(views(sequences@)).take(i + 1) =~= tag_slides(views(sequences@)).take(
            i as int,
        ).push(s@));
        i += 1;
    }
    assert(tag_slides(views(sequences@)).take(i as int) =~= tag_slides(views(sequences@)));
    let r = SlideController {
        slides,
        actions: pool.into_actions(),
        current: 0,
        local_time: 0,
        time_scale: 1,
    };
    assert forall|a: int, b: int|
        0 <= a < r@.slides.len() && 0 <= b < r@.slides[a].entries.len() implies (
        #[trigger] r@.slides[a].entries[b]).action_id < r@.actions.len() by {
        assert(r@.slides[a] == slides@[a]@);
        assert(sequences@[a]@.entries[b].action_id < pool@.len());
    }
    assert forall|k: int| 0 <= k < r@.slides.len() implies view_wf(#[trigger] r@.slides[k]) by {
        assert(r@.slides[k] == slides@[k]@);
    }
    r
}

impl SlideController {
    pub open spec fn wf(&self) -> bool {
        controller_wf(self@)
    }

    pub fn current_index(&self) -> (r: usize)
        ensures
            r == self@.current,
    {
        self.current
    }

    pub fn local_time(&self) -> (r: u64)
        ensures
            r == self@.local_time,
    {
        self.local_time
    }

    pub fn time_scale(&self) -> (r: i32)
        ensures
            r == self@.time_scale,
    {
        self.time_scale
    }

    pub fn slide_count(&self) -> (r: usize)
        ensures
            r == self@.slides.len(),
    {
        self.slides.len()
    }

    /// Moves to the next slide and rewinds to its start; on the last slide
    /// nothing changes.
    pub fn next(&mut self)
        requires
            old(self).wf(),
        ensures
            final(self).wf(),
            final(self)@ == if old(self)@.current + 1 < old(self)@.slides.len() {
                SlideView { current: old(self)@.current + 1, local_time: 0, ..old(self)@ }
            } else {
                old(self)@
            },
    {
        if self.slides.len() > 0 && self.current < self.slides.len() - 1 {
            self.current = self.current + 1;
            self.local_time = 0;
        }
    }

    /// Moves to the previous slide and places playback at its end; on the
    /// first slide nothing changes.
    pub fn prev(&mut self)
        requires
            old(self).wf(),
        ensures
            final(self).wf(),
            final(self)@ == if old(self)@.current > 0 {
                SlideView {
                    current: (old(self)@.current - 1) as nat,
                    local_time: old(self)@.slides[old(self)@.current - 1].duration,
                    ..old(self)@
                }
            } else {
                old(self)@
            },
    {
        if self.current > 0 {
            self.current = self.current - 1;
            self.local_time = self.slides[self.current].duration();
        }
    }

    /// Sets playback speed and direction: `0` pauses, a negative scale plays backwards.
    pub fn set_time_scale(&mut self, time_scale: i32)
        requires
            old(self).wf(),
        ensures
            final(self).wf(),
            final(self)@ == (SlideView { time_scale: time_scale as int, ..old(self)@ }),
    {
        self.time_scale = time_scale;
    }

    /// Moves playback time by `delta` times the time scale, held within the
    /// current slide's span.
    pub fn advance(&mut self, delta: u64)
        requires
            old(self).wf(),
        ensures
            final(self).wf(),
            final(self)@ == (SlideView {
                local_time: clamp_time(
                    old(self)@.local_time as int,
                    delta as int,
                    old(self)@.time_scale,
                    slide_duration(old(self)@),
                ),
                ..old(self)@
            }),
    {
        let hi: u64 = if self.current < self.slides.len() {
            self.slides[self.current].duration()
        } else {
            0
        };
        let d: i128 = delta as i128;
        let s: i128 = self.time_scale as i128;
        assert(-0x1_0000_0000_0000_0000_0000_0000 <= d * s <= 0x1_0000_0000_0000_0000_0000_0000)
            by (nonlinear_arith)
            requires
                0 <= d <= u64::MAX,
                i32::MIN <= s <= i32::MAX,
        ;
        let x: i128 = self.local_time as i128 + d * s;
        if x < 0 {
            self.local_time = 0;
        } else if x > hi as i128 {
            self.local_time = hi;
        } else {
            self.local_time = x as u64;
        }
    }

    /// The writes that the current slide's active entries produce at the
    /// current playback time, in entry order: where two entries write one
    /// field, the later write wins.
    pub fn evaluate(&self) -> (r: Vec<FieldWrite>)
        requires
            self.wf(),
        ensures
            r@ == evaluate_spec(self@),
    {
        let mut out: Vec<FieldWrite> = Vec::new();
        if self.current >= self.slides.len() {
            return out;
        }
        let ghost v = self@;
        let es = self.slides[self.current].entries();
        let t = self.local_time;
        assert(v.slides[v.current as int] == self.slides@[self.current as int]@);
        let mut j: usize = 0;
        while j < es.len()
            invariant
                j <= es@.len(),
                v == self@,
                self.wf(),
                self.current < self.slides@.len(),
                es@ == v.slides[v.current as int].entries,
                t == v.local_time,
                out@ == writes_spec(es@.take(j as int), v.actions, t as int),
            decreases es@.len() - j,
        {
            let m = es[j];
            assert(es@.take(j + 1).drop_last() =~= es@.take(j as int));
            assert(es@.take(j + 1).last() == m);
            if m.start_time <= t && t - m.start_time <= m.duration {
                let p: u64 = if m.duration > 0 {
                    let el: u128 = (t - m.start_time) as u128;
                    proof {
                        lemma_prod_le(el as int, ONE as int, m.duration as int, ONE as int);
                        assert(el * ONE == ONE * el) by (nonlinear_arith);
                        lemma_div_le(el * ONE, ONE as int, m.duration as int);
                    }
                    (el * (ONE as u128) / (m.duration as u128)) as u64
                } else {
                    ONE
                };
                assert(m.action_id < v.actions.len());
                let a = self.actions[m.action_id];
                let value = a.sample(p);
                out.push(FieldWrite { target_id: a.target_id, field: a.field, value });
            }
            j += 1;
        }
        assert(es@.take(j as int) =~= es@);
        out
    }
}

/// The field values after applying `ws` in order to `m`, keyed by
/// `(target, field)`.
pub open spec fn apply_writes(m: Map<(u64, u64), i64>, ws: Seq<FieldWrite>) -> Map<(u64, u64), i64>
    decreases ws.len(),
{
    if ws.len() == 0 {
        m
    } else {
        apply_writes(m, ws.drop_last()).insert((ws.last().target_id, ws.last().field), ws.last().value)
    }
}

spec fn written(ws: Seq<FieldWrite>) -> Map<(u64, u64), i64>
    decreases ws.len(),
{
    if ws.len() == 0 {
        Map::empty()
    } else {
        written(ws.drop_last()).insert((ws.last().target_id, ws.last().field), ws.last().value)
    }
}

proof fn lemma_apply_is_union(m: Map<(u64, u64), i64>, ws: Seq<FieldWrite>)
    ensures
        apply_writes(m, ws) == m.union_prefer_right(written(ws)),
    decreases ws.len(),
{
    if ws.len() == 0 {
        assert(m.union_prefer_right(Map::empty()) =~= m);
    } else {
        lemma_apply_is_union(m, ws.drop_last());
        assert(apply_writes(m, ws) =~= m.union_prefer_right(written(ws)));
    }
}

/// Evaluating twice at one playback time writes the same field values as
/// evaluating once: applying the writes again changes nothing.
pub proof fn lemma_evaluate_idempotent(v: SlideView, m: Map<(u64, u64), i64>)
    ensures
        apply_writes(apply_writes(m, evaluate_spec(v)), evaluate_spec(v)) == apply_writes(
            m,
            evaluate_spec(v),
        ),
{
    let ws = evaluate_spec(v);
    lemma_apply_is_union(m, ws);
    lemma_apply_is_union(apply_writes(m, ws), ws);
    assert(m.union_prefer_right(written(ws)).union_prefer_right(written(ws)) =~= m.union_prefer_right(
        written(ws),
    ));
}

/// An entry that takes no time is active exactly at its start time, where it
/// is complete and its action produces the end value.
pub proof fn lemma_zero_duration_entry(m: ActionMeta, a: Action, t: int)
    requires
        m.duration == 0,
    ensures
        is_active(m, t) <==> t == m.start_time,
        progress(m, t) == ONE,
        action_value(a, progress(m, t)) == a.end,
{
    lemma_ease_bounds(a.ease, ONE as int);
    let d = a.end - a.start;
    if a.start <= a.end {
        lemma_div_by_multiple(d as int, ONE as int);
    } else {
        lemma_div_by_multiple(-d, ONE as int);
    }
}

} // verus!
