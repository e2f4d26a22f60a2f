use crate::action::{Action, ActionMeta, Motion};
use crate::sequence::{
    all, all_spec, all_wf, any, chain, chain_spec, flow, flow_spec, sum_durations, view_wf, views, Sequence,
    SequenceView,
};
use vstd::prelude::*;

verus! {

/// Durable slots for registered actions; an entry refers to its action by slot.
pub struct ActionPool {
    actions: Vec<Action>,
}

impl View for ActionPool {
    type V = Seq<Action>;

    closed spec fn view(&self) -> Seq<Action> {
        self.actions@
    }
}

/// The one-entry sequence that registering `motion` in slot `id` yields.
pub open spec fn motion_view(id: usize, motion: Motion) -> SequenceView {
    SequenceView {
        entries: seq![ActionMeta { action_id: id, start_time: 0, duration: motion.duration, slide_index: 0 }],
        duration: motion.duration as nat,
    }
}

impl ActionPool {
    pub fn new() -> (r: ActionPool)
        ensures
            r@ == Seq::<Action>::empty(),
    {
        ActionPool { actions: Vec::new() }
    }

    pub fn len(&self) -> (r: usize)
        ensures
            r == self@.len(),
    {
        self.actions.len()
    }

    /// The action held in slot `id`.
    pub fn get(&self, id: usize) -> (r: Action)
        requires
            id < self@.len(),
        ensures
            r == self@[id as int],
    {
        self.actions[id]
    }

    /// All registered actions, by slot.
    pub fn into_actions(self) -> (r: Vec<Action>)
        ensures
            r@ == self@,
    {
        self.actions
    }

    /// Registers the motion's action in a new slot and returns the one-entry
    /// sequence that plays it from time zero for the motion's duration.
    pub fn play_motion(&mut self, motion: Motion) -> (r: Sequence)
        ensures
            final(self)@ == old(self)@.push(motion.action),
            r@ == motion_view(old(self)@.len() as usize, motion),
            view_wf(r@),
    {
        let id = self.actions.len();
        self.actions.push(motion.action);
        let mut meta = ActionMeta::new(id);
        meta.duration = motion.duration;
        let r = Sequence::single(meta);
        assert(r@.entries =~= motion_view(id, motion).entries);
        r
    }

    /// Registers the motion and starts a builder holding its sequence.
    pub fn add_motion(&mut self, motion: Motion) -> (r: SequenceBuilder)
        ensures
            final(self)@ == old(self)@.push(motion.action),
            r@ == seq![motion_view(old(self)@.len() as usize, motion)],
            r.wf(),
    {
        let s = self.play_motion(motion);
        let r = SequenceBuilder { sequences: vec![s] };
        assert(r@ =~= seq![motion_view(old(self)@.len() as usize, motion)]);
        r
    }

    /// A sequence with no entries that only takes up `duration`.
    pub fn sleep(&self, duration: u64) -> (r: Sequence)
        ensures
            r@.entries == Seq::<ActionMeta>::empty(),
            r@.duration == duration,
            view_wf(r@),
    {
        Sequence::empty(duration)
    }
}

/// Sequences gathered one motion at a time, to be composed together.
pub struct SequenceBuilder {
    sequences: Vec<Sequence>,
}

impl View for SequenceBuilder {
    type V = Seq<SequenceView>;

    closed spec fn view(&self) -> Seq<SequenceView> {
        views(self.sequences@)
    }
}

impl SequenceBuilder {
    pub open spec fn wf(&self) -> bool {
        forall|i: int| 0 <= i < self@.len() ==> view_wf(#[trigger] self@[i])
    }

    proof fn lemma_all_wf(&self)
        requires
            self.wf(),
        ensures
            all_wf(self.sequences@),
            forall|i: int| 0 <= i < self@.len() ==> #[trigger] self@[i] == self.sequences@[i]@,
    {
        assert forall|i: int| 0 <= i < self.sequences@.len() implies view_wf(
            #[trigger] self.sequences@[i]@,
        ) by {
            assert(self@[i] == self.sequences@[i]@);
        }
    }

    /// Registers the motion and adds its sequence to the builder.
    pub fn add_motion(self, pool: &mut ActionPool, motion: Motion) -> (r: SequenceBuilder)
        requires
            self.wf(),
        ensures
            final(pool)@ == old(pool)@.push(motion.action),
            r@ == self@.push(motion_view(old(pool)@.len() as usize, motion)),
            r.wf(),
    {
        let mut sequences = self.sequences;
        let s = pool.play_motion(motion);
        sequences.push(s);
        let r = SequenceBuilder { sequences };
        assert(r@ =~= self@.push(motion_view(old(pool)@.len() as usize, motion)));
        r
    }

    pub fn build(self) -> (r: Vec<Sequence>)
        ensures
            views(r@) == self@,
    {
        self.sequences
    }

    /// Runs the gathered sequences one after another.
    pub fn chain(self) -> (r: Sequence)
        requires
            self.wf(),
            sum_durations(self@) <= u64::MAX,
        ensures
            r@ == chain_spec(self@),
            view_wf(r@),
    {
        proof {
            self.lemma_all_wf();
        }
        chain(self.sequences)
    }

    /// Runs the gathered sequences side by side.
    pub fn all(self) -> (r: Sequence)
        requires
            self.wf(),
        ensures
            r@ == all_spec(self@),
            view_wf(r@),
    {
        proof {
            self.lemma_all_wf();
        }
        all(self.sequences)
    }

    /// Runs the gathered sequences side by side, done once any one is done.
    pub fn any(self) -> (r: Sequence)
        requires
            self.wf(),
        ensures
            r@ == all_spec(self@),
            view_wf(r@),
    {
        proof {
            self.lemma_all_wf();
        }
        any(self.sequences)
    }

    /// Staggers the gathered sequences by `delay`.
    pub fn flow(self, delay: u64) -> (r: Sequence)
        requires
            self.wf(),
            forall|i: int| 0 <= i < self@.len() ==> i * delay + (#[trigger] self@[i]).duration <= u64::MAX,
        ensures
            r@ == flow_spec(self@, delay as nat),
            view_wf(r@),
    {
        proof {
            self.lemma_all_wf();
            assert forall|i: int| 0 <= i < self.sequences@.len() implies i * delay + (
            #[trigger] self.sequences@[i])@.duration <= u64::MAX by {
                assert(self@[i] == self.sequences@[i]@);
            }
        }
        flow(self.sequences, delay)
    }
}

} // verus!
