use crate::action::{end_of, ActionMeta};
use vstd::prelude::*;

verus! {

/// What a sequence is: its entries in order, and its total span.
pub struct SequenceView {
    pub entries: Seq<ActionMeta>,
    pub duration: nat,
}

/// A composable timeline: scheduled entries in insertion order, and the
/// span of time the whole sequence takes.
#[derive(Clone, Debug)]
pub struct Sequence {
    entries: Vec<ActionMeta>,
    duration: u64,
}

impl View for Sequence {
    type V = SequenceView;

    closed spec fn view(&self) -> SequenceView {
        SequenceView { entries: self.entries@, duration: self.duration as nat }
    }
}

/// Every entry ends within the span, and the span fits in a `u64`.
pub open spec fn view_wf(v: SequenceView) -> bool {
    &&& v.duration <= u64::MAX
    &&& forall|i: int| 0 <= i < v.entries.len() ==> end_of(#[trigger] v.entries[i]) <= v.duration
}

pub open spec fn shift_entry(m: ActionMeta, by: int) -> ActionMeta {
    ActionMeta { start_time: (m.start_time + by) as u64, ..m }
}

/// The entries moved later in time by `by`.
pub open spec fn shift_entries(es: Seq<ActionMeta>, by: int) -> Seq<ActionMeta> {
    es.map_values(|m: ActionMeta| shift_entry(m, by))
}

/// The entries assigned to slide `k`.
pub open spec fn tag_entries(es: Seq<ActionMeta>, k: usize) -> Seq<ActionMeta> {
    es.map_values(|m: ActionMeta| ActionMeta { slide_index: k, ..m })
}

pub open spec fn views(ss: Seq<Sequence>) -> Seq<SequenceView> {
    ss.map_values(|s: Sequence| s@)
}

pub open spec fn all_wf(ss: Seq<Sequence>) -> bool {
    forall|i: int| 0 <= i < ss.len() ==> view_wf(#[trigger] ss[i]@)
}

pub open spec fn empty_view(duration: nat) -> SequenceView {
    SequenceView { entries: Seq::empty(), duration }
}

/// Sequential composition: each sequence starts when the previous ones end.
pub open spec fn chain_spec(vs: Seq<SequenceView>) -> SequenceView
    decreases vs.len(),
{
    if vs.len() == 0 {
        empty_view(0)
    } else {
        let p = chain_spec(vs.drop_last());
        SequenceView {
            entries: p.entries + shift_entries(vs.last().entries, p.duration as int),
            duration: p.duration + vs.last().duration,
        }
    }
}

/// Parallel composition: all sequences start together; the span is the longest.
pub open spec fn all_spec(vs: Seq<SequenceView>) -> SequenceView
    decreases vs.len(),
{
    if vs.len() == 0 {
        empty_view(0)
    } else {
        let p = all_spec(vs.drop_last());
        SequenceView {
            entries: p.entries + vs.last().entries,
            duration: if p.duration >= vs.last().duration {
                p.duration
            } else {
                vs.last().duration
            },
        }
    }
}

/// Staggered composition: the `i`-th sequence starts at `i * delay`.
pub open spec fn flow_spec(vs: Seq<SequenceView>, delay: nat) -> SequenceView
    decreases vs.len(),
{
    if vs.len() == 0 {
        empty_view(0)
    } else {
        let p = flow_spec(vs.drop_last(), delay);
        let shift = ((vs.len() - 1) * delay) as nat;
        SequenceView {
            entries: p.entries + shift_entries(vs.last().entries, shift as int),
            duration: if p.duration >= shift + vs.last().duration {
                p.duration
            } else {
                shift + vs.last().duration
            },
        }
    }
}

pub open spec fn sum_durations(vs: Seq<SequenceView>) -> nat
    decreases vs.len(),
{
    if vs.len() == 0 {
        0
    } else {
        sum_durations(vs.drop_last()) + vs.last().duration
    }
}

impl Sequence {
    /// A sequence holding one entry, spanning up to that entry's end.
    pub fn single(meta: ActionMeta) -> (r: Sequence)
        requires
            end_of(meta) <= u64::MAX,
        ensures
            r@.entries == seq![meta],
            r@.duration == end_of(meta),
            view_wf(r@),
    {
        let r = Sequence { entries: vec![meta], duration: meta.end_time() };
        assert(r@.entries =~= seq![meta]);
        r
    }

    /// A sequence with no entries that only takes up time.
    pub fn empty(duration: u64) -> (r: Sequence)
        ensures
            r@ == empty_view(duration as nat),
            view_wf(r@),
    {
        let r = Sequence { entries: Vec::new(), duration };
        assert(r@.entries =~= Seq::<ActionMeta>::empty());
        r
    }

    pub fn duration(&self) -> (r: u64)
        ensures
            r == self@.duration,
    {
        self.duration
    }

    /// The same sequence with every entry assigned to slide `k`.
    pub fn with_slide_index(&self, k: usize) -> (r: Sequence)
        requires
            view_wf(self@),
        ensures
            r@.entries == tag_entries(self@.entries, k),
            r@.duration == self@.duration,
            view_wf(r@),
    {
        let mut entries: Vec<ActionMeta> = Vec::new();
        let mut j: usize = 0;
        while j < self.entries.len()
            invariant
                j <= self.entries@.len(),
                entries@ == tag_entries(self.entries@.take(j as int), k),
            decreases self.entries@.len() - j,
        {
            let m = self.entries[j];
            entries.push(ActionMeta { slide_index: k, ..m });
            j += 1;
            assert(tag_entries(self.entries@.take(j as int), k) =~= tag_entries(
                self.entries@.take(j - 1),
                k,
            ).push(ActionMeta { slide_index: k, ..m }));
        }
        assert(self.entries@.take(j as int) =~= self.entries@);
        let r = Sequence { entries, duration: self.duration };
        assert forall|i: int| 0 <= i < r@.entries.len() implies end_of(#[trigger] r@.entries[i])
            <= r@.duration by {
            assert(end_of(self@.entries[i]) <= self@.duration);
        }
        r
    }

    pub fn entries(&self) -> (r: &Vec<ActionMeta>)
        ensures
            r@ == self@.entries,
    {
        &self.entries
    }
}

proof fn lemma_sum_prefix(vs: Seq<SequenceView>, i: int)
    requires
        0 <= i <= vs.len(),
    ensures
        sum_durations(vs.take(i)) <= sum_durations(vs),
    decreases vs.len(),
{
    if i == vs.len() {
        assert(vs.take(i) =~= vs);
    } else {
        lemma_sum_prefix(vs.drop_last(), i);
        assert(vs.drop_last().take(i) =~= vs.take(i));
    }
}

proof fn lemma_chain_duration(vs: Seq<SequenceView>)
    ensures
        chain_spec(vs).duration == sum_durations(vs),
    decreases vs.len(),
{
    if vs.len() > 0 {
        lemma_chain_duration(vs.drop_last());
    }
}

proof fn lemma_shift_zero(es: Seq<ActionMeta>)
    ensures
        shift_entries(es, 0) == es,
{
    assert(shift_entries(es, 0) =~= es);
}

/// Appends `es` to `out`, each entry moved later by `by`.
fn append_shifted(out: &mut Vec<ActionMeta>, es: &Vec<ActionMeta>, by: u64)
    requires
        forall|i: int| 0 <= i < es@.len() ==> es@[i].start_time + by <= u64::MAX,
    ensures
        final(out)@ == old(out)@ + shift_entries(es@, by as int),
{
    let mut j: usize = 0;
    while j < es.len()
        invariant
            j <= es@.len(),
            forall|i: int| 0 <= i < es@.len() ==> es@[i].start_time + by <= u64::MAX,
            out@ == old(out)@ + shift_entries(es@.take(j as int), by as int),
        decreases es@.len() - j,
    {
        let m = es[j];
        out.push(ActionMeta { start_time: m.start_time + by, ..m });
        j += 1;
        assert(shift_entries(es@.take(j as int), by as int) =~= shift_entries(
            es@.take(j - 1),
            by as int,
        ).push(shift_entry(m, by as int)));
    }
    assert(es@.take(j as int) =~= es@);
}

/// Runs the sequences one after another.
pub fn chain(seqs: Vec<Sequence>) -> (r: Sequence)
    requires
        all_wf(seqs@),
        sum_durations(views(seqs@)) <= u64::MAX,
    ensures
        r@ == chain_spec(views(seqs@)),
        view_wf(r@),
{
    let ghost vs = views(seqs@);
    let mut entries: Vec<ActionMeta> = Vec::new();
    let mut offset: u64 = 0;
    let mut i: usize = 0;
    while i < seqs.len()
        invariant
            i <= seqs@.len(),
            vs == views(seqs@),
            all_wf(seqs@),
            sum_durations(vs) <= u64::MAX,
            entries@ == chain_spec(vs.take(i as int)).entries,
            offset == chain_spec(vs.take(i as int)).duration,
        decreases seqs@.len() - i,
    {
        let s = &seqs[i];
        proof {
            assert(vs.take(i + 1).drop_last() =~= vs.take(i as int));
            assert(vs.take(i + 1).last() == s@);
            lemma_sum_prefix(vs, i + 1);
            lemma_chain_duration(vs.take(i + 1));
            assert(view_wf(s@));
        }
        append_shifted(&mut entries, &s.entries, offset);
        offset = offset + s.duration;
        i += 1;
    }
    assert(vs.take(i as int) =~= vs);
    proof {
        lemma_chain_within_duration(vs);
    }
    Sequence { entries, duration: offset }
}

/// Runs the sequences side by side, all starting together.
pub fn all(seqs: Vec<Sequence>) -> (r: Sequence)
    requires
        all_wf(seqs@),
    ensures
        r@ == all_spec(views(seqs@)),
        view_wf(r@),
{
    let ghost vs = views(seqs@);
    let mut entries: Vec<ActionMeta> = Vec::new();
    let mut duration: u64 = 0;
    let mut i: usize = 0;
    while i < seqs.len()
        invariant
            i <= seqs@.len(),
            vs == views(seqs@),
            all_wf(seqs@),
            entries@ == all_spec(vs.take(i as int)).entries,
            duration == all_spec(vs.take(i as int)).duration,
        decreases seqs@.len() - i,
    {
        let s = &seqs[i];
        proof {
            assert(vs.take(i + 1).drop_last() =~= vs.take(i as int));
            assert(vs.take(i + 1).last() == s@);
            assert(view_wf(s@));
            lemma_shift_zero(s@.entries);
        }
        append_shifted(&mut entries, &s.entries, 0);
        if s.duration > duration {
            duration = s.duration;
        }
        i += 1;
    }
    assert(vs.take(i as int) =~= vs);
    proof {
        lemma_all_within_duration(vs);
    }
    Sequence { entries, duration }
}

/// Runs the sequences side by side, as `all` does. The composition is meant
/// to count as done once any one of them is done; the schedule is the same.
pub fn any(seqs: Vec<Sequence>) -> (r: Sequence)
    requires
        all_wf(seqs@),
    ensures
        r@ == all_spec(views(seqs@)),
        view_wf(r@),
{
    all(seqs)
}

/// Staggers the sequences: the `i`-th one starts at `i * delay`.
pub fn flow(seqs: Vec<Sequence>, delay: u64) -> (r: Sequence)
    requires
        all_wf(seqs@),
        forall|i: int| 0 <= i < seqs@.len() ==> i * delay + (#[trigger] seqs@[i])@.duration <= u64::MAX,
    ensures
        r@ == flow_spec(views(seqs@), delay as nat),
        view_wf(r@),
{
    let ghost vs = views(seqs@);
    let mut entries: Vec<ActionMeta> = Vec::new();
    let mut duration: u64 = 0;
    let mut shift: u64 = 0;
    let mut i: usize = 0;
    while i < seqs.len()
        invariant
            i <= seqs@.len(),
            vs == views(seqs@),
            all_wf(seqs@),
            forall|k: int| 0 <= k < seqs@.len() ==> k * delay + (#[trigger] seqs@[k])@.duration <= u64::MAX,
            i < seqs@.len() ==> shift == i * delay,
            entries@ == flow_spec(vs.take(i as int), delay as nat).entries,
            duration == flow_spec(vs.take(i as int), delay as nat).duration,
        decreases seqs@.len() - i,
    {
        let s = &seqs[i];
        proof {
            assert(vs.take(i + 1).drop_last() =~= vs.take(i as int));
            assert(vs.take(i + 1).last() == s@);
            assert(view_wf(s@));
            assert(i * delay + s@.duration <= u64::MAX);
            assert forall|k: int| 0 <= k < s.entries@.len() implies s.entries@[k].start_time + shift
                <= u64::MAX by {
                assert(end_of(s@.entries[k]) <= s@.duration);
            }
        }
        append_shifted(&mut entries, &s.entries, shift);
        let span = shift + s.duration;
        if span > duration {
            duration = span;
        }
        i += 1;
        if i < seqs.len() {
            proof {
                assert(i * delay + seqs@[i as int]@.duration <= u64::MAX);
                assert(i * delay == (i - 1) * delay + delay) by (nonlinear_arith);
            }
            shift = shift + delay;
        }
    }
    assert(vs.take(i as int) =~= vs);
    proof {
        lemma_flow_within_duration(vs, delay as nat);
    }
    Sequence { entries, duration }
}

pub open spec fn max_nat(a: nat, b: nat) -> nat {
    if a >= b {
        a
    } else {
        b
    }
}

/// Chaining two sequences takes the sum of their spans, keeps the first
/// one's entries as they are, and moves every entry of the second one later
/// by exactly the first one's span.
pub proof fn lemma_chain_two(a: SequenceView, b: SequenceView)
    ensures
        chain_spec(seq![a, b]).duration == a.duration + b.duration,
        chain_spec(seq![a, b]).entries == a.entries + shift_entries(b.entries, a.duration as int),
{
    reveal_with_fuel(chain_spec, 3);
    let vs = seq![a, b];
    assert(vs.drop_last() =~= seq![a]);
    assert(seq![a].drop_last() =~= Seq::<SequenceView>::empty());
    lemma_shift_zero(a.entries);
    assert(Seq::<ActionMeta>::empty() + a.entries =~= a.entries);
}

/// Running two sequences together takes the longer span and moves no entry.
pub proof fn lemma_all_two(a: SequenceView, b: SequenceView)
    ensures
        all_spec(seq![a, b]).duration == max_nat(a.duration, b.duration),
        all_spec(seq![a, b]).entries == a.entries + b.entries,
{
    reveal_with_fuel(all_spec, 3);
    let vs = seq![a, b];
    assert(vs.drop_last() =~= seq![a]);
    assert(seq![a].drop_last() =~= Seq::<SequenceView>::empty());
    assert(Seq::<ActionMeta>::empty() + a.entries =~= a.entries);
}

/// Staggering three sequences by `delay` spans the latest of their ends,
/// the `i`-th one ending at `i * delay` plus its own span.
pub proof fn lemma_flow_three(a: SequenceView, b: SequenceView, c: SequenceView, delay: nat)
    ensures
        flow_spec(seq![a, b, c], delay).duration == max_nat(
            max_nat(0 * delay + a.duration, 1 * delay + b.duration),
            2 * delay + c.duration,
        ),
        flow_spec(seq![a, b, c], delay).entries == a.entries + shift_entries(
            b.entries,
            delay as int,
        ) + shift_entries(c.entries, 2 * delay as int),
{
    reveal_with_fuel(flow_spec, 4);
    let vs = seq![a, b, c];
    assert(vs.drop_last() =~= seq![a, b]);
    assert(seq![a, b].drop_last() =~= seq![a]);
    assert(seq![a].drop_last() =~= Seq::<SequenceView>::empty());
    lemma_shift_zero(a.entries);
    assert(Seq::<ActionMeta>::empty() + a.entries =~= a.entries);
}

pub open spec fn views_wf(vs: Seq<SequenceView>) -> bool {
    forall|i: int| 0 <= i < vs.len() ==> view_wf(#[trigger] vs[i])
}

/// Sequential composition keeps every entry within the composed span.
pub proof fn lemma_chain_within_duration(vs: Seq<SequenceView>)
    requires
        views_wf(vs),
        sum_durations(vs) <= u64::MAX,
    ensures
        view_wf(chain_spec(vs)),
    decreases vs.len(),
{
    if vs.len() > 0 {
        let init = vs.drop_last();
        lemma_sum_prefix(vs, vs.len() - 1);
        assert(vs.take(vs.len() - 1) =~= init);
        lemma_chain_within_duration(init);
        lemma_chain_duration(init);
        let p = chain_spec(init);
        let l = vs.last();
        assert(view_wf(l));
        let c = chain_spec(vs);
        assert forall|k: int| 0 <= k < c.entries.len() implies end_of(#[trigger] c.entries[k])
            <= c.duration by {
            if k >= p.entries.len() {
                assert(end_of(l.entries[k - p.entries.len()]) <= l.duration);
            }
        }
    }
}

/// Parallel composition keeps every entry within the composed span.
pub proof fn lemma_all_within_duration(vs: Seq<SequenceView>)
    requires
        views_wf(vs),
    ensures
        view_wf(all_spec(vs)),
    decreases vs.len(),
{
    if vs.len() > 0 {
        let init = vs.drop_last();
        lemma_all_within_duration(init);
        let p = all_spec(init);
        let l = vs.last();
        assert(view_wf(l));
        let c = all_spec(vs);
        assert forall|k: int| 0 <= k < c.entries.len() implies end_of(#[trigger] c.entries[k])
            <= c.duration by {
            if k >= p.entries.len() {
                assert(end_of(l.entries[k - p.entries.len()]) <= l.duration);
            }
        }
    }
}

/// Staggered composition keeps every entry within the composed span.
pub proof fn lemma_flow_within_duration(vs: Seq<SequenceView>, delay: nat)
    requires
        views_wf(vs),
        forall|i: int| 0 <= i < vs.len() ==> i * delay + (#[trigger] vs[i]).duration <= u64::MAX,
    ensures
        view_wf(flow_spec(vs, delay)),
    decreases vs.len(),
{
    if vs.len() > 0 {
        let init = vs.drop_last();
        assert forall|i: int| 0 <= i < init.len() implies i * delay + (#[trigger] init[i]).duration
            <= u64::MAX by {
            assert(init[i] == vs[i]);
        }
        lemma_flow_within_duration(init, delay);
        let p = flow_spec(init, delay);
        let l = vs.last();
        assert(view_wf(l));
        assert((vs.len() - 1) * delay + vs[vs.len() - 1].duration <= u64::MAX);
        let c = flow_spec(vs, delay);
        assert forall|k: int| 0 <= k < c.entries.len() implies end_of(#[trigger] c.entries[k])
            <= c.duration by {
            if k >= p.entries.len() {
                assert(end_of(l.entries[k - p.entries.len()]) <= l.duration);
            }
        }
    }
}

} // verus!
