use motiongfx::action::{Action, ActionMeta, Interp, Motion};
use motiongfx::builder::ActionPool;
use motiongfx::ease::{Ease, ONE};
use motiongfx::sequence::{all, any, chain, flow, Sequence};
use motiongfx::slide::{create_slide, FieldWrite, SlideController};

fn linear(target: u64, start: i64, end: i64, duration: u64) -> Motion {
    Action::new_f32lerp(target, start, end, 0)
        .with_ease(Ease::Linear)
        .animate(duration)
}

fn starts(s: &Sequence) -> Vec<u64> {
    s.entries().iter().map(|m| m.start_time).collect()
}

fn one_slide(pool: ActionPool, s: Sequence) -> SlideController {
    create_slide(pool, vec![s])
}

#[test]
fn linear_identity_ease_midpoint_is_half() {
    let mut pool = ActionPool::new();
    let s = pool.play_motion(linear(1, 0, 10, 2000));
    let mut c = one_slide(pool, s);
    c.advance(1000);
    assert_eq!(c.local_time(), 1000);
    assert_eq!(
        c.evaluate(),
        vec![FieldWrite { target_id: 1, field: 0, value: 5 }]
    );
}

#[test]
fn default_ease_midpoint_is_half() {
    assert_eq!(Ease::CubicInOut.apply(ONE / 2), ONE / 2);
    let mut pool = ActionPool::new();
    let a = Action::new_f32lerp(1, 0, 10, 0);
    assert_eq!(a.ease, Ease::CubicInOut);
    let s = pool.play_motion(a.animate(2000));
    let mut c = one_slide(pool, s);
    c.advance(1000);
    assert_eq!(c.evaluate()[0].value, 5);
}

#[test]
fn chain_then_advance_only_second_active() {
    let mut pool = ActionPool::new();
    let a = pool.play_motion(linear(1, 0, 100, 1000));
    let b = pool.play_motion(linear(2, 0, 100, 2000));
    let s = chain(vec![a, b]);
    assert_eq!(s.duration(), 3000);
    let mut c = one_slide(pool, s);
    c.advance(1500);
    assert_eq!(
        c.evaluate(),
        vec![FieldWrite { target_id: 2, field: 0, value: 25 }]
    );
}

#[test]
fn next_on_last_slide_changes_nothing() {
    let mut pool = ActionPool::new();
    let a = pool.play_motion(linear(1, 0, 100, 1000));
    let b = pool.play_motion(linear(2, 0, 100, 2000));
    let mut c = create_slide(pool, vec![a, b]);
    c.next();
    assert_eq!(c.current_index(), 1);
    assert_eq!(c.local_time(), 0);
    c.advance(700);
    c.next();
    assert_eq!(c.current_index(), 1);
    assert_eq!(c.local_time(), 700);
}

#[test]
fn prev_moves_to_end_of_previous_slide() {
    let mut pool = ActionPool::new();
    let a = pool.play_motion(linear(1, 0, 100, 1000));
    let b = pool.play_motion(linear(2, 0, 100, 2000));
    let mut c = create_slide(pool, vec![a, b]);
    c.prev();
    assert_eq!(c.current_index(), 0);
    assert_eq!(c.local_time(), 0);
    c.next();
    c.advance(300);
    c.prev();
    assert_eq!(c.current_index(), 0);
    assert_eq!(c.local_time(), 1000);
    assert_eq!(
        c.evaluate(),
        vec![FieldWrite { target_id: 1, field: 0, value: 100 }]
    );
}

#[test]
fn slides_tag_their_entries() {
    let mut pool = ActionPool::new();
    let a = pool.play_motion(linear(1, 0, 100, 1000));
    let b = pool.play_motion(linear(2, 0, 100, 2000));
    let tagged = b.with_slide_index(1);
    assert_eq!(tagged.entries()[0].slide_index, 1);
    let c = create_slide(pool, vec![a, b]);
    assert_eq!(c.slide_count(), 2);
    assert_eq!(c.time_scale(), 1);
}

#[test]
fn chain_two_shifts_second_by_first_duration() {
    let mut pool = ActionPool::new();
    let a = chain(vec![
        pool.play_motion(linear(1, 0, 1, 400)),
        pool.play_motion(linear(2, 0, 1, 600)),
    ]);
    let b = pool.play_motion(linear(3, 0, 1, 500));
    let s = chain(vec![a, b]);
    assert_eq!(s.duration(), 1500);
    assert_eq!(starts(&s), vec![0, 400, 1000]);
    let ids: Vec<usize> = s.entries().iter().map(|m| m.id()).collect();
    assert_eq!(ids, vec![0, 1, 2]);
}

#[test]
fn chain_with_sleep_delays_following() {
    let mut pool = ActionPool::new();
    let gap = pool.sleep(250);
    assert_eq!(gap.duration(), 250);
    assert!(gap.entries().is_empty());
    let s = chain(vec![
        pool.play_motion(linear(1, 0, 1, 100)),
        gap,
        pool.play_motion(linear(2, 0, 1, 100)),
    ]);
    assert_eq!(s.duration(), 450);
    assert_eq!(starts(&s), vec![0, 350]);
}

#[test]
fn all_takes_longest_and_keeps_offsets() {
    let mut pool = ActionPool::new();
    let a = pool.play_motion(linear(1, 0, 1, 400));
    let b = pool.play_motion(linear(2, 0, 1, 900));
    let s = all(vec![a, b]);
    assert_eq!(s.duration(), 900);
    assert_eq!(starts(&s), vec![0, 0]);
}

#[test]
fn any_schedules_like_all() {
    let mut pool = ActionPool::new();
    let a = pool.play_motion(linear(1, 0, 1, 400));
    let b = pool.play_motion(linear(2, 0, 1, 900));
    let s = any(vec![a, b]);
    assert_eq!(s.duration(), 900);
    assert_eq!(starts(&s), vec![0, 0]);
    assert_eq!(s.entries().len(), 2);
}

#[test]
fn flow_three_duration_is_latest_end() {
    let mut pool = ActionPool::new();
    let a = pool.play_motion(linear(1, 0, 1, 1000));
    let b = pool.play_motion(linear(2, 0, 1, 500));
    let c = pool.play_motion(linear(3, 0, 1, 300));
    let s = flow(vec![a, b, c], 100);
    assert_eq!(s.duration(), 1000);
    assert_eq!(starts(&s), vec![0, 100, 200]);

    let d = pool.play_motion(linear(1, 0, 1, 100));
    let e = pool.play_motion(linear(2, 0, 1, 100));
    let f = pool.play_motion(linear(3, 0, 1, 900));
    assert_eq!(flow(vec![d, e, f], 100).duration(), 1100);
}

#[test]
fn combinators_on_empty_list_are_empty() {
    assert_eq!(chain(vec![]).duration(), 0);
    assert_eq!(all(vec![]).duration(), 0);
    assert_eq!(flow(vec![], 10).duration(), 0);
    assert!(chain(vec![]).entries().is_empty());
}

#[test]
fn single_input_is_identity() {
    let mut pool = ActionPool::new();
    let a = pool.play_motion(linear(1, 0, 1, 400));
    let s = flow(vec![chain(vec![all(vec![a])])], 50);
    assert_eq!(s.duration(), 400);
    assert_eq!(starts(&s), vec![0]);
}

#[test]
fn nested_shifts_add_up() {
    let mut pool = ActionPool::new();
    let lead = pool.play_motion(linear(1, 0, 1, 300));
    let inner = flow(
        vec![
            pool.play_motion(linear(2, 0, 1, 100)),
            pool.play_motion(linear(3, 0, 1, 100)),
        ],
        50,
    );
    let s = chain(vec![lead, inner]);
    assert_eq!(starts(&s), vec![0, 300, 350]);
    assert_eq!(s.duration(), 450);
}

#[test]
fn builder_gathers_and_composes() {
    let mut pool = ActionPool::new();
    let s = pool
        .add_motion(linear(1, 0, 1, 200))
        .add_motion(&mut pool, linear(2, 0, 1, 300))
        .chain();
    assert_eq!(s.duration(), 500);
    assert_eq!(starts(&s), vec![0, 200]);
    let v = pool
        .add_motion(linear(3, 0, 1, 200))
        .add_motion(&mut pool, linear(4, 0, 1, 300))
        .build();
    assert_eq!(v.len(), 2);
    assert_eq!(pool.len(), 4);
    assert_eq!(pool.get(3).target_id, 4);
    let f = pool.add_motion(linear(5, 0, 1, 200)).add_motion(&mut pool, linear(6, 0, 1, 200)).flow(10);
    assert_eq!(f.duration(), 210);
    let a = pool.add_motion(linear(7, 0, 1, 200)).add_motion(&mut pool, linear(8, 0, 1, 300)).all();
    assert_eq!(a.duration(), 300);
    let y = pool.add_motion(linear(9, 0, 1, 200)).add_motion(&mut pool, linear(10, 0, 1, 300)).any();
    assert_eq!(y.duration(), 300);
}

#[test]
fn zero_duration_entry_active_only_at_start() {
    let mut pool = ActionPool::new();
    let lead = pool.sleep(500);
    let snap = pool.play_motion(linear(1, 3, 9, 0));
    let tail = pool.sleep(500);
    let s = chain(vec![lead, snap, tail]);
    let mut c = one_slide(pool, s);
    c.advance(499);
    assert!(c.evaluate().is_empty());
    c.advance(1);
    assert_eq!(
        c.evaluate(),
        vec![FieldWrite { target_id: 1, field: 0, value: 9 }]
    );
    c.advance(1);
    assert!(c.evaluate().is_empty());
}

#[test]
fn evaluate_twice_gives_same_writes() {
    let mut pool = ActionPool::new();
    let s = pool.play_motion(Action::new_f32lerp(4, -20, 20, 2).animate(1000));
    let mut c = one_slide(pool, s);
    c.advance(333);
    let first = c.evaluate();
    let second = c.evaluate();
    assert_eq!(first, second);
    assert_eq!(c.local_time(), 333);
}

#[test]
fn later_entry_wins_on_same_field() {
    let mut pool = ActionPool::new();
    let a = pool.play_motion(linear(1, 0, 10, 1000));
    let b = pool.play_motion(linear(1, 100, 200, 1000));
    let mut c = one_slide(pool, all(vec![a, b]));
    c.advance(500);
    let w = c.evaluate();
    assert_eq!(
        w,
        vec![
            FieldWrite { target_id: 1, field: 0, value: 5 },
            FieldWrite { target_id: 1, field: 0, value: 150 },
        ]
    );
}

#[test]
fn advance_clamps_and_follows_scale() {
    let mut pool = ActionPool::new();
    let s = pool.play_motion(linear(1, 0, 10, 1000));
    let mut c = one_slide(pool, s);
    c.advance(5000);
    assert_eq!(c.local_time(), 1000);
    c.set_time_scale(-2);
    assert_eq!(c.time_scale(), -2);
    c.advance(100);
    assert_eq!(c.local_time(), 800);
    c.advance(10_000);
    assert_eq!(c.local_time(), 0);
    c.set_time_scale(0);
    c.advance(100);
    assert_eq!(c.local_time(), 0);
}

#[test]
fn controller_without_slides_is_inert() {
    let mut c = create_slide(ActionPool::new(), vec![]);
    c.advance(100);
    c.next();
    c.prev();
    assert_eq!(c.current_index(), 0);
    assert_eq!(c.local_time(), 0);
    assert!(c.evaluate().is_empty());
}

#[test]
fn ease_curves_fix_endpoints() {
    let curves = [
        Ease::Linear,
        Ease::QuadIn,
        Ease::QuadOut,
        Ease::QuadInOut,
        Ease::CubicIn,
        Ease::CubicOut,
        Ease::CubicInOut,
    ];
    for e in curves {
        assert_eq!(e.apply(0), 0);
        assert_eq!(e.apply(ONE), ONE);
    }
}

#[test]
fn ease_curve_values() {
    assert_eq!(Ease::Linear.apply(250_000), 250_000);
    assert_eq!(Ease::QuadIn.apply(500_000), 250_000);
    assert_eq!(Ease::QuadOut.apply(500_000), 750_000);
    assert_eq!(Ease::QuadInOut.apply(250_000), 125_000);
    assert_eq!(Ease::QuadInOut.apply(750_000), 875_000);
    assert_eq!(Ease::CubicIn.apply(500_000), 125_000);
    assert_eq!(Ease::CubicOut.apply(500_000), 875_000);
    assert_eq!(Ease::CubicInOut.apply(250_000), 62_500);
    assert_eq!(Ease::CubicInOut.apply(750_000), 937_500);
}

#[test]
fn interp_blends() {
    assert_eq!(Interp::Linear.blend(0, 10, 500_000), 5);
    assert_eq!(Interp::Linear.blend(10, 0, 250_000), 8);
    assert_eq!(Interp::Linear.blend(-5, 5, ONE), 5);
    assert_eq!(Interp::Linear.blend(i64::MIN, i64::MAX, ONE), i64::MAX);
    assert_eq!(Interp::Step.blend(1, 2, 999_999), 1);
    assert_eq!(Interp::Step.blend(1, 2, ONE), 2);
}

#[test]
fn action_builders() {
    let a = Action::new(7, 1, 2, Interp::Step, 3);
    assert_eq!(a.ease, Ease::CubicInOut);
    assert_eq!(a.field, 3);
    let b = a.with_interp(Interp::Linear).with_ease(Ease::QuadIn);
    assert_eq!(b.interp, Interp::Linear);
    assert_eq!(b.ease, Ease::QuadIn);
    assert_eq!(b.sample(500_000), 1);
    let m = b.animate(40);
    assert_eq!(m.duration, 40);
    assert_eq!(m.action, b);
}

#[test]
fn action_meta_timing() {
    let m = ActionMeta::new(3);
    assert_eq!(m.id(), 3);
    assert_eq!(m.end_time(), 0);
    let m = m.with_start_time(40);
    assert_eq!(m.start_time, 40);
    let m = ActionMeta { duration: 60, ..m };
    assert_eq!(m.end_time(), 100);
    let s = Sequence::single(m);
    assert_eq!(s.duration(), 100);
    assert_eq!(Sequence::empty(7).duration(), 7);
}

#[test]
fn entries_end_within_duration() {
    let mut pool = ActionPool::new();
    let a = pool.play_motion(linear(1, 0, 1, 700));
    let b = pool.play_motion(linear(2, 0, 1, 200));
    let c = pool.play_motion(linear(3, 0, 1, 50));
    let d = pool.play_motion(linear(4, 0, 1, 400));
    let s = chain(vec![flow(vec![a, b, c], 300), all(vec![d, pool.sleep(900)])]);
    assert_eq!(s.duration(), 1600);
    for m in s.entries() {
        assert!(m.end_time() <= s.duration());
    }
    assert_eq!(starts(&s), vec![0, 300, 600, 700]);
}
