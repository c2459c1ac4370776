use arceos_arm::mlfq::{MLFQScheduler, MLFQTask};

type Task = MLFQTask<u64, 3, 2, 4>;
type Sched = MLFQScheduler<u64, 3, 2, 4>;

fn picked_inner(s: &mut Sched) -> Option<(u64, isize, isize)> {
    s.pick_next_task()
        .map(|t| (*t.inner(), t.get_prio(), t.get_remain()))
}

#[test]
fn new_task_starts_at_top_level_with_base_slice() {
    let t = Task::new(7, 7);
    assert_eq!(*t.inner(), 7);
    assert_eq!(t.get_prio(), 0);
    assert_eq!(t.get_remain(), 2);
}

#[test]
fn task_derefs_to_inner() {
    let t = Task::new(42, 42);
    assert_eq!(*t, 42);
}

#[test]
fn tick_returns_previous_remaining_time() {
    let mut t = Task::new(1, 1);
    assert_eq!(t.tick(), 2);
    assert_eq!(t.get_remain(), 1);
    assert_eq!(t.tick(), 1);
    assert_eq!(t.tick(), 0);
    assert_eq!(t.get_remain(), -1);
}

#[test]
fn demotion_doubles_slice_and_stops_at_last_level() {
    let mut t = Task::new(1, 1);
    assert_eq!(t.prio_demote(), 1);
    assert_eq!(t.get_remain(), 4);
    assert_eq!(t.prio_demote(), 2);
    assert_eq!(t.get_remain(), 8);
    assert_eq!(t.prio_demote(), 2);
    assert_eq!(t.get_prio(), 2);
    assert_eq!(t.get_remain(), 8);
}

#[test]
fn reset_time_and_reset_prio() {
    let mut t = Task::new(1, 1);
    t.prio_demote();
    t.tick();
    t.tick();
    assert_eq!(t.get_remain(), 2);
    t.reset_time();
    assert_eq!(t.get_remain(), 4);
    t.reset_prio();
    assert_eq!(t.get_prio(), 0);
    assert_eq!(t.get_remain(), 2);
}

#[test]
fn scheduler_name_and_set_priority() {
    assert_eq!(Sched::scheduler_name(), "Multi-Level Feedback Queue Scheduler");
    let mut s = Sched::new();
    s.init();
    let t = Task::new(1, 1);
    assert!(!s.set_priority(&t, 2));
}

#[test]
fn empty_scheduler_picks_nothing() {
    let mut s = Sched::new();
    assert!(s.pick_next_task().is_none());
}

#[test]
fn task_added_to_idle_scheduler_is_picked_next() {
    let mut s = Sched::new();
    s.add_task(Task::new(5, 5));
    assert_eq!(picked_inner(&mut s), Some((5, 0, 2)));
    assert!(s.pick_next_task().is_none());
}

#[test]
fn higher_priority_level_runs_first_and_fifo_within_level() {
    let mut s = Sched::new();
    let mut low = Task::new(30, 30);
    low.prio_demote();
    low.prio_demote();
    s.add_task(low);
    s.add_task(Task::new(10, 10));
    s.add_task(Task::new(11, 11));
    assert_eq!(picked_inner(&mut s), Some((10, 0, 2)));
    assert_eq!(picked_inner(&mut s), Some((11, 0, 2)));
    assert_eq!(picked_inner(&mut s), Some((30, 2, 8)));
    assert!(s.pick_next_task().is_none());
}

#[test]
fn remove_task_finds_queued_task() {
    let mut s = Sched::new();
    s.add_task(Task::new(1, 1));
    s.add_task(Task::new(2, 2));
    s.add_task(Task::new(3, 3));
    let key = Task::new(2, 2);
    let r = s.remove_task(&key).map(|t| *t.inner());
    assert_eq!(r, Some(2));
    assert_eq!(picked_inner(&mut s), Some((1, 0, 2)));
    assert_eq!(picked_inner(&mut s), Some((3, 0, 2)));
    assert!(s.pick_next_task().is_none());
}

#[test]
fn remove_task_finds_task_by_identity_not_by_value() {
    let mut s = Sched::new();
    s.add_task(Task::new(5, 1));
    s.add_task(Task::new(5, 2));
    let mut key = Task::new(5, 2);
    key.tick();
    let r = s.remove_task(&key).map(|t| (*t.inner(), t.id()));
    assert_eq!(r, Some((5, 2)));
    let left = s.pick_next_task().map(|t| t.id());
    assert_eq!(left, Some(1));
    assert!(s.pick_next_task().is_none());
}

#[test]
fn task_keeps_its_identity() {
    let mut t = Task::new(8, 77);
    t.tick();
    t.prio_demote();
    t.reset_time();
    t.reset_prio();
    assert_eq!(*t.inner(), 8);
    assert_eq!(t.id(), 77);
}

#[test]
fn boost_comes_every_reset_time_ticks() {
    // RESET_TIME is 4: every fourth tick moves queued tasks to the top level.
    let mut s = Sched::new();
    let mut cur = Task::new(1, 1);
    let mut levels = Vec::new();
    for i in 0..12 {
        let mut t = Task::new(i, i as usize + 10);
        t.prio_demote();
        s.add_task(t);
        s.task_tick(&mut cur);
        levels.push(s.pick_next_task().map(|t| t.get_prio()));
    }
    let expect: Vec<Option<isize>> = [1, 1, 1, 0, 1, 1, 1, 0, 1, 1, 1, 0].iter().map(|p| Some(*p)).collect();
    assert_eq!(levels, expect);
}

#[test]
fn remove_task_of_missing_task_returns_none() {
    let mut s = Sched::new();
    s.add_task(Task::new(1, 1));
    let key = Task::new(9, 9);
    assert!(s.remove_task(&key).is_none());
    let mut elsewhere = Task::new(1, 1);
    elsewhere.prio_demote();
    assert!(s.remove_task(&elsewhere).is_none());
    assert_eq!(picked_inner(&mut s), Some((1, 0, 2)));
}

#[test]
fn used_up_task_is_demoted_to_back_of_next_level() {
    let mut s = Sched::new();
    let mut other = Task::new(2, 2);
    other.prio_demote();
    s.add_task(other);
    let mut t = Task::new(1, 1);
    t.tick();
    t.tick();
    assert_eq!(t.get_remain(), 0);
    s.put_prev_task(t, false);
    assert_eq!(picked_inner(&mut s), Some((2, 1, 4)));
    assert_eq!(picked_inner(&mut s), Some((1, 1, 4)));
}

#[test]
fn preempted_task_goes_to_front_with_fresh_slice() {
    let mut s = Sched::new();
    s.add_task(Task::new(2, 2));
    let mut t = Task::new(1, 1);
    t.tick();
    s.put_prev_task(t, true);
    assert_eq!(picked_inner(&mut s), Some((1, 0, 2)));
    assert_eq!(picked_inner(&mut s), Some((2, 0, 2)));
}

#[test]
fn yielding_task_goes_to_back_with_fresh_slice() {
    let mut s = Sched::new();
    s.add_task(Task::new(2, 2));
    let mut t = Task::new(1, 1);
    t.tick();
    s.put_prev_task(t, false);
    assert_eq!(picked_inner(&mut s), Some((2, 0, 2)));
    assert_eq!(picked_inner(&mut s), Some((1, 0, 2)));
}

#[test]
fn task_tick_reschedules_when_slice_used_up() {
    let mut s = Sched::new();
    let mut cur = Task::new(1, 1);
    assert!(!s.task_tick(&mut cur));
    assert_eq!(cur.get_remain(), 1);
    assert!(s.task_tick(&mut cur));
    assert_eq!(cur.get_remain(), 0);
}

#[test]
fn every_reset_period_moves_all_tasks_to_top_level() {
    let mut s = Sched::new();
    let mut a = Task::new(1, 1);
    a.prio_demote();
    a.prio_demote();
    let mut b = Task::new(2, 2);
    b.prio_demote();
    s.add_task(a);
    s.add_task(b);
    s.add_task(Task::new(3, 3));
    let mut cur = Task::new(4, 4);
    cur.prio_demote();
    // RESET_TIME is 4: three plain ticks, then the reset.
    assert!(!s.task_tick(&mut cur));
    assert!(!s.task_tick(&mut cur));
    assert!(!s.task_tick(&mut cur));
    assert_eq!(cur.get_remain(), 1);
    assert!(s.task_tick(&mut cur));
    assert_eq!(cur.get_prio(), 0);
    assert_eq!(cur.get_remain(), 2);
    assert_eq!(picked_inner(&mut s), Some((3, 0, 2)));
    assert_eq!(picked_inner(&mut s), Some((2, 0, 2)));
    assert_eq!(picked_inner(&mut s), Some((1, 0, 2)));
    assert!(s.pick_next_task().is_none());
    // the period starts over
    assert!(!s.task_tick(&mut cur));
}
