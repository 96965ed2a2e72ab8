use rint_sched::classifier::{classify, ema_update};
use rint_sched::hal::global;
use rint_sched::joint::{JointConfig, JointScheduler, TickAction};
use rint_sched::metrics::Recorder;
use rint_sched::registry::{Registry, RegistryError, TaskDescriptor};
use rint_sched::selector::VFT_SCALE;
use rint_sched::task::TaskClass;

fn config(capacity: usize) -> JointConfig {
    JointConfig {
        rr_timeslice_ms: 4,
        cpu_bound_threshold_us: 2500,
        reclass_hysteresis_ms: 10,
        idle_tick_ms: 50,
        edf_default_deadline_ms: 20,
        capacity,
    }
}

fn cpu_task(weight: u32) -> TaskDescriptor {
    TaskDescriptor { handle: 0, initial_burst_us: 10_000, deadline_ms: None, weight }
}

fn interactive_task() -> TaskDescriptor {
    TaskDescriptor { handle: 0, initial_burst_us: 500, deadline_ms: None, weight: 1 }
}

#[test]
fn capacity_boundary_rejects_extra_task() {
    let mut s = JointScheduler::new(config(3));
    for expected in 1..=3u64 {
        assert_eq!(s.register(cpu_task(1)), Ok(expected));
    }
    assert_eq!(s.register(cpu_task(1)), Err(RegistryError::CapacityExceeded));
    assert_eq!(s.registry().len(), 3);
    assert_eq!(s.registry().task_ids(), vec![1, 2, 3]);
}

#[test]
fn capacity_frees_after_removal() {
    let mut s = JointScheduler::new(config(2));
    assert_eq!(s.register(cpu_task(1)), Ok(1));
    assert_eq!(s.register(cpu_task(1)), Ok(2));
    assert_eq!(s.register(cpu_task(1)), Err(RegistryError::CapacityExceeded));
    assert_eq!(s.remove(1), Ok(()));
    assert_eq!(s.register(cpu_task(1)), Ok(3));
    assert_eq!(s.registry().task_ids(), vec![2, 3]);
}

#[test]
fn full_table_capacity() {
    let mut s = JointScheduler::new(config(64));
    for _ in 0..64 {
        assert!(s.register(cpu_task(1)).is_ok());
    }
    assert_eq!(s.register(cpu_task(1)), Err(RegistryError::CapacityExceeded));
    assert_eq!(s.registry().len(), 64);
}

#[test]
fn zero_weight_is_rejected() {
    let mut s = JointScheduler::new(config(4));
    assert_eq!(s.register(cpu_task(0)), Err(RegistryError::InvalidWeight));
    assert!(s.registry().is_empty());
}

#[test]
fn removing_unknown_id_is_not_found() {
    let mut s = JointScheduler::new(config(4));
    assert_eq!(s.remove(7), Err(RegistryError::NotFound));
    assert_eq!(s.record_burst(7, 100), Err(RegistryError::NotFound));
    s.register(cpu_task(1)).unwrap();
    assert_eq!(s.remove(1), Ok(()));
    assert_eq!(s.remove(1), Err(RegistryError::NotFound));
}

#[test]
fn registration_keeps_order_and_fields() {
    let mut s = JointScheduler::new(config(8));
    s.register(cpu_task(3)).unwrap();
    s.register(TaskDescriptor { handle: 0, initial_burst_us: 700, deadline_ms: Some(9), weight: 2 }).unwrap();
    s.register(interactive_task()).unwrap();
    assert_eq!(s.remove(2), Ok(()));
    assert_eq!(s.registry().task_ids(), vec![1, 3]);
    let t = s.registry().task(1).unwrap();
    assert_eq!(t.weight, 3);
    assert_eq!(t.class, TaskClass::CpuBound);
    assert_eq!(t.recent_cpu_burst_us, 10_000);
    let t3 = s.registry().task(3).unwrap();
    assert_eq!(t3.class, TaskClass::LatencySensitive);
    assert!(s.registry().task(2).is_none());
}

#[test]
fn select_on_empty_registry_is_idle() {
    let mut r = Registry::new(8);
    for _ in 0..5 {
        assert_eq!(r.select(4), None);
    }
    let mut s = JointScheduler::new(config(8));
    for now in [0u64, 1, 9, 1000, u64::MAX] {
        assert_eq!(s.on_tick(now), TickAction::Idle { rearm_ms: 50 });
    }
    assert_eq!(s.select(), None);
    assert_eq!(s.recorder().schedule_events(), 0);
}

#[test]
fn edf_picks_earliest_deadline_regardless_of_class_and_weight() {
    let mut s = JointScheduler::new(config(8));
    s.register(cpu_task(9)).unwrap();
    s.register(TaskDescriptor { handle: 0, initial_burst_us: 10_000, deadline_ms: Some(30), weight: 9 }).unwrap();
    s.register(TaskDescriptor { handle: 0, initial_burst_us: 10_000, deadline_ms: Some(10), weight: 1 }).unwrap();
    s.register(TaskDescriptor { handle: 0, initial_burst_us: 100, deadline_ms: Some(10), weight: 3 }).unwrap();
    s.register(interactive_task()).unwrap();
    for _ in 0..5 {
        assert_eq!(s.select(), Some(4));
    }
}

#[test]
fn edf_tie_breaks_on_smaller_id() {
    let mut s = JointScheduler::new(config(8));
    s.register(TaskDescriptor { handle: 0, initial_burst_us: 100, deadline_ms: Some(7), weight: 2 }).unwrap();
    s.register(TaskDescriptor { handle: 0, initial_burst_us: 100, deadline_ms: Some(7), weight: 2 }).unwrap();
    assert_eq!(s.select(), Some(1));
}

#[test]
fn deadline_task_wins_until_removed() {
    let mut s = JointScheduler::new(config(8));
    let d = s.register(TaskDescriptor { handle: 0, initial_burst_us: 1000, deadline_ms: Some(5), weight: 1 }).unwrap();
    let c = s.register(cpu_task(5)).unwrap();
    for _ in 0..10 {
        assert_eq!(s.on_tick(0), TickAction::Dispatch { task_id: d, rearm_ms: 4 });
    }
    s.remove(d).unwrap();
    assert_eq!(s.on_tick(0), TickAction::Dispatch { task_id: c, rearm_ms: 4 });
}

#[test]
fn weighted_fair_shares_follow_weights() {
    let mut s = JointScheduler::new(config(8));
    let ids = [
        s.register(cpu_task(1)).unwrap(),
        s.register(cpu_task(2)).unwrap(),
        s.register(cpu_task(1)).unwrap(),
    ];
    let mut counts = [0u32; 3];
    for _ in 0..400 {
        let id = s.select().unwrap();
        let k = ids.iter().position(|x| *x == id).unwrap();
        counts[k] += 1;
    }
    let expected = [100u32, 200, 100];
    for k in 0..3 {
        assert!(counts[k] * 10 >= expected[k] * 9 && counts[k] * 10 <= expected[k] * 11, "{:?}", counts);
    }
}

#[test]
fn weighted_fair_shares_for_other_weights() {
    let weights = [3u32, 1, 4, 2];
    let mut s = JointScheduler::new(config(8));
    for w in weights {
        s.register(cpu_task(w)).unwrap();
    }
    let mut counts = [0u32; 4];
    let n = 1000u32;
    for _ in 0..n {
        let id = s.select().unwrap();
        counts[(id - 1) as usize] += 1;
    }
    for k in 0..4 {
        let expected = n * weights[k] / 10;
        assert!(counts[k] + 2 >= expected && counts[k] <= expected + 2, "{:?}", counts);
    }
}

#[test]
fn wfq_advances_virtual_time_by_slice_over_weight() {
    let mut s = JointScheduler::new(config(8));
    s.register(cpu_task(3)).unwrap();
    assert_eq!(s.select(), Some(1));
    let t = s.registry().task(1).unwrap();
    assert_eq!(t.virtual_finish_time, 4 * VFT_SCALE / 3);
    assert_eq!(s.registry().virtual_clock(), 0);
    assert_eq!(s.select(), Some(1));
    assert_eq!(s.registry().virtual_clock(), 4 * VFT_SCALE / 3);
}

#[test]
fn round_robin_rotates_without_skipping() {
    let mut s = JointScheduler::new(config(8));
    for _ in 0..3 {
        s.register(interactive_task()).unwrap();
    }
    s.register(cpu_task(5)).unwrap();
    let picks: Vec<u64> = (0..7).map(|_| s.select().unwrap()).collect();
    assert_eq!(picks, vec![1, 2, 3, 1, 2, 3, 1]);
    assert_eq!(s.registry().task(1).unwrap().rr_remaining_slice_ms, 4);
}

#[test]
fn round_robin_survives_removal_of_cursor_task() {
    let mut s = JointScheduler::new(config(8));
    for _ in 0..3 {
        s.register(interactive_task()).unwrap();
    }
    assert_eq!(s.select(), Some(1));
    assert_eq!(s.select(), Some(2));
    s.remove(2).unwrap();
    assert_eq!(s.select(), Some(3));
    assert_eq!(s.select(), Some(1));
}

#[test]
fn ema_step_exact_values() {
    assert_eq!(ema_update(10_000, 0, 400), 6_000);
    assert_eq!(ema_update(0, 1_000, 400), 400);
    assert_eq!(ema_update(5_000, 5_000, 400), 5_000);
    assert_eq!(ema_update(u64::MAX, 0, 1), u64::MAX / 1000 * 999 + (u64::MAX % 1000) * 999 / 1000);
}

#[test]
fn ema_converges_monotonically_to_constant_sample() {
    let sample = 2_000u64;
    let mut est = 50_000u64;
    let mut prev_gap = est - sample;
    let mut steps = 0;
    while est != sample {
        est = ema_update(est, sample, 400);
        assert!(est >= sample);
        let gap = est - sample;
        assert!(gap * 1000 <= prev_gap * 600);
        prev_gap = gap;
        steps += 1;
        assert!(steps <= 48_000);
    }
    let mut low = 0u64;
    for _ in 0..100 {
        let next = ema_update(low, sample, 400);
        assert!(next >= low && next <= sample);
        low = next;
    }
    assert_eq!(low, sample);
}

#[test]
fn classification_threshold_is_inclusive() {
    assert_eq!(classify(2500, 2500), TaskClass::CpuBound);
    assert_eq!(classify(2499, 2500), TaskClass::LatencySensitive);
    assert_eq!(classify(0, 0), TaskClass::CpuBound);
}

#[test]
fn hysteresis_gates_reclassification() {
    let mut s = JointScheduler::new(config(8));
    s.register(cpu_task(1)).unwrap();
    assert!(!s.maybe_reclassify(10));
    assert_eq!(s.last_reclass_ms(), 0);
    assert!(s.maybe_reclassify(11));
    assert_eq!(s.last_reclass_ms(), 11);
    assert!(!s.maybe_reclassify(15));
    assert!(!s.maybe_reclassify(21));
    assert_eq!(s.last_reclass_ms(), 11);
    assert!(s.maybe_reclassify(22));
    assert_eq!(s.last_reclass_ms(), 22);
}

#[test]
fn reclassification_follows_samples_and_reports_changes() {
    let mut s = JointScheduler::new(config(8));
    let id = s.register(cpu_task(1)).unwrap();
    s.record_burst(id, 0).unwrap();
    let mut now = 0u64;
    let mut runs = 0;
    while s.registry().task(id).unwrap().class == TaskClass::CpuBound {
        now += 11;
        assert!(s.maybe_reclassify(now));
        runs += 1;
        assert!(runs < 20);
    }
    // 10000 -> 6000 -> 3600 -> 2160: the third run crosses the threshold.
    assert_eq!(runs, 3);
    assert_eq!(s.registry().task(id).unwrap().recent_cpu_burst_us, 2160);
    assert_eq!(s.recorder().reclass_events(), 1);
    assert_eq!(s.recorder().last_reclass(), Some((id, TaskClass::LatencySensitive)));
    now += 11;
    assert!(s.maybe_reclassify(now));
    assert_eq!(s.recorder().reclass_events(), 1);
}

#[test]
fn new_task_starts_at_virtual_clock_and_keeps_it() {
    let mut s = JointScheduler::new(config(8));
    let a = s.register(cpu_task(1)).unwrap();
    let b = s.register(interactive_task()).unwrap();
    s.remove(b).unwrap();
    for _ in 0..3 {
        assert_eq!(s.select(), Some(a));
    }
    let c = s.register(interactive_task()).unwrap();
    assert_eq!(s.registry().task(c).unwrap().virtual_finish_time, 2 * 4 * VFT_SCALE);
    s.record_burst(c, 50_000).unwrap();
    s.record_burst(a, 10_000).unwrap();
    assert!(s.maybe_reclassify(11));
    let tc = s.registry().task(c).unwrap();
    assert_eq!(tc.class, TaskClass::CpuBound);
    assert_eq!(tc.virtual_finish_time, 2 * 4 * VFT_SCALE);
}

#[test]
fn tick_charges_burst_to_previous_dispatch() {
    let mut s = JointScheduler::new(config(8));
    let id = s.register(cpu_task(1)).unwrap();
    assert_eq!(s.on_tick(100), TickAction::Dispatch { task_id: id, rearm_ms: 4 });
    assert_eq!(s.on_tick(107), TickAction::Dispatch { task_id: id, rearm_ms: 4 });
    assert_eq!(s.registry().task(id).unwrap().last_burst_sample_us, 7_000);
    assert_eq!(s.recorder().schedule_events(), 2);
    assert_eq!(s.recorder().last_scheduled(), Some(id));
    assert_eq!(s.recorder().last_event_ts(), 107);
}

#[test]
fn missed_deadline_is_reported_but_dispatched() {
    let mut s = JointScheduler::new(config(8));
    let id = s.register(TaskDescriptor { handle: 0, initial_burst_us: 100, deadline_ms: Some(5), weight: 1 }).unwrap();
    assert_eq!(s.on_tick(5), TickAction::Dispatch { task_id: id, rearm_ms: 4 });
    assert_eq!(s.recorder().missed_deadlines(), 0);
    assert_eq!(s.on_tick(6), TickAction::Dispatch { task_id: id, rearm_ms: 4 });
    assert_eq!(s.recorder().missed_deadlines(), 1);
}

#[test]
fn tick_on_dummy_hardware() {
    let hal = global();
    let mut s = JointScheduler::new(config(8));
    assert_eq!(s.tick(&hal), TickAction::Idle { rearm_ms: 50 });
    s.spawn_demo_tasks();
    assert_eq!(s.registry().task_ids(), vec![1, 2]);
    assert_eq!(s.registry().task(1).unwrap().deadline_ms, Some(20));
    assert_eq!(s.registry().task(1).unwrap().class, TaskClass::CpuBound);
    assert_eq!(s.tick(&hal), TickAction::Dispatch { task_id: 1, rearm_ms: 4 });
}

#[test]
fn recorder_counts_events() {
    let mut r = Recorder::new();
    r.on_schedule(3, 40);
    r.on_reclass(3, TaskClass::CpuBound);
    r.on_missed_deadline(3, 41);
    assert_eq!(r.schedule_events(), 1);
    assert_eq!(r.reclass_events(), 1);
    assert_eq!(r.missed_deadlines(), 1);
    assert_eq!(r.last_event_ts(), 41);
    assert_eq!(r.last_scheduled(), Some(3));
    assert_eq!(r.last_reclass(), Some((3, TaskClass::CpuBound)));
}

#[test]
fn demo_tasks_on_full_registry_change_nothing() {
    let mut s = JointScheduler::new(config(2));
    s.register(cpu_task(1)).unwrap();
    s.register(cpu_task(1)).unwrap();
    s.spawn_demo_tasks();
    assert_eq!(s.registry().task_ids(), vec![1, 2]);
}

#[test]
fn demo_tasks_with_one_free_slot_register_the_first() {
    let mut s = JointScheduler::new(config(2));
    s.register(cpu_task(1)).unwrap();
    s.spawn_demo_tasks();
    assert_eq!(s.registry().task_ids(), vec![1, 2]);
    assert_eq!(s.registry().task(2).unwrap().deadline_ms, Some(20));
    assert_eq!(s.registry().task(2).unwrap().handle, 0);
}

#[test]
fn registration_keeps_handle() {
    let mut s = JointScheduler::new(config(4));
    let id = s.register(TaskDescriptor { handle: 42, initial_burst_us: 100, deadline_ms: None, weight: 1 }).unwrap();
    assert_eq!(s.registry().task(id).unwrap().handle, 42);
    assert!(s.maybe_reclassify(11));
    assert_eq!(s.select(), Some(id));
    assert_eq!(s.registry().task(id).unwrap().handle, 42);
}

#[test]
fn held_back_tick_reports_no_reclassification() {
    let mut s = JointScheduler::new(config(4));
    let id = s.register(cpu_task(1)).unwrap();
    s.record_burst(id, 0).unwrap();
    for now in [11u64, 22, 33] {
        s.on_tick(now);
    }
    assert_eq!(s.recorder().reclass_events(), 0);
    let before = s.registry().task(id).unwrap().recent_cpu_burst_us;
    s.on_tick(40);
    assert_eq!(s.registry().task(id).unwrap().recent_cpu_burst_us, before);
    assert_eq!(s.last_reclass_ms(), 33);
}

#[test]
fn idle_tick_leaves_recorder_alone() {
    let mut s = JointScheduler::new(config(4));
    s.on_tick(100);
    assert_eq!(s.recorder().schedule_events(), 0);
    assert_eq!(s.recorder().last_event_ts(), 0);
    assert_eq!(s.recorder().last_scheduled(), None);
}
