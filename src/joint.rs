use vstd::prelude::*;
use crate::task::TaskMeta;
use crate::table::TABLE_SLOTS;
use crate::registry::{Registry, RegistryError, TaskDescriptor, fresh_task, has_id, register_outcome};
use crate::classifier::{class_for, classify, reclassified, valid_alpha, class_changes, reported_reclass};
use crate::selector::{
    any_deadline, any_rr, is_edf_pick, is_rr_pick, is_wfq_pick, has_deadline, deadline_of, rr_started,
    wfq_charged, select_outcome,
};
use crate::metrics::{Recorder, sat_add};
use crate::hal::{Hal, Timer, IrqCtl, ContextSwitch};

verus! {

/// Interrupt line of the scheduler tick.
pub const TIMER_IRQ: u32 = 0;

/// Smoothing constant of the burst estimate, in thousandths.
pub const EMA_ALPHA_PM: u64 = 400;

/// Policy parameters of the joint scheduler.
#[derive(Clone, Copy, Debug)]
pub struct JointConfig {
    /// Length of one dispatch before the next tick.
    pub rr_timeslice_ms: u64,
    /// Smoothed burst (in microseconds) at or above which a task is CPU-bound.
    pub cpu_bound_threshold_us: u64,
    /// Minimum time between two classifier runs.
    pub reclass_hysteresis_ms: u64,
    /// Timer interval while nothing is runnable; longer than the time slice.
    pub idle_tick_ms: u64,
    /// Deadline given to the built-in demo task.
    pub edf_default_deadline_ms: u64,
    /// Maximum number of live tasks.
    pub capacity: usize,
}

/// What the loop must do after a tick.
#[derive(Clone, Copy, Debug, PartialEq, Eq, Structural)]
pub enum TickAction {
    /// Switch to `task_id` and arm the timer `rearm_ms` from now.
    Dispatch { task_id: u64, rearm_ms: u64 },
    /// Nothing to run: arm the timer `rearm_ms` from now and wait.
    Idle { rearm_ms: u64 },
}

/// The classifier runs only when strictly more than the hysteresis interval
/// has passed since its last run.
pub open spec fn reclass_due(last_ms: u64, now_ms: u64, hysteresis_ms: u64) -> bool {
    now_ms as int - last_ms as int > hysteresis_ms as int
}

/// Microseconds in `ms` milliseconds, capped at `u64::MAX`.
pub open spec fn ms_to_us(ms: int) -> u64 {
    if ms * 1000 > u64::MAX as int {
        u64::MAX
    } else {
        (ms * 1000) as u64
    }
}

/// Id, handle, deadline and weight of every task stay as they were.
pub open spec fn keeps_identity(s: Seq<TaskMeta>, u: Seq<TaskMeta>) -> bool {
    &&& s.len() == u.len()
    &&& forall|j: int| 0 <= j < s.len() ==> (#[trigger] s[j]).id == u[j].id && s[j].deadline_ms == u[j].deadline_ms
        && s[j].weight == u[j].weight && s[j].handle == u[j].handle
}

/// The last observed burst of every task stays as it was.
pub open spec fn keeps_samples(s: Seq<TaskMeta>, u: Seq<TaskMeta>) -> bool {
    &&& s.len() == u.len()
    &&& forall|j: int| 0 <= j < s.len() ==> (#[trigger] s[j]).last_burst_sample_us == u[j].last_burst_sample_us
}

/// The EDF winner depends only on ids, deadlines and weights.
proof fn lemma_edf_pick_stable(s: Seq<TaskMeta>, u: Seq<TaskMeta>, i: int)
    requires
        keeps_identity(s, u),
    ensures
        any_deadline(s) == any_deadline(u),
        is_edf_pick(s, i) == is_edf_pick(u, i),
{
    if any_deadline(s) {
        let j = choose|j: int| 0 <= j < s.len() && has_deadline(#[trigger] s[j]);
        assert(has_deadline(u[j]));
    }
    if any_deadline(u) {
        let j = choose|j: int| 0 <= j < u.len() && has_deadline(#[trigger] u[j]);
        assert(has_deadline(s[j]));
    }
    if is_edf_pick(s, i) {
        assert forall|j: int| 0 <= j < u.len() && j != i && has_deadline(#[trigger] u[j]) implies crate::selector::edf_before(u[i], u[j]) by {
            assert(has_deadline(s[j]));
        }
    }
    if is_edf_pick(u, i) {
        assert forall|j: int| 0 <= j < s.len() && j != i && has_deadline(#[trigger] s[j]) implies crate::selector::edf_before(s[i], s[j]) by {
            assert(has_deadline(u[j]));
        }
    }
}

/// Computes `ms_to_us`.
fn to_us(ms: u64) -> (r: u64)
    ensures
        r == ms_to_us(ms as int),
{
    let us: u128 = ms as u128 * 1000u128;
    if us > u64::MAX as u128 {
        u64::MAX
    } else {
        us as u64
    }
}

/// Time of the latest classifier run after an attempt at `now_ms`.
pub open spec fn reclass_after(last_ms: u64, now_ms: u64, hysteresis_ms: u64) -> u64 {
    if reclass_due(last_ms, now_ms, hysteresis_ms) {
        now_ms
    } else {
        last_ms
    }
}

/// A task after the time since the previous dispatch has been charged to
/// it: only the task that was running gets a new burst sample.
pub open spec fn charged(t: TaskMeta, running: Option<(u64, u64)>, now_ms: u64) -> TaskMeta {
    match running {
        Some((rid, start)) => if t.id == rid && start <= now_ms {
            TaskMeta { last_burst_sample_us: ms_to_us(now_ms - start), ..t }
        } else {
            t
        },
        None => t,
    }
}

/// The recorder's reclassification events after a classifier attempt over
/// tasks `s` that ran (`ran`) or was held back by the hysteresis.
pub open spec fn reclass_reported(s: Seq<TaskMeta>, o: JointScheduler, f: Recorder, ran: bool) -> bool {
    let thr = o.spec_cfg().cpu_bound_threshold_us;
    let before = o.spec_recorder();
    if ran {
        &&& f.spec_reclass_events() == sat_add(before.spec_reclass_events(), class_changes(s, thr, o.spec_alpha(), s.len() as int))
        &&& f.spec_last_reclass() == reported_reclass(s, thr, o.spec_alpha(), before.spec_last_reclass())
    } else {
        &&& f.spec_reclass_events() == before.spec_reclass_events()
        &&& f.spec_last_reclass() == before.spec_last_reclass()
    }
}

/// The tasks of `o` after the time since the previous dispatch is charged.
pub open spec fn charged_tasks(o: JointScheduler, now_ms: u64) -> Seq<TaskMeta> {
    o.spec_registry().tasks().map_values(|t: TaskMeta| charged(t, o.spec_running(), now_ms))
}

/// A task as the selector of a tick at `now_ms` sees it: charged, then
/// reclassified if the classifier is due.
pub open spec fn prepared_task(o: JointScheduler, t: TaskMeta, now_ms: u64) -> TaskMeta {
    let c = charged(t, o.spec_running(), now_ms);
    if reclass_due(o.spec_last_reclass_ms(), now_ms, o.spec_cfg().reclass_hysteresis_ms) {
        reclassified(c, o.spec_cfg().cpu_bound_threshold_us, o.spec_alpha())
    } else {
        c
    }
}

/// `m` is the registry of `o` with every task prepared for a tick at `now_ms`.
pub open spec fn prepared(o: JointScheduler, m: Registry, now_ms: u64) -> bool {
    &&& m.same_frame(&o.spec_registry())
    &&& m.tasks().len() == o.spec_registry().tasks().len()
    &&& forall|i: int| 0 <= i < m.tasks().len() ==> #[trigger] m.tasks()[i] == prepared_task(o, o.spec_registry().tasks()[i], now_ms)
}

/// The task a tick dispatches, if any.
pub open spec fn tick_choice(r: TickAction) -> Option<u64> {
    match r {
        TickAction::Dispatch { task_id, rearm_ms } => Some(task_id),
        TickAction::Idle { rearm_ms } => None,
    }
}

/// The task dispatched by the previous tick (if still live) has the time
/// since its dispatch as its latest burst sample.
pub open spec fn sample_charged(o: JointScheduler, f: JointScheduler, now_ms: u64) -> bool {
    match o.spec_running() {
        Some((rid, start)) => start <= now_ms ==> forall|i: int|
            0 <= i < o.spec_registry().tasks().len() && o.spec_registry().tasks()[i].id == rid
                ==> #[trigger] f.spec_registry().tasks()[i].last_burst_sample_us == ms_to_us(now_ms - start),
        None => true,
    }
}

/// What a tick returns and reports: idle exactly when no task is live;
/// otherwise a dispatch of a live task for one time slice, recorded as
/// scheduled (and as a missed deadline when its deadline lies before
/// `now_ms`); a deadline-bearing task, when any is live, is the EDF winner.
pub open spec fn tick_outcome(o: JointScheduler, f: JointScheduler, now_ms: u64, r: TickAction) -> bool {
    let s = o.spec_registry().tasks();
    let ts = o.spec_cfg().rr_timeslice_ms;
    &&& (r is Idle <==> s.len() == 0)
    &&& (r is Idle ==> r == TickAction::Idle { rearm_ms: o.spec_cfg().idle_tick_ms } && f.spec_running() is None
        && f.spec_recorder().same_events(&o.spec_recorder()))
    &&& (r matches TickAction::Dispatch { task_id, rearm_ms } ==> {
        &&& rearm_ms == ts
        &&& f.spec_running() == Some((task_id, now_ms))
        &&& f.spec_recorder().spec_last_scheduled() == Some(task_id)
        &&& f.spec_recorder().spec_last_event_ts() == now_ms
        &&& f.spec_recorder().spec_schedule_events() == sat_add(o.spec_recorder().spec_schedule_events(), 1)
        &&& exists|i: int| 0 <= i < s.len() && #[trigger] s[i].id == task_id
            && f.spec_recorder().spec_missed_deadlines() == sat_add(
                o.spec_recorder().spec_missed_deadlines(),
                if has_deadline(s[i]) && deadline_of(s[i]) < now_ms { 1nat } else { 0nat },
            )
    })
    &&& (any_deadline(s) ==> exists|i: int|
        #[trigger] is_edf_pick(s, i) && r == TickAction::Dispatch { task_id: s[i].id, rearm_ms: ts })
}


/// Everything one tick at `now_ms` does, from scheduler `o` to `f`.
pub open spec fn tick_result(o: JointScheduler, f: JointScheduler, now_ms: u64, r: TickAction) -> bool {
    &&& f.spec_last_reclass_ms() == reclass_after(o.spec_last_reclass_ms(), now_ms, o.spec_cfg().reclass_hysteresis_ms)
    &&& sample_charged(o, f, now_ms)
    &&& tick_outcome(o, f, now_ms, r)
    &&& reclass_reported(
        charged_tasks(o, now_ms),
        o,
        f.spec_recorder(),
        reclass_due(o.spec_last_reclass_ms(), now_ms, o.spec_cfg().reclass_hysteresis_ms),
    )
    &&& exists|m: Registry| prepared(o, m, now_ms) && #[trigger] select_outcome(
        m,
        f.spec_registry(),
        o.spec_cfg().rr_timeslice_ms,
        tick_choice(r),
    )
}

/// Descriptor of the built-in deadline task.
pub open spec fn demo_deadline_task(cfg: JointConfig) -> TaskDescriptor {
    TaskDescriptor { handle: 0, initial_burst_us: 3000, deadline_ms: Some(cfg.edf_default_deadline_ms), weight: 2 }
}

/// Descriptor of the built-in deadline-less task.
pub open spec fn demo_bulk_task() -> TaskDescriptor {
    TaskDescriptor { handle: 1, initial_burst_us: 15000, deadline_ms: None, weight: 1 }
}

/// Task registry with classifier and selector state, driven by ticks.
pub struct JointScheduler {
    cfg: JointConfig,
    registry: Registry,
    rec: Recorder,
    ema_alpha_pm: u64,
    last_reclass_ms: u64,
    running: Option<(u64, u64)>,
}

impl JointScheduler {
    pub closed spec fn spec_cfg(&self) -> JointConfig {
        self.cfg
    }

    pub closed spec fn spec_registry(&self) -> Registry {
        self.registry
    }

    pub closed spec fn spec_recorder(&self) -> Recorder {
        self.rec
    }

    pub closed spec fn spec_alpha(&self) -> u64 {
        self.ema_alpha_pm
    }

    pub closed spec fn spec_last_reclass_ms(&self) -> u64 {
        self.last_reclass_ms
    }

    /// The task dispatched by the latest tick and when, if any.
    pub closed spec fn spec_running(&self) -> Option<(u64, u64)> {
        self.running
    }

    pub open spec fn wf(&self) -> bool {
        &&& self.spec_registry().wf()
        &&& self.spec_registry().spec_capacity() == self.spec_cfg().capacity
        &&& self.spec_cfg().idle_tick_ms > self.spec_cfg().rr_timeslice_ms
        &&& valid_alpha(self.spec_alpha())
    }

    pub fn new(cfg: JointConfig) -> (r: JointScheduler)
        requires
            cfg.capacity <= TABLE_SLOTS,
            cfg.idle_tick_ms > cfg.rr_timeslice_ms,
        ensures
            r.wf(),
            r.spec_cfg() == cfg,
            r.spec_alpha() == EMA_ALPHA_PM,
            r.spec_last_reclass_ms() == 0,
            r.spec_running() is None,
            r.spec_registry().tasks().len() == 0,
            r.spec_registry().spec_next_id() == 1,
            r.spec_recorder().spec_reclass_events() == 0,
            r.spec_recorder().spec_schedule_events() == 0,
    {
        JointScheduler {
            cfg,
            registry: Registry::new(cfg.capacity),
            rec: Recorder::new(),
            ema_alpha_pm: EMA_ALPHA_PM,
            last_reclass_ms: 0,
            running: None,
        }
    }

    pub fn config(&self) -> (r: JointConfig)
        ensures
            r == self.spec_cfg(),
    {
        self.cfg
    }

    pub fn registry(&self) -> (r: &Registry)
        ensures
            *r == self.spec_registry(),
    {
        &self.registry
    }

    pub fn recorder(&self) -> (r: &Recorder)
        ensures
            *r == self.spec_recorder(),
    {
        &self.rec
    }

    pub fn last_reclass_ms(&self) -> (r: u64)
        ensures
            r == self.spec_last_reclass_ms(),
    {
        self.last_reclass_ms
    }

    /// Registers a task; its class follows from its initial burst estimate.
    pub fn register(&mut self, d: TaskDescriptor) -> (r: Result<u64, RegistryError>)
        requires
            old(self).wf(),
        ensures
            final(self).wf(),
            final(self).spec_cfg() == old(self).spec_cfg(),
            final(self).spec_alpha() == old(self).spec_alpha(),
            final(self).spec_last_reclass_ms() == old(self).spec_last_reclass_ms(),
            final(self).spec_running() == old(self).spec_running(),
            final(self).spec_recorder() == old(self).spec_recorder(),
            register_outcome(
                old(self).spec_registry(),
                final(self).spec_registry(),
                d,
                class_for(d.initial_burst_us, old(self).spec_cfg().cpu_bound_threshold_us),
                r,
            ),
    {
        let c = classify(d.initial_burst_us, self.cfg.cpu_bound_threshold_us);
        self.registry.insert(d, c)
    }

    /// Removes a task by id.
    pub fn remove(&mut self, id: u64) -> (r: Result<(), RegistryError>)
        requires
            old(self).wf(),
        ensures
            final(self).wf(),
            final(self).spec_cfg() == old(self).spec_cfg(),
            final(self).spec_alpha() == old(self).spec_alpha(),
            final(self).spec_last_reclass_ms() == old(self).spec_last_reclass_ms(),
            final(self).spec_running() == old(self).spec_running(),
            final(self).spec_recorder() == old(self).spec_recorder(),
            final(self).spec_registry().same_frame(&old(self).spec_registry()),
            r is Ok <==> has_id(old(self).spec_registry().tasks(), id),
            r is Err ==> r == Err::<(), RegistryError>(RegistryError::NotFound)
                && final(self).spec_registry().tasks() == old(self).spec_registry().tasks(),
            r is Ok ==> exists|i: int|
                0 <= i < old(self).spec_registry().tasks().len() && old(self).spec_registry().tasks()[i].id == id
                    && #[trigger] final(self).spec_registry().tasks() == old(self).spec_registry().tasks().remove(i),
    {
        self.registry.remove(id)
    }

    /// Supplies the execution time last observed for a task.
    pub fn record_burst(&mut self, id: u64, sample_us: u64) -> (r: Result<(), RegistryError>)
        requires
            old(self).wf(),
        ensures
            final(self).wf(),
            final(self).spec_cfg() == old(self).spec_cfg(),
            final(self).spec_alpha() == old(self).spec_alpha(),
            final(self).spec_last_reclass_ms() == old(self).spec_last_reclass_ms(),
            final(self).spec_running() == old(self).spec_running(),
            final(self).spec_recorder() == old(self).spec_recorder(),
            final(self).spec_registry().same_frame(&old(self).spec_registry()),
            r is Ok <==> has_id(old(self).spec_registry().tasks(), id),
            r is Err ==> r == Err::<(), RegistryError>(RegistryError::NotFound)
                && final(self).spec_registry().tasks() == old(self).spec_registry().tasks(),
            r is Ok ==> exists|i: int|
                0 <= i < old(self).spec_registry().tasks().len() && old(self).spec_registry().tasks()[i].id == id
                    && #[trigger] final(self).spec_registry().tasks() == old(self).spec_registry().tasks().update(
                    i,
                    TaskMeta { last_burst_sample_us: sample_us, ..old(self).spec_registry().tasks()[i] },
                ),
    {
        self.registry.record_burst(id, sample_us)
    }

    /// Runs the classifier if it is due at `now_ms`; returns whether it ran.
    pub fn maybe_reclassify(&mut self, now_ms: u64) -> (r: bool)
        requires
            old(self).wf(),
        ensures
            final(self).wf(),
            final(self).spec_cfg() == old(self).spec_cfg(),
            final(self).spec_alpha() == old(self).spec_alpha(),
            final(self).spec_running() == old(self).spec_running(),
            r == reclass_due(old(self).spec_last_reclass_ms(), now_ms, old(self).spec_cfg().reclass_hysteresis_ms),
            r ==> final(self).spec_last_reclass_ms() == now_ms,
            !r ==> final(self).spec_last_reclass_ms() == old(self).spec_last_reclass_ms()
                && final(self).spec_registry().same_as(&old(self).spec_registry())
                && final(self).spec_recorder() == old(self).spec_recorder(),
            final(self).spec_registry().same_frame(&old(self).spec_registry()),
            final(self).spec_registry().tasks().len() == old(self).spec_registry().tasks().len(),
            forall|i: int| 0 <= i < old(self).spec_registry().tasks().len() ==> #[trigger] final(self).spec_registry().tasks()[i]
                == if r {
                    reclassified(
                        old(self).spec_registry().tasks()[i],
                        old(self).spec_cfg().cpu_bound_threshold_us,
                        old(self).spec_alpha(),
                    )
                } else {
                    old(self).spec_registry().tasks()[i]
                },
            final(self).spec_recorder().spec_schedule_events() == old(self).spec_recorder().spec_schedule_events(),
            final(self).spec_recorder().spec_last_scheduled() == old(self).spec_recorder().spec_last_scheduled(),
            final(self).spec_recorder().spec_missed_deadlines() == old(self).spec_recorder().spec_missed_deadlines(),
            final(self).spec_recorder().spec_last_event_ts() == old(self).spec_recorder().spec_last_event_ts(),
            reclass_reported(
                old(self).spec_registry().tasks(),
                *old(self),
                final(self).spec_recorder(),
                r,
            ),
    {
        let due = now_ms >= self.last_reclass_ms && now_ms - self.last_reclass_ms > self.cfg.reclass_hysteresis_ms;
        if due {
            self.registry.reclassify(self.cfg.cpu_bound_threshold_us, self.ema_alpha_pm, &mut self.rec);
            self.last_reclass_ms = now_ms;
        }
        due
    }
    /// One selection with the configured time slice (see `Registry::select`).
    pub fn select(&mut self) -> (r: Option<u64>)
        requires
            old(self).wf(),
        ensures
            final(self).wf(),
            final(self).spec_cfg() == old(self).spec_cfg(),
            final(self).spec_alpha() == old(self).spec_alpha(),
            final(self).spec_last_reclass_ms() == old(self).spec_last_reclass_ms(),
            final(self).spec_running() == old(self).spec_running(),
            final(self).spec_recorder() == old(self).spec_recorder(),
            final(self).spec_registry().spec_capacity() == old(self).spec_registry().spec_capacity(),
            final(self).spec_registry().spec_next_id() == old(self).spec_registry().spec_next_id(),
            select_outcome(old(self).spec_registry(), final(self).spec_registry(), old(self).spec_cfg().rr_timeslice_ms, r),
    {
        self.registry.select(self.cfg.rr_timeslice_ms)
    }

    /// Stores the time since the previous dispatch as that task's burst
    /// sample, if the task is still live.
    fn charge_running(&mut self, now_ms: u64)
        requires
            old(self).wf(),
        ensures
            final(self).wf(),
            final(self).spec_cfg() == old(self).spec_cfg(),
            final(self).spec_alpha() == old(self).spec_alpha(),
            final(self).spec_last_reclass_ms() == old(self).spec_last_reclass_ms(),
            final(self).spec_running() == old(self).spec_running(),
            final(self).spec_recorder() == old(self).spec_recorder(),
            final(self).spec_registry().same_frame(&old(self).spec_registry()),
            keeps_identity(old(self).spec_registry().tasks(), final(self).spec_registry().tasks()),
            sample_charged(*old(self), *final(self), now_ms),
            forall|i: int| 0 <= i < old(self).spec_registry().tasks().len() ==> #[trigger] final(self).spec_registry().tasks()[i]
                == charged(old(self).spec_registry().tasks()[i], old(self).spec_running(), now_ms),
    {
        let ghost s0 = self.registry.tasks();
        if let Some((rid, start)) = self.running {
            if start <= now_ms {
                let us = to_us(now_ms - start);
                let res = self.registry.record_burst(rid, us);
                proof {
                    let s1 = self.registry.tasks();
                    if res is Ok {
                        let i = choose|i: int| 0 <= i < s0.len() && #[trigger] s0[i].id == rid
                            && s1 == s0.update(i, TaskMeta { last_burst_sample_us: us, ..s0[i] });
                        assert(keeps_identity(s0, s1));
                        assert forall|k: int| 0 <= k < s0.len() implies #[trigger] s1[k] == charged(s0[k], old(self).spec_running(), now_ms) by {
                            if k != i {
                                if k < i {
                                    assert(s0[k].id < s0[i].id);
                                } else {
                                    assert(s0[i].id < s0[k].id);
                                }
                            }
                        }
                    } else {
                        assert(keeps_identity(s0, s1));
                        assert forall|k: int| 0 <= k < s0.len() implies #[trigger] s1[k] == charged(s0[k], old(self).spec_running(), now_ms) by {
                            assert(s0[k].id != rid);
                        }
                    }
                }
            }
        }
    }

    /// Selects a task and reports the choice; `now_ms` is the dispatch time.
    fn dispatch(&mut self, now_ms: u64) -> (r: TickAction)
        requires
            old(self).wf(),
        ensures
            final(self).wf(),
            final(self).spec_cfg() == old(self).spec_cfg(),
            final(self).spec_alpha() == old(self).spec_alpha(),
            final(self).spec_last_reclass_ms() == old(self).spec_last_reclass_ms(),
            final(self).spec_registry().spec_next_id() == old(self).spec_registry().spec_next_id(),
            keeps_identity(old(self).spec_registry().tasks(), final(self).spec_registry().tasks()),
            keeps_samples(old(self).spec_registry().tasks(), final(self).spec_registry().tasks()),
            tick_outcome(*old(self), *final(self), now_ms, r),
            select_outcome(old(self).spec_registry(), final(self).spec_registry(), old(self).spec_cfg().rr_timeslice_ms, tick_choice(r)),
            final(self).spec_recorder().spec_reclass_events() == old(self).spec_recorder().spec_reclass_events(),
            final(self).spec_recorder().spec_last_reclass() == old(self).spec_recorder().spec_last_reclass(),
    {
        let ghost s2 = self.registry.tasks();
        let ts = self.cfg.rr_timeslice_ms;
        let ghost r2 = self.registry;
        let picked = self.registry.select(ts);
        let ghost s3 = self.registry.tasks();
        let ghost mut pi: int = 0;
        proof {
            let o = s2;
            if any_deadline(o) {
                pi = choose|i: int| #[trigger] is_edf_pick(o, i) && picked == Some(o[i].id) && self.registry.same_as(&r2);
            } else if any_rr(o) {
                pi = choose|i: int| #[trigger] is_rr_pick(o, r2.spec_rr_cursor(), i) && picked == Some(o[i].id)
                    && s3 == o.update(i, rr_started(o[i], ts));
            } else if o.len() > 0 {
                pi = choose|i: int| #[trigger] is_wfq_pick(o, i) && picked == Some(o[i].id)
                    && s3 == o.update(i, wfq_charged(o[i], ts));
            }
            assert(keeps_identity(s2, s3));
            assert(keeps_samples(s2, s3));
        }
        match picked {
            None => {
                self.running = None;
                TickAction::Idle { rearm_ms: self.cfg.idle_tick_ms }
            },
            Some(id) => {
                proof {
                    assert(s3[pi].id == id);
                }
                if let Some(t) = self.registry.task(id) {
                    proof {
                        let k = choose|k: int| 0 <= k < s3.len() && s3[k] == t;
                        if k != pi {
                            if k < pi {
                                assert(s3[k].id < s3[pi].id);
                            } else {
                                assert(s3[pi].id < s3[k].id);
                            }
                        }
                        assert(t.deadline_ms == s2[pi].deadline_ms);
                    }
                    if let Some(d) = t.deadline_ms {
                        if d < now_ms {
                            self.rec.on_missed_deadline(id, now_ms);
                        }
                    }
                } else {
                    proof {
                        assert(has_id(s3, id));
                    }
                }
                self.rec.on_schedule(id, now_ms);
                self.running = Some((id, now_ms));
                TickAction::Dispatch { task_id: id, rearm_ms: ts }
            },
        }
    }

    /// The decisions of one tick at time `now_ms`: charge the time since the
    /// previous dispatch to that task as its burst sample, run the classifier
    /// if due, select, and report the choice to the recorder (a deadline
    /// already passed is reported as missed). The caller performs the
    /// returned action.
    pub fn on_tick(&mut self, now_ms: u64) -> (r: TickAction)
        requires
            old(self).wf(),
        ensures
            final(self).wf(),
            final(self).spec_cfg() == old(self).spec_cfg(),
            final(self).spec_alpha() == old(self).spec_alpha(),
            final(self).spec_last_reclass_ms() == reclass_after(
                old(self).spec_last_reclass_ms(),
                now_ms,
                old(self).spec_cfg().reclass_hysteresis_ms,
            ),
            keeps_identity(old(self).spec_registry().tasks(), final(self).spec_registry().tasks()),
            final(self).spec_registry().spec_next_id() == old(self).spec_registry().spec_next_id(),
            sample_charged(*old(self), *final(self), now_ms),
            tick_outcome(*old(self), *final(self), now_ms, r),
            exists|m: Registry| prepared(*old(self), m, now_ms) && #[trigger] select_outcome(
                m,
                final(self).spec_registry(),
                old(self).spec_cfg().rr_timeslice_ms,
                tick_choice(r),
            ),
            reclass_reported(
                charged_tasks(*old(self), now_ms),
                *old(self),
                final(self).spec_recorder(),
                reclass_due(old(self).spec_last_reclass_ms(), now_ms, old(self).spec_cfg().reclass_hysteresis_ms),
            ),
    {
        let ghost o = *self;
        self.charge_running(now_ms);
        let ghost m1 = *self;
        let ran = self.maybe_reclassify(now_ms);
        let ghost m2 = *self;
        proof {
            assert(m1.spec_registry().tasks() =~= charged_tasks(o, now_ms));
            if m1.spec_registry().tasks().len() == 0 {
                let c = m1.spec_registry().tasks();
                assert(class_changes(c, o.spec_cfg().cpu_bound_threshold_us, o.spec_alpha(), 0) == 0);
            }
            let s1 = m1.spec_registry().tasks();
            let s2 = m2.spec_registry().tasks();
            assert forall|j: int| 0 <= j < s1.len() implies (#[trigger] s1[j]).id == s2[j].id && s1[j].deadline_ms == s2[j].deadline_ms
                && s1[j].weight == s2[j].weight && s1[j].handle == s2[j].handle && s1[j].last_burst_sample_us == s2[j].last_burst_sample_us by {
            }
        }
        let r = self.dispatch(now_ms);
        proof {
            let m = m2.spec_registry();
            assert forall|i: int| 0 <= i < m.tasks().len() implies #[trigger] m.tasks()[i] == prepared_task(o, o.spec_registry().tasks()[i], now_ms) by {
                assert(m1.spec_registry().tasks()[i] == charged(o.spec_registry().tasks()[i], o.spec_running(), now_ms));
            }
            assert(prepared(o, m, now_ms));
            let s0 = o.spec_registry().tasks();
            let s1 = m1.spec_registry().tasks();
            let s2 = m2.spec_registry().tasks();
            let s3 = self.spec_registry().tasks();
            assert(keeps_identity(s0, s2));
            assert(keeps_identity(s0, s3));
            assert(keeps_samples(s1, s3));
            if any_deadline(s0) {
                let i = choose|i: int| #[trigger] is_edf_pick(s2, i) && r == (TickAction::Dispatch { task_id: s2[i].id, rearm_ms: o.spec_cfg().rr_timeslice_ms });
                lemma_edf_pick_stable(s0, s2, i);
            }
            if let TickAction::Dispatch { task_id, rearm_ms } = r {
                let i = choose|i: int| 0 <= i < s2.len() && #[trigger] s2[i].id == task_id
                    && self.spec_recorder().spec_missed_deadlines() == sat_add(
                        m2.spec_recorder().spec_missed_deadlines(),
                        if has_deadline(s2[i]) && deadline_of(s2[i]) < now_ms { 1nat } else { 0nat },
                    );
                assert(s0[i].id == task_id);
            }
        }
        r
    }

    /// One tick of the loop on the given hardware: with the timer interrupt
    /// masked, read the clock and decide (see `on_tick`, which also reports
    /// the choice to the recorder); re-arm the timer for the time slice, or
    /// for the idle interval when nothing is runnable; acknowledge and unmask
    /// the interrupt; finally switch to the chosen task by the handle it was
    /// registered with. Timer and interrupts are set up before the switch
    /// because the switched-to task runs with interrupts enabled.
    pub fn tick<T: Timer, I: IrqCtl, C: ContextSwitch<TaskHandle = usize>>(&mut self, hal: &Hal<T, I, C>) -> (r: TickAction)
        requires
            old(self).wf(),
        ensures
            final(self).wf(),
            final(self).spec_cfg() == old(self).spec_cfg(),
            keeps_identity(old(self).spec_registry().tasks(), final(self).spec_registry().tasks()),
            exists|now_ms: u64| #[trigger] tick_result(*old(self), *final(self), now_ms, r),
            tick_choice(r) matches Some(id) ==> has_id(final(self).spec_registry().tasks(), id),
    {
        hal.irq.disable_irq(TIMER_IRQ);
        let now = hal.timer.now_ms();
        let r = self.on_tick(now);
        let ghost after = *self;
        proof {
            assert(tick_result(*old(self), after, now, r));
            if let TickAction::Dispatch { task_id, rearm_ms } = r {
                let s0 = old(self).spec_registry().tasks();
                let i = choose|i: int| 0 <= i < s0.len() && #[trigger] s0[i].id == task_id
                    && after.spec_recorder().spec_missed_deadlines() == sat_add(
                        old(self).spec_recorder().spec_missed_deadlines(),
                        if has_deadline(s0[i]) && deadline_of(s0[i]) < now { 1nat } else { 0nat },
                    );
                assert(after.spec_registry().tasks()[i].id == task_id);
            }
        }
        let rearm = match r {
            TickAction::Dispatch { task_id, rearm_ms } => rearm_ms,
            TickAction::Idle { rearm_ms } => rearm_ms,
        };
        hal.timer.schedule_tick_in(rearm);
        hal.irq.ack_irq(TIMER_IRQ);
        hal.irq.enable_irq(TIMER_IRQ);
        if let TickAction::Dispatch { task_id, rearm_ms } = r {
            if let Some(t) = self.registry.task(task_id) {
                hal.ctx.switch_to(&t.handle);
            }
        }
        r
    }

    /// Registers the two built-in tasks: a deadline task (3 ms bursts,
    /// weight 2, the configured default deadline, handle 0) and a
    /// deadline-less task (15 ms bursts, weight 1, handle 1). A registration that does not fit is skipped.
    pub fn spawn_demo_tasks(&mut self)
        requires
            old(self).wf(),
        ensures
            final(self).wf(),
            final(self).spec_cfg() == old(self).spec_cfg(),
            ({
                let o = old(self).spec_registry();
                let id = o.spec_next_id();
                let thr = old(self).spec_cfg().cpu_bound_threshold_us;
                o.tasks().len() + 2 <= o.spec_capacity() && id < u64::MAX - 1 ==> final(self).spec_registry().tasks()
                    == o.tasks().push(fresh_task(id, demo_deadline_task(old(self).spec_cfg()), class_for(3000, thr), o.spec_virtual_clock()))
                    .push(fresh_task((id + 1) as u64, demo_bulk_task(), class_for(15000, thr), o.spec_virtual_clock()))
            }),
            exists|m: Registry, r1: Result<u64, RegistryError>, r2: Result<u64, RegistryError>|
                #![trigger register_outcome(old(self).spec_registry(), m, demo_deadline_task(old(self).spec_cfg()), class_for(3000, old(self).spec_cfg().cpu_bound_threshold_us), r1), register_outcome(m, final(self).spec_registry(), demo_bulk_task(), class_for(15000, old(self).spec_cfg().cpu_bound_threshold_us), r2)]
                register_outcome(
                    old(self).spec_registry(),
                    m,
                    demo_deadline_task(old(self).spec_cfg()),
                    class_for(3000, old(self).spec_cfg().cpu_bound_threshold_us),
                    r1,
                ) && register_outcome(
                    m,
                    final(self).spec_registry(),
                    demo_bulk_task(),
                    class_for(15000, old(self).spec_cfg().cpu_bound_threshold_us),
                    r2,
                ),
    {
        let first = TaskDescriptor {
            handle: 0,
            initial_burst_us: 3000,
            deadline_ms: Some(self.cfg.edf_default_deadline_ms),
            weight: 2,
        };
        let second = TaskDescriptor { handle: 1, initial_burst_us: 15000, deadline_ms: None, weight: 1 };
        let ghost o = self.registry;
        let r1 = self.register(first);
        let ghost m = self.registry;
        let r2 = self.register(second);
        proof {
            assert(register_outcome(o, m, first, class_for(3000, self.cfg.cpu_bound_threshold_us), r1));
            assert(register_outcome(m, self.registry, second, class_for(15000, self.cfg.cpu_bound_threshold_us), r2));
        }
    }
}

/// Hysteresis: once the classifier has run at `t1`, a second attempt at
/// any `t2` no more than the hysteresis interval later does not run it.
pub proof fn lemma_hysteresis(last_ms: u64, t1: u64, t2: u64, hysteresis_ms: u64)
    requires
        reclass_due(last_ms, t1, hysteresis_ms),
        t1 <= t2,
        t2 - t1 <= hysteresis_ms,
    ensures
        !reclass_due(t1, t2, hysteresis_ms),
{
}

} // verus!
