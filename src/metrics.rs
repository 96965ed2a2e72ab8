use vstd::prelude::*;
use crate::task::TaskClass;

verus! {

/// `x + n`, capped at `u64::MAX`.
pub open spec fn sat_add(x: u64, n: nat) -> u64 {
    if x as int + n as int > u64::MAX as int {
        u64::MAX
    } else {
        (x + n) as u64
    }
}

fn sat_inc(x: u64) -> (r: u64)
    ensures
        r == sat_add(x, 1),
{
    if x == u64::MAX {
        x
    } else {
        x + 1
    }
}

/// Best-effort telemetry sink: keeps the latest event of each kind and
/// saturating event counters.
pub struct Recorder {
    last_event_ts: u64,
    schedule_events: u64,
    reclass_events: u64,
    missed_deadlines: u64,
    last_scheduled: Option<u64>,
    last_reclass: Option<(u64, TaskClass)>,
}

impl Recorder {
    pub closed spec fn spec_last_event_ts(&self) -> u64 {
        self.last_event_ts
    }

    pub closed spec fn spec_schedule_events(&self) -> u64 {
        self.schedule_events
    }

    pub closed spec fn spec_reclass_events(&self) -> u64 {
        self.reclass_events
    }

    pub closed spec fn spec_missed_deadlines(&self) -> u64 {
        self.missed_deadlines
    }

    pub closed spec fn spec_last_scheduled(&self) -> Option<u64> {
        self.last_scheduled
    }

    pub closed spec fn spec_last_reclass(&self) -> Option<(u64, TaskClass)> {
        self.last_reclass
    }

    /// Every event field equals that of `o`.
    pub open spec fn same_events(&self, o: &Recorder) -> bool {
        &&& self.spec_last_event_ts() == o.spec_last_event_ts()
        &&& self.spec_schedule_events() == o.spec_schedule_events()
        &&& self.spec_reclass_events() == o.spec_reclass_events()
        &&& self.spec_missed_deadlines() == o.spec_missed_deadlines()
        &&& self.spec_last_scheduled() == o.spec_last_scheduled()
        &&& self.spec_last_reclass() == o.spec_last_reclass()
    }

    pub fn new() -> (r: Recorder)
        ensures
            r.spec_last_event_ts() == 0,
            r.spec_schedule_events() == 0,
            r.spec_reclass_events() == 0,
            r.spec_missed_deadlines() == 0,
            r.spec_last_scheduled() is None,
            r.spec_last_reclass() is None,
    {
        Recorder {
            last_event_ts: 0,
            schedule_events: 0,
            reclass_events: 0,
            missed_deadlines: 0,
            last_scheduled: None,
            last_reclass: None,
        }
    }

    /// Records that `task_id` was dispatched at `ts_ms`.
    pub fn on_schedule(&mut self, task_id: u64, ts_ms: u64)
        ensures
            final(self).spec_last_event_ts() == ts_ms,
            final(self).spec_last_scheduled() == Some(task_id),
            final(self).spec_schedule_events() == sat_add(old(self).spec_schedule_events(), 1),
            final(self).spec_reclass_events() == old(self).spec_reclass_events(),
            final(self).spec_missed_deadlines() == old(self).spec_missed_deadlines(),
            final(self).spec_last_reclass() == old(self).spec_last_reclass(),
    {
        self.last_event_ts = ts_ms;
        self.last_scheduled = Some(task_id);
        self.schedule_events = sat_inc(self.schedule_events);
    }

    /// Records that `task_id` changed to class `class`.
    pub fn on_reclass(&mut self, task_id: u64, class: TaskClass)
        ensures
            final(self).spec_last_reclass() == Some((task_id, class)),
            final(self).spec_reclass_events() == sat_add(old(self).spec_reclass_events(), 1),
            final(self).spec_last_event_ts() == old(self).spec_last_event_ts(),
            final(self).spec_schedule_events() == old(self).spec_schedule_events(),
            final(self).spec_missed_deadlines() == old(self).spec_missed_deadlines(),
            final(self).spec_last_scheduled() == old(self).spec_last_scheduled(),
    {
        self.last_reclass = Some((task_id, class));
        self.reclass_events = sat_inc(self.reclass_events);
    }

    /// Records that a deadline task was dispatched after its deadline.
    pub fn on_missed_deadline(&mut self, task_id: u64, ts_ms: u64)
        ensures
            final(self).spec_missed_deadlines() == sat_add(old(self).spec_missed_deadlines(), 1),
            final(self).spec_last_event_ts() == ts_ms,
            final(self).spec_schedule_events() == old(self).spec_schedule_events(),
            final(self).spec_reclass_events() == old(self).spec_reclass_events(),
            final(self).spec_last_scheduled() == old(self).spec_last_scheduled(),
            final(self).spec_last_reclass() == old(self).spec_last_reclass(),
    {
        let _ = task_id;
        self.last_event_ts = ts_ms;
        self.missed_deadlines = sat_inc(self.missed_deadlines);
    }

    pub fn last_event_ts(&self) -> (r: u64)
        ensures
            r == self.spec_last_event_ts(),
    {
        self.last_event_ts
    }

    pub fn schedule_events(&self) -> (r: u64)
        ensures
            r == self.spec_schedule_events(),
    {
        self.schedule_events
    }

    pub fn reclass_events(&self) -> (r: u64)
        ensures
            r == self.spec_reclass_events(),
    {
        self.reclass_events
    }

    pub fn missed_deadlines(&self) -> (r: u64)
        ensures
            r == self.spec_missed_deadlines(),
    {
        self.missed_deadlines
    }

    pub fn last_scheduled(&self) -> (r: Option<u64>)
        ensures
            r == self.spec_last_scheduled(),
    {
        self.last_scheduled
    }

    pub fn last_reclass(&self) -> (r: Option<(u64, TaskClass)>)
        ensures
            r == self.spec_last_reclass(),
    {
        self.last_reclass
    }
}

} // verus!
