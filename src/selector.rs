use vstd::prelude::*;
use crate::task::{TaskClass, TaskMeta};
use crate::table::{table_items, table_len, table_get, table_set};
use crate::registry::{Registry, tasks_ordered};

verus! {

/// Virtual time runs in units of `1 / VFT_SCALE` ms, so that a time slice
/// divides evenly by every weight from 1 to 16.
pub const VFT_SCALE: u64 = 720720;

pub open spec fn has_deadline(t: TaskMeta) -> bool {
    t.deadline_ms is Some
}

pub open spec fn deadline_of(t: TaskMeta) -> u64 {
    t.deadline_ms->Some_0
}

/// Earliest-deadline order: smaller deadline, then larger weight, then
/// smaller id.
pub open spec fn edf_before(a: TaskMeta, b: TaskMeta) -> bool {
    ||| deadline_of(a) < deadline_of(b)
    ||| deadline_of(a) == deadline_of(b) && a.weight > b.weight
    ||| deadline_of(a) == deadline_of(b) && a.weight == b.weight && a.id < b.id
}

/// Deadline-less latency-sensitive tasks take turns in round-robin.
pub open spec fn rr_eligible(t: TaskMeta) -> bool {
    !has_deadline(t) && t.class == TaskClass::LatencySensitive
}

/// Deadline-less CPU-bound tasks share by weighted fair queueing.
pub open spec fn wfq_eligible(t: TaskMeta) -> bool {
    !has_deadline(t) && t.class == TaskClass::CpuBound
}

pub open spec fn any_deadline(s: Seq<TaskMeta>) -> bool {
    exists|j: int| 0 <= j < s.len() && has_deadline(#[trigger] s[j])
}

pub open spec fn any_rr(s: Seq<TaskMeta>) -> bool {
    exists|j: int| 0 <= j < s.len() && rr_eligible(#[trigger] s[j])
}

/// `s[i]` is the deadline-bearing task that comes first in EDF order.
pub open spec fn is_edf_pick(s: Seq<TaskMeta>, i: int) -> bool {
    &&& 0 <= i < s.len()
    &&& has_deadline(s[i])
    &&& forall|j: int| 0 <= j < s.len() && j != i && has_deadline(#[trigger] s[j]) ==> edf_before(s[i], s[j])
}

/// An id that lies after the rotation cursor.
pub open spec fn after_cursor(c: Option<u64>, id: u64) -> bool {
    match c {
        None => true,
        Some(c) => id > c,
    }
}

pub open spec fn any_rr_after(s: Seq<TaskMeta>, c: Option<u64>) -> bool {
    exists|j: int| 0 <= j < s.len() && rr_eligible(#[trigger] s[j]) && after_cursor(c, s[j].id)
}

/// `s[i]` is the round-robin task that follows the cursor: the smallest id
/// after it, or, when none lies after it, the smallest id of all.
pub open spec fn is_rr_pick(s: Seq<TaskMeta>, c: Option<u64>, i: int) -> bool {
    &&& 0 <= i < s.len()
    &&& rr_eligible(s[i])
    &&& if any_rr_after(s, c) {
        &&& after_cursor(c, s[i].id)
        &&& forall|j: int| 0 <= j < s.len() && rr_eligible(#[trigger] s[j]) && after_cursor(c, s[j].id) ==> s[i].id <= s[j].id
    } else {
        forall|j: int| 0 <= j < s.len() && rr_eligible(#[trigger] s[j]) ==> s[i].id <= s[j].id
    }
}

/// `s[i]` is the fair-share task with the smallest virtual finish time,
/// the earliest registered among equals.
pub open spec fn is_wfq_pick(s: Seq<TaskMeta>, i: int) -> bool {
    &&& 0 <= i < s.len()
    &&& wfq_eligible(s[i])
    &&& forall|j: int| 0 <= j < s.len() && wfq_eligible(#[trigger] s[j]) ==> s[i].virtual_finish_time <= s[j].virtual_finish_time
    &&& forall|j: int| 0 <= j < i && wfq_eligible(#[trigger] s[j]) ==> s[i].virtual_finish_time < s[j].virtual_finish_time
}

/// Virtual-time cost of one slice at the given weight.
pub open spec fn wfq_step(slice_ms: u64, weight: u32) -> int {
    (slice_ms as int * VFT_SCALE as int) / weight as int
}

/// Virtual finish time after one slice, saturating at `u64::MAX`.
pub open spec fn advance_vft(vft: u64, slice_ms: u64, weight: u32) -> u64 {
    if vft as int + wfq_step(slice_ms, weight) > u64::MAX as int {
        u64::MAX
    } else {
        (vft as int + wfq_step(slice_ms, weight)) as u64
    }
}

pub open spec fn rr_started(t: TaskMeta, slice_ms: u64) -> TaskMeta {
    TaskMeta { rr_remaining_slice_ms: slice_ms, ..t }
}

pub open spec fn wfq_charged(t: TaskMeta, slice_ms: u64) -> TaskMeta {
    TaskMeta { virtual_finish_time: advance_vft(t.virtual_finish_time, slice_ms, t.weight), ..t }
}

/// What one selection returns and changes, from registry `o` to `f`.
pub open spec fn select_outcome(o: Registry, f: Registry, slice_ms: u64, r: Option<u64>) -> bool {
    let s = o.tasks();
    &&& (r is None <==> s.len() == 0)
    &&& (r is None ==> f.same_as(&o))
    &&& (any_deadline(s) ==> exists|i: int|
        #[trigger] is_edf_pick(s, i) && r == Some(s[i].id) && f.same_as(&o))
    &&& (!any_deadline(s) && any_rr(s) ==> exists|i: int|
        #[trigger] is_rr_pick(s, o.spec_rr_cursor(), i) && r == Some(s[i].id)
            && f.tasks() == s.update(i, rr_started(s[i], slice_ms))
            && f.spec_rr_cursor() == Some(s[i].id)
            && f.spec_virtual_clock() == o.spec_virtual_clock())
    &&& (!any_deadline(s) && !any_rr(s) && s.len() > 0 ==> exists|i: int|
        #[trigger] is_wfq_pick(s, i) && r == Some(s[i].id)
            && f.tasks() == s.update(i, wfq_charged(s[i], slice_ms))
            && f.spec_rr_cursor() == o.spec_rr_cursor()
            && f.spec_virtual_clock() == s[i].virtual_finish_time)
}

/// EDF correctness: the deadline task that selection picks has the
/// smallest deadline of all deadline-bearing tasks, whatever their class
/// or weight, and among well-formed tasks the pick is unique.
pub proof fn lemma_edf_pick_is_earliest(s: Seq<TaskMeta>, i: int)
    requires
        is_edf_pick(s, i),
    ensures
        forall|j: int| 0 <= j < s.len() && has_deadline(#[trigger] s[j]) ==> deadline_of(s[i]) <= deadline_of(s[j]),
        tasks_ordered(s) ==> forall|k: int| #[trigger] is_edf_pick(s, k) ==> k == i,
{
    if tasks_ordered(s) {
        assert forall|k: int| #[trigger] is_edf_pick(s, k) implies k == i by {
            if k != i {
                assert(edf_before(s[i], s[k]));
                assert(edf_before(s[k], s[i]));
            }
        }
    }
}

/// EDF independence: changing the classes of any tasks, and the weights of
/// tasks whose deadline differs from the winner's, leaves the EDF winner
/// where it was.
pub proof fn lemma_edf_pick_ignores_class(s: Seq<TaskMeta>, u: Seq<TaskMeta>, i: int)
    requires
        is_edf_pick(s, i),
        u.len() == s.len(),
        forall|j: int| 0 <= j < s.len() ==> (#[trigger] u[j]).id == s[j].id && u[j].deadline_ms == s[j].deadline_ms,
        forall|j: int| 0 <= j < s.len() && has_deadline(#[trigger] s[j]) && deadline_of(s[j]) == deadline_of(s[i])
            ==> u[j].weight == s[j].weight,
    ensures
        is_edf_pick(u, i),
{
    assert(u[i].id == s[i].id && u[i].deadline_ms == s[i].deadline_ms);
    assert(has_deadline(s[i]));
    assert forall|j: int| 0 <= j < u.len() && j != i && has_deadline(#[trigger] u[j]) implies edf_before(u[i], u[j]) by {
        assert(u[j].id == s[j].id && u[j].deadline_ms == s[j].deadline_ms);
        assert(has_deadline(s[j]));
        assert(edf_before(s[i], s[j]));
    }
}

/// Round-robin liveness: the pick passes over no waiting task (every other
/// round-robin task still ahead of the cursor is still ahead of the pick),
/// and with at least two round-robin tasks, two consecutive round-robin
/// selections (the second after the first has moved the cursor and started
/// the chosen task's slice) never pick the same task.
pub proof fn lemma_rr_no_repeat(s: Seq<TaskMeta>, c: Option<u64>, i: int, slice_ms: u64, j: int)
    requires
        tasks_ordered(s),
        is_rr_pick(s, c, i),
        is_rr_pick(s.update(i, rr_started(s[i], slice_ms)), Some(s[i].id), j),
        exists|k: int| 0 <= k < s.len() && k != i && rr_eligible(#[trigger] s[k]),
    ensures
        j != i,
        forall|k: int| 0 <= k < s.len() && k != i && rr_eligible(#[trigger] s[k]) && after_cursor(c, s[k].id)
            ==> s[i].id < s[k].id,
{
    let u = s.update(i, rr_started(s[i], slice_ms));
    let k = choose|k: int| 0 <= k < s.len() && k != i && rr_eligible(#[trigger] s[k]);
    if j == i {
        assert(rr_eligible(u[k]));
        if any_rr_after(u, Some(s[i].id)) {
            assert(u[i].id == s[i].id);
        } else {
            assert(u[i].id <= u[k].id);
            if k < i {
                assert(s[k].id < s[i].id);
            } else {
                assert(s[i].id < s[k].id);
                assert(after_cursor(Some(s[i].id), u[k].id));
            }
        }
    }
    assert forall|k: int| 0 <= k < s.len() && k != i && rr_eligible(#[trigger] s[k]) && after_cursor(c, s[k].id)
        implies s[i].id < s[k].id by {
        assert(any_rr_after(s, c));
        if k < i {
            assert(s[k].id < s[i].id);
        } else {
            assert(s[i].id < s[k].id);
        }
    }
}

/// Fair-queueing balance: if the virtual finish times of the CPU-bound
/// tasks lie within `bound` of each other and one slice costs every such
/// task at most `bound`, they still do after a selection charges the
/// chosen task (no saturation assumed).
pub proof fn lemma_wfq_spread_bounded(s: Seq<TaskMeta>, i: int, slice_ms: u64, bound: int)
    requires
        tasks_ordered(s),
        is_wfq_pick(s, i),
        forall|a: int, b: int| 0 <= a < s.len() && 0 <= b < s.len() && wfq_eligible(#[trigger] s[a])
            && wfq_eligible(#[trigger] s[b]) ==> s[a].virtual_finish_time <= s[b].virtual_finish_time + bound,
        forall|a: int| 0 <= a < s.len() && wfq_eligible(#[trigger] s[a]) ==> wfq_step(slice_ms, s[a].weight) <= bound,
        s[i].virtual_finish_time + wfq_step(slice_ms, s[i].weight) <= u64::MAX,
    ensures
        ({
            let u = s.update(i, wfq_charged(s[i], slice_ms));
            forall|a: int, b: int| 0 <= a < u.len() && 0 <= b < u.len() && wfq_eligible(#[trigger] u[a])
                && wfq_eligible(#[trigger] u[b]) ==> u[a].virtual_finish_time <= u[b].virtual_finish_time + bound
        }),
{
    let u = s.update(i, wfq_charged(s[i], slice_ms));
    let w = s[i].weight as int;
    let p = slice_ms as int * VFT_SCALE as int;
    assert(p >= 0) by (nonlinear_arith)
        requires p == slice_ms as int * VFT_SCALE as int, slice_ms >= 0;
    assert(p / w >= 0) by (nonlinear_arith)
        requires p >= 0, w > 0;
    assert forall|a: int, b: int| 0 <= a < u.len() && 0 <= b < u.len() && wfq_eligible(#[trigger] u[a])
        && wfq_eligible(#[trigger] u[b]) implies u[a].virtual_finish_time <= u[b].virtual_finish_time + bound by {
        assert(wfq_eligible(s[a]) && wfq_eligible(s[b]));
        assert(s[i].virtual_finish_time <= s[b].virtual_finish_time);
        assert(s[i].virtual_finish_time <= s[a].virtual_finish_time);
    }
}

fn edf_precedes(a: &TaskMeta, b: &TaskMeta) -> (r: bool)
    requires
        has_deadline(*a),
        has_deadline(*b),
    ensures
        r == edf_before(*a, *b),
{
    let da = a.deadline_ms.unwrap();
    let db = b.deadline_ms.unwrap();
    da < db || (da == db && (a.weight > b.weight || (a.weight == b.weight && a.id < b.id)))
}

fn charge(vft: u64, slice_ms: u64, weight: u32) -> (r: u64)
    requires
        weight > 0,
    ensures
        r == advance_vft(vft, slice_ms, weight),
{
    let prod: u128 = slice_ms as u128 * 720720u128;
    let step: u128 = prod / (weight as u128);
    proof {
        assert(step <= prod) by (nonlinear_arith)
            requires step == prod / (weight as u128), weight > 0;
    }
    let sum: u128 = vft as u128 + step;
    if sum > u64::MAX as u128 {
        u64::MAX
    } else {
        sum as u64
    }
}

impl Registry {
    /// Index of the EDF winner among deadline-bearing tasks.
    fn edf_pick(&self) -> (r: Option<usize>)
        requires
            self.wf(),
        ensures
            r matches Some(i) ==> is_edf_pick(self.tasks(), i as int),
            r is None <==> !any_deadline(self.tasks()),
    {
        proof {
            self.lemma_unfold();
        }
        let n = table_len(&self.tasks);
        let mut best: Option<usize> = None;
        let mut k: usize = 0;
        while k < n
            invariant
                n == self.tasks().len(),
                self.tasks() == table_items(self.tasks),
                self.wf(),
                k <= n,
                best matches Some(b) ==> b < k && has_deadline(self.tasks()[b as int])
                    && forall|j: int| 0 <= j < k && j != b && has_deadline(#[trigger] self.tasks()[j]) ==> edf_before(self.tasks()[b as int], self.tasks()[j]),
                best is None ==> forall|j: int| 0 <= j < k ==> !has_deadline(#[trigger] self.tasks()[j]),
            decreases n - k,
        {
            let t = table_get(&self.tasks, k);
            if t.deadline_ms.is_some() {
                match best {
                    None => {
                        best = Some(k);
                    },
                    Some(b) => {
                        let bt = table_get(&self.tasks, b);
                        proof {
                            assert(bt.id < t.id);
                        }
                        if edf_precedes(&t, &bt) {
                            best = Some(k);
                            proof {
                                let s = self.tasks();
                                assert forall|j: int| 0 <= j < k + 1 && j != k && has_deadline(#[trigger] s[j]) implies edf_before(t, s[j]) by {
                                    if j != b {
                                        assert(edf_before(bt, s[j]));
                                    }
                                }
                            }
                        }
                    },
                }
            }
            k = k + 1;
        }
        best
    }
    /// Index of the round-robin task that follows the rotation cursor.
    fn rr_pick(&self) -> (r: Option<usize>)
        requires
            self.wf(),
        ensures
            r matches Some(i) ==> is_rr_pick(self.tasks(), self.spec_rr_cursor(), i as int),
            r is None <==> !any_rr(self.tasks()),
    {
        proof {
            self.lemma_unfold();
        }
        let n = table_len(&self.tasks);
        let c = self.rr_cursor;
        let mut first: Option<usize> = None;
        let mut first_after: Option<usize> = None;
        let mut k: usize = 0;
        while k < n
            invariant
                n == self.tasks().len(),
                self.tasks() == table_items(self.tasks),
                c == self.spec_rr_cursor(),
                self.wf(),
                k <= n,
                first matches Some(a) ==> a < k && rr_eligible(self.tasks()[a as int])
                    && forall|j: int| 0 <= j < a ==> !rr_eligible(#[trigger] self.tasks()[j]),
                first is None ==> forall|j: int| 0 <= j < k ==> !rr_eligible(#[trigger] self.tasks()[j]),
                first_after matches Some(a) ==> a < k && rr_eligible(self.tasks()[a as int])
                    && after_cursor(c, self.tasks()[a as int].id)
                    && forall|j: int| 0 <= j < a && rr_eligible(#[trigger] self.tasks()[j]) ==> !after_cursor(c, self.tasks()[j].id),
                first_after is None ==> forall|j: int| 0 <= j < k && rr_eligible(#[trigger] self.tasks()[j]) ==> !after_cursor(c, self.tasks()[j].id),
            decreases n - k,
        {
            let t = table_get(&self.tasks, k);
            let eligible = t.deadline_ms.is_none() && t.class == TaskClass::LatencySensitive;
            if eligible {
                if first.is_none() {
                    first = Some(k);
                }
                let after = match c {
                    None => true,
                    Some(cid) => t.id > cid,
                };
                if after && first_after.is_none() {
                    first_after = Some(k);
                }
            }
            k = k + 1;
        }
        proof {
            let s = self.tasks();
            if let Some(a) = first_after {
                assert forall|j: int| 0 <= j < s.len() && rr_eligible(#[trigger] s[j]) && after_cursor(c, s[j].id) implies s[a as int].id <= s[j].id by {
                    if j > a {
                        assert(s[a as int].id < s[j].id);
                    }
                }
            } else if let Some(a) = first {
                assert forall|j: int| 0 <= j < s.len() && rr_eligible(#[trigger] s[j]) implies s[a as int].id <= s[j].id by {
                    if j > a {
                        assert(s[a as int].id < s[j].id);
                    }
                }
            }
        }
        match first_after {
            Some(a) => Some(a),
            None => first,
        }
    }

    /// Index of the fair-share task with the smallest virtual finish time.
    fn wfq_pick(&self) -> (r: Option<usize>)
        requires
            self.wf(),
        ensures
            r matches Some(i) ==> is_wfq_pick(self.tasks(), i as int),
            r is None <==> !(exists|j: int| 0 <= j < self.tasks().len() && wfq_eligible(#[trigger] self.tasks()[j])),
    {
        proof {
            self.lemma_unfold();
        }
        let n = table_len(&self.tasks);
        let mut best: Option<usize> = None;
        let mut bv: u64 = 0;
        let mut k: usize = 0;
        while k < n
            invariant
                n == self.tasks().len(),
                self.tasks() == table_items(self.tasks),
                k <= n,
                best matches Some(b) ==> b < k && wfq_eligible(self.tasks()[b as int])
                    && bv == self.tasks()[b as int].virtual_finish_time
                    && (forall|j: int| 0 <= j < k && wfq_eligible(#[trigger] self.tasks()[j]) ==> bv <= self.tasks()[j].virtual_finish_time)
                    && (forall|j: int| 0 <= j < b && wfq_eligible(#[trigger] self.tasks()[j]) ==> bv < self.tasks()[j].virtual_finish_time),
                best is None ==> forall|j: int| 0 <= j < k ==> !wfq_eligible(#[trigger] self.tasks()[j]),
            decreases n - k,
        {
            let t = table_get(&self.tasks, k);
            if t.deadline_ms.is_none() && t.class == TaskClass::CpuBound {
                match best {
                    None => {
                        best = Some(k);
                        bv = t.virtual_finish_time;
                    },
                    Some(_) => {
                        if t.virtual_finish_time < bv {
                            best = Some(k);
                            bv = t.virtual_finish_time;
                        }
                    },
                }
            }
            k = k + 1;
        }
        best
    }

    /// Chooses the task to run next, or `None` (idle) when the registry is
    /// empty. Deadline-bearing tasks go first, in EDF order; otherwise
    /// latency-sensitive tasks rotate round-robin; otherwise CPU-bound tasks
    /// share by weighted fair queueing. Only the selector's own bookkeeping
    /// changes: the rotation cursor and the chosen task's remaining slice, or
    /// the chosen task's virtual finish time and the virtual clock.
    pub fn select(&mut self, rr_timeslice_ms: u64) -> (r: Option<u64>)
        requires
            old(self).wf(),
        ensures
            final(self).wf(),
            final(self).spec_capacity() == old(self).spec_capacity(),
            final(self).spec_next_id() == old(self).spec_next_id(),
            select_outcome(*old(self), *final(self), rr_timeslice_ms, r),
    {
        proof {
            self.lemma_unfold();
        }
        let ghost s = self.tasks();
        if let Some(i) = self.edf_pick() {
            let t = table_get(&self.tasks, i);
            proof {
                assert(is_edf_pick(s, i as int));
            }
            return Some(t.id);
        }
        if let Some(i) = self.rr_pick() {
            let t = table_get(&self.tasks, i);
            table_set(&mut self.tasks, i, TaskMeta { rr_remaining_slice_ms: rr_timeslice_ms, ..t });
            self.rr_cursor = Some(t.id);
            proof {
                self.lemma_unfold();
                assert(is_rr_pick(s, old(self).spec_rr_cursor(), i as int));
                let u = self.tasks();
                assert forall|a: int, b: int| 0 <= a < b < u.len() implies #[trigger] u[a].id < #[trigger] u[b].id by {
                    assert(s[a].id < s[b].id);
                }
                assert forall|a: int| 0 <= a < u.len() implies #[trigger] u[a].weight > 0 && u[a].id < self.next_id by {
                    assert(s[a].weight > 0);
                }
            }
            return Some(t.id);
        }
        if let Some(i) = self.wfq_pick() {
            let t = table_get(&self.tasks, i);
            let v = charge(t.virtual_finish_time, rr_timeslice_ms, t.weight);
            table_set(&mut self.tasks, i, TaskMeta { virtual_finish_time: v, ..t });
            self.virtual_clock = t.virtual_finish_time;
            proof {
                self.lemma_unfold();
                assert(is_wfq_pick(s, i as int));
                let u = self.tasks();
                assert forall|a: int, b: int| 0 <= a < b < u.len() implies #[trigger] u[a].id < #[trigger] u[b].id by {
                    assert(s[a].id < s[b].id);
                }
                assert forall|a: int| 0 <= a < u.len() implies #[trigger] u[a].weight > 0 && u[a].id < self.next_id by {
                    assert(s[a].weight > 0);
                }
            }
            return Some(t.id);
        }
        proof {
            if s.len() > 0 {
                let t0 = s[0];
                assert(has_deadline(t0) || rr_eligible(t0) || wfq_eligible(t0));
            }
        }
        None
    }
}

} // verus!
