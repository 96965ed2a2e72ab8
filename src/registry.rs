use vstd::prelude::*;
use crate::task::{TaskClass, TaskMeta};
use crate::table::{
    TaskVec, TABLE_SLOTS, table_items, table_new, table_len, table_push, table_remove, table_get,
    table_set,
};

verus! {

/// Errors reported by registry mutation.
#[derive(Clone, Copy, Debug, PartialEq, Eq, Structural)]
pub enum RegistryError {
    /// The registry is full (or has run out of task ids).
    CapacityExceeded,
    /// No live task carries the given id.
    NotFound,
    /// The descriptor's weight is zero.
    InvalidWeight,
}

/// What a spawner hands over when registering a task.
#[derive(Clone, Copy, Debug)]
pub struct TaskDescriptor {
    /// Handle the context switcher knows the task by.
    pub handle: usize,
    /// Initial estimate of the task's CPU burst, in microseconds.
    pub initial_burst_us: u64,
    pub deadline_ms: Option<u64>,
    pub weight: u32,
}

/// The task record that registration creates.
pub open spec fn fresh_task(id: u64, d: TaskDescriptor, class: TaskClass, vclock: u64) -> TaskMeta {
    TaskMeta {
        id,
        handle: d.handle,
        recent_cpu_burst_us: d.initial_burst_us,
        last_burst_sample_us: d.initial_burst_us,
        class,
        deadline_ms: d.deadline_ms,
        weight: d.weight,
        virtual_finish_time: vclock,
        rr_remaining_slice_ms: 0,
    }
}

/// Ids strictly increase along the sequence (so they are unique and
/// registration order is id order), and every weight is positive.
pub open spec fn tasks_ordered(s: Seq<TaskMeta>) -> bool {
    &&& forall|i: int, j: int| 0 <= i < j < s.len() ==> #[trigger] s[i].id < #[trigger] s[j].id
    &&& forall|i: int| 0 <= i < s.len() ==> #[trigger] s[i].weight > 0
}

/// Whether some task of `s` has the given id.
pub open spec fn has_id(s: Seq<TaskMeta>, id: u64) -> bool {
    exists|i: int| 0 <= i < s.len() && #[trigger] s[i].id == id
}

/// What one registration returns and changes, from registry `o` to `f`:
/// weight zero is rejected, a full registry (or an exhausted id space)
/// reports `CapacityExceeded`, both leaving `o` as it was; otherwise the
/// new task, with the next id, is appended.
pub open spec fn register_outcome(
    o: Registry,
    f: Registry,
    d: TaskDescriptor,
    class: TaskClass,
    r: Result<u64, RegistryError>,
) -> bool {
    let full = o.tasks().len() >= o.spec_capacity() || o.spec_next_id() == u64::MAX;
    &&& (d.weight == 0 ==> r == Err::<u64, RegistryError>(RegistryError::InvalidWeight) && f.same_as(&o))
    &&& (d.weight > 0 && full ==> r == Err::<u64, RegistryError>(RegistryError::CapacityExceeded) && f.same_as(&o))
    &&& (d.weight > 0 && !full ==> {
        &&& r == Ok::<u64, RegistryError>(o.spec_next_id())
        &&& f.tasks() == o.tasks().push(fresh_task(o.spec_next_id(), d, class, o.spec_virtual_clock()))
        &&& f.spec_next_id() == o.spec_next_id() + 1
        &&& f.spec_capacity() == o.spec_capacity()
        &&& f.spec_rr_cursor() == o.spec_rr_cursor()
        &&& f.spec_virtual_clock() == o.spec_virtual_clock()
    })
}

/// Bounded collection of live tasks, kept in registration order.
pub struct Registry {
    pub(crate) tasks: TaskVec,
    pub(crate) capacity: usize,
    pub(crate) next_id: u64,
    pub(crate) rr_cursor: Option<u64>,
    pub(crate) virtual_clock: u64,
}

impl Registry {
    /// The live tasks, in registration order.
    pub closed spec fn tasks(&self) -> Seq<TaskMeta> {
        table_items(self.tasks)
    }

    pub closed spec fn spec_capacity(&self) -> nat {
        self.capacity as nat
    }

    /// The id the next registration will receive.
    pub closed spec fn spec_next_id(&self) -> u64 {
        self.next_id
    }

    /// Id of the task that round-robin selected last, if any.
    pub closed spec fn spec_rr_cursor(&self) -> Option<u64> {
        self.rr_cursor
    }

    /// Virtual time at which the latest fair-share selection started.
    pub closed spec fn spec_virtual_clock(&self) -> u64 {
        self.virtual_clock
    }

    /// Unfolds the accessors for the other modules of this crate.
    pub(crate) proof fn lemma_unfold(&self)
        ensures
            self.tasks() == table_items(self.tasks),
            self.spec_capacity() == self.capacity as nat,
            self.spec_next_id() == self.next_id,
            self.spec_rr_cursor() == self.rr_cursor,
            self.spec_virtual_clock() == self.virtual_clock,
    {
    }

    pub open spec fn wf(&self) -> bool {
        &&& self.spec_capacity() <= TABLE_SLOTS
        &&& self.tasks().len() <= self.spec_capacity()
        &&& tasks_ordered(self.tasks())
        &&& forall|i: int| 0 <= i < self.tasks().len() ==> #[trigger] self.tasks()[i].id < self.spec_next_id()
    }

    /// Same contents and bookkeeping.
    pub open spec fn same_as(&self, o: &Registry) -> bool {
        &&& self.tasks() == o.tasks()
        &&& self.spec_capacity() == o.spec_capacity()
        &&& self.spec_next_id() == o.spec_next_id()
        &&& self.spec_rr_cursor() == o.spec_rr_cursor()
        &&& self.spec_virtual_clock() == o.spec_virtual_clock()
    }

    /// Same capacity, id counter and selector bookkeeping; tasks may differ.
    pub open spec fn same_frame(&self, o: &Registry) -> bool {
        &&& self.spec_capacity() == o.spec_capacity()
        &&& self.spec_next_id() == o.spec_next_id()
        &&& self.spec_rr_cursor() == o.spec_rr_cursor()
        &&& self.spec_virtual_clock() == o.spec_virtual_clock()
    }

    /// An empty registry holding at most `capacity` tasks.
    pub fn new(capacity: usize) -> (r: Registry)
        requires
            capacity <= TABLE_SLOTS,
        ensures
            r.wf(),
            r.tasks() == Seq::<TaskMeta>::empty(),
            r.spec_capacity() == capacity,
            r.spec_next_id() == 1,
            r.spec_rr_cursor() is None,
            r.spec_virtual_clock() == 0,
    {
        Registry { tasks: table_new(), capacity, next_id: 1, rr_cursor: None, virtual_clock: 0 }
    }

    pub fn len(&self) -> (r: usize)
        ensures
            r == self.tasks().len(),
    {
        table_len(&self.tasks)
    }

    pub fn is_empty(&self) -> (r: bool)
        ensures
            r == (self.tasks().len() == 0),
    {
        table_len(&self.tasks) == 0
    }

    pub fn capacity(&self) -> (r: usize)
        ensures
            r == self.spec_capacity(),
    {
        self.capacity
    }

    pub fn virtual_clock(&self) -> (r: u64)
        ensures
            r == self.spec_virtual_clock(),
    {
        self.virtual_clock
    }

    /// Adds a task of the given class. Weight zero is rejected; a full
    /// registry (or an exhausted id space) reports `CapacityExceeded`.
    pub(crate) fn insert(&mut self, d: TaskDescriptor, class: TaskClass) -> (r: Result<u64, RegistryError>)
        requires
            old(self).wf(),
        ensures
            final(self).wf(),
            register_outcome(*old(self), *final(self), d, class, r),
    {
        if d.weight == 0 {
            return Err(RegistryError::InvalidWeight);
        }
        let n = table_len(&self.tasks);
        if n >= self.capacity || self.next_id == u64::MAX {
            return Err(RegistryError::CapacityExceeded);
        }
        let id = self.next_id;
        let t = TaskMeta {
            id,
            handle: d.handle,
            recent_cpu_burst_us: d.initial_burst_us,
            last_burst_sample_us: d.initial_burst_us,
            class,
            deadline_ms: d.deadline_ms,
            weight: d.weight,
            virtual_finish_time: self.virtual_clock,
            rr_remaining_slice_ms: 0,
        };
        let ok = table_push(&mut self.tasks, t);
        self.next_id = id + 1;
        proof {
            let s = table_items(self.tasks);
            assert(s[s.len() - 1] == t);
            assert forall|i: int, j: int| 0 <= i < j < s.len() implies #[trigger] s[i].id < #[trigger] s[j].id by {
                if j == s.len() - 1 {
                    assert(s[i] == old(self).tasks()[i]);
                } else {
                    assert(s[i] == old(self).tasks()[i]);
                    assert(s[j] == old(self).tasks()[j]);
                }
            }
            assert forall|i: int| 0 <= i < s.len() implies #[trigger] s[i].weight > 0 by {
                if i < s.len() - 1 {
                    assert(s[i] == old(self).tasks()[i]);
                }
            }
            assert forall|i: int| 0 <= i < s.len() implies #[trigger] s[i].id < self.next_id by {
                if i < s.len() - 1 {
                    assert(s[i] == old(self).tasks()[i]);
                }
            }
        }
        Ok(id)
    }

    /// Position of the task with the given id.
    pub fn find(&self, id: u64) -> (r: Option<usize>)
        requires
            self.wf(),
        ensures
            r matches Some(i) ==> i < self.tasks().len() && self.tasks()[i as int].id == id,
            r is None <==> !has_id(self.tasks(), id),
    {
        let n = table_len(&self.tasks);
        let mut i: usize = 0;
        while i < n
            invariant
                n == self.tasks().len(),
                i <= n,
                forall|k: int| 0 <= k < i ==> #[trigger] self.tasks()[k].id != id,
            decreases n - i,
        {
            let t = table_get(&self.tasks, i);
            if t.id == id {
                return Some(i);
            }
            i = i + 1;
        }
        None
    }

    /// The task with the given id, if live.
    pub fn task(&self, id: u64) -> (r: Option<TaskMeta>)
        requires
            self.wf(),
        ensures
            r matches Some(t) ==> t.id == id && self.tasks().contains(t),
            r is None <==> !has_id(self.tasks(), id),
    {
        match self.find(id) {
            Some(i) => {
                let t = table_get(&self.tasks, i);
                proof {
                    assert(self.tasks()[i as int] == t);
                }
                Some(t)
            },
            None => None,
        }
    }

    /// The live task ids, in registration order.
    pub fn task_ids(&self) -> (r: Vec<u64>)
        ensures
            r@ == self.tasks().map_values(|t: TaskMeta| t.id),
    {
        let n = table_len(&self.tasks);
        let mut out: Vec<u64> = Vec::new();
        let mut i: usize = 0;
        while i < n
            invariant
                n == self.tasks().len(),
                i <= n,
                out@ == self.tasks().take(i as int).map_values(|t: TaskMeta| t.id),
            decreases n - i,
        {
            let t = table_get(&self.tasks, i);
            out.push(t.id);
            proof {
                assert(self.tasks().take(i + 1) == self.tasks().take(i as int).push(t));
            }
            i = i + 1;
        }
        proof {
            assert(self.tasks().take(n as int) == self.tasks());
        }
        out
    }

    /// Removes the task with the given id, keeping the others in order.
    pub fn remove(&mut self, id: u64) -> (r: Result<(), RegistryError>)
        requires
            old(self).wf(),
        ensures
            final(self).wf(),
            final(self).same_frame(old(self)),
            r is Ok <==> has_id(old(self).tasks(), id),
            r is Err ==> r == Err::<(), RegistryError>(RegistryError::NotFound)
                && final(self).tasks() == old(self).tasks(),
            r is Ok ==> exists|i: int|
                0 <= i < old(self).tasks().len() && old(self).tasks()[i].id == id
                    && #[trigger] final(self).tasks() == old(self).tasks().remove(i),
    {
        match self.find(id) {
            None => Err(RegistryError::NotFound),
            Some(i) => {
                let _ = table_remove(&mut self.tasks, i);
                proof {
                    let s = old(self).tasks();
                    let t = self.tasks();
                    assert forall|a: int, b: int| 0 <= a < b < t.len() implies #[trigger] t[a].id < #[trigger] t[b].id by {
                        if a < i {
                            if b < i {
                            } else {
                                assert(t[b] == s[b + 1]);
                            }
                        } else {
                            assert(t[a] == s[a + 1]);
                            assert(t[b] == s[b + 1]);
                        }
                    }
                    assert forall|a: int| 0 <= a < t.len() implies #[trigger] t[a].weight > 0 && t[a].id < self.next_id by {
                        if a >= i {
                            assert(t[a] == s[a + 1]);
                        }
                    }
                }
                Ok(())
            },
        }
    }

    /// Stores the execution time last observed for a task; the classifier
    /// folds it into the smoothed estimate on its next run.
    pub fn record_burst(&mut self, id: u64, sample_us: u64) -> (r: Result<(), RegistryError>)
        requires
            old(self).wf(),
        ensures
            final(self).wf(),
            final(self).same_frame(old(self)),
            r is Ok <==> has_id(old(self).tasks(), id),
            r is Err ==> r == Err::<(), RegistryError>(RegistryError::NotFound)
                && final(self).tasks() == old(self).tasks(),
            r is Ok ==> exists|i: int|
                0 <= i < old(self).tasks().len() && old(self).tasks()[i].id == id
                    && #[trigger] final(self).tasks() == old(self).tasks().update(
                    i,
                    TaskMeta { last_burst_sample_us: sample_us, ..old(self).tasks()[i] },
                ),
    {
        match self.find(id) {
            None => Err(RegistryError::NotFound),
            Some(i) => {
                let t = table_get(&self.tasks, i);
                table_set(&mut self.tasks, i, TaskMeta { last_burst_sample_us: sample_us, ..t });
                proof {
                    let s = old(self).tasks();
                    let u = self.tasks();
                    assert forall|a: int, b: int| 0 <= a < b < u.len() implies #[trigger] u[a].id < #[trigger] u[b].id by {
                        assert(s[a].id < s[b].id);
                    }
                    assert forall|a: int| 0 <= a < u.len() implies #[trigger] u[a].weight > 0 && u[a].id < self.next_id by {
                        assert(s[a].weight > 0);
                    }
                }
                Ok(())
            },
        }
    }
}

} // verus!
