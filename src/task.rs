use vstd::prelude::*;

verus! {

/// Behavioural class of a task, derived from its smoothed CPU burst.
#[derive(Clone, Copy, Debug, PartialEq, Eq, Structural)]
pub enum TaskClass {
    CpuBound,
    LatencySensitive,
}

/// One schedulable task as the registry holds it.
///
/// Burst lengths are kept in microseconds; virtual finish times are in
/// units of `1 / VFT_SCALE` milliseconds.
#[derive(Clone, Copy, Debug)]
pub struct TaskMeta {
    pub id: u64,
    /// Context-switch handle received at registration; never interpreted.
    pub handle: usize,
    pub recent_cpu_burst_us: u64,
    pub last_burst_sample_us: u64,
    pub class: TaskClass,
    pub deadline_ms: Option<u64>,
    pub weight: u32,
    pub virtual_finish_time: u64,
    pub rr_remaining_slice_ms: u64,
}

} // verus!
