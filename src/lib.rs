//! Scheduling core of a small kernel: a bounded task registry, an EMA-based
//! task classifier with hysteresis, and a two-tier selector (earliest
//! deadline first, then round-robin for latency-sensitive tasks and
//! weighted fair queueing for CPU-bound ones), driven by a tick loop.
//!
//! Modules, leaves first: `task` (the task record), `table` (the fixed-size
//! task table), `registry`, `classifier`, `selector`, `metrics`, `hal` (the
//! hardware capabilities) and `joint` (the scheduler loop).

pub mod task;
pub mod table;
pub mod registry;
pub mod selector;
pub mod fairness;
pub mod metrics;
pub mod classifier;
pub mod hal;
pub mod joint;
