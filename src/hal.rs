use vstd::prelude::*;

verus! {

/// One-shot tick source with a millisecond clock.
pub trait Timer {
    fn now_ms(&self) -> u64;

    /// Arms the next tick; a new call before it fires replaces the arming.
    fn schedule_tick_in(&self, ms: u64);
}

/// Interrupt line control.
pub trait IrqCtl {
    fn enable_irq(&self, irq: u32);

    fn disable_irq(&self, irq: u32);

    fn ack_irq(&self, irq: u32);
}

/// Switching the CPU to a task, given an opaque handle.
pub trait ContextSwitch {
    type TaskHandle;

    fn switch_to(&self, next: &Self::TaskHandle);

    fn yield_current(&self);
}

/// The hardware capabilities the scheduler loop is given.
pub struct Hal<'a, T: Timer, I: IrqCtl, C: ContextSwitch> {
    pub timer: &'a T,
    pub irq: &'a I,
    pub ctx: &'a C,
}

/// Timer whose clock stands still at zero and which never fires.
pub struct DummyTimer;

impl Timer for DummyTimer {
    fn now_ms(&self) -> (r: u64)
        ensures
            r == 0,
    {
        0
    }

    fn schedule_tick_in(&self, ms: u64) {
        let _ = ms;
    }
}

/// Interrupt controller that ignores every request.
pub struct DummyIrq;

impl IrqCtl for DummyIrq {
    fn enable_irq(&self, irq: u32) {
        let _ = irq;
    }

    fn disable_irq(&self, irq: u32) {
        let _ = irq;
    }

    fn ack_irq(&self, irq: u32) {
        let _ = irq;
    }
}

/// Context switcher that stays on the current flow of control.
pub struct DummyCtx;

impl ContextSwitch for DummyCtx {
    type TaskHandle = usize;

    fn switch_to(&self, next: &usize) {
        let _ = next;
    }

    fn yield_current(&self) {
    }
}

/// The placeholder platform: dummy timer, interrupt controller and context
/// switcher.
pub fn global<'a>() -> (r: Hal<'a, DummyTimer, DummyIrq, DummyCtx>)
    ensures
        *r.timer == DummyTimer,
        *r.irq == DummyIrq,
        *r.ctx == DummyCtx,
{
    Hal { timer: &DummyTimer, irq: &DummyIrq, ctx: &DummyCtx }
}

} // verus!
