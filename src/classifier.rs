use vstd::prelude::*;
use crate::task::{TaskClass, TaskMeta};
use crate::table::{table_items, table_len, table_get, table_set};
use crate::registry::Registry;
use crate::metrics::{Recorder, sat_add};

verus! {

/// Smoothing constants are given in thousandths.
pub const ALPHA_DENOM: u64 = 1000;

pub open spec fn valid_alpha(alpha_pm: u64) -> bool {
    0 < alpha_pm < ALPHA_DENOM
}

/// Distance between two burst lengths.
pub open spec fn gap(a: u64, b: u64) -> nat {
    if a >= b {
        (a - b) as nat
    } else {
        (b - a) as nat
    }
}

/// One exponential-moving-average step towards `sample`:
/// `alpha * sample + (1 - alpha) * est`, written as
/// `sample + (1 - alpha) * (est - sample)` and rounded towards `sample`.
pub open spec fn ema_next(est: u64, sample: u64, alpha_pm: u64) -> u64 {
    if est >= sample {
        (sample + ((est - sample) * (ALPHA_DENOM - alpha_pm)) / ALPHA_DENOM as int) as u64
    } else {
        (sample - ((sample - est) * (ALPHA_DENOM - alpha_pm)) / ALPHA_DENOM as int) as u64
    }
}

/// The estimate after `k` steps with the same sample.
pub open spec fn ema_iter(est: u64, sample: u64, alpha_pm: u64, k: nat) -> u64
    decreases k,
{
    if k == 0 {
        est
    } else {
        ema_iter(ema_next(est, sample, alpha_pm), sample, alpha_pm, (k - 1) as nat)
    }
}

/// The class that a smoothed burst length maps to.
pub open spec fn class_for(burst_us: u64, threshold_us: u64) -> TaskClass {
    if burst_us >= threshold_us {
        TaskClass::CpuBound
    } else {
        TaskClass::LatencySensitive
    }
}

/// A task after one classifier run: only its smoothed burst and its class
/// change.
pub open spec fn reclassified(t: TaskMeta, threshold_us: u64, alpha_pm: u64) -> TaskMeta {
    let b = ema_next(t.recent_cpu_burst_us, t.last_burst_sample_us, alpha_pm);
    TaskMeta { recent_cpu_burst_us: b, class: class_for(b, threshold_us), ..t }
}

/// Whether one classifier run changes the class of `t`.
pub open spec fn changes_class(t: TaskMeta, threshold_us: u64, alpha_pm: u64) -> bool {
    reclassified(t, threshold_us, alpha_pm).class != t.class
}

/// How many of the first `k` tasks change class in one classifier run.
pub open spec fn class_changes(s: Seq<TaskMeta>, threshold_us: u64, alpha_pm: u64, k: int) -> nat
    decreases k,
{
    if k <= 0 {
        0
    } else {
        class_changes(s, threshold_us, alpha_pm, k - 1) + if changes_class(s[k - 1], threshold_us, alpha_pm) {
            1nat
        } else {
            0nat
        }
    }
}

/// The last class change among the first `k` tasks of one classifier run:
/// the task's id and its new class.
pub open spec fn last_change(s: Seq<TaskMeta>, threshold_us: u64, alpha_pm: u64, k: int) -> Option<(u64, TaskClass)>
    decreases k,
{
    if k <= 0 {
        None
    } else if changes_class(s[k - 1], threshold_us, alpha_pm) {
        Some((s[k - 1].id, reclassified(s[k - 1], threshold_us, alpha_pm).class))
    } else {
        last_change(s, threshold_us, alpha_pm, k - 1)
    }
}

/// The recorder's latest reclassification event after a run over `s`.
pub open spec fn reported_reclass(
    s: Seq<TaskMeta>,
    threshold_us: u64,
    alpha_pm: u64,
    before: Option<(u64, TaskClass)>,
) -> Option<(u64, TaskClass)> {
    match last_change(s, threshold_us, alpha_pm, s.len() as int) {
        Some(e) => Some(e),
        None => before,
    }
}

/// Computes `ema_next`.
pub fn ema_update(est: u64, sample: u64, alpha_pm: u64) -> (r: u64)
    requires
        valid_alpha(alpha_pm),
    ensures
        r == ema_next(est, sample, alpha_pm),
{
    let keep: u128 = (ALPHA_DENOM - alpha_pm) as u128;
    if est >= sample {
        let d: u128 = (est - sample) as u128;
        proof {
            assert(d * keep <= 0xffff_ffff_ffff_ffff * 1000) by (nonlinear_arith)
                requires d <= 0xffff_ffff_ffff_ffff, keep < 1000;
        }
        let q: u128 = (d * keep) / 1000u128;
        proof {
            assert(q <= d) by (nonlinear_arith)
                requires q == (d * keep) / 1000, keep < 1000, d >= 0;
        }
        sample + q as u64
    } else {
        let d: u128 = (sample - est) as u128;
        proof {
            assert(d * keep <= 0xffff_ffff_ffff_ffff * 1000) by (nonlinear_arith)
                requires d <= 0xffff_ffff_ffff_ffff, keep < 1000;
        }
        let q: u128 = (d * keep) / 1000u128;
        proof {
            assert(q <= d) by (nonlinear_arith)
                requires q == (d * keep) / 1000, keep < 1000, d >= 0;
        }
        sample - q as u64
    }
}

/// Computes `class_for`.
pub fn classify(burst_us: u64, threshold_us: u64) -> (r: TaskClass)
    ensures
        r == class_for(burst_us, threshold_us),
{
    if burst_us >= threshold_us {
        TaskClass::CpuBound
    } else {
        TaskClass::LatencySensitive
    }
}

/// One smoothing step moves the estimate towards the sample, never past
/// it, and shrinks the distance by at least the factor `1 - alpha`;
/// any nonzero distance strictly decreases.
pub proof fn lemma_ema_step_contracts(est: u64, sample: u64, alpha_pm: u64)
    requires
        valid_alpha(alpha_pm),
    ensures
        est >= sample ==> sample <= ema_next(est, sample, alpha_pm) <= est,
        est < sample ==> est <= ema_next(est, sample, alpha_pm) <= sample,
        gap(ema_next(est, sample, alpha_pm), sample) * ALPHA_DENOM <= gap(est, sample) * (ALPHA_DENOM - alpha_pm),
        gap(est, sample) > 0 ==> gap(ema_next(est, sample, alpha_pm), sample) < gap(est, sample),
{
    let keep: int = ALPHA_DENOM - alpha_pm;
    let d: int = gap(est, sample) as int;
    let q: int = (d * keep) / 1000;
    assert(q <= d && q * 1000 <= d * keep && (d > 0 ==> q < d)) by (nonlinear_arith)
        requires q == (d * keep) / 1000, 0 < keep < 1000, d >= 0;
}

/// Under a constant sample stream the estimate converges monotonically:
/// the distance to the sample never grows from one run to the next, and
/// after as many runs as the initial distance (in microseconds) the
/// estimate equals the sample.
pub proof fn lemma_ema_converges(est: u64, sample: u64, alpha_pm: u64, k: nat)
    requires
        valid_alpha(alpha_pm),
    ensures
        gap(ema_iter(est, sample, alpha_pm, k + 1), sample) <= gap(ema_iter(est, sample, alpha_pm, k), sample),
        gap(ema_iter(est, sample, alpha_pm, k), sample) + k <= gap(est, sample)
            || ema_iter(est, sample, alpha_pm, k) == sample,
        k >= gap(est, sample) ==> ema_iter(est, sample, alpha_pm, k) == sample,
    decreases k,
{
    lemma_ema_step_contracts(est, sample, alpha_pm);
    if k > 0 {
        let e1 = ema_next(est, sample, alpha_pm);
        lemma_ema_converges(e1, sample, alpha_pm, (k - 1) as nat);
        assert(ema_iter(est, sample, alpha_pm, k) == ema_iter(e1, sample, alpha_pm, (k - 1) as nat));
        assert(ema_iter(est, sample, alpha_pm, k + 1) == ema_iter(e1, sample, alpha_pm, k));
    } else {
        assert(ema_iter(est, sample, alpha_pm, 1) == ema_iter(ema_next(est, sample, alpha_pm), sample, alpha_pm, 0));
    }
}

/// `b` to the power `e`.
pub open spec fn pow_nat(b: nat, e: nat) -> nat
    decreases e,
{
    if e == 0 {
        1
    } else {
        b * pow_nat(b, (e - 1) as nat)
    }
}

/// Geometric convergence: after `k` runs with the same sample, the distance
/// to the sample is at most `(1 - alpha)^k` times the initial distance.
pub proof fn lemma_ema_geometric(est: u64, sample: u64, alpha_pm: u64, k: nat)
    requires
        valid_alpha(alpha_pm),
    ensures
        gap(ema_iter(est, sample, alpha_pm, k), sample) * pow_nat(ALPHA_DENOM as nat, k)
            <= gap(est, sample) * pow_nat((ALPHA_DENOM - alpha_pm) as nat, k),
    decreases k,
{
    let p: nat = ALPHA_DENOM as nat;
    let q: nat = (ALPHA_DENOM - alpha_pm) as nat;
    if k > 0 {
        let m = (k - 1) as nat;
        let e1 = ema_next(est, sample, alpha_pm);
        lemma_ema_geometric(e1, sample, alpha_pm, m);
        lemma_ema_step_contracts(est, sample, alpha_pm);
        assert(ema_iter(est, sample, alpha_pm, k) == ema_iter(e1, sample, alpha_pm, m));
        let g = gap(ema_iter(e1, sample, alpha_pm, m), sample);
        let g1 = gap(e1, sample);
        let g0 = gap(est, sample);
        let pm = pow_nat(p, m);
        let qm = pow_nat(q, m);
        assert(g * (p * pm) <= g0 * (q * qm)) by (nonlinear_arith)
            requires g * pm <= g1 * qm, g1 * p <= g0 * q;
    } else {
        assert(ema_iter(est, sample, alpha_pm, 0) == est);
    }
}

/// Classification is a function of the smoothed burst alone: the same
/// estimate and threshold give the same class, and a task keeps its class
/// unless its estimate crosses the threshold.
pub proof fn lemma_class_deterministic(b1: u64, b2: u64, threshold_us: u64)
    ensures
        b1 == b2 ==> class_for(b1, threshold_us) == class_for(b2, threshold_us),
        (b1 >= threshold_us) == (b2 >= threshold_us) ==> class_for(b1, threshold_us) == class_for(b2, threshold_us),
{
}

impl Registry {
    /// Folds every task's latest burst sample into its smoothed estimate and
    /// re-derives its class, reporting each actual class change (task id and
    /// new class) to `rec`, in registration order.
    pub fn reclassify(&mut self, threshold_us: u64, alpha_pm: u64, rec: &mut Recorder)
        requires
            old(self).wf(),
            valid_alpha(alpha_pm),
        ensures
            final(self).wf(),
            final(self).same_frame(old(self)),
            final(self).tasks().len() == old(self).tasks().len(),
            forall|i: int| 0 <= i < old(self).tasks().len() ==> #[trigger] final(self).tasks()[i]
                == reclassified(old(self).tasks()[i], threshold_us, alpha_pm),
            final(rec).spec_reclass_events() == sat_add(
                old(rec).spec_reclass_events(),
                class_changes(old(self).tasks(), threshold_us, alpha_pm, old(self).tasks().len() as int),
            ),
            final(rec).spec_last_reclass() == reported_reclass(
                old(self).tasks(),
                threshold_us,
                alpha_pm,
                old(rec).spec_last_reclass(),
            ),
            final(rec).spec_last_event_ts() == old(rec).spec_last_event_ts(),
            final(rec).spec_schedule_events() == old(rec).spec_schedule_events(),
            final(rec).spec_missed_deadlines() == old(rec).spec_missed_deadlines(),
            final(rec).spec_last_scheduled() == old(rec).spec_last_scheduled(),
    {
        proof {
            self.lemma_unfold();
        }
        let ghost s = self.tasks();
        let n = table_len(&self.tasks);
        let mut k: usize = 0;
        while k < n
            invariant
                n == s.len(),
                k <= n,
                valid_alpha(alpha_pm),
                self.tasks() == table_items(self.tasks),
                self.same_frame(old(self)),
                s == old(self).tasks(),
                self.tasks().len() == n,
                forall|j: int| 0 <= j < k ==> #[trigger] self.tasks()[j] == reclassified(s[j], threshold_us, alpha_pm),
                forall|j: int| k <= j < n ==> #[trigger] self.tasks()[j] == s[j],
                rec.spec_reclass_events() == sat_add(old(rec).spec_reclass_events(), class_changes(s, threshold_us, alpha_pm, k as int)),
                rec.spec_last_reclass() == match last_change(s, threshold_us, alpha_pm, k as int) {
                    Some(e) => Some(e),
                    None => old(rec).spec_last_reclass(),
                },
                rec.spec_last_event_ts() == old(rec).spec_last_event_ts(),
                rec.spec_schedule_events() == old(rec).spec_schedule_events(),
                rec.spec_missed_deadlines() == old(rec).spec_missed_deadlines(),
                rec.spec_last_scheduled() == old(rec).spec_last_scheduled(),
            decreases n - k,
        {
            proof {
                self.lemma_unfold();
            }
            let t = table_get(&self.tasks, k);
            let b = ema_update(t.recent_cpu_burst_us, t.last_burst_sample_us, alpha_pm);
            let c = classify(b, threshold_us);
            let was_cpu = t.class == TaskClass::CpuBound;
            let is_cpu = c == TaskClass::CpuBound;
            table_set(&mut self.tasks, k, TaskMeta { recent_cpu_burst_us: b, class: c, ..t });
            if was_cpu != is_cpu {
                rec.on_reclass(t.id, c);
            }
            proof {
                self.lemma_unfold();
                assert(self.tasks()[k as int] == reclassified(s[k as int], threshold_us, alpha_pm));
                assert(class_changes(s, threshold_us, alpha_pm, k + 1) == class_changes(s, threshold_us, alpha_pm, k as int)
                    + if changes_class(s[k as int], threshold_us, alpha_pm) { 1nat } else { 0nat });
            }
            k = k + 1;
        }
        proof {
            self.lemma_unfold();
            let u = self.tasks();
            assert forall|a: int, b: int| 0 <= a < b < u.len() implies #[trigger] u[a].id < #[trigger] u[b].id by {
                assert(s[a].id < s[b].id);
            }
            assert forall|a: int| 0 <= a < u.len() implies #[trigger] u[a].weight > 0 && u[a].id < self.next_id by {
                assert(s[a].weight > 0);
            }
        }
    }
}

} // verus!
