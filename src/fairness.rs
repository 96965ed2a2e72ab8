use vstd::prelude::*;
use crate::task::TaskMeta;
use crate::registry::tasks_ordered;
use crate::selector::{
    VFT_SCALE, is_wfq_pick, wfq_eligible, wfq_step, wfq_charged, lemma_wfq_spread_bounded,
};

verus! {

/// Every task is a deadline-less CPU-bound task.
pub open spec fn all_fair_share(s: Seq<TaskMeta>) -> bool {
    forall|j: int| 0 <= j < s.len() ==> wfq_eligible(#[trigger] s[j])
}

/// The index that a fair-share selection picks in `s`.
pub open spec fn wfq_choice(s: Seq<TaskMeta>) -> int {
    choose|i: int| is_wfq_pick(s, i)
}

/// The tasks after `n` consecutive fair-share selections.
pub open spec fn wfq_run(s: Seq<TaskMeta>, slice_ms: u64, n: nat) -> Seq<TaskMeta>
    decreases n,
{
    if n == 0 {
        s
    } else {
        let p = wfq_run(s, slice_ms, (n - 1) as nat);
        p.update(wfq_choice(p), wfq_charged(p[wfq_choice(p)], slice_ms))
    }
}

/// How often the task at index `k` is picked in the first `n` selections.
pub open spec fn wfq_picks(s: Seq<TaskMeta>, slice_ms: u64, n: nat, k: int) -> nat
    decreases n,
{
    if n == 0 {
        0
    } else {
        wfq_picks(s, slice_ms, (n - 1) as nat, k) + if wfq_choice(wfq_run(s, slice_ms, (n - 1) as nat)) == k {
            1nat
        } else {
            0nat
        }
    }
}

/// Pick counts follow the weights: when every weight divides the virtual
/// cost of a slice (as every weight from 1 to 16 does), then over any `n`
/// selections from a level start, `picks_j / w_j` and `picks_k / w_k`
/// differ by at most one, for every pair of tasks; so each task's share of
/// the picks tends to its share of the total weight as `n` grows.
pub proof fn lemma_wfq_pick_ratio(s: Seq<TaskMeta>, slice_ms: u64, v0: u64, n: nat)
    requires
        tasks_ordered(s),
        all_fair_share(s),
        s.len() > 0,
        slice_ms > 0,
        forall|j: int| 0 <= j < s.len() ==> (#[trigger] s[j]).virtual_finish_time == v0,
        forall|j: int| 0 <= j < s.len() ==> (slice_ms as int * VFT_SCALE as int) % (#[trigger] s[j]).weight as int == 0,
        v0 as int + n * (slice_ms as int * VFT_SCALE as int) <= u64::MAX as int,
    ensures
        forall|j: int, k: int| 0 <= j < s.len() && 0 <= k < s.len() ==>
            #[trigger] wfq_picks(s, slice_ms, n, j) * s[k].weight <= #[trigger] wfq_picks(s, slice_ms, n, k) * s[j].weight
                + s[j].weight * s[k].weight,
{
    let t = slice_ms as int * VFT_SCALE as int;
    assert(t > 0) by (nonlinear_arith)
        requires t == slice_ms as int * VFT_SCALE as int, slice_ms > 0;
    lemma_wfq_service_balanced(s, slice_ms, v0, n);
    assert forall|j: int, k: int| 0 <= j < s.len() && 0 <= k < s.len() implies
        #[trigger] wfq_picks(s, slice_ms, n, j) * s[k].weight <= #[trigger] wfq_picks(s, slice_ms, n, k) * s[j].weight
            + s[j].weight * s[k].weight by {
        let cj = wfq_picks(s, slice_ms, n, j) as int;
        let ck = wfq_picks(s, slice_ms, n, k) as int;
        let wj = s[j].weight as int;
        let wk = s[k].weight as int;
        let sj = wfq_step(slice_ms, s[j].weight);
        let sk = wfq_step(slice_ms, s[k].weight);
        assert(wj > 0 && wk > 0);
        assert(sj * wj == t) by (nonlinear_arith)
            requires sj == t / wj, t % wj == 0, wj > 0;
        assert(sk * wk == t) by (nonlinear_arith)
            requires sk == t / wk, t % wk == 0, wk > 0;
        assert(cj * sj <= ck * sk + t);
        assert(cj * wk <= ck * wj + wj * wk) by (nonlinear_arith)
            requires cj * sj <= ck * sk + t, sj * wj == t, sk * wk == t, t > 0, wj > 0, wk > 0;
    }
}

/// A fair-share selection (as `Registry::select` performs it when no
/// deadline or latency-sensitive task is live) is exactly one step of
/// `wfq_run`: the pick is unique.
pub proof fn lemma_select_is_run_step(s: Seq<TaskMeta>, i: int, slice_ms: u64)
    requires
        is_wfq_pick(s, i),
    ensures
        wfq_choice(s) == i,
        s.update(i, wfq_charged(s[i], slice_ms)) == wfq_run(s, slice_ms, 1),
{
    let c = wfq_choice(s);
    assert(is_wfq_pick(s, c));
    if c < i {
        assert(s[i].virtual_finish_time < s[c].virtual_finish_time);
    } else if i < c {
        assert(s[c].virtual_finish_time < s[i].virtual_finish_time);
    }
    assert(wfq_run(s, slice_ms, 0) == s);
}

/// Among the first `n` tasks there is one with the smallest virtual finish
/// time, earliest among equals.
proof fn lemma_prefix_min(s: Seq<TaskMeta>, n: int) -> (m: int)
    requires
        0 < n <= s.len(),
    ensures
        0 <= m < n,
        forall|j: int| 0 <= j < n ==> s[m].virtual_finish_time <= (#[trigger] s[j]).virtual_finish_time,
        forall|j: int| 0 <= j < m ==> s[m].virtual_finish_time < (#[trigger] s[j]).virtual_finish_time,
    decreases n,
{
    if n == 1 {
        0
    } else {
        let m0 = lemma_prefix_min(s, n - 1);
        if s[n - 1].virtual_finish_time < s[m0].virtual_finish_time {
            n - 1
        } else {
            m0
        }
    }
}

/// A non-empty set of fair-share tasks always has a pick.
proof fn lemma_wfq_pick_exists(s: Seq<TaskMeta>)
    requires
        all_fair_share(s),
        s.len() > 0,
    ensures
        is_wfq_pick(s, wfq_choice(s)),
{
    let m = lemma_prefix_min(s, s.len() as int);
    assert(is_wfq_pick(s, m));
}

proof fn lemma_step_bounds(slice_ms: u64, w: u32)
    requires
        w > 0,
    ensures
        0 <= wfq_step(slice_ms, w) <= slice_ms as int * VFT_SCALE as int,
{
    let p = slice_ms as int * VFT_SCALE as int;
    assert(p >= 0) by (nonlinear_arith)
        requires p == slice_ms as int * VFT_SCALE as int, slice_ms >= 0;
    assert(0 <= p / (w as int) <= p) by (nonlinear_arith)
        requires p >= 0, w as int >= 1;
}

/// Weighted fair queueing: run `n` consecutive selections over a fixed set
/// of CPU-bound, deadline-less tasks that all start at the same virtual
/// time `v0` (with no saturation of virtual time). Each task's virtual
/// finish time is then `v0` plus its picks times its per-slice cost
/// `slice * VFT_SCALE / weight`, and the service of any two tasks measured
/// that way differs by at most one full slice (`slice * VFT_SCALE`): picks
/// are proportional to weight up to one slice, whatever `n` is.
pub proof fn lemma_wfq_service_balanced(s: Seq<TaskMeta>, slice_ms: u64, v0: u64, n: nat)
    requires
        tasks_ordered(s),
        all_fair_share(s),
        s.len() > 0,
        forall|j: int| 0 <= j < s.len() ==> (#[trigger] s[j]).virtual_finish_time == v0,
        v0 as int + n * (slice_ms as int * VFT_SCALE as int) <= u64::MAX as int,
    ensures
        wfq_run(s, slice_ms, n).len() == s.len(),
        forall|k: int| 0 <= k < s.len() ==> (#[trigger] wfq_run(s, slice_ms, n)[k]).virtual_finish_time
            == v0 + wfq_picks(s, slice_ms, n, k) * wfq_step(slice_ms, s[k].weight),
        forall|j: int, k: int| 0 <= j < s.len() && 0 <= k < s.len() ==>
            #[trigger] wfq_picks(s, slice_ms, n, j) * wfq_step(slice_ms, s[j].weight)
                <= #[trigger] wfq_picks(s, slice_ms, n, k) * wfq_step(slice_ms, s[k].weight)
                    + slice_ms as int * VFT_SCALE as int,
    decreases n,
{
    let b = slice_ms as int * VFT_SCALE as int;
    lemma_run_invariant(s, slice_ms, v0, n);
    let u = wfq_run(s, slice_ms, n);
    assert forall|j: int, k: int| 0 <= j < s.len() && 0 <= k < s.len() implies
        #[trigger] wfq_picks(s, slice_ms, n, j) * wfq_step(slice_ms, s[j].weight)
            <= #[trigger] wfq_picks(s, slice_ms, n, k) * wfq_step(slice_ms, s[k].weight) + b by {
        assert(u[j].virtual_finish_time <= u[k].virtual_finish_time + b);
    }
}

/// What stays true along a run: the tasks keep everything but their
/// virtual finish times, each finish time is `v0` plus picks times cost,
/// picks never exceed the number of selections, and finish times stay
/// within one full slice of each other.
proof fn lemma_run_invariant(s: Seq<TaskMeta>, slice_ms: u64, v0: u64, n: nat)
    requires
        tasks_ordered(s),
        all_fair_share(s),
        s.len() > 0,
        forall|j: int| 0 <= j < s.len() ==> (#[trigger] s[j]).virtual_finish_time == v0,
        v0 as int + n * (slice_ms as int * VFT_SCALE as int) <= u64::MAX as int,
    ensures
        ({
            let u = wfq_run(s, slice_ms, n);
            let b = slice_ms as int * VFT_SCALE as int;
            &&& u.len() == s.len()
            &&& tasks_ordered(u)
            &&& all_fair_share(u)
            &&& forall|k: int| 0 <= k < s.len() ==> (#[trigger] u[k]).weight == s[k].weight && u[k].id == s[k].id
            &&& forall|k: int| 0 <= k < s.len() ==> (#[trigger] u[k]).virtual_finish_time
                == v0 + wfq_picks(s, slice_ms, n, k) * wfq_step(slice_ms, s[k].weight)
            &&& forall|k: int| 0 <= k < s.len() ==> #[trigger] wfq_picks(s, slice_ms, n, k) <= n
            &&& forall|a: int, c: int| 0 <= a < u.len() && 0 <= c < u.len() ==>
                (#[trigger] u[a]).virtual_finish_time <= (#[trigger] u[c]).virtual_finish_time + b
        }),
    decreases n,
{
    let b = slice_ms as int * VFT_SCALE as int;
    if n == 0 {
        assert forall|k: int| 0 <= k < s.len() implies (#[trigger] s[k]).virtual_finish_time
            == v0 + wfq_picks(s, slice_ms, 0, k) * wfq_step(slice_ms, s[k].weight) by {
            assert(wfq_picks(s, slice_ms, 0, k) == 0);
            assert(0 * wfq_step(slice_ms, s[k].weight) == 0);
        }
        assert(b >= 0) by (nonlinear_arith)
            requires b == slice_ms as int * VFT_SCALE as int, slice_ms >= 0;
    } else {
        let m = (n - 1) as nat;
        assert(v0 as int + m * b <= u64::MAX as int) by (nonlinear_arith)
            requires v0 as int + n * b <= u64::MAX as int, m == n - 1, b >= 0, n >= 1;
        lemma_run_invariant(s, slice_ms, v0, m);
        let p = wfq_run(s, slice_ms, m);
        lemma_wfq_pick_exists(p);
        let i = wfq_choice(p);
        let u = wfq_run(s, slice_ms, n);
        assert(u == p.update(i, wfq_charged(p[i], slice_ms)));
        let ci = wfq_picks(s, slice_ms, m, i);
        let st = wfq_step(slice_ms, s[i].weight);
        lemma_step_bounds(slice_ms, s[i].weight);
        assert(ci * st <= m * b) by (nonlinear_arith)
            requires ci <= m, 0 <= st <= b;
        assert(n * b == m * b + b) by (nonlinear_arith)
            requires m == n - 1;
        assert(p[i].virtual_finish_time == v0 + ci * st);
        assert(p[i].virtual_finish_time + st <= u64::MAX as int);
        assert(u[i].virtual_finish_time == p[i].virtual_finish_time + st);
        assert forall|a: int| 0 <= a < p.len() && wfq_eligible(#[trigger] p[a]) implies wfq_step(slice_ms, p[a].weight) <= b by {
            lemma_step_bounds(slice_ms, p[a].weight);
        }
        assert forall|a: int, c: int| 0 <= a < p.len() && 0 <= c < p.len() && wfq_eligible(#[trigger] p[a])
            && wfq_eligible(#[trigger] p[c]) implies p[a].virtual_finish_time <= p[c].virtual_finish_time + b by {
        }
        lemma_wfq_spread_bounded(p, i, slice_ms, b);
        assert forall|k: int| 0 <= k < s.len() implies (#[trigger] u[k]).virtual_finish_time
            == v0 + wfq_picks(s, slice_ms, n, k) * wfq_step(slice_ms, s[k].weight) by {
            let ck = wfq_picks(s, slice_ms, m, k);
            let sk = wfq_step(slice_ms, s[k].weight);
            if k == i {
                assert(wfq_picks(s, slice_ms, n, k) == ck + 1);
                assert((ck + 1) * sk == ck * sk + sk) by (nonlinear_arith);
            } else {
                assert(wfq_picks(s, slice_ms, n, k) == ck);
            }
        }
        assert forall|k: int| 0 <= k < s.len() implies #[trigger] wfq_picks(s, slice_ms, n, k) <= n by {
            assert(wfq_picks(s, slice_ms, m, k) <= m);
        }
        assert forall|a: int, c: int| 0 <= a < u.len() && 0 <= c < u.len() implies
            (#[trigger] u[a]).virtual_finish_time <= (#[trigger] u[c]).virtual_finish_time + b by {
            assert(wfq_eligible(u[a]) && wfq_eligible(u[c]));
        }
        assert forall|x: int, y: int| 0 <= x < y < u.len() implies #[trigger] u[x].id < #[trigger] u[y].id by {
            assert(p[x].id < p[y].id);
        }
        assert forall|x: int| 0 <= x < u.len() implies #[trigger] u[x].weight > 0 by {
            assert(p[x].weight > 0);
        }
        assert forall|x: int| 0 <= x < u.len() implies wfq_eligible(#[trigger] u[x]) by {
            assert(wfq_eligible(p[x]));
        }
    }
}

} // verus!
