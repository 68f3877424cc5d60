//! CPU scheduling: round-robin, priority and real-time policies.
use vstd::prelude::*;
use crate::kernel::task::{
    Process, ProcessState, ProcessPriority, TaskTable, priority_level_spec, set_state_spec, tick_spec,
    drv_process_table, find_process, get_current_pid, set_current_pid, set_process_state,
};

verus! {

/// The active scheduling policy.
#[derive(Debug, Clone, Copy, PartialEq, Eq, Structural)]
pub enum SchedulingPolicy {
    RoundRobin,
    Priority,
    RealTime,
}

/// Scheduler configuration.
pub struct Scheduler {
    pub policy: SchedulingPolicy,
}

impl Scheduler {
    /// The boot configuration: round-robin.
    pub fn new() -> (s: Scheduler)
        ensures
            s.policy == SchedulingPolicy::RoundRobin,
    {
        Scheduler { policy: SchedulingPolicy::RoundRobin }
    }
}

/// Selects `policy` for later scheduling decisions.
pub fn set_scheduling_policy(sched: &mut Scheduler, policy: SchedulingPolicy)
    ensures
        final(sched).policy == policy,
{
    sched.policy = policy;
}

/// The active scheduling policy.
pub fn get_scheduling_policy(sched: &Scheduler) -> (r: SchedulingPolicy)
    ensures
        r == sched.policy,
{
    sched.policy
}

/// A process that round-robin and priority scheduling may pick: Ready and not idle.
pub open spec fn eligible(p: Process) -> bool {
    p.state == ProcessState::Ready && p.pid != 0
}

/// A process that real-time scheduling prefers: Ready with RealTime priority.
pub open spec fn rt_eligible(p: Process) -> bool {
    p.state == ProcessState::Ready && p.priority == ProcessPriority::RealTime
}

/// Pids of the eligible processes, in table order.
pub open spec fn ready_pids(s: Seq<Process>) -> Seq<u32>
    decreases s.len(),
{
    if s.len() == 0 {
        Seq::empty()
    } else if eligible(s.last()) {
        ready_pids(s.drop_last()).push(s.last().pid)
    } else {
        ready_pids(s.drop_last())
    }
}

/// Pids of the real-time-eligible processes, in table order.
pub open spec fn rt_pids(s: Seq<Process>) -> Seq<u32>
    decreases s.len(),
{
    if s.len() == 0 {
        Seq::empty()
    } else if rt_eligible(s.last()) {
        rt_pids(s.drop_last()).push(s.last().pid)
    } else {
        rt_pids(s.drop_last())
    }
}

/// Index of the first `x` in `s`, or -1.
pub open spec fn first_pos(s: Seq<u32>, x: u32) -> int
    decreases s.len(),
{
    if s.len() == 0 {
        -1
    } else {
        let p = first_pos(s.drop_last(), x);
        if p >= 0 {
            p
        } else if s.last() == x {
            s.len() - 1
        } else {
            -1
        }
    }
}

/// The pid after `cur` in the circular order `ids` (the first one when `cur` is absent).
pub open spec fn rr_pick(ids: Seq<u32>, cur: u32) -> u32 {
    let p = first_pos(ids, cur);
    let idx = if p >= 0 { p } else { ids.len() - 1 };
    ids[(idx + 1) % (ids.len() as int)]
}

/// The first eligible process of highest priority level, as `(pid, level)`.
pub open spec fn best(s: Seq<Process>) -> Option<(u32, u8)>
    decreases s.len(),
{
    if s.len() == 0 {
        None
    } else {
        let b = best(s.drop_last());
        let p = s.last();
        if eligible(p) && (b is None || priority_level_spec(p.priority) > (b->0).1) {
            Some((p.pid, priority_level_spec(p.priority)))
        } else {
            b
        }
    }
}

/// Whether the process `cur` exists and is Running.
pub open spec fn cur_running(s: Seq<Process>, cur: u32) -> bool {
    exists|i: int| 0 <= i < s.len() && s[i].pid == cur && s[i].state == ProcessState::Running
}

/// The pid `schedule_next` picks.
pub open spec fn schedule_choice(s: Seq<Process>, cur: u32, policy: SchedulingPolicy) -> u32 {
    let ready = ready_pids(s);
    if ready.len() == 0 {
        if cur_running(s, cur) { cur } else { 0 }
    } else {
        match policy {
            SchedulingPolicy::RoundRobin => rr_pick(ready, cur),
            SchedulingPolicy::Priority => match best(s) {
                Some(b) => b.0,
                None => 0,
            },
            SchedulingPolicy::RealTime => {
                let rt = rt_pids(s);
                if rt.len() > 0 { rr_pick(rt, cur) } else { rr_pick(ready, cur) }
            },
        }
    }
}

/// The process table after a switch from `cur` to `next` and one tick for `next`.
pub open spec fn switch_spec(s: Seq<Process>, cur: u32, next: u32) -> Seq<Process> {
    let s1 = if cur != next {
        set_state_spec(set_state_spec(s, cur, ProcessState::Ready), next, ProcessState::Running)
    } else {
        s
    };
    tick_spec(s1, next)
}

/// No process is at the tick limit.
pub open spec fn ticks_bounded(s: Seq<Process>) -> bool {
    forall|i: int| 0 <= i < s.len() ==> (#[trigger] s[i]).cpu_ticks < u64::MAX
}

/// Gives the process `pid` one more CPU tick.
pub fn increment_task_ticks(tt: &mut TaskTable, pid: u32)
    requires
        old(tt).wf(),
        ticks_bounded(old(tt).procs@),
    ensures
        final(tt).wf(),
        final(tt).procs@ == tick_spec(old(tt).procs@, pid),
        final(tt).current_pid == old(tt).current_pid,
        final(tt).next_pid == old(tt).next_pid,
{
    let procs = drv_process_table(tt);
    match find_process(procs, pid) {
        Some(i) => {
            let mut p = procs.remove(i);
            p.cpu_ticks = p.cpu_ticks + 1;
            procs.insert(i, p);
            assert forall|k: int| 0 <= k < procs@.len() implies procs@[k] == tick_spec(old(tt).procs@, pid)[k] by {
                if k != i && old(tt).procs@[k].pid == pid {
                    assert(old(tt).procs@[k].pid == old(tt).procs@[i as int].pid);
                    if k < i {} else {}
                }
            }
            assert(procs@ =~= tick_spec(old(tt).procs@, pid));
        },
        None => {
            assert(procs@ =~= tick_spec(old(tt).procs@, pid));
        },
    }
}

/// Ticks accumulate on the process that was just picked.
fn accumulate_cpu_ticks(tt: &mut TaskTable, pid: u32)
    requires
        old(tt).wf(),
        ticks_bounded(old(tt).procs@),
    ensures
        final(tt).wf(),
        final(tt).procs@ == tick_spec(old(tt).procs@, pid),
        final(tt).current_pid == old(tt).current_pid,
        final(tt).next_pid == old(tt).next_pid,
{
    increment_task_ticks(tt, pid);
}

/// The eligible pids of `procs`, in table order.
fn collect_ready(procs: &Vec<Process>, rt: bool) -> (r: Vec<u32>)
    ensures
        !rt ==> r@ == ready_pids(procs@),
        rt ==> r@ == rt_pids(procs@),
{
    let mut r: Vec<u32> = Vec::new();
    let mut i: usize = 0;
    while i < procs.len()
        invariant
            i <= procs@.len(),
            !rt ==> r@ == ready_pids(procs@.subrange(0, i as int)),
            rt ==> r@ == rt_pids(procs@.subrange(0, i as int)),
        decreases procs@.len() - i,
    {
        let p = &procs[i];
        let take = if rt {
            p.state == ProcessState::Ready && p.priority == ProcessPriority::RealTime
        } else {
            p.state == ProcessState::Ready && p.pid != 0
        };
        if take {
            r.push(p.pid);
        }
        i = i + 1;
        assert(procs@.subrange(0, i as int).drop_last() =~= procs@.subrange(0, i - 1));
    }
    assert(procs@.subrange(0, procs@.len() as int) =~= procs@);
    r
}

/// The pid after `cur` in the circular order `ids`.
fn round_robin_pick(ids: &Vec<u32>, cur: u32) -> (r: u32)
    requires
        ids@.len() > 0,
    ensures
        r == rr_pick(ids@, cur),
{
    let mut pos: Option<usize> = None;
    let mut i: usize = 0;
    while i < ids.len()
        invariant
            i <= ids@.len(),
            pos matches Some(p) ==> first_pos(ids@.subrange(0, i as int), cur) == p && p < i,
            pos is None ==> first_pos(ids@.subrange(0, i as int), cur) == -1,
        decreases ids@.len() - i,
    {
        if pos.is_none() && ids[i] == cur {
            pos = Some(i);
        }
        i = i + 1;
        assert(ids@.subrange(0, i as int).drop_last() =~= ids@.subrange(0, i - 1));
    }
    assert(ids@.subrange(0, ids@.len() as int) =~= ids@);
    let idx = match pos {
        Some(p) => p,
        None => ids.len() - 1,
    };
    ids[(idx + 1) % ids.len()]
}

/// The first eligible process of highest priority, as `(pid, level)`.
fn highest_priority(procs: &Vec<Process>) -> (r: Option<(u32, u8)>)
    ensures
        r == best(procs@),
{
    let mut b: Option<(u32, u8)> = None;
    let mut i: usize = 0;
    while i < procs.len()
        invariant
            i <= procs@.len(),
            b == best(procs@.subrange(0, i as int)),
        decreases procs@.len() - i,
    {
        let p = &procs[i];
        if p.state == ProcessState::Ready && p.pid != 0 {
            let lv = p.priority.level();
            match b {
                None => {
                    b = Some((p.pid, lv));
                },
                Some(hp) => {
                    if lv > hp.1 {
                        b = Some((p.pid, lv));
                    }
                },
            }
        }
        i = i + 1;
        assert(procs@.subrange(0, i as int).drop_last() =~= procs@.subrange(0, i - 1));
    }
    assert(procs@.subrange(0, procs@.len() as int) =~= procs@);
    b
}

/// What one scheduling step does to the process table (`tt0` before, `tt1` after) under
/// `policy`: with no eligible process nothing moves; otherwise the table switches to the
/// chosen process, which becomes the running one.
pub open spec fn schedule_step(tt0: TaskTable, tt1: TaskTable, policy: SchedulingPolicy) -> bool {
    let s0 = tt0.procs@;
    let next = schedule_choice(s0, tt0.current_pid, policy);
    &&& ready_pids(s0).len() == 0 ==> tt1.procs@ == s0 && tt1.current_pid == tt0.current_pid
    &&& ready_pids(s0).len() > 0 ==> tt1.procs@ == switch_spec(s0, tt0.current_pid, next) && tt1.current_pid == next
}

/// Picks the next process under the active policy, switches to it and gives it a tick.
/// With no eligible process the running process keeps the CPU, or else the idle process is named.
pub fn schedule_next(tt: &mut TaskTable, sched: &Scheduler) -> (r: Option<u32>)
    requires
        old(tt).wf(),
        ticks_bounded(old(tt).procs@),
    ensures
        final(tt).wf(),
        final(tt).next_pid == old(tt).next_pid,
        r == Some(schedule_choice(old(tt).procs@, old(tt).current_pid, sched.policy)),
        ready_pids(old(tt).procs@).len() == 0 ==> final(tt).procs@ == old(tt).procs@
            && final(tt).current_pid == old(tt).current_pid,
        ready_pids(old(tt).procs@).len() > 0 ==> ({
            let next = schedule_choice(old(tt).procs@, old(tt).current_pid, sched.policy);
            &&& final(tt).procs@ == switch_spec(old(tt).procs@, old(tt).current_pid, next)
            &&& final(tt).current_pid == next
        }),
        schedule_step(*old(tt), *final(tt), sched.policy),
{
    let current_pid = get_current_pid(tt);
    let ready = collect_ready(&tt.procs, false);
    if ready.len() == 0 {
        match find_process(&tt.procs, current_pid) {
            Some(i) => {
                if tt.procs[i].state == ProcessState::Running {
                    return Some(current_pid);
                }
                assert(!cur_running(old(tt).procs@, current_pid)) by {
                    if cur_running(old(tt).procs@, current_pid) {
                        let k = choose|k: int| 0 <= k < old(tt).procs@.len() && old(tt).procs@[k].pid == current_pid
                            && old(tt).procs@[k].state == ProcessState::Running;
                        if k < i {} else if k > i {}
                    }
                }
            },
            None => {},
        }
        return Some(0);
    }
    let next_pid = match get_scheduling_policy(sched) {
        SchedulingPolicy::RoundRobin => round_robin_pick(&ready, current_pid),
        SchedulingPolicy::Priority => match highest_priority(&tt.procs) {
            Some(b) => b.0,
            None => 0,
        },
        SchedulingPolicy::RealTime => {
            let rt = collect_ready(&tt.procs, true);
            if rt.len() > 0 {
                round_robin_pick(&rt, current_pid)
            } else {
                round_robin_pick(&ready, current_pid)
            }
        },
    };
    if current_pid != next_pid {
        set_process_state(tt, current_pid, ProcessState::Ready);
        set_process_state(tt, next_pid, ProcessState::Running);
        set_current_pid(tt, next_pid);
    }
    proof {
        assert forall|i: int| 0 <= i < tt.procs@.len() implies (#[trigger] tt.procs@[i]).cpu_ticks < u64::MAX by {
            assert(tt.procs@[i].cpu_ticks == old(tt).procs@[i].cpu_ticks);
        }
    }
    accumulate_cpu_ticks(tt, next_pid);
    Some(next_pid)
}


proof fn lemma_first_pos(s: Seq<u32>, x: u32)
    ensures
        -1 <= first_pos(s, x) < s.len(),
        first_pos(s, x) >= 0 ==> s[first_pos(s, x)] == x,
        first_pos(s, x) == -1 ==> !s.contains(x),
    decreases s.len(),
{
    if s.len() > 0 {
        lemma_first_pos(s.drop_last(), x);
        if first_pos(s.drop_last(), x) == -1 && s.last() != x {
            assert forall|k: int| 0 <= k < s.len() implies s[k] != x by {
                if k < s.len() - 1 {
                    assert(s[k] == s.drop_last()[k]);
                }
            }
        }
    }
}

proof fn lemma_ready_pids(s: Seq<Process>)
    ensures
        forall|k: int| 0 <= k < ready_pids(s).len() ==> exists|i: int|
            0 <= i < s.len() && eligible(#[trigger] s[i]) && s[i].pid == #[trigger] ready_pids(s)[k],
        (exists|i: int| 0 <= i < s.len() && eligible(s[i])) ==> ready_pids(s).len() > 0,
    decreases s.len(),
{
    if s.len() > 0 {
        let t = s.drop_last();
        lemma_ready_pids(t);
        assert forall|k: int| 0 <= k < ready_pids(s).len() implies exists|i: int|
            0 <= i < s.len() && eligible(#[trigger] s[i]) && s[i].pid == #[trigger] ready_pids(s)[k] by {
            if k < ready_pids(t).len() {
                let i = choose|i: int| 0 <= i < t.len() && eligible(#[trigger] t[i]) && t[i].pid == ready_pids(t)[k];
                assert(s[i] == t[i]);
            } else {
                assert(s[s.len() - 1] == s.last());
            }
        }
        if exists|i: int| 0 <= i < s.len() && eligible(s[i]) {
            let i = choose|i: int| 0 <= i < s.len() && eligible(s[i]);
            if i < s.len() - 1 {
                assert(t[i] == s[i]);
            }
        }
    }
}

/// Some real-time-eligible process of `s` has pid `pid`.
pub open spec fn rt_member(s: Seq<Process>, pid: u32) -> bool {
    exists|i: int| 0 <= i < s.len() && rt_eligible(s[i]) && s[i].pid == pid
}

proof fn lemma_rt_pids(s: Seq<Process>)
    ensures
        forall|k: int| 0 <= k < rt_pids(s).len() ==> rt_member(s, #[trigger] rt_pids(s)[k]),
        (exists|i: int| 0 <= i < s.len() && rt_eligible(s[i])) ==> rt_pids(s).len() > 0,
    decreases s.len(),
{
    if s.len() > 0 {
        let t = s.drop_last();
        lemma_rt_pids(t);
        if exists|i: int| 0 <= i < s.len() && rt_eligible(s[i]) {
            let i = choose|i: int| 0 <= i < s.len() && rt_eligible(s[i]);
            if i < s.len() - 1 {
                assert(t[i] == s[i]);
            }
        }
        assert forall|k: int| 0 <= k < rt_pids(s).len() implies rt_member(s, #[trigger] rt_pids(s)[k]) by {
            if k < rt_pids(t).len() {
                assert(rt_pids(s)[k] == rt_pids(t)[k]);
                assert(rt_member(t, rt_pids(t)[k]));
                let i = choose|i: int| 0 <= i < t.len() && rt_eligible(t[i]) && t[i].pid == rt_pids(t)[k];
                assert(s[i] == t[i]);
            } else {
                assert(s[s.len() - 1] == s.last());
            }
        }
    }
}

proof fn lemma_best(s: Seq<Process>)
    ensures
        best(s) is None <==> !(exists|i: int| 0 <= i < s.len() && eligible(s[i])),
        best(s) matches Some(b) ==> (exists|i: int| 0 <= i < s.len() && eligible(s[i]) && s[i].pid == b.0
            && priority_level_spec(s[i].priority) == b.1)
            && (forall|j: int| 0 <= j < s.len() && eligible(s[j]) ==> priority_level_spec(s[j].priority) <= b.1),
    decreases s.len(),
{
    if s.len() > 0 {
        let t = s.drop_last();
        lemma_best(t);
        assert forall|j: int| 0 <= j < s.len() - 1 implies s[j] == t[j] by {}
        if best(s) is Some {
            let b = best(s)->0;
            if best(t) is Some && b == best(t)->0 {
                let i = choose|i: int| 0 <= i < t.len() && eligible(t[i]) && t[i].pid == b.0
                    && priority_level_spec(t[i].priority) == b.1;
                assert(s[i] == t[i]);
            } else {
                assert(s[s.len() - 1] == s.last());
            }
        }
        if exists|i: int| 0 <= i < s.len() && eligible(s[i]) {
            let i = choose|i: int| 0 <= i < s.len() && eligible(s[i]);
            if i < s.len() - 1 {
                assert(eligible(t[i]));
            }
        }
    }
}

/// When a non-idle process is Ready, `schedule_next` picks a process that is Ready.
pub proof fn lemma_schedule_picks_ready(s: Seq<Process>, cur: u32, policy: SchedulingPolicy)
    requires
        exists|i: int| 0 <= i < s.len() && eligible(s[i]),
    ensures
        exists|i: int| 0 <= i < s.len() && s[i].pid == schedule_choice(s, cur, policy)
            && s[i].state == ProcessState::Ready,
{
    lemma_ready_pids(s);
    lemma_rt_pids(s);
    lemma_best(s);
    let ready = ready_pids(s);
    let rt = rt_pids(s);
    lemma_first_pos(ready, cur);
    lemma_first_pos(rt, cur);
    let c = schedule_choice(s, cur, policy);
    match policy {
        SchedulingPolicy::RoundRobin => {
            let p = first_pos(ready, cur);
            let idx = if p >= 0 { p } else { ready.len() - 1 };
            let k = (idx + 1) % (ready.len() as int);
            assert(0 <= k < ready.len());
            assert(c == ready[k]);
        },
        SchedulingPolicy::Priority => {},
        SchedulingPolicy::RealTime => {
            if rt.len() > 0 {
                let p = first_pos(rt, cur);
                let idx = if p >= 0 { p } else { rt.len() - 1 };
                let k = (idx + 1) % (rt.len() as int);
                assert(0 <= k < rt.len());
                assert(c == rt[k]);
                assert(rt_member(s, rt[k]));
            } else {
                let p = first_pos(ready, cur);
                let idx = if p >= 0 { p } else { ready.len() - 1 };
                let k = (idx + 1) % (ready.len() as int);
                assert(0 <= k < ready.len());
                assert(c == ready[k]);
            }
        },
    }
}

/// Under the real-time policy, while some process other than the idle one is Ready with
/// RealTime priority, the process picked is a Ready process of RealTime priority: real-time
/// work preempts normal and low-priority work.
pub proof fn lemma_realtime_preempts(tt: TaskTable)
    requires
        tt.wf(),
        exists|i: int| 0 <= i < tt.procs@.len() && tt.procs@[i].pid != 0
            && tt.procs@[i].state == ProcessState::Ready
            && tt.procs@[i].priority == ProcessPriority::RealTime,
    ensures
        exists|j: int| 0 <= j < tt.procs@.len()
            && tt.procs@[j].pid == schedule_choice(tt.procs@, tt.current_pid, SchedulingPolicy::RealTime)
            && tt.procs@[j].state == ProcessState::Ready
            && tt.procs@[j].priority == ProcessPriority::RealTime,
{
    let s = tt.procs@;
    let cur = tt.current_pid;
    let i = choose|i: int| 0 <= i < s.len() && s[i].pid != 0
        && s[i].state == ProcessState::Ready && s[i].priority == ProcessPriority::RealTime;
    assert(eligible(s[i]));
    assert(rt_eligible(s[i]));
    lemma_ready_pids(s);
    lemma_rt_pids(s);
    let rt = rt_pids(s);
    lemma_first_pos(rt, cur);
    let p = first_pos(rt, cur);
    let idx = if p >= 0 { p } else { rt.len() - 1 };
    let k = (idx + 1) % (rt.len() as int);
    assert(0 <= k < rt.len());
    assert(schedule_choice(s, cur, SchedulingPolicy::RealTime) == rt[k]);
    assert(rt_member(s, rt[k]));
}

/// Under the priority policy the picked process has the highest priority of all Ready,
/// non-idle processes.
pub proof fn lemma_priority_is_highest(s: Seq<Process>, cur: u32)
    requires
        exists|i: int| 0 <= i < s.len() && eligible(s[i]),
    ensures
        exists|i: int| 0 <= i < s.len() && eligible(s[i])
            && s[i].pid == schedule_choice(s, cur, SchedulingPolicy::Priority)
            && forall|j: int| 0 <= j < s.len() && eligible(s[j])
                ==> priority_level_spec(s[j].priority) <= priority_level_spec(s[i].priority),
{
    lemma_ready_pids(s);
    lemma_best(s);
}

proof fn lemma_ready_sorted(s: Seq<Process>)
    requires
        forall|i: int, j: int| 0 <= i < j < s.len() ==> s[i].pid < s[j].pid,
    ensures
        forall|a: int, b: int| 0 <= a < b < ready_pids(s).len() ==> ready_pids(s)[a] < ready_pids(s)[b],
        forall|a: int| 0 <= a < ready_pids(s).len() ==> exists|i: int| 0 <= i < s.len() && s[i].pid == #[trigger] ready_pids(s)[a],
    decreases s.len(),
{
    if s.len() > 0 {
        let t = s.drop_last();
        lemma_ready_sorted(t);
        lemma_ready_pids(t);
        lemma_ready_pids(s);
        if eligible(s.last()) {
            assert forall|a: int| 0 <= a < ready_pids(t).len() implies ready_pids(t)[a] < s.last().pid by {
                let i = choose|i: int| 0 <= i < t.len() && t[i].pid == ready_pids(t)[a];
                assert(s[i] == t[i]);
                assert(s[s.len() - 1] == s.last());
            }
        }
        assert forall|a: int| 0 <= a < ready_pids(s).len() implies exists|i: int| 0 <= i < s.len() && s[i].pid == #[trigger] ready_pids(s)[a] by {
            let i = choose|i: int| 0 <= i < s.len() && eligible(#[trigger] s[i]) && s[i].pid == ready_pids(s)[a];
        }
    }
}

proof fn lemma_rt_sorted(s: Seq<Process>)
    requires
        forall|i: int, j: int| 0 <= i < j < s.len() ==> s[i].pid < s[j].pid,
    ensures
        forall|a: int, b: int| 0 <= a < b < rt_pids(s).len() ==> rt_pids(s)[a] < rt_pids(s)[b],
    decreases s.len(),
{
    if s.len() > 0 {
        let t = s.drop_last();
        lemma_rt_sorted(t);
        lemma_rt_pids(t);
        if rt_eligible(s.last()) {
            assert forall|a: int| 0 <= a < rt_pids(t).len() implies rt_pids(t)[a] < s.last().pid by {
                assert(rt_member(t, rt_pids(t)[a]));
                let i = choose|i: int| 0 <= i < t.len() && rt_eligible(t[i]) && t[i].pid == rt_pids(t)[a];
                assert(s[i] == t[i]);
                assert(s[s.len() - 1] == s.last());
            }
        }
    }
}

proof fn lemma_rt_prefix(s: Seq<Process>, n: int)
    requires
        0 <= n <= s.len(),
    ensures
        rt_pids(s.subrange(0, n)).len() <= rt_pids(s).len(),
    decreases s.len(),
{
    if n == s.len() {
        assert(s.subrange(0, n) =~= s);
    } else {
        lemma_rt_prefix(s.drop_last(), n);
        assert(s.drop_last().subrange(0, n) =~= s.subrange(0, n));
    }
}

/// Under the real-time policy the real-time processes share the CPU round-robin: while two
/// or more processes are Ready with RealTime priority, the running one is never picked again.
pub proof fn lemma_realtime_round_robin_moves_on(tt: TaskTable, i: int, j: int)
    requires
        tt.wf(),
        0 <= i < j < tt.procs@.len(),
        tt.procs@[i].state == ProcessState::Ready,
        tt.procs@[i].priority == ProcessPriority::RealTime,
        tt.procs@[j].state == ProcessState::Ready,
        tt.procs@[j].priority == ProcessPriority::RealTime,
    ensures
        schedule_choice(tt.procs@, tt.current_pid, SchedulingPolicy::RealTime) != tt.current_pid,
{
    let s = tt.procs@;
    let cur = tt.current_pid;
    let p = s.subrange(0, j + 1);
    assert(p.drop_last() =~= s.subrange(0, j));
    assert(p.last() == s[j]);
    assert(s.subrange(0, j)[i] == s[i]);
    lemma_rt_pids(s.subrange(0, j));
    lemma_rt_prefix(s, j + 1);
    let rt = rt_pids(s);
    assert(rt.len() >= 2);
    assert(s[j].pid != 0) by {
        assert(s[i].pid < s[j].pid);
    }
    assert(eligible(s[j]));
    lemma_ready_pids(s);
    lemma_rt_sorted(s);
    lemma_first_pos(rt, cur);
    let q = first_pos(rt, cur);
    let n = rt.len() as int;
    if q >= 0 {
        let k = (q + 1) % n;
        assert(0 <= k < n);
        if q + 1 < n {
            vstd::arithmetic::div_mod::lemma_small_mod((q + 1) as nat, n as nat);
            assert(k == q + 1);
        } else {
            vstd::arithmetic::div_mod::lemma_mod_self_0(n);
            assert(k == 0);
        }
        assert(k != q);
        if k < q {} else {}
    } else {
        let k = (n - 1 + 1) % n;
        vstd::arithmetic::div_mod::lemma_mod_self_0(n);
        assert(k == 0);
        assert(rt.contains(rt[0]));
    }
}

/// Round robin never picks the running process again while another non-idle process is Ready.
pub proof fn lemma_round_robin_moves_on(tt: TaskTable)
    requires
        tt.wf(),
        ready_pids(tt.procs@).len() >= 2,
    ensures
        schedule_choice(tt.procs@, tt.current_pid, SchedulingPolicy::RoundRobin) != tt.current_pid,
{
    let s = tt.procs@;
    let ready = ready_pids(s);
    let cur = tt.current_pid;
    lemma_ready_sorted(s);
    lemma_first_pos(ready, cur);
    let p = first_pos(ready, cur);
    let n = ready.len() as int;
    if p >= 0 {
        let k = (p + 1) % n;
        assert(0 <= k < n);
        if p + 1 < n {
            vstd::arithmetic::div_mod::lemma_small_mod((p + 1) as nat, n as nat);
            assert(k == p + 1);
        } else {
            vstd::arithmetic::div_mod::lemma_mod_self_0(n);
            assert(k == 0);
        }
        assert(k != p);
        if k < p {} else {}
    } else {
        let k = (n - 1 + 1) % n;
        vstd::arithmetic::div_mod::lemma_mod_self_0(n);
        assert(k == 0);
        assert(ready.contains(ready[0]));
    }
}

} // verus!
