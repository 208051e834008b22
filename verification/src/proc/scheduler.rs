//! Priority scheduling: per-CPU ready queues, one per priority level.
//!
//! Threads are named by their index in the scheduler's thread table. The
//! scheduler's decisions (which thread runs next, what waking or removing a
//! thread does to the queues) are here; switching stacks is the caller's part.
use vstd::prelude::*;
use super::thread::{TCB, ThreadState};

verus! {

/// Default length of a time slice in milliseconds.
pub const DEFAULT_TIMESLICE_MS: usize = 100;
/// Number of priority levels.
pub const MAX_PRIORITY: usize = 256;
/// Number of CPUs the scheduler serves.
pub const MAX_CPUS: usize = 8;
/// Seconds without progress before the watchdog first reports.
pub const WATCHDOG_FIRST_DUMP_SECS: usize = 8;
/// Seconds between watchdog reports.
pub const WATCHDOG_INTERVAL_SECS: usize = 15;

/// A time slice of the default length, in timer ticks at `freq` ticks per second.
pub fn get_default_timeslice(freq: usize) -> (r: usize)
    ensures
        r == freq / 10,
{
    freq / (1000 / DEFAULT_TIMESLICE_MS)
}

/// A queue of threads, oldest first.
pub struct TcbQueue {
    pub items: Vec<usize>,
}

impl TcbQueue {
    pub fn new() -> (r: Self)
        ensures
            r.items@.len() == 0,
    {
        TcbQueue { items: Vec::new() }
    }

    pub fn push_back(&mut self, tcb: usize)
        ensures
            final(self).items@ == old(self).items@.push(tcb),
    {
        self.items.push(tcb);
    }

    pub fn pop_front(&mut self) -> (r: Option<usize>)
        ensures
            old(self).items@.len() == 0 ==> r.is_none() && final(self).items@ == old(self).items@,
            old(self).items@.len() > 0 ==> r == Some(old(self).items@[0]) && final(self).items@ == old(self).items@.drop_first(),
    {
        if self.items.len() == 0 {
            None
        } else {
            let h = self.items.remove(0);
            proof {
                assert(self.items@ =~= old(self).items@.drop_first());
            }
            Some(h)
        }
    }

    /// Unlinks the first occurrence of `tcb`; a thread not in the queue is ignored.
    pub fn remove(&mut self, tcb: usize)
        ensures
            final(self).items@ == old(self).items@.remove_value(tcb),
    {
        let mut i: usize = 0;
        while i < self.items.len()
            invariant
                self.items@ == old(self).items@,
                i <= self.items@.len(),
                forall|j: int| 0 <= j < i ==> self.items@[j] != tcb,
            decreases self.items@.len() - i,
        {
            if self.items[i] == tcb {
                proof {
                    old(self).items@.index_of_first_ensures(tcb);
                    assert(old(self).items@.index_of_first(tcb) == Some(i as int)) by {
                        let k = old(self).items@.index_of_first(tcb).unwrap();
                        if k < i {
                            assert(old(self).items@[k] != tcb);
                        }
                        if k > i {
                            assert(old(self).items@[i as int] == tcb);
                        }
                    }
                }
                self.items.remove(i);
                return;
            }
            i += 1;
        }
        proof {
            old(self).items@.index_of_first_ensures(tcb);
            assert(!old(self).items@.contains(tcb));
        }
    }
}

/// The scheduler: the thread table; the ready queues, `MAX_PRIORITY` per CPU
/// (queue `c * MAX_PRIORITY + p` holds CPU `c`'s threads of priority `p`);
/// which CPUs are online; the thread each CPU runs; how many CPUs booted.
pub struct Scheduler {
    pub threads: Vec<TCB>,
    pub ready: Vec<TcbQueue>,
    pub enabled: Vec<bool>,
    pub current: Vec<Option<usize>>,
    pub cpu_count: usize,
}

/// The index of the first thread of `q` that is ready.
pub open spec fn first_ready(q: Seq<usize>, threads: Seq<TCB>) -> Option<int>
    decreases q.len(),
{
    if q.len() == 0 {
        None
    } else if threads[q[0] as int].state == ThreadState::Ready {
        Some(0)
    } else {
        match first_ready(q.drop_first(), threads) {
            Some(k) => Some(k + 1),
            None => None,
        }
    }
}

/// Picking from priority `p` down: at each level, threads that are not ready are
/// dropped from the front until a ready one is taken; an exhausted level is left
/// empty and the next lower level is tried.
pub open spec fn pick_run(queues: Seq<Seq<usize>>, threads: Seq<TCB>, p: int) -> (Seq<Seq<usize>>, Option<usize>)
    decreases p + 1,
{
    if p < 0 {
        (queues, None)
    } else {
        match first_ready(queues[p], threads) {
            Some(k) => (queues.update(p, queues[p].skip(k + 1)), Some(queues[p][k])),
            None => pick_run(queues.update(p, Seq::<usize>::empty()), threads, p - 1),
        }
    }
}

/// All ready queues as sequences.
pub open spec fn ready_view(ready: Seq<TcbQueue>) -> Seq<Seq<usize>> {
    ready.map_values(|q: TcbQueue| q.items@)
}

/// The queues of `cpu`, lowest priority first.
pub open spec fn cpu_queues(ready: Seq<TcbQueue>, cpu: int) -> Seq<Seq<usize>> {
    Seq::new(MAX_PRIORITY as nat, |p: int| ready[cpu * 256 + p].items@)
}

/// The CPU a thread is queued on: its affinity when set, else the CPU it last ran
/// on when that CPU is online, else the caller's CPU.
pub open spec fn target_cpu(tcb: TCB, fallback: usize, enabled: Seq<bool>, cpu_count: usize) -> usize {
    if tcb.affinity < MAX_CPUS {
        tcb.affinity
    } else {
        let cpus = if cpu_count < MAX_CPUS { cpu_count } else { MAX_CPUS };
        if tcb.cpu_id < cpus && enabled[tcb.cpu_id as int] {
            tcb.cpu_id
        } else {
            fallback
        }
    }
}

/// True when `t` is the running thread of some CPU.
pub open spec fn running_somewhere(current: Seq<Option<usize>>, t: usize) -> bool {
    exists|c: int| 0 <= c < current.len() && current[c] == Some(t)
}

/// A blocked state: waiting to send, to receive, or for a reply.
pub open spec fn is_blocked(s: ThreadState) -> bool {
    s == ThreadState::BlockedSend || s == ThreadState::BlockedRecv || s == ThreadState::BlockedCall
}

/// What waking a thread asks of the caller.
#[derive(Clone, Copy, PartialEq, Eq, Structural, Debug)]
pub struct WakeOutcome {
    /// A CPU to interrupt so that it sees the newly ready thread.
    pub ipi: Option<usize>,
    /// The caller's CPU should reschedule now.
    pub reschedule: bool,
}

/// Waking thread `t` from the caller's CPU `cpu` took the thread table `t0`
/// and ready queues `q0` to `t1` and `q1` and answered `r` (`current`,
/// `enabled` and `cpu_count` as the scheduler holds them): a thread that is
/// not blocked is left alone; one still running somewhere only gets its
/// wake-up marked pending; any other becomes ready and is queued on its target
/// CPU at its priority. With `preempt`, the caller's CPU is asked to
/// reschedule when the thread was queued there and its priority is at least
/// that of the caller's running thread.
pub open spec fn woken(
    t0: Seq<TCB>,
    q0: Seq<TcbQueue>,
    current: Seq<Option<usize>>,
    enabled: Seq<bool>,
    cpu_count: usize,
    t1: Seq<TCB>,
    q1: Seq<TcbQueue>,
    t: usize,
    cpu: usize,
    preempt: bool,
    r: WakeOutcome,
) -> bool {
    let tcb = t0[t as int];
    if !is_blocked(tcb.state) {
        &&& r == WakeOutcome { ipi: None, reschedule: false }
        &&& t1 =~= t0
        &&& ready_view(q1) =~= ready_view(q0)
    } else if running_somewhere(current, t) {
        &&& r == WakeOutcome { ipi: None, reschedule: false }
        &&& t1 =~= t0.update(t as int, TCB { wake_pending: true, ..tcb })
        &&& ready_view(q1) =~= ready_view(q0)
    } else {
        let ready_tcb = TCB { state: ThreadState::Ready, ..tcb };
        let target = target_cpu(ready_tcb, cpu, enabled, cpu_count);
        let qi = target * 256 + tcb.priority;
        &&& t1 =~= t0.update(t as int, TCB { cpu_id: target, ..ready_tcb })
        &&& ready_view(q1) =~= ready_view(q0).update(qi, q0[qi].items@.push(t))
        &&& r.ipi == if target != cpu { Some(target) } else { None::<usize> }
        &&& r.reschedule == (preempt && target == cpu && match current[cpu as int] {
            Some(c) => tcb.priority >= t1[c as int].priority,
            None => false,
        })
    }
}

/// `t` is the first ready thread of level `l`.
pub open spec fn first_ready_is(queues: Seq<Seq<usize>>, threads: Seq<TCB>, l: int, t: usize) -> bool {
    match first_ready(queues[l], threads) {
        Some(k) => queues[l][k] == t,
        None => false,
    }
}

proof fn lemma_pick_pop(queues: Seq<Seq<usize>>, threads: Seq<TCB>, p: int)
    requires
        0 <= p < queues.len(),
        queues[p].len() > 0,
        threads[queues[p][0] as int].state != ThreadState::Ready,
    ensures
        pick_run(queues, threads, p) == pick_run(queues.update(p, queues[p].drop_first()), threads, p),
{
    let q = queues[p];
    let q2 = queues.update(p, q.drop_first());
    assert(q2[p] == q.drop_first());
    lemma_first_ready_is_ready(q.drop_first(), threads);
    match first_ready(q.drop_first(), threads) {
        Some(k) => {
            assert(first_ready(q, threads) == Some(k + 1));
            assert(q[k + 1] == q.drop_first()[k]);
            assert(q.skip(k + 2) =~= q.drop_first().skip(k + 1));
            assert(q2.update(p, q2[p].skip(k + 1)) =~= queues.update(p, q.skip(k + 2)));
        },
        None => {
            assert(q2.update(p, Seq::<usize>::empty()) =~= queues.update(p, Seq::<usize>::empty()));
        },
    }
}

/// The thread picked is ready, and it is the first ready thread of the highest
/// level (at or below `p`) holding a ready thread: every level above it holds
/// none. When nothing is picked, no level at or below `p` holds a ready thread.
pub proof fn law_pick_highest_ready(queues: Seq<Seq<usize>>, threads: Seq<TCB>, p: int)
    requires
        p < queues.len(),
    ensures
        match pick_run(queues, threads, p).1 {
            Some(t) => threads[t as int].state == ThreadState::Ready && exists|l: int|
                0 <= l <= p && #[trigger] first_ready_is(queues, threads, l, t)
                    && (forall|m: int| l < m <= p ==> #[trigger] first_ready(queues[m], threads).is_none()),
            None => forall|m: int| 0 <= m <= p ==> #[trigger] first_ready(queues[m], threads).is_none(),
        },
    decreases p + 1,
{
    if p >= 0 {
        lemma_first_ready_is_ready(queues[p], threads);
        match first_ready(queues[p], threads) {
            Some(k) => {
                assert(first_ready_is(queues, threads, p, queues[p][k]));
            },
            None => {
                let q2 = queues.update(p, Seq::<usize>::empty());
                law_pick_highest_ready(q2, threads, p - 1);
                assert forall|m: int| 0 <= m < p implies #[trigger] queues[m] == q2[m] by {}
                match pick_run(q2, threads, p - 1).1 {
                    Some(t) => {
                        let l = choose|l: int|
                            0 <= l <= p - 1 && #[trigger] first_ready_is(q2, threads, l, t)
                                && (forall|m: int| l < m <= p - 1 ==> #[trigger] first_ready(q2[m], threads).is_none());
                        assert(queues[l] == q2[l]);
                        assert(first_ready_is(queues, threads, l, t));
                        assert forall|m: int| l < m <= p implies #[trigger] first_ready(queues[m], threads).is_none() by {
                            if m < p {
                                assert(queues[m] == q2[m]);
                            }
                        }
                    },
                    None => {
                        assert forall|m: int| 0 <= m <= p implies #[trigger] first_ready(queues[m], threads).is_none() by {
                            if m < p {
                                assert(queues[m] == q2[m]);
                            }
                        }
                    },
                }
            },
        }
    }
}

proof fn lemma_first_ready_is_ready(q: Seq<usize>, threads: Seq<TCB>)
    ensures
        first_ready(q, threads) matches Some(k) ==> 0 <= k < q.len() && threads[q[k] as int].state == ThreadState::Ready,
    decreases q.len(),
{
    if q.len() > 0 && threads[q[0] as int].state != ThreadState::Ready {
        lemma_first_ready_is_ready(q.drop_first(), threads);
    }
}

impl Scheduler {
    pub open spec fn wf(&self) -> bool {
        &&& self.ready@.len() == MAX_CPUS * MAX_PRIORITY
        &&& self.enabled@.len() == MAX_CPUS
        &&& self.current@.len() == MAX_CPUS
        &&& forall|i: int, k: int|
            0 <= i < self.ready@.len() && 0 <= k < self.ready@[i].items@.len()
                ==> (#[trigger] self.ready@[i].items@[k]) < self.threads@.len()
        &&& forall|c: int| 0 <= c < MAX_CPUS ==> (#[trigger] self.current@[c] matches Some(t) ==> t < self.threads@.len())
        &&& forall|t: int| 0 <= t < self.threads@.len() ==> #[trigger] self.threads@[t].priority < MAX_PRIORITY
    }

    /// The thread running on `cpu`.
    pub fn current(&self, cpu: usize) -> (r: Option<usize>)
        requires
            self.wf(),
            cpu < MAX_CPUS,
        ensures
            r == self.current@[cpu as int],
    {
        self.current[cpu]
    }

    /// Records the thread running on `cpu`.
    pub fn set_current(&mut self, cpu: usize, tcb: Option<usize>)
        requires
            old(self).wf(),
            cpu < MAX_CPUS,
            tcb matches Some(t) ==> t < old(self).threads@.len(),
        ensures
            final(self).wf(),
            final(self).current@ == old(self).current@.update(cpu as int, tcb),
            final(self).threads@ == old(self).threads@,
            final(self).ready@ == old(self).ready@,
            final(self).enabled@ == old(self).enabled@,
            final(self).cpu_count == old(self).cpu_count,
    {
        self.current.set(cpu, tcb);
    }

    /// Records the thread running on `cpu` (the same as `set_current`).
    pub fn set_current_ptr(&mut self, cpu: usize, tcb: Option<usize>)
        requires
            old(self).wf(),
            cpu < MAX_CPUS,
            tcb matches Some(t) ==> t < old(self).threads@.len(),
        ensures
            final(self).wf(),
            final(self).current@ == old(self).current@.update(cpu as int, tcb),
            final(self).threads@ == old(self).threads@,
            final(self).ready@ == old(self).ready@,
            final(self).enabled@ == old(self).enabled@,
            final(self).cpu_count == old(self).cpu_count,
    {
        self.set_current(cpu, tcb);
    }
}

impl Scheduler {
    /// Takes the next thread to run on `cpu` (see `pick_run`): the first ready
    /// thread of the highest non-empty priority, dropping the threads that are no
    /// longer ready on the way.
    pub fn pick_next(&mut self, cpu: usize) -> (r: Option<usize>)
        requires
            old(self).wf(),
            cpu < MAX_CPUS,
        ensures
            final(self).wf(),
            final(self).threads@ == old(self).threads@,
            final(self).current@ == old(self).current@,
            final(self).enabled@ == old(self).enabled@,
            final(self).cpu_count == old(self).cpu_count,
            (cpu_queues(final(self).ready@, cpu as int), r) == pick_run(
                cpu_queues(old(self).ready@, cpu as int),
                old(self).threads@,
                MAX_PRIORITY - 1,
            ),
            forall|i: int|
                0 <= i < final(self).ready@.len() && !(cpu * 256 <= i < cpu * 256 + 256)
                    ==> #[trigger] final(self).ready@[i] == old(self).ready@[i],
    {
        let ghost q0 = cpu_queues(old(self).ready@, cpu as int);
        let ghost threads = old(self).threads@;
        let mut p: usize = MAX_PRIORITY;
        let mut result: Option<usize> = None;
        proof {
            assert(cpu * 256 + 256 <= MAX_CPUS * MAX_PRIORITY);
        }
        while result.is_none() && p > 0
            invariant
                self.wf(),
                p <= MAX_PRIORITY,
                cpu < MAX_CPUS,
                self.threads@ == threads,
                self.current@ == old(self).current@,
                self.enabled@ == old(self).enabled@,
                self.cpu_count == old(self).cpu_count,
                result.is_none() ==> pick_run(q0, threads, MAX_PRIORITY - 1) == pick_run(cpu_queues(self.ready@, cpu as int), threads, p - 1),
                result.is_some() ==> pick_run(q0, threads, MAX_PRIORITY - 1) == (cpu_queues(self.ready@, cpu as int), result),
                forall|i: int|
                    0 <= i < self.ready@.len() && !(cpu * 256 <= i < cpu * 256 + 256)
                        ==> #[trigger] self.ready@[i] == old(self).ready@[i],
            decreases p,
        {
            p = p - 1;
            let qi = cpu * 256 + p;
            while result.is_none() && self.ready[qi].items.len() > 0
                invariant
                    self.wf(),
                    p < MAX_PRIORITY,
                    cpu < MAX_CPUS,
                    qi == cpu * 256 + p,
                    self.threads@ == threads,
                    self.current@ == old(self).current@,
                    self.enabled@ == old(self).enabled@,
                    self.cpu_count == old(self).cpu_count,
                    result.is_none() ==> pick_run(q0, threads, MAX_PRIORITY - 1) == pick_run(cpu_queues(self.ready@, cpu as int), threads, p as int),
                    result.is_some() ==> pick_run(q0, threads, MAX_PRIORITY - 1) == (cpu_queues(self.ready@, cpu as int), result),
                    forall|i: int|
                        0 <= i < self.ready@.len() && !(cpu * 256 <= i < cpu * 256 + 256)
                            ==> #[trigger] self.ready@[i] == old(self).ready@[i],
                decreases self.ready@[qi as int].items@.len(),
            {
                let ghost before = self.ready@;
                let mut q = TcbQueue::new();
                std::mem::swap(&mut q, &mut self.ready[qi]);
                let t = q.pop_front().unwrap();
                self.ready.set(qi, q);
                proof {
                    let qs = cpu_queues(before, cpu as int);
                    assert(qs[p as int] == before[qi as int].items@);
                    assert(cpu_queues(self.ready@, cpu as int) =~= qs.update(p as int, qs[p as int].drop_first()));
                    assert(t < self.threads@.len()) by {
                        assert(before[qi as int].items@[0] == t);
                    }
                    assert forall|i: int| 0 <= i < self.ready@.len() && !(cpu * 256 <= i < cpu * 256 + 256)
                        implies #[trigger] self.ready@[i] == old(self).ready@[i] by {
                        assert(self.ready@[i] == before[i]);
                    }
                    assert forall|i: int, k: int|
                        0 <= i < self.ready@.len() && 0 <= k < self.ready@[i].items@.len()
                            implies (#[trigger] self.ready@[i].items@[k]) < self.threads@.len() by {
                        if i == qi {
                            assert(self.ready@[i].items@[k] == before[i].items@[k + 1]);
                        } else {
                            assert(self.ready@[i] == before[i]);
                        }
                    }
                }
                if self.threads[t].state == ThreadState::Ready {
                    proof {
                        let qs = cpu_queues(before, cpu as int);
                        assert(first_ready(qs[p as int], threads) == Some(0int));
                        assert(qs[p as int].skip(1) =~= qs[p as int].drop_first());
                    }
                    result = Some(t);
                } else {
                    proof {
                        let qs = cpu_queues(before, cpu as int);
                        lemma_pick_pop(qs, threads, p as int);
                    }
                }
            }
            proof {
                if result.is_none() {
                    let qs = cpu_queues(self.ready@, cpu as int);
                    assert(qs[p as int].len() == 0);
                    assert(qs[p as int] =~= Seq::<usize>::empty());
                    assert(qs.update(p as int, Seq::<usize>::empty()) =~= qs);
                }
            }
        }
        proof {
            if result.is_none() {
                assert(pick_run(cpu_queues(self.ready@, cpu as int), threads, -1) == (cpu_queues(self.ready@, cpu as int), None::<usize>));
            }
        }
        result
    }
}

impl Scheduler {
    /// Appends thread `t` to ready queue `qi`.
    fn push_ready(&mut self, qi: usize, t: usize)
        requires
            old(self).wf(),
            qi < old(self).ready@.len(),
            t < old(self).threads@.len(),
        ensures
            final(self).wf(),
            final(self).threads@ == old(self).threads@,
            final(self).current@ == old(self).current@,
            final(self).enabled@ == old(self).enabled@,
            final(self).cpu_count == old(self).cpu_count,
            final(self).ready@.len() == old(self).ready@.len(),
            final(self).ready@[qi as int].items@ == old(self).ready@[qi as int].items@.push(t),
            forall|i: int| 0 <= i < final(self).ready@.len() && i != qi ==> #[trigger] final(self).ready@[i] == old(self).ready@[i],
    {
        let mut q = TcbQueue::new();
        std::mem::swap(&mut q, &mut self.ready[qi]);
        q.push_back(t);
        self.ready.set(qi, q);
        proof {
            assert forall|i: int, k: int|
                0 <= i < self.ready@.len() && 0 <= k < self.ready@[i].items@.len()
                    implies (#[trigger] self.ready@[i].items@[k]) < self.threads@.len() by {
                if i != qi {
                    assert(self.ready@[i] == old(self).ready@[i]);
                } else if k < old(self).ready@[i].items@.len() {
                    assert(self.ready@[i].items@[k] == old(self).ready@[i].items@[k]);
                }
            }
        }
    }

    /// Unlinks thread `t` from ready queue `qi`.
    fn remove_ready(&mut self, qi: usize, t: usize)
        requires
            old(self).wf(),
            qi < old(self).ready@.len(),
        ensures
            final(self).wf(),
            final(self).threads@ == old(self).threads@,
            final(self).current@ == old(self).current@,
            final(self).enabled@ == old(self).enabled@,
            final(self).cpu_count == old(self).cpu_count,
            final(self).ready@.len() == old(self).ready@.len(),
            final(self).ready@[qi as int].items@ == old(self).ready@[qi as int].items@.remove_value(t),
            forall|i: int| 0 <= i < final(self).ready@.len() && i != qi ==> #[trigger] final(self).ready@[i] == old(self).ready@[i],
    {
        let mut q = TcbQueue::new();
        std::mem::swap(&mut q, &mut self.ready[qi]);
        let ghost before = q.items@;
        q.remove(t);
        self.ready.set(qi, q);
        proof {
            before.index_of_first_ensures(t);
            assert forall|i: int, k: int|
                0 <= i < self.ready@.len() && 0 <= k < self.ready@[i].items@.len()
                    implies (#[trigger] self.ready@[i].items@[k]) < self.threads@.len() by {
                if i != qi {
                    assert(self.ready@[i] == old(self).ready@[i]);
                } else {
                    match before.index_of_first(t) {
                        Some(j) => {
                            before.remove_ensures(j);
                            if k < j {
                                assert(self.ready@[i].items@[k] == before[k]);
                            } else {
                                assert(self.ready@[i].items@[k] == before[k + 1]);
                            }
                        },
                        None => {
                            assert(self.ready@[i].items@[k] == before[k]);
                        },
                    }
                }
            }
        }
    }

    /// Queues a ready thread on its target CPU (see `target_cpu`) after recording
    /// that CPU in the thread; a thread in any other state only has its CPU
    /// recorded. Returns the CPU to interrupt, when `send_ipi` is set and the
    /// target is not the caller's CPU.
    fn add_thread_inner(&mut self, t: usize, current_cpu: usize, send_ipi: bool) -> (r: Option<usize>)
        requires
            old(self).wf(),
            t < old(self).threads@.len(),
            current_cpu < MAX_CPUS,
        ensures
            ({
                let tcb = old(self).threads@[t as int];
                let target = target_cpu(tcb, current_cpu, old(self).enabled@, old(self).cpu_count);
                let qi = target * 256 + tcb.priority;
                &&& target < MAX_CPUS
                &&& final(self).wf()
                &&& final(self).threads@ == old(self).threads@.update(t as int, TCB { cpu_id: target, ..tcb })
                &&& final(self).current@ == old(self).current@
                &&& final(self).enabled@ == old(self).enabled@
                &&& final(self).cpu_count == old(self).cpu_count
                &&& ready_view(final(self).ready@) == if tcb.state == ThreadState::Ready {
                    ready_view(old(self).ready@).update(qi, old(self).ready@[qi].items@.push(t))
                } else {
                    ready_view(old(self).ready@)
                }
                &&& r == if send_ipi && target != current_cpu { Some(target) } else { None::<usize> }
            }),
    {
        let tcb = self.threads[t];
        let target = self.select_target_cpu(t, current_cpu);
        self.threads.set(t, TCB { cpu_id: target, ..tcb });
        proof {
            assert forall|i: int| 0 <= i < self.threads@.len() implies #[trigger] self.threads@[i].priority < MAX_PRIORITY by {
                if i != t {
                    assert(self.threads@[i] == old(self).threads@[i]);
                }
            }
        }
        if tcb.state == ThreadState::Ready {
            let qi = target * 256 + tcb.priority as usize;
            let ghost before = self.ready@;
            self.push_ready(qi, t);
            proof {
                assert(ready_view(self.ready@) =~= ready_view(before).update(qi as int, before[qi as int].items@.push(t)));
            }
        }
        if send_ipi && target != current_cpu {
            Some(target)
        } else {
            None
        }
    }

    /// The CPU thread `t` should be queued on (see `target_cpu`).
    fn select_target_cpu(&self, t: usize, fallback: usize) -> (r: usize)
        requires
            self.wf(),
            t < self.threads@.len(),
            fallback < MAX_CPUS,
        ensures
            r == target_cpu(self.threads@[t as int], fallback, self.enabled@, self.cpu_count),
            r < MAX_CPUS,
    {
        let tcb = &self.threads[t];
        if tcb.affinity < MAX_CPUS {
            return tcb.affinity;
        }
        let cpus = if self.cpu_count < MAX_CPUS { self.cpu_count } else { MAX_CPUS };
        if tcb.cpu_id < cpus && self.enabled[tcb.cpu_id] {
            return tcb.cpu_id;
        }
        fallback
    }

    /// Adds thread `t` to the scheduler (see `add_thread_inner`, with an interrupt
    /// owed to a remote target CPU).
    pub fn add_thread(&mut self, t: usize, current_cpu: usize) -> (r: Option<usize>)
        requires
            old(self).wf(),
            t < old(self).threads@.len(),
            current_cpu < MAX_CPUS,
        ensures
            ({
                let tcb = old(self).threads@[t as int];
                let target = target_cpu(tcb, current_cpu, old(self).enabled@, old(self).cpu_count);
                let qi = target * 256 + tcb.priority;
                &&& final(self).wf()
                &&& final(self).threads@ == old(self).threads@.update(t as int, TCB { cpu_id: target, ..tcb })
                &&& final(self).current@ == old(self).current@
                &&& final(self).enabled@ == old(self).enabled@
                &&& final(self).cpu_count == old(self).cpu_count
                &&& ready_view(final(self).ready@) == if tcb.state == ThreadState::Ready {
                    ready_view(old(self).ready@).update(qi, old(self).ready@[qi].items@.push(t))
                } else {
                    ready_view(old(self).ready@)
                }
                &&& r == if target != current_cpu { Some(target) } else { None::<usize> }
            }),
    {
        self.add_thread_inner(t, current_cpu, true)
    }

    /// True when thread `t` runs on some CPU.
    fn is_current_on_any_cpu(&self, t: usize) -> (r: bool)
        requires
            self.wf(),
        ensures
            r == running_somewhere(self.current@, t),
    {
        let mut c: usize = 0;
        while c < MAX_CPUS
            invariant
                self.wf(),
                c <= MAX_CPUS,
                forall|k: int| 0 <= k < c ==> self.current@[k] != Some(t),
            decreases MAX_CPUS - c,
        {
            if self.current[c] == Some(t) {
                return true;
            }
            c += 1;
        }
        false
    }

    /// Wakes a blocked thread. A thread still running on some CPU only gets its
    /// wake-up marked pending; any other blocked thread becomes ready and is queued.
    /// With `preempt`, the caller's CPU is asked to reschedule when the woken thread
    /// was queued there and its priority is at least that of the caller's thread.
    /// Threads that are not blocked are left alone.
    fn wake_up_inner(&mut self, t: usize, current_cpu: usize, preempt: bool) -> (r: WakeOutcome)
        requires
            old(self).wf(),
            t < old(self).threads@.len(),
            current_cpu < MAX_CPUS,
        ensures
            final(self).wf(),
            final(self).current@ == old(self).current@,
            final(self).enabled@ == old(self).enabled@,
            final(self).cpu_count == old(self).cpu_count,
            woken(old(self).threads@, old(self).ready@, old(self).current@, old(self).enabled@, old(self).cpu_count,
                final(self).threads@, final(self).ready@, t, current_cpu, preempt, r),
    {
        let tcb = self.threads[t];
        if !(tcb.state == ThreadState::BlockedSend || tcb.state == ThreadState::BlockedRecv || tcb.state == ThreadState::BlockedCall) {
            return WakeOutcome { ipi: None, reschedule: false };
        }
        if self.is_current_on_any_cpu(t) {
            self.threads.set(t, TCB { wake_pending: true, ..tcb });
            proof {
                assert forall|i: int| 0 <= i < self.threads@.len() implies #[trigger] self.threads@[i].priority < MAX_PRIORITY by {
                    if i != t {
                        assert(self.threads@[i] == old(self).threads@[i]);
                    }
                }
            }
            return WakeOutcome { ipi: None, reschedule: false };
        }
        self.threads.set(t, TCB { state: ThreadState::Ready, ..tcb });
        proof {
            assert forall|i: int| 0 <= i < self.threads@.len() implies #[trigger] self.threads@[i].priority < MAX_PRIORITY by {
                if i != t {
                    assert(self.threads@[i] == old(self).threads@[i]);
                }
            }
        }
        let ipi = self.add_thread_inner(t, current_cpu, true);
        let target = self.threads[t].cpu_id;
        let mut reschedule = false;
        if preempt && target == current_cpu {
            match self.current[current_cpu] {
                Some(c) => {
                    if tcb.priority >= self.threads[c].priority {
                        reschedule = true;
                    }
                },
                None => {},
            }
        }
        WakeOutcome { ipi, reschedule }
    }

    /// Wakes a blocked thread, with preemption (see `wake_up_inner`).
    pub fn wake_up(&mut self, t: usize, current_cpu: usize) -> (r: WakeOutcome)
        requires
            old(self).wf(),
            t < old(self).threads@.len(),
            current_cpu < MAX_CPUS,
        ensures
            final(self).wf(),
            final(self).current@ == old(self).current@,
            final(self).enabled@ == old(self).enabled@,
            final(self).cpu_count == old(self).cpu_count,
            woken(old(self).threads@, old(self).ready@, old(self).current@, old(self).enabled@, old(self).cpu_count,
                final(self).threads@, final(self).ready@, t, current_cpu, true, r),
    {
        self.wake_up_inner(t, current_cpu, true)
    }

    /// Wakes a blocked thread without asking the caller's CPU to reschedule.
    pub fn wake_up_deferred(&mut self, t: usize, current_cpu: usize) -> (r: WakeOutcome)
        requires
            old(self).wf(),
            t < old(self).threads@.len(),
            current_cpu < MAX_CPUS,
        ensures
            final(self).wf(),
            final(self).current@ == old(self).current@,
            r.reschedule == false,
            final(self).enabled@ == old(self).enabled@,
            final(self).cpu_count == old(self).cpu_count,
            woken(old(self).threads@, old(self).ready@, old(self).current@, old(self).enabled@, old(self).cpu_count,
                final(self).threads@, final(self).ready@, t, current_cpu, false, r),
    {
        self.wake_up_inner(t, current_cpu, false)
    }
}

impl Scheduler {
    /// Takes thread `t` out of scheduling: it becomes inactive, and a ready thread
    /// is unlinked from the ready queue of its CPU and priority. Returns the CPU to
    /// interrupt when the thread was running on another CPU than the caller's.
    pub fn remove_thread(&mut self, t: usize, current_cpu: usize) -> (r: Option<usize>)
        requires
            old(self).wf(),
            t < old(self).threads@.len(),
        ensures
            final(self).wf(),
            final(self).current@ == old(self).current@,
            final(self).enabled@ == old(self).enabled@,
            final(self).cpu_count == old(self).cpu_count,
            ({
                let tcb = old(self).threads@[t as int];
                &&& final(self).threads@ == old(self).threads@.update(t as int, TCB { state: ThreadState::Inactive, ..tcb })
                &&& r == if tcb.state == ThreadState::Running && tcb.cpu_id != current_cpu { Some(tcb.cpu_id) } else { None::<usize> }
                &&& ready_view(final(self).ready@) == if tcb.state == ThreadState::Ready && tcb.cpu_id < MAX_CPUS {
                    let qi = tcb.cpu_id * 256 + tcb.priority;
                    ready_view(old(self).ready@).update(qi, old(self).ready@[qi].items@.remove_value(t))
                } else {
                    ready_view(old(self).ready@)
                }
            }),
    {
        let tcb = self.threads[t];
        let mut ipi: Option<usize> = None;
        if tcb.state == ThreadState::Running {
            if tcb.cpu_id != current_cpu {
                ipi = Some(tcb.cpu_id);
            }
        } else if tcb.state == ThreadState::Ready {
            if tcb.cpu_id < MAX_CPUS {
                let qi = tcb.cpu_id * 256 + tcb.priority as usize;
                let ghost before = self.ready@;
                self.remove_ready(qi, t);
                proof {
                    assert(ready_view(self.ready@) =~= ready_view(before).update(qi as int, before[qi as int].items@.remove_value(t)));
                }
            }
        }
        self.threads.set(t, TCB { state: ThreadState::Inactive, ..tcb });
        proof {
            assert forall|i: int| 0 <= i < self.threads@.len() implies #[trigger] self.threads@[i].priority < MAX_PRIORITY by {
                if i != t {
                    assert(self.threads@[i] == old(self).threads@[i]);
                }
            }
            if !(tcb.state == ThreadState::Ready && tcb.cpu_id < MAX_CPUS) {
                assert(ready_view(self.ready@) =~= ready_view(old(self).ready@));
            }
        }
        ipi
    }

    /// Makes a picked thread run: a thread no longer ready is refused (false); a
    /// ready thread with no time left gets a fresh slice (its own limit when set,
    /// else `default_slice`) and becomes running.
    pub fn start_running(&mut self, t: usize, default_slice: usize) -> (r: bool)
        requires
            old(self).wf(),
            t < old(self).threads@.len(),
        ensures
            final(self).wf(),
            final(self).current@ == old(self).current@,
            final(self).ready@ == old(self).ready@,
            final(self).enabled@ == old(self).enabled@,
            final(self).cpu_count == old(self).cpu_count,
            ({
                let tcb = old(self).threads@[t as int];
                &&& r == (tcb.state == ThreadState::Ready)
                &&& final(self).threads@ == if r {
                    let slice = if tcb.timeslice == 0 {
                        if tcb.timeslice_limit > 0 { tcb.timeslice_limit } else { default_slice }
                    } else {
                        tcb.timeslice
                    };
                    old(self).threads@.update(t as int, TCB { state: ThreadState::Running, timeslice: slice, ..tcb })
                } else {
                    old(self).threads@
                }
            }),
    {
        let tcb = self.threads[t];
        if tcb.state != ThreadState::Ready {
            return false;
        }
        let mut slice = tcb.timeslice;
        if slice == 0 {
            slice = if tcb.timeslice_limit > 0 { tcb.timeslice_limit } else { default_slice };
        }
        self.threads.set(t, TCB { state: ThreadState::Running, timeslice: slice, ..tcb });
        proof {
            assert forall|i: int| 0 <= i < self.threads@.len() implies #[trigger] self.threads@[i].priority < MAX_PRIORITY by {
                if i != t {
                    assert(self.threads@[i] == old(self).threads@[i]);
                }
            }
        }
        true
    }
}

impl Scheduler {
    /// A scheduler for `cpu_count` CPUs, all online, with no thread and empty queues.
    pub fn new(cpu_count: usize) -> (r: Self)
        ensures
            r.wf(),
            r.threads@.len() == 0,
            r.cpu_count == cpu_count,
            forall|i: int| 0 <= i < r.ready@.len() ==> (#[trigger] r.ready@[i]).items@.len() == 0,
            forall|c: int| 0 <= c < MAX_CPUS ==> (#[trigger] r.current@[c]).is_none() && r.enabled@[c],
    {
        let mut ready: Vec<TcbQueue> = Vec::new();
        let mut k: usize = 0;
        while k < MAX_CPUS * MAX_PRIORITY
            invariant
                k <= MAX_CPUS * MAX_PRIORITY,
                ready@.len() == k,
                forall|i: int| 0 <= i < k ==> (#[trigger] ready@[i]).items@.len() == 0,
            decreases MAX_CPUS * MAX_PRIORITY - k,
        {
            ready.push(TcbQueue::new());
            k = k + 1;
        }
        let mut enabled: Vec<bool> = Vec::new();
        let mut current: Vec<Option<usize>> = Vec::new();
        let mut c: usize = 0;
        while c < MAX_CPUS
            invariant
                c <= MAX_CPUS,
                enabled@.len() == c,
                current@.len() == c,
                forall|i: int| 0 <= i < c ==> (#[trigger] current@[i]).is_none() && enabled@[i],
            decreases MAX_CPUS - c,
        {
            enabled.push(true);
            current.push(None);
            c = c + 1;
        }
        Scheduler { threads: Vec::new(), ready, enabled, current, cpu_count }
    }

    /// Adds a thread to the table (it is queued nowhere yet); returns its index.
    pub fn register(&mut self, tcb: TCB) -> (r: usize)
        requires
            old(self).wf(),
            tcb.priority < MAX_PRIORITY,
            old(self).threads@.len() < usize::MAX,
        ensures
            final(self).wf(),
            r == old(self).threads@.len(),
            final(self).threads@ == old(self).threads@.push(tcb),
            final(self).ready@ == old(self).ready@,
            final(self).current@ == old(self).current@,
            final(self).enabled@ == old(self).enabled@,
            final(self).cpu_count == old(self).cpu_count,
    {
        let r = self.threads.len();
        self.threads.push(tcb);
        proof {
            assert forall|i: int| 0 <= i < self.threads@.len() implies #[trigger] self.threads@[i].priority < MAX_PRIORITY by {
                if i < r {
                    assert(self.threads@[i] == old(self).threads@[i]);
                }
            }
        }
        r
    }
}

impl Scheduler {
    /// Replaces the control block of thread `t` (its priority must stay valid).
    pub fn set_thread(&mut self, t: usize, tcb: TCB)
        requires
            old(self).wf(),
            t < old(self).threads@.len(),
            tcb.priority < MAX_PRIORITY,
        ensures
            final(self).wf(),
            final(self).threads@ == old(self).threads@.update(t as int, tcb),
            final(self).ready@ == old(self).ready@,
            final(self).current@ == old(self).current@,
            final(self).enabled@ == old(self).enabled@,
            final(self).cpu_count == old(self).cpu_count,
    {
        self.threads.set(t, tcb);
        proof {
            assert forall|i: int| 0 <= i < self.threads@.len() implies #[trigger] self.threads@[i].priority < MAX_PRIORITY by {
                if i != t {
                    assert(self.threads@[i] == old(self).threads@[i]);
                }
            }
        }
    }
}

impl Scheduler {
    /// Puts the thread running on `cpu` back in the ready queues when it is still
    /// running (it becomes ready and is queued as `add_thread` does). Returns
    /// whether there is a thread to switch away from, and the CPU to interrupt.
    fn requeue_current(&mut self, cpu: usize) -> (r: (bool, Option<usize>))
        requires
            old(self).wf(),
            cpu < MAX_CPUS,
        ensures
            final(self).wf(),
            final(self).current@ == old(self).current@,
            final(self).enabled@ == old(self).enabled@,
            final(self).cpu_count == old(self).cpu_count,
            match old(self).current@[cpu as int] {
                None => r == (false, None::<usize>) && final(self).threads@ == old(self).threads@
                    && final(self).ready@ == old(self).ready@,
                Some(t) => {
                    let tcb = old(self).threads@[t as int];
                    if tcb.state == ThreadState::Running {
                        let ready_tcb = TCB { state: ThreadState::Ready, ..tcb };
                        let target = target_cpu(ready_tcb, cpu, old(self).enabled@, old(self).cpu_count);
                        let qi = target * 256 + tcb.priority;
                        &&& final(self).threads@ == old(self).threads@.update(t as int, TCB { cpu_id: target, ..ready_tcb })
                        &&& ready_view(final(self).ready@) == ready_view(old(self).ready@).update(qi, old(self).ready@[qi].items@.push(t))
                        &&& r == (true, if target != cpu { Some(target) } else { None::<usize> })
                    } else {
                        r == (true, None::<usize>) && final(self).threads@ == old(self).threads@
                            && final(self).ready@ == old(self).ready@
                    }
                },
            },
    {
        let t = match self.current[cpu] {
            None => return (false, None),
            Some(t) => t,
        };
        let tcb = self.threads[t];
        if tcb.state == ThreadState::Running {
            self.threads.set(t, TCB { state: ThreadState::Ready, ..tcb });
            proof {
                assert forall|i: int| 0 <= i < self.threads@.len() implies #[trigger] self.threads@[i].priority < MAX_PRIORITY by {
                    if i != t {
                        assert(self.threads@[i] == old(self).threads@[i]);
                    }
                }
            }
            let ipi = self.add_thread(t, cpu);
            (true, ipi)
        } else {
            (true, None)
        }
    }

    /// Gives up the CPU: the running thread of `cpu` goes back to the end of its
    /// ready queue (see `requeue_current`); the caller then switches to the
    /// scheduler when the first result is true.
    pub fn yield_proc(&mut self, cpu: usize) -> (r: (bool, Option<usize>))
        requires
            old(self).wf(),
            cpu < MAX_CPUS,
        ensures
            final(self).wf(),
            final(self).current@ == old(self).current@,
            final(self).enabled@ == old(self).enabled@,
            final(self).cpu_count == old(self).cpu_count,
            match old(self).current@[cpu as int] {
                None => r == (false, None::<usize>) && final(self).threads@ == old(self).threads@
                    && final(self).ready@ == old(self).ready@,
                Some(t) => {
                    let tcb = old(self).threads@[t as int];
                    if tcb.state == ThreadState::Running {
                        let ready_tcb = TCB { state: ThreadState::Ready, ..tcb };
                        let target = target_cpu(ready_tcb, cpu, old(self).enabled@, old(self).cpu_count);
                        let qi = target * 256 + tcb.priority;
                        &&& final(self).threads@ == old(self).threads@.update(t as int, TCB { cpu_id: target, ..ready_tcb })
                        &&& ready_view(final(self).ready@) == ready_view(old(self).ready@).update(qi, old(self).ready@[qi].items@.push(t))
                        &&& r == (true, if target != cpu { Some(target) } else { None::<usize> })
                    } else {
                        r == (true, None::<usize>) && final(self).threads@ == old(self).threads@
                            && final(self).ready@ == old(self).ready@
                    }
                },
            },
    {
        self.requeue_current(cpu)
    }

    /// Preempts the thread running on `cpu` (the same as `yield_proc`).
    pub fn reschedule(&mut self, cpu: usize) -> (r: (bool, Option<usize>))
        requires
            old(self).wf(),
            cpu < MAX_CPUS,
        ensures
            final(self).wf(),
            final(self).current@ == old(self).current@,
            final(self).enabled@ == old(self).enabled@,
            final(self).cpu_count == old(self).cpu_count,
            match old(self).current@[cpu as int] {
                None => r == (false, None::<usize>) && final(self).threads@ == old(self).threads@
                    && final(self).ready@ == old(self).ready@,
                Some(t) => {
                    let tcb = old(self).threads@[t as int];
                    if tcb.state == ThreadState::Running {
                        let ready_tcb = TCB { state: ThreadState::Ready, ..tcb };
                        let target = target_cpu(ready_tcb, cpu, old(self).enabled@, old(self).cpu_count);
                        let qi = target * 256 + tcb.priority;
                        &&& final(self).threads@ == old(self).threads@.update(t as int, TCB { cpu_id: target, ..ready_tcb })
                        &&& ready_view(final(self).ready@) == ready_view(old(self).ready@).update(qi, old(self).ready@[qi].items@.push(t))
                        &&& r == (true, if target != cpu { Some(target) } else { None::<usize> })
                    } else {
                        r == (true, None::<usize>) && final(self).threads@ == old(self).threads@
                            && final(self).ready@ == old(self).ready@
                    }
                },
            },
    {
        self.requeue_current(cpu)
    }

    /// Blocks the thread running on `cpu`, whose state the caller has already set
    /// to a non-running one; returns whether there is a thread to switch away from.
    pub fn block_current_thread(&self, cpu: usize) -> (r: bool)
        requires
            self.wf(),
            cpu < MAX_CPUS,
            self.current@[cpu as int] matches Some(t) ==> self.threads@[t as int].state != ThreadState::Running,
        ensures
            r == self.current@[cpu as int].is_some(),
    {
        self.current[cpu].is_some()
    }

    /// After thread `t` stopped running: a wake-up that arrived while it ran is
    /// carried out now (the thread becomes ready and is queued as `add_thread`
    /// does); returns the CPU to interrupt.
    pub fn finish_pending_wakeup(&mut self, t: usize, cpu: usize) -> (r: Option<usize>)
        requires
            old(self).wf(),
            t < old(self).threads@.len(),
            cpu < MAX_CPUS,
        ensures
            final(self).wf(),
            final(self).current@ == old(self).current@,
            final(self).enabled@ == old(self).enabled@,
            final(self).cpu_count == old(self).cpu_count,
            ({
                let tcb = old(self).threads@[t as int];
                if tcb.wake_pending {
                    let ready_tcb = TCB { state: ThreadState::Ready, wake_pending: false, ..tcb };
                    let target = target_cpu(ready_tcb, cpu, old(self).enabled@, old(self).cpu_count);
                    let qi = target * 256 + tcb.priority;
                    &&& final(self).threads@ == old(self).threads@.update(t as int, TCB { cpu_id: target, ..ready_tcb })
                    &&& ready_view(final(self).ready@) == ready_view(old(self).ready@).update(qi, old(self).ready@[qi].items@.push(t))
                    &&& r == if target != cpu { Some(target) } else { None::<usize> }
                } else {
                    r.is_none() && final(self).threads@ == old(self).threads@ && final(self).ready@ == old(self).ready@
                }
            }),
    {
        let tcb = self.threads[t];
        if tcb.wake_pending {
            self.threads.set(t, TCB { state: ThreadState::Ready, wake_pending: false, ..tcb });
            proof {
                assert forall|i: int| 0 <= i < self.threads@.len() implies #[trigger] self.threads@[i].priority < MAX_PRIORITY by {
                    if i != t {
                        assert(self.threads@[i] == old(self).threads@[i]);
                    }
                }
            }
            self.add_thread(t, cpu)
        } else {
            None
        }
    }
}

/// Stealing from one CPU's queues, priority `p` down: each non-empty level gives
/// up its first thread; a ready one is stolen, one that is not ready is dropped
/// and the next lower level is tried.
pub open spec fn steal_run(queues: Seq<Seq<usize>>, threads: Seq<TCB>, p: int) -> (Seq<Seq<usize>>, Option<usize>)
    decreases p + 1,
{
    if p < 0 {
        (queues, None)
    } else if queues[p].len() == 0 {
        steal_run(queues, threads, p - 1)
    } else if threads[queues[p][0] as int].state == ThreadState::Ready {
        (queues.update(p, queues[p].drop_first()), Some(queues[p][0]))
    } else {
        steal_run(queues.update(p, queues[p].drop_first()), threads, p - 1)
    }
}

/// The queues of CPU `c` within the view of all ready queues.
pub open spec fn cpu_block(v: Seq<Seq<usize>>, c: int) -> Seq<Seq<usize>> {
    Seq::new(MAX_PRIORITY as nat, |p: int| v[c * 256 + p])
}

/// The view of all ready queues with those of CPU `c` replaced by `qs`.
pub open spec fn put_block(v: Seq<Seq<usize>>, c: int, qs: Seq<Seq<usize>>) -> Seq<Seq<usize>> {
    Seq::new(v.len(), |j: int| if c * 256 <= j < c * 256 + 256 { qs[j - c * 256] } else { v[j] })
}

/// Work stealing for `cpu`: the other CPUs are tried in order, each with
/// `steal_run`, until one gives up a ready thread.
pub open spec fn steal_all(v: Seq<Seq<usize>>, threads: Seq<TCB>, cpu: int, i: int) -> (Seq<Seq<usize>>, Option<usize>)
    decreases MAX_CPUS - i,
{
    if i < 0 || i >= MAX_CPUS {
        (v, None)
    } else if i == cpu {
        steal_all(v, threads, cpu, i + 1)
    } else {
        let (qs, r) = steal_run(cpu_block(v, i), threads, MAX_PRIORITY - 1);
        let v2 = put_block(v, i, qs);
        match r {
            Some(t) => (v2, Some(t)),
            None => steal_all(v2, threads, cpu, i + 1),
        }
    }
}

impl Scheduler {
    /// Steals a ready thread from the queues of `victim` (see `steal_run`).
    fn steal_from(&mut self, victim: usize) -> (r: Option<usize>)
        requires
            old(self).wf(),
            victim < MAX_CPUS,
        ensures
            final(self).wf(),
            final(self).threads@ == old(self).threads@,
            final(self).current@ == old(self).current@,
            final(self).enabled@ == old(self).enabled@,
            final(self).cpu_count == old(self).cpu_count,
            r matches Some(t) ==> t < old(self).threads@.len(),
            ({
                let (qs, t) = steal_run(cpu_queues(old(self).ready@, victim as int), old(self).threads@, MAX_PRIORITY - 1);
                &&& r == t
                &&& ready_view(final(self).ready@) == put_block(ready_view(old(self).ready@), victim as int, qs)
            }),
    {
        let ghost q0 = cpu_queues(old(self).ready@, victim as int);
        let ghost threads = old(self).threads@;
        let mut p: usize = MAX_PRIORITY;
        let mut result: Option<usize> = None;
        proof {
            assert(victim * 256 + 256 <= MAX_CPUS * MAX_PRIORITY);
        }
        while result.is_none() && p > 0
            invariant
                self.wf(),
                p <= MAX_PRIORITY,
                victim < MAX_CPUS,
                self.threads@ == threads,
                self.current@ == old(self).current@,
                self.enabled@ == old(self).enabled@,
                self.cpu_count == old(self).cpu_count,
                result.is_none() ==> steal_run(q0, threads, MAX_PRIORITY - 1) == steal_run(cpu_queues(self.ready@, victim as int), threads, p - 1),
                result.is_some() ==> steal_run(q0, threads, MAX_PRIORITY - 1) == (cpu_queues(self.ready@, victim as int), result),
                result matches Some(t) ==> t < threads.len(),
                forall|i: int|
                    0 <= i < self.ready@.len() && !(victim * 256 <= i < victim * 256 + 256)
                        ==> #[trigger] self.ready@[i] == old(self).ready@[i],
            decreases p,
        {
            p = p - 1;
            let qi = victim * 256 + p;
            if self.ready[qi].items.len() > 0 {
                let ghost before = self.ready@;
                let mut q = TcbQueue::new();
                std::mem::swap(&mut q, &mut self.ready[qi]);
                let t = q.pop_front().unwrap();
                self.ready.set(qi, q);
                proof {
                    let qs = cpu_queues(before, victim as int);
                    assert(qs[p as int] == before[qi as int].items@);
                    assert(cpu_queues(self.ready@, victim as int) =~= qs.update(p as int, qs[p as int].drop_first()));
                    assert(t < self.threads@.len()) by {
                        assert(before[qi as int].items@[0] == t);
                    }
                    assert forall|i: int| 0 <= i < self.ready@.len() && !(victim * 256 <= i < victim * 256 + 256)
                        implies #[trigger] self.ready@[i] == old(self).ready@[i] by {
                        assert(self.ready@[i] == before[i]);
                    }
                    assert forall|i: int, k: int|
                        0 <= i < self.ready@.len() && 0 <= k < self.ready@[i].items@.len()
                            implies (#[trigger] self.ready@[i].items@[k]) < self.threads@.len() by {
                        if i == qi {
                            assert(self.ready@[i].items@[k] == before[i].items@[k + 1]);
                        } else {
                            assert(self.ready@[i] == before[i]);
                        }
                    }
                }
                if self.threads[t].state == ThreadState::Ready {
                    result = Some(t);
                }
            } else {
                proof {
                    let qs = cpu_queues(self.ready@, victim as int);
                    assert(qs[p as int].len() == 0);
                }
            }
        }
        proof {
            let qs = cpu_queues(self.ready@, victim as int);
            if result.is_none() {
                assert(steal_run(qs, threads, -1) == (qs, None::<usize>));
            }
            let (fq, _) = steal_run(q0, threads, MAX_PRIORITY - 1);
            assert(fq == qs);
            assert(ready_view(self.ready@) =~= put_block(ready_view(old(self).ready@), victim as int, qs)) by {
                assert forall|j: int| 0 <= j < self.ready@.len() implies #[trigger] ready_view(self.ready@)[j]
                    == put_block(ready_view(old(self).ready@), victim as int, qs)[j] by {
                    if victim * 256 <= j < victim * 256 + 256 {
                        assert(qs[j - victim * 256] == self.ready@[victim * 256 + (j - victim * 256)].items@);
                    }
                }
            }
        }
        result
    }

    /// The next thread to run on `cpu`: the pick from its own queues (see
    /// `pick_next`), or, when they hold no ready thread, one stolen from another
    /// CPU (see `steal`).
    pub fn next_to_run(&mut self, cpu: usize) -> (r: Option<usize>)
        requires
            old(self).wf(),
            cpu < MAX_CPUS,
        ensures
            final(self).wf(),
            final(self).current@ == old(self).current@,
            final(self).enabled@ == old(self).enabled@,
            final(self).cpu_count == old(self).cpu_count,
            ({
                let (q1, t1) = pick_run(cpu_queues(old(self).ready@, cpu as int), old(self).threads@, MAX_PRIORITY - 1);
                match t1 {
                    Some(x) => {
                        &&& r == Some(x)
                        &&& final(self).threads@ == old(self).threads@
                        &&& cpu_queues(final(self).ready@, cpu as int) == q1
                        &&& forall|i: int| 0 <= i < final(self).ready@.len() && !(cpu * 256 <= i < cpu * 256 + 256)
                            ==> #[trigger] final(self).ready@[i] == old(self).ready@[i]
                    },
                    None => exists|mid: Seq<TcbQueue>| {
                        &&& mid.len() == old(self).ready@.len()
                        &&& cpu_queues(mid, cpu as int) == q1
                        &&& (forall|i: int| 0 <= i < mid.len() && !(cpu * 256 <= i < cpu * 256 + 256)
                            ==> #[trigger] mid[i] == old(self).ready@[i])
                        &&& ({
                            let (v, t) = steal_all(ready_view(mid), old(self).threads@, cpu as int, 0);
                            &&& r == t
                            &&& ready_view(final(self).ready@) == v
                            &&& final(self).threads@ == match t {
                                Some(x) => old(self).threads@.update(x as int, TCB { cpu_id: cpu, ..old(self).threads@[x as int] }),
                                None => old(self).threads@,
                            }
                        })
                    },
                }
            }),
    {
        match self.pick_next(cpu) {
            Some(t) => Some(t),
            None => {
                let ghost mid = self.ready@;
                let r = self.steal(cpu);
                assert(mid.len() == old(self).ready@.len());
                r
            },
        }
    }

    /// Work stealing for `cpu` (see `steal_all`): a stolen thread is moved to
    /// `cpu` (its last CPU becomes `cpu`).
    pub fn steal(&mut self, cpu: usize) -> (r: Option<usize>)
        requires
            old(self).wf(),
            cpu < MAX_CPUS,
        ensures
            final(self).wf(),
            final(self).current@ == old(self).current@,
            final(self).enabled@ == old(self).enabled@,
            final(self).cpu_count == old(self).cpu_count,
            ({
                let (v, t) = steal_all(ready_view(old(self).ready@), old(self).threads@, cpu as int, 0);
                &&& r == t
                &&& ready_view(final(self).ready@) == v
                &&& final(self).threads@ == match t {
                    Some(x) => old(self).threads@.update(x as int, TCB { cpu_id: cpu, ..old(self).threads@[x as int] }),
                    None => old(self).threads@,
                }
            }),
    {
        let ghost v0 = ready_view(old(self).ready@);
        let ghost threads = old(self).threads@;
        let mut i: usize = 0;
        while i < MAX_CPUS
            invariant
                self.wf(),
                cpu < MAX_CPUS,
                i <= MAX_CPUS,
                self.threads@ == threads,
                self.current@ == old(self).current@,
                self.enabled@ == old(self).enabled@,
                self.cpu_count == old(self).cpu_count,
                v0 == ready_view(old(self).ready@),
                threads == old(self).threads@,
                steal_all(v0, threads, cpu as int, 0) == steal_all(ready_view(self.ready@), threads, cpu as int, i as int),
            decreases MAX_CPUS - i,
        {
            if i != cpu {
                proof {
                    assert(cpu_queues(self.ready@, i as int) =~= cpu_block(ready_view(self.ready@), i as int));
                }
                let ghost vb = ready_view(self.ready@);
                let r = self.steal_from(i);
                proof {
                    let (qs, rr) = steal_run(cpu_block(vb, i as int), threads, MAX_PRIORITY - 1);
                    assert(rr == r);
                    assert(ready_view(self.ready@) == put_block(vb, i as int, qs));
                    if r.is_none() {
                        assert(steal_all(vb, threads, cpu as int, i as int) == steal_all(ready_view(self.ready@), threads, cpu as int, i + 1));
                    } else {
                        assert(steal_all(vb, threads, cpu as int, i as int) == (ready_view(self.ready@), r));
                    }
                }
                match r {
                    Some(t) => {
                        let tcb = self.threads[t];
                        self.threads.set(t, TCB { cpu_id: cpu, ..tcb });
                        proof {
                            assert forall|k: int| 0 <= k < self.threads@.len() implies #[trigger] self.threads@[k].priority < MAX_PRIORITY by {
                                if k != t {
                                    assert(self.threads@[k] == threads[k]);
                                }
                            }
                        }
                        return Some(t);
                    },
                    None => {},
                }
            }
            i = i + 1;
        }
        None
    }
}

proof fn lemma_steal_run_ready(queues: Seq<Seq<usize>>, threads: Seq<TCB>, p: int)
    requires
        p < queues.len(),
    ensures
        steal_run(queues, threads, p).1 matches Some(t) ==> threads[t as int].state == ThreadState::Ready,
        steal_run(queues, threads, p).0.len() == queues.len(),
    decreases p + 1,
{
    if p >= 0 {
        if queues[p].len() == 0 {
            lemma_steal_run_ready(queues, threads, p - 1);
        } else if threads[queues[p][0] as int].state != ThreadState::Ready {
            lemma_steal_run_ready(queues.update(p, queues[p].drop_first()), threads, p - 1);
        }
    }
}

/// Work stealing only ever takes a ready thread, and never touches the queues of
/// the CPU that steals.
pub proof fn law_steal_takes_ready_thread_from_others(v: Seq<Seq<usize>>, threads: Seq<TCB>, cpu: int, i: int)
    requires
        v.len() == MAX_CPUS * MAX_PRIORITY,
        0 <= cpu < MAX_CPUS,
        0 <= i,
    ensures
        steal_all(v, threads, cpu, i).1 matches Some(t) ==> threads[t as int].state == ThreadState::Ready,
        steal_all(v, threads, cpu, i).0.len() == v.len(),
        cpu_block(steal_all(v, threads, cpu, i).0, cpu) == cpu_block(v, cpu),
    decreases MAX_CPUS - i,
{
    if i < MAX_CPUS {
        if i == cpu {
            law_steal_takes_ready_thread_from_others(v, threads, cpu, i + 1);
        } else {
            let (qs, r) = steal_run(cpu_block(v, i), threads, MAX_PRIORITY - 1);
            lemma_steal_run_ready(cpu_block(v, i), threads, MAX_PRIORITY - 1);
            let v2 = put_block(v, i, qs);
            assert(cpu_block(v2, cpu) =~= cpu_block(v, cpu)) by {
                assert forall|p: int| 0 <= p < MAX_PRIORITY implies #[trigger] cpu_block(v2, cpu)[p] == cpu_block(v, cpu)[p] by {
                    assert(!(i * 256 <= cpu * 256 + p < i * 256 + 256));
                }
            }
            if r.is_none() {
                law_steal_takes_ready_thread_from_others(v2, threads, cpu, i + 1);
            }
        }
    }
}

/// The watchdog's memory: when the scheduler last made progress and when the
/// watchdog last reported, in timer ticks (0: never).
pub struct Watchdog {
    pub last_progress: usize,
    pub last_dump: usize,
}

impl Watchdog {
    pub fn new() -> (r: Self)
        ensures
            r.last_progress == 0 && r.last_dump == 0,
    {
        Watchdog { last_progress: 0, last_dump: 0 }
    }

    /// Records progress at time `now`.
    pub fn mark_watchdog_progress(&mut self, now: usize)
        ensures
            final(self).last_progress == now,
            final(self).last_dump == old(self).last_dump,
    {
        self.last_progress = now;
    }

    /// One tick of the watchdog on `cpu` at time `now`, with a timer of `freq`
    /// ticks per second. Only CPU 0 with a running timer watches. The first tick
    /// records the time as progress. A report is due (true) when nothing
    /// progressed for `WATCHDOG_FIRST_DUMP_SECS` seconds and the last report is
    /// `WATCHDOG_INTERVAL_SECS` seconds old; the report time is then recorded.
    pub fn watchdog_tick(&mut self, cpu: usize, freq: usize, now: usize) -> (r: bool)
        ensures
            ({
                let stalled = if now >= old(self).last_progress { now - old(self).last_progress } else { 0 };
                let since = if now >= old(self).last_dump { now - old(self).last_dump } else { 0 };
                let first = if freq * WATCHDOG_FIRST_DUMP_SECS <= usize::MAX { freq * WATCHDOG_FIRST_DUMP_SECS } else { usize::MAX as int };
                let interval = if freq * WATCHDOG_INTERVAL_SECS <= usize::MAX { freq * WATCHDOG_INTERVAL_SECS } else { usize::MAX as int };
                if cpu != 0 || freq == 0 {
                    !r && *final(self) == *old(self)
                } else if old(self).last_progress == 0 {
                    !r && final(self).last_progress == now && final(self).last_dump == old(self).last_dump
                } else if stalled < first || since < interval {
                    !r && *final(self) == *old(self)
                } else {
                    r && final(self).last_dump == now && final(self).last_progress == old(self).last_progress
                }
            }),
    {
        if cpu != 0 {
            return false;
        }
        if freq == 0 {
            return false;
        }
        let progress = self.last_progress;
        if progress == 0 {
            self.last_progress = now;
            return false;
        }
        let stalled_for = now.saturating_sub(progress);
        let first: usize = if freq > usize::MAX / WATCHDOG_FIRST_DUMP_SECS { usize::MAX } else { freq * WATCHDOG_FIRST_DUMP_SECS };
        if stalled_for < first {
            return false;
        }
        let interval: usize = if freq > usize::MAX / WATCHDOG_INTERVAL_SECS { usize::MAX } else { freq * WATCHDOG_INTERVAL_SECS };
        let last = self.last_dump;
        if now.saturating_sub(last) < interval {
            return false;
        }
        self.last_dump = now;
        true
    }
}

impl Scheduler {
    /// What the watchdog reports of `cpu`'s ready queues: how many threads are
    /// queued in all, the highest priority with a queued thread, and how many are
    /// queued there (a queue counts at most 4097 threads; both last are 0 when
    /// nothing is queued).
    pub fn ready_summary(&self, cpu: usize) -> (r: (usize, usize, usize))
        requires
            self.wf(),
            cpu < MAX_CPUS,
        ensures
            r.0 == ready_total(cpu_queues(self.ready@, cpu as int), MAX_PRIORITY as int),
            r.1 == top_level(cpu_queues(self.ready@, cpu as int), MAX_PRIORITY as int),
            r.2 == capped_len(cpu_queues(self.ready@, cpu as int)[r.1 as int]),
    {
        let mut total: usize = 0;
        let mut top_prio: usize = 0;
        let mut top_count: usize = 0;
        let mut p: usize = 0;
        proof {
            assert(cpu * 256 + 256 <= MAX_CPUS * MAX_PRIORITY);
        }
        while p < MAX_PRIORITY
            invariant
                self.wf(),
                cpu < MAX_CPUS,
                p <= MAX_PRIORITY,
                total == ready_total(cpu_queues(self.ready@, cpu as int), p as int),
                total <= p * 4097,
                top_prio == top_level(cpu_queues(self.ready@, cpu as int), p as int),
                top_prio < MAX_PRIORITY,
                top_count == capped_len(cpu_queues(self.ready@, cpu as int)[top_prio as int]) || (top_prio == 0 && top_count == 0 && p == 0),
                p > 0 ==> top_count == capped_len(cpu_queues(self.ready@, cpu as int)[top_prio as int]),
            decreases MAX_PRIORITY - p,
        {
            let n = self.ready[cpu * 256 + p].items.len();
            assert(cpu_queues(self.ready@, cpu as int)[p as int].len() == n);
            let count: usize = if n > 4097 { 4097 } else { n };
            total = total + count;
            if count > 0 {
                top_prio = p;
                top_count = count;
            }
            p = p + 1;
        }
        (total, top_prio, top_count)
    }
}

/// A queue's length as the watchdog counts it: at most 4097.
pub open spec fn capped_len(q: Seq<usize>) -> int {
    if q.len() > 4097 { 4097 } else { q.len() as int }
}

/// The threads queued in the first `p` levels, each level counted by `capped_len`.
pub open spec fn ready_total(queues: Seq<Seq<usize>>, p: int) -> int
    decreases p,
{
    if p <= 0 { 0 } else { ready_total(queues, p - 1) + capped_len(queues[p - 1]) }
}

/// The highest of the first `p` levels that holds a thread (0 when none does).
pub open spec fn top_level(queues: Seq<Seq<usize>>, p: int) -> int
    decreases p,
{
    if p <= 0 { 0 } else if queues[p - 1].len() > 0 { p - 1 } else { top_level(queues, p - 1) }
}

/// A thread that is not ready (for instance one that `remove_thread` made
/// inactive) is never picked, wherever it sits in the queues.
pub proof fn law_not_ready_never_picked(queues: Seq<Seq<usize>>, threads: Seq<TCB>, p: int, t: usize)
    requires
        p < queues.len(),
        threads[t as int].state != ThreadState::Ready,
    ensures
        pick_run(queues, threads, p).1 != Some(t),
{
    law_pick_highest_ready(queues, threads, p);
}

} // verus!
