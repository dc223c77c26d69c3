//! Round-robin fairness on one CPU: of the threads that wait with equal
//! priority, each gets the CPU after the ones before it have used at most a
//! full time slice each.

use crate::processor::CpuState;
use crate::scheduler::{lemma_choice_unique, lemma_has_work_has_choice, lemma_pop, lemma_push, SchedState, Tid};
use crate::thread_pool::{lemma_run_inv, lemma_stop_inv, PoolState, Status};
use vstd::prelude::*;

verus! {

/// The scheduler loop takes its turn when the CPU is not inside a thread.
pub open spec fn settle<C>(cpu: CpuState<C>, pool: PoolState<C>) -> (CpuState<C>, PoolState<C>) {
    if cpu.on_thread {
        (cpu, pool)
    } else {
        (cpu.run(pool).0, cpu.run(pool).1)
    }
}

/// The CPU and the pool after `t` timer interrupts on that CPU, with the
/// scheduler loop taking its turn whenever a thread has given up the CPU, and
/// nothing else happening.
pub open spec fn after_ticks<C>(cpu: CpuState<C>, pool: PoolState<C>, t: nat) -> (
    CpuState<C>,
    PoolState<C>,
)
    decreases t,
{
    if t == 0 {
        settle(cpu, pool)
    } else {
        let before = after_ticks(cpu, pool, (t - 1) as nat);
        settle(before.0.tick(before.1).0, before.0.tick(before.1).1)
    }
}

/// Thread `tid` has been on the CPU at some moment up to the `t`-th tick.
pub open spec fn scheduled_by<C>(cpu: CpuState<C>, pool: PoolState<C>, tid: Tid, t: nat) -> bool {
    exists|u: nat|
        u <= t && (#[trigger] after_ticks(cpu, pool, u)).0.current() == Some(tid) && after_ticks(
            cpu,
            pool,
            u,
        ).0.on_thread
}

/// No thread sleeps on a timer.
pub open spec fn no_timers<C>(pool: PoolState<C>) -> bool {
    forall|tid: Tid| #[trigger] pool.has(tid) ==> pool.thread(tid).timer == 0
}

/// The waiting threads `q` all may run on `cpu` and have one priority.
pub open spec fn equal_peers(sched: SchedState, q: Seq<Tid>, cpu: usize) -> bool {
    forall|i: int|
        0 <= i < q.len() ==> {
            &&& (#[trigger] q[i]) < sched.infos.len()
            &&& sched.eligible(q[i], cpu)
            &&& sched.priority(q[i]) == sched.priority(q[0])
        }
}

/// Thread `q[j]` is on the CPU, the ones after it wait in their order, and the
/// ones before it have queued up again behind them.
pub open spec fn in_turn<C>(c: CpuState<C>, p: PoolState<C>, q: Seq<Tid>, j: int) -> bool {
    &&& p.inv()
    &&& no_timers(p)
    &&& q.no_duplicates()
    &&& 0 <= j < q.len()
    &&& c.current() == Some(q[j])
    &&& c.on_thread
    &&& p.status(q[j]) == Some(Status::Running(c.id))
    &&& p.thread(q[j]).status_after_stop is Ready
    &&& p.sched.queue == q.subrange(j + 1, q.len() as int) + q.subrange(0, j)
    &&& equal_peers(p.sched, q, c.id)
    &&& 1 <= p.sched.infos[q[j] as int].slice <= p.sched.max_slice
}

/// Without timers a tick moves no timer.
proof fn lemma_no_timers<C>(s: PoolState<C>, n: nat)
    requires
        no_timers(s),
    ensures
        s.advance_timers(n) == s,
    decreases n,
{
    if n > 0 {
        lemma_no_timers(s, (n - 1) as nat);
        assert(s.has((n - 1) as Tid) ==> s.thread((n - 1) as Tid).timer == 0);
    }
}

/// Among equal peers the oldest entry is the choice.
proof fn lemma_head_is_choice(s: SchedState, q: Seq<Tid>, cpu: usize)
    requires
        s.inv(),
        s.queue.len() > 0,
        equal_peers(s, q, cpu),
        forall|i: int| 0 <= i < s.queue.len() ==> q.contains(#[trigger] s.queue[i]),
    ensures
        s.has_work(cpu),
        s.choice(cpu) == 0,
        s.pop(cpu).1 == Some(s.queue[0]),
        s.pop(cpu).0.queue == s.queue.remove(0),
        s.pop(cpu).0.infos == s.infos,
        s.pop(cpu).0.max_slice == s.max_slice,
{
    assert forall|i: int| 0 <= i < s.queue.len() implies s.eligible(#[trigger] s.queue[i], cpu)
        && s.priority(s.queue[i]) == s.priority(q[0]) by {
        let t = s.queue[i];
        assert(q.contains(t));
        let k = choose|k: int| 0 <= k < q.len() && q[k] == t;
        assert(s.eligible(q[k], cpu));
    }
    assert(s.eligible(s.queue[0], cpu));
    assert(s.is_choice(0, cpu));
    assert(s.has_work(cpu));
    lemma_has_work_has_choice(s, cpu, s.queue.len() as int);
    lemma_choice_unique(s, 0, s.choice(cpu), cpu);
}

/// The loop's first turn puts the oldest of the waiting peers on the CPU.
proof fn lemma_first_turn<C>(cpu: CpuState<C>, pool: PoolState<C>)
    requires
        pool.inv(),
        cpu.agrees(pool),
        cpu.proc is None,
        !cpu.on_thread,
        no_timers(pool),
        pool.sched.queue.len() > 0,
        equal_peers(pool.sched, pool.sched.queue, cpu.id),
    ensures
        in_turn(settle(cpu, pool).0, settle(cpu, pool).1, pool.sched.queue, 0),
        settle(cpu, pool).0.id == cpu.id,
        settle(cpu, pool).1.sched.max_slice == pool.sched.max_slice,
{
    let q = pool.sched.queue;
    let s = pool.sched;
    assert forall|i: int| 0 <= i < s.queue.len() implies q.contains(#[trigger] s.queue[i]) by {}
    lemma_head_is_choice(s, q, cpu.id);
    lemma_run_inv(pool, cpu.id);
    lemma_pop(s, cpu.id);
    let c2 = settle(cpu, pool).0;
    let p2 = settle(cpu, pool).1;
    assert(pool.sched.queue.contains(q[0]));
    assert(pool.has(q[0]));
    assert(PoolState::<C>::thread_inv(pool.thread(q[0])));
    assert(p2.sched.queue == q.subrange(1, q.len() as int) + q.subrange(0, 0));
    assert forall|tid: Tid| #[trigger] p2.has(tid) implies p2.thread(tid).timer == 0 by {
        assert(pool.has(tid));
    }
    assert(q[0] < s.infos.len());
    assert(s.infos[q[0] as int].slice <= s.max_slice);
}

/// A tick that leaves the running peer some of its slice changes nothing but
/// that slice.
proof fn lemma_tick_within_slice<C>(c: CpuState<C>, p: PoolState<C>, q: Seq<Tid>, j: int)
    requires
        in_turn(c, p, q, j),
        p.sched.infos[q[j] as int].slice > 1,
    ensures
        in_turn(settle(c.tick(p).0, c.tick(p).1).0, settle(c.tick(p).0, c.tick(p).1).1, q, j),
        settle(c.tick(p).0, c.tick(p).1).1.sched.infos[q[j] as int].slice == p.sched.infos[q[j] as int].slice
            - 1,
        settle(c.tick(p).0, c.tick(p).1).0.id == c.id,
        settle(c.tick(p).0, c.tick(p).1).1.sched.max_slice == p.sched.max_slice,
{
    let tid = q[j];
    lemma_no_timers(p, p.threads.len());
    assert(p.after_timers(c.id) == p);
    assert(!p.sched.queue.contains(tid));
    let s = p.sched;
    assert(!s.outranked(tid, c.id)) by {
        if s.outranked(tid, c.id) {
            let i = choose|i: int|
                0 <= i < s.queue.len() && s.eligible(#[trigger] s.queue[i], c.id) && s.priority(
                    s.queue[i],
                ) > s.priority(tid);
            let u = s.queue[i];
            lemma_rotation_members(q, j, i);
            let k = choose|k: int| 0 <= k < q.len() && q[k] == u;
            assert(s.priority(q[k]) == s.priority(q[0]));
            assert(s.priority(q[j]) == s.priority(q[0]));
        }
    }
    let p2 = c.tick(p).1;
    let c2 = c.tick(p).0;
    assert(!c.tick(p).2);
    assert(c2.on_thread);
    crate::thread_pool::lemma_tick_inv(p, c.id, Some(tid));
    assert forall|u: Tid| #[trigger] p2.has(u) implies p2.thread(u).timer == 0 by {
        assert(p.has(u));
    }
    assert forall|i: int| 0 <= i < q.len() implies {
        &&& (#[trigger] q[i]) < p2.sched.infos.len()
        &&& p2.sched.eligible(q[i], c.id)
        &&& p2.sched.priority(q[i]) == p2.sched.priority(q[0])
    } by {
        assert(s.eligible(q[i], c.id));
        assert(s.eligible(q[0], c.id));
    }
}

/// Every entry of the rotated queue is one of the peers.
proof fn lemma_rotation_members(q: Seq<Tid>, j: int, i: int)
    requires
        0 <= j < q.len(),
        0 <= i < (q.subrange(j + 1, q.len() as int) + q.subrange(0, j)).len(),
    ensures
        q.contains((q.subrange(j + 1, q.len() as int) + q.subrange(0, j))[i]),
{
    let a = q.subrange(j + 1, q.len() as int);
    let r = a + q.subrange(0, j);
    if i < a.len() {
        assert(r[i] == q[j + 1 + i]);
    } else {
        assert(r[i] == q[i - a.len()]);
    }
}

/// The tick that uses up the slice of the running peer hands the CPU to the
/// next one.
proof fn lemma_tick_ends_slice<C>(c: CpuState<C>, p: PoolState<C>, q: Seq<Tid>, j: int)
    requires
        in_turn(c, p, q, j),
        p.sched.infos[q[j] as int].slice == 1,
        j + 1 < q.len(),
    ensures
        in_turn(settle(c.tick(p).0, c.tick(p).1).0, settle(c.tick(p).0, c.tick(p).1).1, q, j + 1),
        settle(c.tick(p).0, c.tick(p).1).0.id == c.id,
        settle(c.tick(p).0, c.tick(p).1).1.sched.max_slice == p.sched.max_slice,
{
    let tid = q[j];
    let n = q.len() as int;
    lemma_no_timers(p, p.threads.len());
    assert(p.after_timers(c.id) == p);
    assert(!p.sched.queue.contains(tid));
    let p2 = c.tick(p).1;
    let c2 = c.tick(p).0;
    assert(c.tick(p).2);
    assert(!c2.on_thread);
    crate::thread_pool::lemma_tick_inv(p, c.id, Some(tid));
    assert(p2.threads == p.threads);
    assert(p2.sched.queue == p.sched.queue);
    // the loop takes the thread back ...
    let context = c2.context()->0;
    assert(c2.proc == Some((tid, context)));
    let p3 = c2.handed_back(p2);
    assert(p3 == p2.stop(tid, context));
    lemma_stop_inv(p2, tid, context);
    assert(!p2.sched.queue.contains(tid));
    assert(tid < p2.sched.infos.len());
    lemma_push(p2.sched, tid);
    assert(p3.sched == p2.sched.push(tid));
    let rot = q.subrange(j + 1, n) + q.subrange(0, j);
    assert(p3.sched.queue == q.subrange(j + 1, n) + q.subrange(0, j + 1));
    assert(p3.sched.queue[0] == q[j + 1]);
    assert forall|i: int| 0 <= i < q.len() implies {
        &&& (#[trigger] q[i]) < p3.sched.infos.len()
        &&& p3.sched.eligible(q[i], c.id)
        &&& p3.sched.priority(q[i]) == p3.sched.priority(q[0])
    } by {
        assert(p.sched.eligible(q[i], c.id));
        assert(p.sched.eligible(q[0], c.id));
    }
    assert forall|i: int| 0 <= i < p3.sched.queue.len() implies q.contains(
        #[trigger] p3.sched.queue[i],
    ) by {
        lemma_rotation_members(q, j, if i < rot.len() { i } else { 0 });
        if i >= rot.len() {
            assert(p3.sched.queue[i] == q[j]);
        } else {
            assert(p3.sched.queue[i] == rot[i]);
        }
    }
    // ... and gives the CPU to the oldest in the queue
    lemma_head_is_choice(p3.sched, q, c.id);
    lemma_run_inv(p3, c.id);
    lemma_pop(p3.sched, c.id);
    let next = q[j + 1];
    let p4 = settle(c2, p2).1;
    assert(p4 == p3.run(c.id).0);
    assert(p3.sched.queue.contains(next));
    assert(p3.has(next));
    assert(PoolState::<C>::thread_inv(p3.thread(next)));
    assert(p4.sched.queue == q.subrange(j + 2, n) + q.subrange(0, j + 1));
    assert forall|u: Tid| #[trigger] p4.has(u) implies p4.thread(u).timer == 0 by {
        assert(p3.has(u));
        assert(p2.has(u));
        assert(p.has(u));
    }
    assert(p3.sched.infos[next as int].slice >= 1);
    assert(p3.sched.infos[next as int].slice <= p3.sched.max_slice);
}

/// After `t` ticks either peer `k` has had the CPU, or an earlier peer has it
/// and the slices that are still to pass before `k` fit into what is left of
/// `k` full slices.
proof fn lemma_progress<C>(cpu: CpuState<C>, pool: PoolState<C>, k: int, t: nat) -> (j: int)
    requires
        pool.inv(),
        cpu.agrees(pool),
        cpu.proc is None,
        !cpu.on_thread,
        no_timers(pool),
        equal_peers(pool.sched, pool.sched.queue, cpu.id),
        0 <= k < pool.sched.queue.len(),
    ensures
        scheduled_by(cpu, pool, pool.sched.queue[k], t) || {
            &&& 0 <= j < k
            &&& in_turn(after_ticks(cpu, pool, t).0, after_ticks(cpu, pool, t).1, pool.sched.queue, j)
            &&& after_ticks(cpu, pool, t).0.id == cpu.id
            &&& after_ticks(cpu, pool, t).1.sched.max_slice == pool.sched.max_slice
            &&& t + after_ticks(cpu, pool, t).1.sched.infos[pool.sched.queue[j] as int].slice + (k
                - 1 - j) * pool.sched.max_slice <= k * pool.sched.max_slice
        },
    decreases t,
{
    let q = pool.sched.queue;
    let max = pool.sched.max_slice as int;
    if t == 0 {
        lemma_first_turn(cpu, pool);
        if k == 0 {
            assert(after_ticks(cpu, pool, 0).0.current() == Some(q[0]));
            assert(scheduled_by(cpu, pool, q[k], t));
        } else {
            assert((k - 1) * max + max == k * max) by (nonlinear_arith);
        }
        0
    } else {
        let j = lemma_progress(cpu, pool, k, (t - 1) as nat);
        if scheduled_by(cpu, pool, q[k], (t - 1) as nat) {
            let u = choose|u: nat|
                u <= t - 1 && (#[trigger] after_ticks(cpu, pool, u)).0.current() == Some(q[k])
                    && after_ticks(cpu, pool, u).0.on_thread;
            assert(u <= t && after_ticks(cpu, pool, u).0.current() == Some(q[k]));
            j
        } else {
            let c = after_ticks(cpu, pool, (t - 1) as nat).0;
            let p = after_ticks(cpu, pool, (t - 1) as nat).1;
            let slice = p.sched.infos[q[j] as int].slice;
            if slice > 1 {
                lemma_tick_within_slice(c, p, q, j);
                j
            } else {
                lemma_tick_ends_slice(c, p, q, j);
                let p2 = after_ticks(cpu, pool, t).1;
                if j + 1 == k {
                    assert(after_ticks(cpu, pool, t).0.current() == Some(q[k]));
                    assert(scheduled_by(cpu, pool, q[k], t));
                } else {
                    assert((k - 1 - j) * max == (k - 2 - j) * max + max) by (nonlinear_arith);
                }
                j + 1
            }
        }
    }
}

/// Round-robin fairness. On a CPU that is about to enter its scheduler loop,
/// with a ready queue of threads of one priority that it may all take and no
/// timer armed, the thread at place `k` of the queue is on the CPU within `k`
/// full time slices; so with `n` threads waiting each of them has been on the
/// CPU within `n` time slices.
pub proof fn lemma_round_robin_is_fair<C>(cpu: CpuState<C>, pool: PoolState<C>, k: int)
    requires
        pool.inv(),
        cpu.agrees(pool),
        cpu.proc is None,
        !cpu.on_thread,
        no_timers(pool),
        equal_peers(pool.sched, pool.sched.queue, cpu.id),
        0 <= k < pool.sched.queue.len(),
    ensures
        scheduled_by(cpu, pool, pool.sched.queue[k], (k * pool.sched.max_slice) as nat),
        scheduled_by(
            cpu,
            pool,
            pool.sched.queue[k],
            (pool.sched.queue.len() * pool.sched.max_slice) as nat,
        ),
{
    let q = pool.sched.queue;
    let max = pool.sched.max_slice as int;
    let n = q.len() as int;
    assert(0 <= k * max <= n * max) by (nonlinear_arith)
        requires
            0 <= k < n,
            0 < max,
    ;
    let t = (k * max) as nat;
    let j = lemma_progress(cpu, pool, k, t);
    if !scheduled_by(cpu, pool, q[k], t) {
        assert((k - 1 - j) * max >= 0) by (nonlinear_arith)
            requires
                0 <= j < k,
                0 < max,
        ;
        assert(false);
    }
    let u = choose|u: nat|
        u <= t && (#[trigger] after_ticks(cpu, pool, u)).0.current() == Some(q[k]) && after_ticks(
            cpu,
            pool,
            u,
        ).0.on_thread;
    assert(u <= (n * max) as nat);
}

} // verus!
