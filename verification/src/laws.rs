//! What holds of the pool and the processors in every reachable state, proved
//! over their mathematical states.

use crate::processor::CpuState;
use crate::scheduler::{lemma_tick, Tid};
use crate::thread_pool::{
    lemma_advance_timer_inv, lemma_advance_timers_inv, lemma_exit_inv, lemma_run_inv,
    lemma_stop_inv, lemma_wakeup_inv, ExitCode, PoolState, Status,
};
use vstd::prelude::*;

verus! {

/// Waking is safe for every thread id and in every thread state: the pool
/// stays in a reachable state; a thread that is not parked, or does not
/// exist, is left as it is; a parked one will run again; and no other thread
/// is touched.
pub proof fn lemma_wakeup_is_safe<C>(s: PoolState<C>, tid: Tid)
    requires
        s.inv(),
    ensures
        s.wakeup(tid).inv(),
        !s.parked(tid) ==> s.wakeup(tid) == s,
        s.parked(tid) ==> s.wakeup(tid).runnable(tid),
        forall|u: Tid| u != tid ==> s.wakeup(tid).status(u) == s.status(u),
{
    lemma_wakeup_inv(s, tid);
    if s.has(tid) {
        assert(PoolState::<C>::thread_inv(s.thread(tid)));
    }
}

/// Exit is idempotent: for a thread that has exited, and for an id that no
/// thread has, `exit` changes nothing; so a second exit never undoes or
/// overwrites the first.
pub proof fn lemma_exit_is_idempotent<C>(s: PoolState<C>, tid: Tid, first: ExitCode, second: ExitCode)
    requires
        s.inv(),
    ensures
        s.exited(tid) || !s.has(tid) ==> s.exit(tid, second) == s,
        s.exit(tid, first).exit(tid, second) == s.exit(tid, first),
{
    lemma_exit_inv(s, tid, first);
    if s.has(tid) {
        assert(PoolState::<C>::thread_inv(s.thread(tid)));
        let r = s.exit(tid, first);
        if r.has(tid) {
            assert(PoolState::<C>::thread_inv(r.thread(tid)));
            assert(r.exited(tid));
        }
    }
}

/// At most one processor holds the context of a thread: two processors with
/// different ids that both agree with the pool never have the same thread in
/// their slots.
pub proof fn lemma_running_is_exclusive<C>(
    a: CpuState<C>,
    b: CpuState<C>,
    pool: PoolState<C>,
    tid: Tid,
)
    requires
        a.agrees(pool),
        b.agrees(pool),
        a.id != b.id,
        a.current() == Some(tid),
    ensures
        b.current() != Some(tid),
{
    assert(pool.status(tid) == Some(Status::Running(a.id)));
}

/// A context is in one place only: while a processor that agrees with the
/// pool has a thread in its slot, the pool stores no context for it.
pub proof fn lemma_context_in_one_place<C>(cpu: CpuState<C>, pool: PoolState<C>, tid: Tid)
    requires
        pool.inv(),
        cpu.agrees(pool),
        cpu.current() == Some(tid),
    ensures
        pool.has(tid),
        pool.thread(tid).context is None,
{
    assert(pool.status(tid) == Some(Status::Running(cpu.id)));
    assert(pool.has(tid));
    assert(PoolState::<C>::thread_inv(pool.thread(tid)));
}

/// Which thread runs on which CPU is changed by `run` and `stop` alone: every
/// other operation of the pool keeps each processor's agreement with it.
pub proof fn lemma_pool_ops_keep_agreement<C>(
    cpu: CpuState<C>,
    s: PoolState<C>,
    tid: Tid,
    context: C,
    code: ExitCode,
    ticks: usize,
    priority: u8,
    affinity: Option<usize>,
)
    requires
        s.inv(),
        cpu.agrees(s),
    ensures
        s.is_first_free(tid) ==> cpu.agrees(s.add(tid, context)),
        cpu.agrees(s.sleep(tid)),
        cpu.agrees(s.sleep_for(tid, ticks)),
        cpu.agrees(s.wakeup(tid)),
        cpu.agrees(s.exit(tid, code)),
        cpu.agrees(s.acquire(tid)),
        cpu.agrees(s.release(tid)),
        cpu.agrees(s.set_priority(tid, priority)),
        cpu.agrees(s.set_affinity(tid, affinity)),
{
    if s.has(tid) {
        assert(PoolState::<C>::thread_inv(s.thread(tid)));
    }
    let id = cpu.id;
    if s.is_first_free(tid) {
        let r = s.add(tid, context);
        assert forall|u: Tid| #[trigger]
            r.status(u) == Some(Status::Running(id)) <==> cpu.current() == Some(u) by {
            assert(s.status(u) == Some(Status::Running(id)) <==> cpu.current() == Some(u));
        }
    }
    let r = s.sleep(tid);
    assert forall|u: Tid| #[trigger]
        r.status(u) == Some(Status::Running(id)) <==> cpu.current() == Some(u) by {
        assert(s.status(u) == Some(Status::Running(id)) <==> cpu.current() == Some(u));
    }
    let r2 = s.sleep_for(tid, ticks);
    assert forall|u: Tid| #[trigger]
        r2.status(u) == Some(Status::Running(id)) <==> cpu.current() == Some(u) by {
        assert(r.status(u) == Some(Status::Running(id)) <==> cpu.current() == Some(u));
    }
    let r = s.wakeup(tid);
    assert forall|u: Tid| #[trigger]
        r.status(u) == Some(Status::Running(id)) <==> cpu.current() == Some(u) by {
        assert(s.status(u) == Some(Status::Running(id)) <==> cpu.current() == Some(u));
    }
    let r = s.exit(tid, code);
    assert forall|u: Tid| #[trigger]
        r.status(u) == Some(Status::Running(id)) <==> cpu.current() == Some(u) by {
        assert(s.status(u) == Some(Status::Running(id)) <==> cpu.current() == Some(u));
    }
    let r = s.acquire(tid);
    assert forall|u: Tid| #[trigger]
        r.status(u) == Some(Status::Running(id)) <==> cpu.current() == Some(u) by {
        assert(s.status(u) == Some(Status::Running(id)) <==> cpu.current() == Some(u));
    }
    let r = s.release(tid);
    assert forall|u: Tid| #[trigger]
        r.status(u) == Some(Status::Running(id)) <==> cpu.current() == Some(u) by {
        assert(s.status(u) == Some(Status::Running(id)) <==> cpu.current() == Some(u));
    }
    let r = s.set_priority(tid, priority);
    assert forall|u: Tid| #[trigger]
        r.status(u) == Some(Status::Running(id)) <==> cpu.current() == Some(u) by {
        assert(s.status(u) == Some(Status::Running(id)) <==> cpu.current() == Some(u));
    }
    let r = s.set_affinity(tid, affinity);
    assert forall|u: Tid| #[trigger]
        r.status(u) == Some(Status::Running(id)) <==> cpu.current() == Some(u) by {
        assert(s.status(u) == Some(Status::Running(id)) <==> cpu.current() == Some(u));
    }
}

/// Moving the timers takes no thread off its CPU and puts none on one, and
/// leaves the scheduling metadata of the running threads alone.
pub proof fn lemma_timers_keep_running<C>(s: PoolState<C>, n: nat)
    requires
        s.inv(),
    ensures
        s.advance_timers(n).inv(),
        s.advance_timers(n).threads.len() == s.threads.len(),
        s.advance_timers(n).sched.max_slice == s.sched.max_slice,
        forall|u: Tid| #[trigger] s.advance_timers(n).cpu_of(u) == s.cpu_of(u),
        forall|u: Tid|
            s.has(u) && s.thread(u).status is Running ==> #[trigger] s.advance_timers(
                n,
            ).sched.infos[u as int] == s.sched.infos[u as int],
    decreases n,
{
    lemma_advance_timers_inv(s, n);
    if n > 0 {
        let m = s.advance_timers((n - 1) as nat);
        let tid = (n - 1) as Tid;
        let r = s.advance_timers(n);
        lemma_timers_keep_running(s, (n - 1) as nat);
        lemma_advance_timers_inv(s, (n - 1) as nat);
        lemma_advance_timer_inv(m, tid);
        if m.has(tid) {
            assert(PoolState::<C>::thread_inv(m.thread(tid)));
        }
        assert(r == m.advance_timer(tid));
        assert forall|u: Tid| #[trigger] r.cpu_of(u) == s.cpu_of(u) by {
            assert(m.cpu_of(u) == s.cpu_of(u));
        }
        assert forall|u: Tid| s.has(u) && s.thread(u).status is Running implies #[trigger] r.sched.infos[u as int]
            == s.sched.infos[u as int] by {
            assert(m.sched.infos[u as int] == s.sched.infos[u as int]);
            assert(m.cpu_of(u) == s.cpu_of(u));
        }
    }
}

/// A timer interrupt changes nothing about which thread runs where: it keeps
/// every processor's agreement with the pool.
pub proof fn lemma_tick_keeps_agreement<C>(
    other: CpuState<C>,
    s: PoolState<C>,
    cpu: usize,
    running: Option<Tid>,
)
    requires
        s.inv(),
        other.agrees(s),
    ensures
        other.agrees(s.tick(cpu, running).0),
{
    lemma_timers_keep_running(s, s.threads.len());
    let m = s.after_timers(cpu);
    let r = s.tick(cpu, running).0;
    assert forall|u: Tid| #[trigger]
        r.status(u) == Some(Status::Running(other.id)) <==> other.current() == Some(u) by {
        assert(s.status(u) == Some(Status::Running(other.id)) <==> other.current() == Some(u));
        assert(m.cpu_of(u) == s.cpu_of(u));
    }
}

/// A turn of the scheduler loop keeps the agreement of the processor that
/// makes it, and that of every processor with another id.
pub proof fn lemma_run_keeps_agreement<C>(cpu: CpuState<C>, other: CpuState<C>, s: PoolState<C>)
    requires
        s.inv(),
        cpu.agrees(s),
        other.agrees(s),
        other.id != cpu.id,
    ensures
        cpu.run(s).0.agrees(cpu.run(s).1),
        other.agrees(cpu.run(s).1),
{
    let m = cpu.handed_back(s);
    match cpu.proc {
        Some((tid, context)) => {
            lemma_stop_inv(s, tid, context);
            assert(s.status(tid) == Some(Status::Running(cpu.id)));
        },
        None => {},
    }
    assert forall|u: Tid| m.status(u) != Some(Status::Running(cpu.id)) by {
        assert(s.status(u) == Some(Status::Running(cpu.id)) <==> cpu.current() == Some(u));
    }
    assert forall|u: Tid| #[trigger]
        m.status(u) == Some(Status::Running(other.id)) <==> other.current() == Some(u) by {
        assert(s.status(u) == Some(Status::Running(other.id)) <==> other.current() == Some(u));
        assert(s.status(u) == Some(Status::Running(cpu.id)) <==> cpu.current() == Some(u));
    }
    lemma_run_inv(m, cpu.id);
    let r = cpu.run(s).1;
    let c2 = cpu.run(s).0;
    assert forall|u: Tid| #[trigger]
        r.status(u) == Some(Status::Running(cpu.id)) <==> c2.current() == Some(u) by {
        assert(m.status(u) != Some(Status::Running(cpu.id)));
    }
    assert forall|u: Tid| #[trigger]
        r.status(u) == Some(Status::Running(other.id)) <==> other.current() == Some(u) by {
        assert(m.status(u) == Some(Status::Running(other.id)) <==> other.current() == Some(u));
    }
}

/// A thread whose slice is used up is preempted at the next timer interrupt:
/// with at most one tick of its slice left, the tick on its CPU asks for
/// preemption, the thread gives up the CPU, and once the scheduler loop has
/// taken it back it is no longer running.
pub proof fn lemma_exhausted_slice_is_preempted<C>(cpu: CpuState<C>, pool: PoolState<C>, tid: Tid)
    requires
        pool.inv(),
        cpu.current() == Some(tid),
        pool.status(tid) == Some(Status::Running(cpu.id)),
        pool.sched.infos[tid as int].slice <= 1,
    ensures
        cpu.tick(pool).2,
        !cpu.tick(pool).0.on_thread,
        cpu.tick(pool).0.current() == Some(tid),
        !(cpu.tick(pool).0.handed_back(cpu.tick(pool).1).status(tid) is Some && cpu.tick(
            pool,
        ).0.handed_back(cpu.tick(pool).1).status(tid)->0 is Running),
{
    lemma_timers_keep_running(pool, pool.threads.len());
    let m = pool.after_timers(cpu.id);
    assert(m.cpu_of(tid) == pool.cpu_of(tid));
    assert(m.status(tid) == Some(Status::Running(cpu.id)));
    assert(m.sched.infos[tid as int] == pool.sched.infos[tid as int]);
    assert(!m.sched.queue.contains(tid));
    lemma_tick(m.sched, cpu.id, tid);
}

/// A parked thread stays parked until it is woken or ended, whatever else
/// happens in between: adding, parking, waking or ending other threads,
/// handing out and taking back handles, changes of priority and affinity,
/// a processor taking a thread or handing one back, this one included. A
/// timer interrupt leaves it parked too, unless its own timer runs out: then
/// it runs again.
pub proof fn lemma_parked_until_woken<C>(
    s: PoolState<C>,
    tid: Tid,
    other: Tid,
    context: C,
    code: ExitCode,
    ticks: usize,
    priority: u8,
    affinity: Option<usize>,
    cpu: usize,
    running: Option<Tid>,
)
    requires
        s.inv(),
        s.parked(tid),
    ensures
        s.is_first_free(other) ==> s.add(other, context).parked(tid),
        s.sleep(other).parked(tid),
        other != tid ==> s.wakeup(other).parked(tid),
        other != tid ==> s.exit(other, code).parked(tid),
        s.acquire(other).parked(tid),
        s.release(other).parked(tid),
        s.set_priority(other, priority).parked(tid),
        s.set_affinity(other, affinity).parked(tid),
        s.run(cpu).0.parked(tid),
        s.stop(other, context).parked(tid),
        s.tick(cpu, running).0.parked(tid) || s.tick(cpu, running).0.runnable(tid),
{
    assert(PoolState::<C>::thread_inv(s.thread(tid)));
    if s.has(other) {
        assert(PoolState::<C>::thread_inv(s.thread(other)));
    }
    // a processor takes a thread: it takes a ready one
    lemma_run_inv(s, cpu);
    crate::scheduler::lemma_pop(s.sched, cpu);
    match s.sched.pop(cpu).1 {
        Some(taken) => {
            assert(s.sched.queue.contains(taken));
            assert(s.has(taken) && s.thread(taken).status is Ready);
        },
        None => {},
    }
    // a timer interrupt
    lemma_timers_park(s, tid, s.threads.len());
}

/// Moving the timers leaves a parked thread parked, or wakes it.
proof fn lemma_timers_park<C>(s: PoolState<C>, tid: Tid, n: nat)
    requires
        s.inv(),
        s.parked(tid),
    ensures
        s.advance_timers(n).parked(tid) || s.advance_timers(n).runnable(tid),
        s.advance_timers(n).inv(),
    decreases n,
{
    lemma_advance_timers_inv(s, n);
    if n > 0 {
        lemma_timers_park(s, tid, (n - 1) as nat);
        let m = s.advance_timers((n - 1) as nat);
        let u = (n - 1) as Tid;
        lemma_advance_timers_inv(s, (n - 1) as nat);
        if m.has(tid) {
            assert(PoolState::<C>::thread_inv(m.thread(tid)));
        }
        if m.has(u) {
            assert(PoolState::<C>::thread_inv(m.thread(u)));
        }
    }
}

} // verus!
