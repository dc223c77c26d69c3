//! The thread pool: the table of all threads and the scheduler that orders the
//! ready ones. A thread's context is owned by exactly one party at a time: by
//! the pool while the thread is ready or asleep, by a processor while it runs.

use crate::scheduler::{
    lemma_insert, lemma_pop, lemma_push, lemma_remove, lemma_tick, SchedState, Scheduler, Tid,
};
use vstd::prelude::*;

verus! {

/// Code a thread leaves behind when it exits.
pub type ExitCode = usize;

/// Where a thread is in its life.
#[derive(Clone, Copy, Debug, PartialEq, Eq, Structural)]
pub enum Status {
    /// Waiting in the ready queue.
    Ready,
    /// On the CPU with the given id.
    Running(usize),
    /// Parked until it is woken.
    Sleeping,
    /// Finished with the given code; its context is gone.
    Exited(ExitCode),
}

/// One occupied slot of the thread table.
pub struct Thread<C> {
    /// Current status.
    pub status: Status,
    /// What a running thread becomes when its processor hands it back:
    /// `Ready` unless it was parked or has exited in the meantime.
    pub status_after_stop: Status,
    /// The saved register frame, while the pool owns it.
    pub context: Option<C>,
    /// Number of handles that keep the slot alive after exit.
    pub handles: usize,
    /// Ticks until a timed sleep ends; 0 when no timer is armed.
    pub timer: usize,
    /// The slot is kept for somebody who knows the thread by its id, though
    /// the thread may have exited and no handle be left.
    pub kept: bool,
}

/// A counted reference to a thread, held by wait queues. The slot of an exited
/// thread is kept until the last handle has gone back to the pool.
pub struct ThreadHandle {
    tid: Tid,
}

impl ThreadHandle {
    /// The thread this handle refers to.
    pub closed spec fn tid(&self) -> Tid {
        self.tid
    }

    /// The thread this handle refers to.
    pub fn id(&self) -> (r: Tid)
        ensures
            r == self.tid(),
    {
        self.tid
    }
}

/// Mathematical state of the pool.
#[verifier::ext_equal]
pub ghost struct PoolState<C> {
    /// The thread table, indexed by thread id; `None` marks a free slot.
    pub threads: Seq<Option<Thread<C>>>,
    /// The scheduler.
    pub sched: SchedState,
}

impl<C> PoolState<C> {
    /// Slot `tid` holds a thread.
    pub open spec fn has(self, tid: Tid) -> bool {
        tid < self.threads.len() && self.threads[tid as int] is Some
    }

    pub open spec fn thread(self, tid: Tid) -> Thread<C> {
        self.threads[tid as int]->0
    }

    /// Status of `tid`, or `None` for a free slot.
    pub open spec fn status(self, tid: Tid) -> Option<Status> {
        if self.has(tid) {
            Some(self.thread(tid).status)
        } else {
            None
        }
    }

    /// The CPU that `tid` runs on, if it runs.
    pub open spec fn cpu_of(self, tid: Tid) -> Option<usize> {
        match self.status(tid) {
            Some(Status::Running(cpu)) => Some(cpu),
            _ => None,
        }
    }

    /// `tid` is parked: asleep, or still on its CPU with the sleep pending.
    pub open spec fn parked(self, tid: Tid) -> bool {
        self.has(tid) && (self.thread(tid).status is Sleeping || (self.thread(tid).status is Running
            && self.thread(tid).status_after_stop is Sleeping))
    }

    /// `tid` will run again without anybody waking it: it is ready, or on a CPU
    /// with neither a sleep nor an exit pending.
    pub open spec fn runnable(self, tid: Tid) -> bool {
        self.has(tid) && (self.thread(tid).status is Ready || (self.thread(tid).status is Running
            && self.thread(tid).status_after_stop is Ready))
    }

    /// `tid` has exited, or is still on its CPU with the exit pending.
    pub open spec fn exited(self, tid: Tid) -> bool {
        self.has(tid) && (self.thread(tid).status is Exited || (self.thread(tid).status is Running
            && self.thread(tid).status_after_stop is Exited))
    }

    pub open spec fn thread_inv(t: Thread<C>) -> bool {
        &&& t.context is Some <==> (t.status is Ready || t.status is Sleeping)
        &&& !(t.status_after_stop is Running)
        &&& !(t.status is Running) ==> t.status_after_stop is Ready
        &&& t.timer > 0 ==> (t.status is Sleeping || (t.status is Running
            && t.status_after_stop is Sleeping))
        &&& t.status is Exited ==> t.handles > 0 || t.kept
    }

    /// What holds of every reachable state: the ready queue lists exactly the
    /// ready threads, each once, and a context is stored exactly for the
    /// threads that are ready or asleep.
    pub open spec fn inv(self) -> bool {
        &&& self.sched.inv()
        &&& self.sched.infos.len() == self.threads.len()
        &&& forall|tid: Tid| #[trigger]
            self.sched.queue.contains(tid) <==> (self.has(tid) && self.thread(tid).status is Ready)
        &&& forall|tid: Tid| #[trigger] self.has(tid) ==> Self::thread_inv(self.thread(tid))
    }

    /// `tid` is the id the next new thread gets: the lowest free slot, or a new
    /// slot past the end when none is free.
    pub open spec fn is_first_free(self, tid: Tid) -> bool {
        &&& tid <= self.threads.len()
        &&& tid < self.threads.len() ==> self.threads[tid as int] is None
        &&& forall|j: int| 0 <= j < tid ==> self.threads[j] is Some
    }

    /// The table with slot `tid` set to `t`; `tid` may be one past the end.
    pub open spec fn with_slot(self, tid: Tid, t: Option<Thread<C>>) -> Seq<Option<Thread<C>>> {
        if tid < self.threads.len() {
            self.threads.update(tid as int, t)
        } else {
            self.threads.push(t)
        }
    }

    /// A new ready thread in slot `tid`.
    pub open spec fn add(self, tid: Tid, context: C) -> Self {
        let t = Thread {
            status: Status::Ready,
            status_after_stop: Status::Ready,
            context: Some(context),
            handles: 0,
            timer: 0,
            kept: false,
        };
        PoolState { threads: self.with_slot(tid, Some(t)), sched: self.sched.insert(tid).push(tid) }
    }

    /// `cpu` takes its next thread: the state after, and the thread with its
    /// context.
    pub open spec fn run(self, cpu: usize) -> (Self, Option<(Tid, C)>) {
        match self.sched.pop(cpu).1 {
            Some(tid) => {
                let t = self.thread(tid);
                (
                    PoolState {
                        threads: self.threads.update(
                            tid as int,
                            Some(Thread { status: Status::Running(cpu), context: None, ..t }),
                        ),
                        sched: self.sched.pop(cpu).0,
                    },
                    Some((tid, t.context->0)),
                )
            },
            None => (self, None),
        }
    }

    /// Thread `tid`, which is in no queue, ends with `code`. Its context is
    /// dropped, and so is its slot when no handle refers to it.
    pub open spec fn retire(self, tid: Tid, code: ExitCode) -> Self {
        let t = self.thread(tid);
        if t.handles == 0 && !t.kept {
            PoolState { threads: self.threads.update(tid as int, None), ..self }
        } else {
            PoolState {
                threads: self.threads.update(
                    tid as int,
                    Some(
                        Thread {
                            status: Status::Exited(code),
                            status_after_stop: Status::Ready,
                            context: None,
                            timer: 0,
                            ..t
                        },
                    ),
                ),
                ..self
            }
        }
    }

    /// A processor hands the running thread `tid` back with its context.
    pub open spec fn stop(self, tid: Tid, context: C) -> Self {
        if self.has(tid) && self.thread(tid).status is Running {
            let t = self.thread(tid);
            match t.status_after_stop {
                Status::Exited(code) => self.retire(tid, code),
                Status::Sleeping => PoolState {
                    threads: self.threads.update(
                        tid as int,
                        Some(
                            Thread {
                                status: Status::Sleeping,
                                status_after_stop: Status::Ready,
                                context: Some(context),
                                ..t
                            },
                        ),
                    ),
                    ..self
                },
                _ => PoolState {
                    threads: self.threads.update(
                        tid as int,
                        Some(
                            Thread {
                                status: Status::Ready,
                                status_after_stop: Status::Ready,
                                context: Some(context),
                                ..t
                            },
                        ),
                    ),
                    sched: self.sched.push(tid),
                },
            }
        } else {
            self
        }
    }

    /// Parks `tid`. A ready thread leaves the queue; for a running one the
    /// sleep is recorded and takes effect when it is handed back.
    pub open spec fn sleep(self, tid: Tid) -> Self {
        if !self.has(tid) {
            self
        } else {
            let t = self.thread(tid);
            match t.status {
                Status::Ready => PoolState {
                    threads: self.threads.update(
                        tid as int,
                        Some(Thread { status: Status::Sleeping, ..t }),
                    ),
                    sched: self.sched.remove(tid),
                },
                Status::Running(_) => if t.status_after_stop is Ready {
                    PoolState {
                        threads: self.threads.update(
                            tid as int,
                            Some(Thread { status_after_stop: Status::Sleeping, ..t }),
                        ),
                        ..self
                    }
                } else {
                    self
                },
                _ => self,
            }
        }
    }

    /// Parks `tid` and, where that leaves it parked and `ticks` is not 0, arms
    /// its timer to wake it after `ticks` ticks.
    pub open spec fn sleep_for(self, tid: Tid, ticks: usize) -> Self {
        let s = self.sleep(tid);
        if s.parked(tid) && ticks > 0 {
            PoolState {
                threads: s.threads.update(tid as int, Some(Thread { timer: ticks, ..s.thread(tid) })),
                ..s
            }
        } else {
            s
        }
    }

    /// Wakes `tid` if it is parked; every other thread state is left alone.
    pub open spec fn wakeup(self, tid: Tid) -> Self {
        if !self.has(tid) {
            self
        } else {
            let t = self.thread(tid);
            match t.status {
                Status::Sleeping => PoolState {
                    threads: self.threads.update(
                        tid as int,
                        Some(Thread { status: Status::Ready, timer: 0, ..t }),
                    ),
                    sched: self.sched.push(tid),
                },
                Status::Running(_) => if t.status_after_stop is Sleeping {
                    PoolState {
                        threads: self.threads.update(
                            tid as int,
                            Some(Thread { status_after_stop: Status::Ready, timer: 0, ..t }),
                        ),
                        ..self
                    }
                } else {
                    self
                },
                _ => self,
            }
        }
    }

    /// Ends `tid` with `code`. For a running thread the exit is recorded and
    /// takes effect when it is handed back; a thread that has exited keeps its
    /// first code.
    pub open spec fn exit(self, tid: Tid, code: ExitCode) -> Self {
        if !self.has(tid) {
            self
        } else {
            let t = self.thread(tid);
            match t.status {
                Status::Ready => (PoolState { sched: self.sched.remove(tid), ..self }).retire(
                    tid,
                    code,
                ),
                Status::Sleeping => self.retire(tid, code),
                Status::Running(_) => if t.status_after_stop is Exited {
                    self
                } else {
                    PoolState {
                        threads: self.threads.update(
                            tid as int,
                            Some(
                                Thread { status_after_stop: Status::Exited(code), timer: 0, ..t },
                            ),
                        ),
                        ..self
                    }
                },
                Status::Exited(_) => self,
            }
        }
    }

    /// One tick for the timer of `tid`: an armed timer counts down and wakes
    /// the thread when it reaches 0.
    pub open spec fn advance_timer(self, tid: Tid) -> Self {
        if self.has(tid) && self.thread(tid).timer > 0 {
            if self.thread(tid).timer == 1 {
                self.wakeup(tid)
            } else {
                PoolState {
                    threads: self.threads.update(
                        tid as int,
                        Some(
                            Thread {
                                timer: (self.thread(tid).timer - 1) as usize,
                                ..self.thread(tid)
                            },
                        ),
                    ),
                    ..self
                }
            }
        } else {
            self
        }
    }

    /// One tick for the timers of the threads `0 .. n`, in ascending order.
    pub open spec fn advance_timers(self, n: nat) -> Self
        decreases n,
    {
        if n == 0 {
            self
        } else {
            self.advance_timers((n - 1) as nat).advance_timer((n - 1) as Tid)
        }
    }

    /// The state after the timers have moved, where this tick moves them: the
    /// clock is driven by CPU 0 alone.
    pub open spec fn after_timers(self, cpu: usize) -> Self {
        if cpu == 0 {
            self.advance_timers(self.threads.len())
        } else {
            self
        }
    }

    /// A timer interrupt on `cpu`, which runs `running`: the state after, and
    /// whether the running thread should be preempted.
    pub open spec fn tick(self, cpu: usize, running: Option<Tid>) -> (Self, bool) {
        let s = self.after_timers(cpu);
        match running {
            Some(tid) => if s.status(tid) == Some(Status::Running(cpu)) {
                (PoolState { sched: s.sched.tick(cpu, tid).0, ..s }, s.sched.tick(cpu, tid).1)
            } else {
                (s, false)
            },
            None => (s, false),
        }
    }

    pub open spec fn set_priority(self, tid: Tid, priority: u8) -> Self {
        if self.has(tid) {
            PoolState { sched: self.sched.set_priority(tid, priority), ..self }
        } else {
            self
        }
    }

    pub open spec fn set_affinity(self, tid: Tid, affinity: Option<usize>) -> Self {
        if self.has(tid) {
            PoolState { sched: self.sched.set_affinity(tid, affinity), ..self }
        } else {
            self
        }
    }

    /// `tid` is a thread that has not exited and has no exit pending.
    pub open spec fn alive(self, tid: Tid) -> bool {
        self.has(tid) && !self.exited(tid)
    }

    /// The slot of `tid` is kept for somebody who knows the thread by its id.
    pub open spec fn keeps(self, tid: Tid) -> bool {
        self.has(tid) && self.thread(tid).kept
    }

    /// The slot of `tid` is kept from now on.
    pub open spec fn keep(self, tid: Tid) -> Self {
        if self.has(tid) {
            PoolState {
                threads: self.threads.update(
                    tid as int,
                    Some(Thread { kept: true, ..self.thread(tid) }),
                ),
                ..self
            }
        } else {
            self
        }
    }

    /// The slot of `tid` is no longer kept. It becomes free if the thread has
    /// exited and no handle refers to it.
    pub open spec fn unkeep(self, tid: Tid) -> Self {
        if self.has(tid) {
            let t = self.thread(tid);
            if t.status is Exited && t.handles == 0 {
                PoolState { threads: self.threads.update(tid as int, None), ..self }
            } else {
                PoolState {
                    threads: self.threads.update(tid as int, Some(Thread { kept: false, ..t })),
                    ..self
                }
            }
        } else {
            self
        }
    }

    /// A handle to `tid` can be given out.
    pub open spec fn can_acquire(self, tid: Tid) -> bool {
        self.has(tid) && self.thread(tid).handles < usize::MAX
    }

    /// One more handle to `tid`.
    pub open spec fn acquire(self, tid: Tid) -> Self {
        if self.can_acquire(tid) {
            let t = self.thread(tid);
            PoolState {
                threads: self.threads.update(
                    tid as int,
                    Some(Thread { handles: (t.handles + 1) as usize, ..t }),
                ),
                ..self
            }
        } else {
            self
        }
    }

    /// One handle to `tid` comes back. The slot of an exited thread is freed
    /// with its last handle.
    pub open spec fn release(self, tid: Tid) -> Self {
        if self.has(tid) && self.thread(tid).handles > 0 {
            let t = self.thread(tid);
            if t.handles == 1 && t.status is Exited && !t.kept {
                PoolState { threads: self.threads.update(tid as int, None), ..self }
            } else {
                PoolState {
                    threads: self.threads.update(
                        tid as int,
                        Some(Thread { handles: (t.handles - 1) as usize, ..t }),
                    ),
                    ..self
                }
            }
        } else {
            self
        }
    }
}

/// Exactly one id is the next to be given out.
pub proof fn lemma_first_free_unique<C>(s: PoolState<C>, a: Tid, b: Tid)
    requires
        s.is_first_free(a),
        s.is_first_free(b),
    ensures
        a == b,
{
    if a < b {
        assert(s.threads[a as int] is Some);
    }
    if b < a {
        assert(s.threads[b as int] is Some);
    }
}

/// `add` keeps the invariant.
pub proof fn lemma_add_inv<C>(s: PoolState<C>, tid: Tid, context: C)
    requires
        s.inv(),
        s.is_first_free(tid),
    ensures
        s.add(tid, context).inv(),
        s.add(tid, context).status(tid) == Some(Status::Ready),
{
    let r = s.add(tid, context);
    assert(!s.sched.queue.contains(tid));
    lemma_insert(s.sched, tid);
    lemma_push(s.sched.insert(tid), tid);
    assert forall|u: Tid| #[trigger]
        r.sched.queue.contains(u) <==> (r.has(u) && r.thread(u).status is Ready) by {
        if u != tid {
            assert(s.sched.queue.contains(u) <==> (s.has(u) && s.thread(u).status is Ready));
        }
    }
    assert forall|u: Tid| #[trigger] r.has(u) implies PoolState::<C>::thread_inv(r.thread(u)) by {
        if u != tid {
            assert(s.has(u));
        }
    }
}

/// `run` keeps the invariant; the thread it hands out was ready and is now
/// running on `cpu`.
pub proof fn lemma_run_inv<C>(s: PoolState<C>, cpu: usize)
    requires
        s.inv(),
    ensures
        s.run(cpu).0.inv(),
        s.run(cpu).1 matches Some((tid, _)) ==> s.status(tid) == Some(Status::Ready) && s.run(
            cpu,
        ).0.status(tid) == Some(Status::Running(cpu)),
        s.run(cpu).1 is None ==> s.run(cpu).0 == s,
{
    lemma_pop(s.sched, cpu);
    let r = s.run(cpu).0;
    match s.sched.pop(cpu).1 {
        Some(tid) => {
            assert(s.sched.queue.contains(tid));
            assert(s.has(tid));
            assert forall|u: Tid| #[trigger]
                r.sched.queue.contains(u) <==> (r.has(u) && r.thread(u).status is Ready) by {
                if u != tid {
                    assert(s.sched.queue.contains(u) <==> (s.has(u) && s.thread(u).status
                        is Ready));
                }
            }
            assert forall|u: Tid| #[trigger] r.has(u) implies PoolState::<C>::thread_inv(
                r.thread(u),
            ) by {
                assert(s.has(u));
            }
        },
        None => {},
    }
}

/// Retiring a thread that is in no queue keeps the invariant.
proof fn lemma_retire_inv<C>(s: PoolState<C>, r: PoolState<C>, tid: Tid, code: ExitCode)
    requires
        s.sched.inv(),
        s.sched.infos.len() == s.threads.len(),
        s.has(tid),
        !s.sched.queue.contains(tid),
        forall|u: Tid|
            u != tid ==> (#[trigger] s.sched.queue.contains(u) <==> (s.has(u) && s.thread(
                u,
            ).status is Ready)),
        forall|u: Tid| u != tid && #[trigger] s.has(u) ==> PoolState::<C>::thread_inv(s.thread(u)),
        r == s.retire(tid, code),
    ensures
        r.inv(),
{
    assert forall|u: Tid| #[trigger]
        r.sched.queue.contains(u) <==> (r.has(u) && r.thread(u).status is Ready) by {
        if u != tid {
            assert(s.sched.queue.contains(u) <==> (s.has(u) && s.thread(u).status is Ready));
        }
    }
    assert forall|u: Tid| #[trigger] r.has(u) implies PoolState::<C>::thread_inv(r.thread(u)) by {
        if u != tid {
            assert(s.has(u));
        }
    }
}

/// `stop` keeps the invariant.
pub proof fn lemma_stop_inv<C>(s: PoolState<C>, tid: Tid, context: C)
    requires
        s.inv(),
    ensures
        s.stop(tid, context).inv(),
{
    let r = s.stop(tid, context);
    if s.has(tid) && s.thread(tid).status is Running {
        let t = s.thread(tid);
        assert(!s.sched.queue.contains(tid));
        match t.status_after_stop {
            Status::Exited(code) => {
                lemma_retire_inv(s, r, tid, code);
            },
            Status::Sleeping => {
                assert forall|u: Tid| #[trigger]
                    r.sched.queue.contains(u) <==> (r.has(u) && r.thread(u).status is Ready) by {
                    assert(s.sched.queue.contains(u) <==> (s.has(u) && s.thread(u).status
                        is Ready));
                }
                assert forall|u: Tid| #[trigger] r.has(u) implies PoolState::<C>::thread_inv(
                    r.thread(u),
                ) by {
                    assert(s.has(u));
                }
            },
            _ => {
                lemma_push(s.sched, tid);
                assert forall|u: Tid| #[trigger]
                    r.sched.queue.contains(u) <==> (r.has(u) && r.thread(u).status is Ready) by {
                    if u != tid {
                        assert(s.sched.queue.contains(u) <==> (s.has(u) && s.thread(u).status
                            is Ready));
                    }
                }
                assert forall|u: Tid| #[trigger] r.has(u) implies PoolState::<C>::thread_inv(
                    r.thread(u),
                ) by {
                    assert(s.has(u));
                }
            },
        }
    }
}

/// `sleep` keeps the invariant.
pub proof fn lemma_sleep_inv<C>(s: PoolState<C>, tid: Tid)
    requires
        s.inv(),
    ensures
        s.sleep(tid).inv(),
        s.sleep(tid).threads.len() == s.threads.len(),
{
    let r = s.sleep(tid);
    if s.has(tid) {
        lemma_remove(s.sched, tid);
        assert forall|u: Tid| #[trigger]
            r.sched.queue.contains(u) <==> (r.has(u) && r.thread(u).status is Ready) by {
            assert(s.sched.queue.contains(u) <==> (s.has(u) && s.thread(u).status is Ready));
        }
        assert forall|u: Tid| #[trigger] r.has(u) implies PoolState::<C>::thread_inv(
            r.thread(u),
        ) by {
            assert(s.has(u));
        }
    }
}

/// `sleep_for` keeps the invariant.
pub proof fn lemma_sleep_for_inv<C>(s: PoolState<C>, tid: Tid, ticks: usize)
    requires
        s.inv(),
    ensures
        s.sleep_for(tid, ticks).inv(),
{
    lemma_sleep_inv(s, tid);
    let m = s.sleep(tid);
    let r = s.sleep_for(tid, ticks);
    assert forall|u: Tid| #[trigger]
        r.sched.queue.contains(u) <==> (r.has(u) && r.thread(u).status is Ready) by {
        assert(m.sched.queue.contains(u) <==> (m.has(u) && m.thread(u).status is Ready));
    }
    assert forall|u: Tid| #[trigger] r.has(u) implies PoolState::<C>::thread_inv(r.thread(u)) by {
        assert(m.has(u));
    }
}

/// `wakeup` keeps the invariant, whatever `tid` is.
pub proof fn lemma_wakeup_inv<C>(s: PoolState<C>, tid: Tid)
    requires
        s.inv(),
    ensures
        s.wakeup(tid).inv(),
        s.wakeup(tid).threads.len() == s.threads.len(),
{
    let r = s.wakeup(tid);
    if s.has(tid) {
        if s.thread(tid).status is Sleeping {
            assert(!s.sched.queue.contains(tid));
            lemma_push(s.sched, tid);
        }
        assert forall|u: Tid| #[trigger]
            r.sched.queue.contains(u) <==> (r.has(u) && r.thread(u).status is Ready) by {
            assert(s.sched.queue.contains(u) <==> (s.has(u) && s.thread(u).status is Ready));
        }
        assert forall|u: Tid| #[trigger] r.has(u) implies PoolState::<C>::thread_inv(
            r.thread(u),
        ) by {
            assert(s.has(u));
        }
    }
}

/// `exit` keeps the invariant, whatever `tid` is.
pub proof fn lemma_exit_inv<C>(s: PoolState<C>, tid: Tid, code: ExitCode)
    requires
        s.inv(),
    ensures
        s.exit(tid, code).inv(),
{
    let r = s.exit(tid, code);
    if s.has(tid) {
        let t = s.thread(tid);
        match t.status {
            Status::Ready => {
                lemma_remove(s.sched, tid);
                let m = PoolState { sched: s.sched.remove(tid), ..s };
                assert forall|u: Tid| u != tid implies (#[trigger] m.sched.queue.contains(u) <==> (
                m.has(u) && m.thread(u).status is Ready)) by {
                    assert(s.sched.queue.contains(u) <==> (s.has(u) && s.thread(u).status
                        is Ready));
                }
                assert forall|u: Tid| u != tid && #[trigger] m.has(u) implies PoolState::<
                    C,
                >::thread_inv(m.thread(u)) by {
                    assert(s.has(u));
                }
                lemma_retire_inv(m, r, tid, code);
            },
            Status::Sleeping => {
                assert(!s.sched.queue.contains(tid));
                lemma_retire_inv(s, r, tid, code);
            },
            Status::Running(_) => {
                assert forall|u: Tid| #[trigger]
                    r.sched.queue.contains(u) <==> (r.has(u) && r.thread(u).status is Ready) by {
                    assert(s.sched.queue.contains(u) <==> (s.has(u) && s.thread(u).status
                        is Ready));
                }
                assert forall|u: Tid| #[trigger] r.has(u) implies PoolState::<C>::thread_inv(
                    r.thread(u),
                ) by {
                    assert(s.has(u));
                }
            },
            Status::Exited(_) => {},
        }
    }
}

/// Moving one timer keeps the invariant and the size of the table.
pub proof fn lemma_advance_timer_inv<C>(s: PoolState<C>, tid: Tid)
    requires
        s.inv(),
    ensures
        s.advance_timer(tid).inv(),
        s.advance_timer(tid).threads.len() == s.threads.len(),
{
    let r = s.advance_timer(tid);
    if s.has(tid) && s.thread(tid).timer > 0 {
        if s.thread(tid).timer == 1 {
            lemma_wakeup_inv(s, tid);
        } else {
            assert forall|u: Tid| #[trigger]
                r.sched.queue.contains(u) <==> (r.has(u) && r.thread(u).status is Ready) by {
                assert(s.sched.queue.contains(u) <==> (s.has(u) && s.thread(u).status is Ready));
            }
            assert forall|u: Tid| #[trigger] r.has(u) implies PoolState::<C>::thread_inv(
                r.thread(u),
            ) by {
                assert(s.has(u));
            }
        }
    }
}

/// Moving the timers keeps the invariant and the size of the table.
pub proof fn lemma_advance_timers_inv<C>(s: PoolState<C>, n: nat)
    requires
        s.inv(),
    ensures
        s.advance_timers(n).inv(),
        s.advance_timers(n).threads.len() == s.threads.len(),
    decreases n,
{
    if n > 0 {
        lemma_advance_timers_inv(s, (n - 1) as nat);
        lemma_advance_timer_inv(s.advance_timers((n - 1) as nat), (n - 1) as Tid);
    }
}

/// `tick` keeps the invariant.
pub proof fn lemma_tick_inv<C>(s: PoolState<C>, cpu: usize, running: Option<Tid>)
    requires
        s.inv(),
    ensures
        s.tick(cpu, running).0.inv(),
{
    lemma_advance_timers_inv(s, s.threads.len());
    let m = s.after_timers(cpu);
    let r = s.tick(cpu, running).0;
    match running {
        Some(tid) => {
            lemma_tick(m.sched, cpu, tid);
            assert forall|u: Tid| #[trigger]
                r.sched.queue.contains(u) <==> (r.has(u) && r.thread(u).status is Ready) by {
                assert(m.sched.queue.contains(u) <==> (m.has(u) && m.thread(u).status is Ready));
            }
            assert forall|u: Tid| #[trigger] r.has(u) implies PoolState::<C>::thread_inv(
                r.thread(u),
            ) by {
                assert(m.has(u));
            }
        },
        None => {},
    }
}

/// Handing out a handle keeps the invariant.
pub proof fn lemma_acquire_inv<C>(s: PoolState<C>, tid: Tid)
    requires
        s.inv(),
    ensures
        s.acquire(tid).inv(),
{
    let r = s.acquire(tid);
    assert forall|u: Tid| #[trigger]
        r.sched.queue.contains(u) <==> (r.has(u) && r.thread(u).status is Ready) by {
        assert(s.sched.queue.contains(u) <==> (s.has(u) && s.thread(u).status is Ready));
    }
    assert forall|u: Tid| #[trigger] r.has(u) implies PoolState::<C>::thread_inv(r.thread(u)) by {
        assert(s.has(u));
    }
}

/// Taking a handle back keeps the invariant.
pub proof fn lemma_release_inv<C>(s: PoolState<C>, tid: Tid)
    requires
        s.inv(),
    ensures
        s.release(tid).inv(),
{
    let r = s.release(tid);
    assert forall|u: Tid| #[trigger]
        r.sched.queue.contains(u) <==> (r.has(u) && r.thread(u).status is Ready) by {
        assert(s.sched.queue.contains(u) <==> (s.has(u) && s.thread(u).status is Ready));
    }
    assert forall|u: Tid| #[trigger] r.has(u) implies PoolState::<C>::thread_inv(r.thread(u)) by {
        if r.has(u) {
            assert(s.has(u));
        }
    }
}

/// Keeping a slot, and keeping it no longer, keep the invariant.
pub proof fn lemma_keep_inv<C>(s: PoolState<C>, tid: Tid)
    requires
        s.inv(),
    ensures
        s.keep(tid).inv(),
        s.unkeep(tid).inv(),
{
    let r = s.keep(tid);
    assert forall|u: Tid| #[trigger]
        r.sched.queue.contains(u) <==> (r.has(u) && r.thread(u).status is Ready) by {
        assert(s.sched.queue.contains(u) <==> (s.has(u) && s.thread(u).status is Ready));
    }
    assert forall|u: Tid| #[trigger] r.has(u) implies PoolState::<C>::thread_inv(r.thread(u)) by {
        assert(s.has(u));
    }
    let q = s.unkeep(tid);
    assert forall|u: Tid| #[trigger]
        q.sched.queue.contains(u) <==> (q.has(u) && q.thread(u).status is Ready) by {
        assert(s.sched.queue.contains(u) <==> (s.has(u) && s.thread(u).status is Ready));
    }
    assert forall|u: Tid| #[trigger] q.has(u) implies PoolState::<C>::thread_inv(q.thread(u)) by {
        assert(s.has(u));
    }
}

/// A slot that is kept stays kept, whatever else is done to the pool: only
/// `unkeep` of that slot ends it.
pub proof fn lemma_kept_slot_stays<C>(
    s: PoolState<C>,
    t: Tid,
    tid: Tid,
    code: ExitCode,
    ticks: usize,
    priority: u8,
    context: C,
)
    requires
        s.keeps(t),
    ensures
        s.exit(tid, code).keeps(t),
        s.wakeup(tid).keeps(t),
        s.sleep(tid).keeps(t),
        s.sleep_for(tid, ticks).keeps(t),
        s.acquire(tid).keeps(t),
        s.release(tid).keeps(t),
        s.keep(tid).keeps(t),
        s.set_priority(tid, priority).keeps(t),
        tid != t ==> s.unkeep(tid).keeps(t),
        s.is_first_free(tid) ==> s.add(tid, context).keeps(t),
{
}

/// A thread stays alive, whatever else is done to the pool: only its own
/// exit ends it.
pub proof fn lemma_alive_stays<C>(
    s: PoolState<C>,
    t: Tid,
    tid: Tid,
    code: ExitCode,
    ticks: usize,
    priority: u8,
    context: C,
)
    requires
        s.inv(),
        s.alive(t),
    ensures
        tid != t ==> s.exit(tid, code).alive(t),
        s.wakeup(tid).alive(t),
        s.sleep(tid).alive(t),
        s.sleep_for(tid, ticks).alive(t),
        s.acquire(tid).alive(t),
        s.release(tid).alive(t),
        s.keep(tid).alive(t),
        s.unkeep(tid).alive(t),
        s.set_priority(tid, priority).alive(t),
        s.is_first_free(tid) ==> s.add(tid, context).alive(t) && s.add(tid, context).alive(tid),
{
    assert(PoolState::<C>::thread_inv(s.thread(t)));
    if s.has(tid) {
        assert(PoolState::<C>::thread_inv(s.thread(tid)));
    }
}

/// Changing a priority or an affinity keeps the invariant.
pub proof fn lemma_set_inv<C>(s: PoolState<C>, tid: Tid, priority: u8, affinity: Option<usize>)
    requires
        s.inv(),
    ensures
        s.set_priority(tid, priority).inv(),
        s.set_affinity(tid, affinity).inv(),
{
    let r = s.set_priority(tid, priority);
    assert(r.sched.queue == s.sched.queue);
    assert(r.sched.infos.len() == s.sched.infos.len());
    assert forall|i: int| 0 <= i < r.sched.queue.len() implies #[trigger] r.sched.queue[i]
        < r.sched.infos.len() by {
        assert(s.sched.queue[i] < s.sched.infos.len());
    }
    assert forall|u: Tid| #[trigger]
        r.sched.queue.contains(u) <==> (r.has(u) && r.thread(u).status is Ready) by {
        assert(s.sched.queue.contains(u) <==> (s.has(u) && s.thread(u).status is Ready));
    }
    assert forall|u: Tid| #[trigger] r.has(u) implies PoolState::<C>::thread_inv(r.thread(u)) by {
        assert(s.has(u));
    }
    let q = s.set_affinity(tid, affinity);
    assert(q.sched.queue == s.sched.queue);
    assert(q.sched.infos.len() == s.sched.infos.len());
    assert forall|i: int| 0 <= i < q.sched.queue.len() implies #[trigger] q.sched.queue[i]
        < q.sched.infos.len() by {
        assert(s.sched.queue[i] < s.sched.infos.len());
    }
    assert forall|u: Tid| #[trigger]
        q.sched.queue.contains(u) <==> (q.has(u) && q.thread(u).status is Ready) by {
        assert(s.sched.queue.contains(u) <==> (s.has(u) && s.thread(u).status is Ready));
    }
    assert forall|u: Tid| #[trigger] q.has(u) implies PoolState::<C>::thread_inv(q.thread(u)) by {
        assert(s.has(u));
    }
}

/// The thread pool.
pub struct ThreadPool<C> {
    threads: Vec<Option<Thread<C>>>,
    scheduler: Scheduler,
}

impl<C> ThreadPool<C> {
    pub closed spec fn view(&self) -> PoolState<C> {
        PoolState { threads: self.threads@, sched: self.scheduler@ }
    }

    /// The pool is in a reachable state.
    pub open spec fn wf(&self) -> bool {
        self@.inv()
    }

    /// An empty pool whose scheduler hands out slices of `max_time_slice` ticks.
    pub fn new(max_time_slice: usize) -> (r: Self)
        requires
            max_time_slice > 0,
        ensures
            r.wf(),
            r@.threads.len() == 0,
            r@.sched.queue.len() == 0,
            r@.sched.max_slice == max_time_slice,
    {
        let r = ThreadPool { threads: Vec::new(), scheduler: Scheduler::new(max_time_slice) };
        assert forall|tid: Tid| #[trigger]
            r@.sched.queue.contains(tid) <==> (r@.has(tid) && r@.thread(tid).status is Ready) by {}
        r
    }

    /// Adds a new thread, ready to run, with priority 0 and no affinity, and
    /// returns its id: the lowest free one.
    pub fn add(&mut self, context: C) -> (tid: Tid)
        requires
            old(self).wf(),
        ensures
            old(self)@.is_first_free(tid),
            final(self)@ == old(self)@.add(tid, context),
            final(self).wf(),
    {
        let mut tid: usize = 0;
        while tid < self.threads.len() && self.threads[tid].is_some()
            invariant
                self@ == old(self)@,
                tid <= self.threads.len(),
                forall|j: int| 0 <= j < tid ==> self.threads@[j] is Some,
            decreases self.threads.len() - tid,
        {
            tid += 1;
        }
        proof {
            lemma_add_inv(self@, tid, context);
            assert(!self@.sched.queue.contains(tid));
        }
        let t = Thread {
            status: Status::Ready,
            status_after_stop: Status::Ready,
            context: Some(context),
            handles: 0,
            timer: 0,
            kept: false,
        };
        if tid < self.threads.len() {
            self.threads[tid] = Some(t);
        } else {
            self.threads.push(Some(t));
        }
        proof {
            lemma_insert(old(self)@.sched, tid);
        }
        self.scheduler.insert(tid);
        self.scheduler.push(tid);
        tid
    }

    /// Takes the next thread for `cpu_id`: marks it running there and hands out
    /// its context. `None` when that CPU may take none of the ready threads.
    pub fn run(&mut self, cpu_id: usize) -> (r: Option<(Tid, C)>)
        requires
            old(self).wf(),
        ensures
            final(self)@ == old(self)@.run(cpu_id).0,
            r == old(self)@.run(cpu_id).1,
            final(self).wf(),
    {
        proof {
            lemma_run_inv(self@, cpu_id);
            lemma_pop(self@.sched, cpu_id);
        }
        match self.scheduler.pop(cpu_id) {
            Some(tid) => {
                assert(old(self)@.sched.queue.contains(tid));
                assert(old(self)@.has(tid));
                match &mut self.threads[tid] {
                    Some(t) => {
                        t.status = Status::Running(cpu_id);
                        match t.context.take() {
                            Some(context) => Some((tid, context)),
                            None => None,
                        }
                    },
                    None => None,
                }
            },
            None => None,
        }
    }

    /// Ends a thread that is in no queue.
    fn retire(&mut self, tid: Tid, code: ExitCode)
        requires
            old(self)@.has(tid),
        ensures
            final(self)@ == old(self)@.retire(tid, code),
    {
        let free = match &self.threads[tid] {
            Some(t) => t.handles == 0 && !t.kept,
            None => false,
        };
        if free {
            self.threads[tid] = None;
        } else {
            match &mut self.threads[tid] {
                Some(t) => {
                    t.status = Status::Exited(code);
                    t.status_after_stop = Status::Ready;
                    t.context = None;
                    t.timer = 0;
                },
                None => {},
            }
        }
    }

    /// A processor hands back the thread it ran. The thread becomes ready
    /// again, unless it was parked or has exited while it ran: then it is
    /// asleep, or gone. A `tid` that is not running is ignored.
    pub fn stop(&mut self, tid: Tid, context: C)
        requires
            old(self).wf(),
        ensures
            final(self)@ == old(self)@.stop(tid, context),
            final(self).wf(),
    {
        proof {
            lemma_stop_inv(self@, tid, context);
        }
        if tid >= self.threads.len() {
            return ;
        }
        let next = match &self.threads[tid] {
            Some(t) => match t.status {
                Status::Running(_) => t.status_after_stop,
                _ => {
                    return ;
                },
            },
            None => {
                return ;
            },
        };
        match next {
            Status::Exited(code) => {
                self.retire(tid, code);
            },
            Status::Sleeping => {
                match &mut self.threads[tid] {
                    Some(t) => {
                        t.status = Status::Sleeping;
                        t.status_after_stop = Status::Ready;
                        t.context = Some(context);
                    },
                    None => {},
                }
            },
            _ => {
                match &mut self.threads[tid] {
                    Some(t) => {
                        t.status = Status::Ready;
                        t.status_after_stop = Status::Ready;
                        t.context = Some(context);
                    },
                    None => {},
                }
                assert(!old(self)@.sched.queue.contains(tid));
                self.scheduler.push(tid);
            },
        }
    }

    /// Parks `tid`. The caller, if it is that thread, must then give up its
    /// CPU. An unknown or exited thread is left alone.
    pub fn sleep(&mut self, tid: Tid)
        requires
            old(self).wf(),
        ensures
            final(self)@ == old(self)@.sleep(tid),
            final(self).wf(),
    {
        proof {
            lemma_sleep_inv(self@, tid);
        }
        if tid >= self.threads.len() {
            return ;
        }
        match &mut self.threads[tid] {
            Some(t) => {
                match t.status {
                    Status::Ready => {
                        t.status = Status::Sleeping;
                        self.scheduler.remove(tid);
                    },
                    Status::Running(_) => {
                        match t.status_after_stop {
                            Status::Ready => {
                                t.status_after_stop = Status::Sleeping;
                            },
                            _ => {},
                        }
                    },
                    _ => {},
                }
            },
            None => {},
        }
    }

    /// Parks `tid` for `ticks` timer ticks; with `ticks == 0`, until it is
    /// woken.
    pub fn sleep_for(&mut self, tid: Tid, ticks: usize)
        requires
            old(self).wf(),
        ensures
            final(self)@ == old(self)@.sleep_for(tid, ticks),
            final(self).wf(),
    {
        proof {
            lemma_sleep_for_inv(self@, tid, ticks);
        }
        self.sleep(tid);
        if ticks == 0 || tid >= self.threads.len() {
            return ;
        }
        match &mut self.threads[tid] {
            Some(t) => {
                let parked = match t.status {
                    Status::Sleeping => true,
                    Status::Running(_) => match t.status_after_stop {
                        Status::Sleeping => true,
                        _ => false,
                    },
                    _ => false,
                };
                if parked {
                    t.timer = ticks;
                }
            },
            None => {},
        }
    }

    /// Wakes `tid` if it is parked: a sleeping thread becomes ready, and a
    /// sleep that is still pending is called off. In every other state, and for
    /// an unknown id, nothing changes.
    pub fn wakeup(&mut self, tid: Tid)
        requires
            old(self).wf(),
        ensures
            final(self)@ == old(self)@.wakeup(tid),
            final(self).wf(),
    {
        proof {
            lemma_wakeup_inv(self@, tid);
        }
        if tid >= self.threads.len() {
            return ;
        }
        match &mut self.threads[tid] {
            Some(t) => {
                match t.status {
                    Status::Sleeping => {
                        t.status = Status::Ready;
                        t.timer = 0;
                        assert(!old(self)@.sched.queue.contains(tid));
                        self.scheduler.push(tid);
                    },
                    Status::Running(_) => {
                        match t.status_after_stop {
                            Status::Sleeping => {
                                t.status_after_stop = Status::Ready;
                                t.timer = 0;
                            },
                            _ => {},
                        }
                    },
                    _ => {},
                }
            },
            None => {},
        }
    }

    /// Ends `tid` with `code`. Exiting a thread that has exited, or an unknown
    /// one, changes nothing.
    pub fn exit(&mut self, tid: Tid, code: ExitCode)
        requires
            old(self).wf(),
        ensures
            final(self)@ == old(self)@.exit(tid, code),
            final(self).wf(),
    {
        proof {
            lemma_exit_inv(self@, tid, code);
        }
        if tid >= self.threads.len() {
            return ;
        }
        let status = match &self.threads[tid] {
            Some(t) => t.status,
            None => {
                return ;
            },
        };
        match status {
            Status::Ready => {
                self.scheduler.remove(tid);
                self.retire(tid, code);
            },
            Status::Sleeping => {
                self.retire(tid, code);
            },
            Status::Running(_) => {
                match &mut self.threads[tid] {
                    Some(t) => {
                        match t.status_after_stop {
                            Status::Exited(_) => {},
                            _ => {
                                t.status_after_stop = Status::Exited(code);
                                t.timer = 0;
                            },
                        }
                    },
                    None => {},
                }
            },
            Status::Exited(_) => {},
        }
    }

    /// Moves the timer of one thread by a tick.
    fn advance_timer(&mut self, tid: Tid)
        requires
            old(self).wf(),
            tid < old(self)@.threads.len(),
        ensures
            final(self)@ == old(self)@.advance_timer(tid),
            final(self).wf(),
    {
        proof {
            lemma_advance_timer_inv(self@, tid);
        }
        let timer = match &self.threads[tid] {
            Some(t) => t.timer,
            None => 0,
        };
        if timer == 1 {
            self.wakeup(tid);
        } else if timer > 1 {
            match &mut self.threads[tid] {
                Some(t) => {
                    t.timer = timer - 1;
                },
                None => {},
            }
        }
    }

    /// A timer interrupt on `cpu_id`, which runs `tid` (`None` when idle). On
    /// CPU 0 the timers of the sleeping threads move first and those that run
    /// out wake their threads. Then the running thread is charged one tick.
    /// Returns whether it should be preempted.
    pub fn tick(&mut self, cpu_id: usize, tid: Option<Tid>) -> (r: bool)
        requires
            old(self).wf(),
        ensures
            final(self)@ == old(self)@.tick(cpu_id, tid).0,
            r == old(self)@.tick(cpu_id, tid).1,
            final(self).wf(),
    {
        proof {
            lemma_tick_inv(self@, cpu_id, tid);
        }
        if cpu_id == 0 {
            let n = self.threads.len();
            let mut i: usize = 0;
            while i < n
                invariant
                    self.wf(),
                    i <= n,
                    n == old(self)@.threads.len(),
                    self@.threads.len() == n,
                    self@ == old(self)@.advance_timers(i as nat),
                decreases n - i,
            {
                proof {
                    lemma_advance_timer_inv(self@, i);
                }
                self.advance_timer(i);
                i += 1;
            }
        }
        match tid {
            Some(tid) => {
                let running_here = if tid < self.threads.len() {
                    match &self.threads[tid] {
                        Some(t) => match t.status {
                            Status::Running(c) => c == cpu_id,
                            _ => false,
                        },
                        None => false,
                    }
                } else {
                    false
                };
                if running_here {
                    self.scheduler.tick(cpu_id, tid)
                } else {
                    false
                }
            },
            None => false,
        }
    }

    /// Sets the priority of `tid`; a larger value is served first.
    pub fn set_priority(&mut self, tid: Tid, priority: u8)
        requires
            old(self).wf(),
        ensures
            final(self)@ == old(self)@.set_priority(tid, priority),
            final(self).wf(),
    {
        proof {
            lemma_set_inv(self@, tid, priority, None);
        }
        if tid < self.threads.len() && self.threads[tid].is_some() {
            self.scheduler.set_priority(tid, priority);
        }
    }

    /// Binds `tid` to one CPU, or with `None` to none.
    pub fn set_affinity(&mut self, tid: Tid, affinity: Option<usize>)
        requires
            old(self).wf(),
        ensures
            final(self)@ == old(self)@.set_affinity(tid, affinity),
            final(self).wf(),
    {
        proof {
            lemma_set_inv(self@, tid, 0, affinity);
        }
        if tid < self.threads.len() && self.threads[tid].is_some() {
            self.scheduler.set_affinity(tid, affinity);
        }
    }

    /// Status of `tid`; `None` for an id that no thread has.
    pub fn get_status(&self, tid: Tid) -> (r: Option<Status>)
        ensures
            r == self@.status(tid),
    {
        if tid < self.threads.len() {
            match &self.threads[tid] {
                Some(t) => Some(t.status),
                None => None,
            }
        } else {
            None
        }
    }

    /// Gives out a handle to `tid`. `None` for an id that no thread has.
    pub fn acquire(&mut self, tid: Tid) -> (r: Option<ThreadHandle>)
        requires
            old(self).wf(),
        ensures
            final(self)@ == old(self)@.acquire(tid),
            r is Some <==> old(self)@.can_acquire(tid),
            r is Some ==> r->0.tid() == tid,
            final(self).wf(),
    {
        proof {
            lemma_acquire_inv(self@, tid);
        }
        if tid >= self.threads.len() {
            return None;
        }
        let given = match &mut self.threads[tid] {
            Some(t) => {
                if t.handles < usize::MAX {
                    t.handles = t.handles + 1;
                    true
                } else {
                    false
                }
            },
            None => false,
        };
        assert(self@ == old(self)@.acquire(tid));
        if given {
            Some(ThreadHandle { tid })
        } else {
            None
        }
    }

    /// Wakes the thread that `handle` refers to if it is parked. This is safe
    /// whatever has become of the thread: for one that runs, is ready, has
    /// exited or is gone, nothing changes.
    pub fn unpark(&mut self, handle: &ThreadHandle)
        requires
            old(self).wf(),
        ensures
            final(self)@ == old(self)@.wakeup(handle.tid()),
            final(self).wf(),
    {
        self.wakeup(handle.tid);
    }

    /// Takes a handle back. With the last handle of an exited thread its slot
    /// becomes free.
    pub fn release(&mut self, handle: ThreadHandle)
        requires
            old(self).wf(),
        ensures
            final(self)@ == old(self)@.release(handle.tid()),
            final(self).wf(),
    {
        let tid = handle.tid;
        proof {
            lemma_release_inv(self@, tid);
        }
        if tid >= self.threads.len() {
            return ;
        }
        let last_of_exited = match &self.threads[tid] {
            Some(t) => match t.status {
                Status::Exited(_) => t.handles == 1 && !t.kept,
                _ => false,
            },
            None => false,
        };
        if last_of_exited {
            self.threads[tid] = None;
        } else {
            match &mut self.threads[tid] {
                Some(t) => {
                    if t.handles > 0 {
                        t.handles = t.handles - 1;
                    }
                },
                None => {},
            }
        }
    }

    /// Number of slots of the table, free ones included.
    pub fn slots(&self) -> (r: usize)
        ensures
            r == self@.threads.len(),
    {
        self.threads.len()
    }

    /// The id that the next new thread gets.
    pub fn next_tid(&self) -> (tid: Tid)
        ensures
            self@.is_first_free(tid),
    {
        let mut tid: usize = 0;
        while tid < self.threads.len() && self.threads[tid].is_some()
            invariant
                tid <= self.threads.len(),
                forall|j: int| 0 <= j < tid ==> self.threads@[j] is Some,
            decreases self.threads.len() - tid,
        {
            tid += 1;
        }
        tid
    }

    /// Keeps the slot of `tid` for somebody who knows the thread by its id:
    /// the id is not given to a new thread until `unkeep`, though the thread
    /// may exit and its handles come back.
    pub fn keep(&mut self, tid: Tid)
        requires
            old(self).wf(),
        ensures
            final(self)@ == old(self)@.keep(tid),
            final(self).wf(),
    {
        proof {
            lemma_keep_inv(self@, tid);
        }
        if tid < self.threads.len() {
            match &mut self.threads[tid] {
                Some(t) => {
                    t.kept = true;
                },
                None => {},
            }
        }
    }

    /// Keeps the slot of `tid` no longer. If the thread has exited and no
    /// handle refers to it, the slot becomes free.
    pub fn unkeep(&mut self, tid: Tid)
        requires
            old(self).wf(),
        ensures
            final(self)@ == old(self)@.unkeep(tid),
            final(self).wf(),
    {
        proof {
            lemma_keep_inv(self@, tid);
        }
        if tid >= self.threads.len() {
            return ;
        }
        let free = match &self.threads[tid] {
            Some(t) => match t.status {
                Status::Exited(_) => t.handles == 0,
                _ => false,
            },
            None => false,
        };
        if free {
            self.threads[tid] = None;
        } else {
            match &mut self.threads[tid] {
                Some(t) => {
                    t.kept = false;
                },
                None => {},
            }
        }
        assert(self@ == old(self)@.unkeep(tid));
    }

    /// Is the slot of `tid` kept?
    pub fn is_kept(&self, tid: Tid) -> (r: bool)
        ensures
            r == self@.keeps(tid),
    {
        if tid < self.threads.len() {
            match &self.threads[tid] {
                Some(t) => t.kept,
                None => false,
            }
        } else {
            false
        }
    }

    /// Priority of `tid`; `None` for an id that no thread has.
    pub fn priority(&self, tid: Tid) -> (r: Option<u8>)
        requires
            self.wf(),
        ensures
            r == (if self@.has(tid) {
                Some(self@.sched.priority(tid))
            } else {
                None
            }),
    {
        if tid < self.threads.len() && self.threads[tid].is_some() {
            self.scheduler.priority(tid)
        } else {
            None
        }
    }

    /// Number of threads that wait in the ready queue.
    pub fn ready_count(&self) -> (r: usize)
        ensures
            r == self@.sched.queue.len(),
    {
        self.scheduler.ready_count()
    }
}

} // verus!
