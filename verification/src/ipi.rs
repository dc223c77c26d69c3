//! Calling a function on every CPU. A call is queued on each CPU's list of
//! pending events; the caller then sends each CPU an interrupt, and each CPU
//! runs what is queued for it, oldest first. A caller that asked to wait is
//! parked on a semaphore that every CPU releases once when it has run the
//! function.

use crate::condvar::{notified_one, waited};
use crate::process::{first_free, grow, is_first_free_slot, put};
use crate::scheduler::Tid;
use crate::semaphore::{Acquire, Semaphore};
use crate::thread_pool::{PoolState, ThreadPool};
use vstd::prelude::*;

verus! {

/// One pending call on a CPU.
pub struct InvokeEvent<E> {
    /// What to call, with its argument.
    pub event: E,
    /// The broadcast the call belongs to.
    pub broadcast: usize,
}

/// How far a caller is with waiting for its broadcast.
#[derive(Clone, Copy, Debug, PartialEq, Eq, Structural)]
pub enum IpiWait {
    /// Every CPU has run the function, or the caller did not ask to wait.
    Done,
    /// Some CPU has not run it yet. The caller is parked: it gives up the CPU
    /// and asks again when it is resumed.
    Parked,
    /// Some CPU has not run it yet and the caller could not be queued: it asks
    /// again.
    Retry,
}

/// Mathematical state of one broadcast.
#[verifier::ext_equal]
pub ghost struct BroadcastState {
    /// Number of CPUs that were asked to run the function.
    pub targets: nat,
    /// The caller waits for them.
    pub wait: bool,
    /// Number of CPUs whose completion the caller has taken note of.
    pub acquired: nat,
    /// Number of CPUs that have run the function.
    pub done: nat,
    /// The threads parked on this broadcast, oldest first.
    pub waiters: Seq<Tid>,
}

impl BroadcastState {
    pub open spec fn inv(self) -> bool {
        self.acquired <= self.done <= self.targets <= usize::MAX
    }

    /// One more completion can be counted.
    pub open spec fn can_complete(self) -> bool {
        self.done < self.targets && self.done - self.acquired < isize::MAX
    }

    /// Nothing more will happen to the broadcast: all CPUs have run the function
    /// and a caller that waits has seen it.
    pub open spec fn finished(self) -> bool {
        self.done == self.targets && (!self.wait || self.acquired == self.targets)
    }

    /// A CPU has run the function.
    pub open spec fn completed<C>(self, pool: PoolState<C>) -> (BroadcastState, PoolState<C>) {
        if self.can_complete() {
            (
                BroadcastState {
                    done: self.done + 1,
                    waiters: notified_one(self.waiters, pool).0,
                    ..self
                },
                notified_one(self.waiters, pool).1,
            )
        } else {
            (self, pool)
        }
    }

    /// The caller `tid` waits: it takes note of every completion that it has
    /// not seen yet and, if that is not all of them, is parked.
    pub open spec fn waited<C>(self, pool: PoolState<C>, tid: Tid) -> (
        BroadcastState,
        PoolState<C>,
        IpiWait,
    ) {
        if !self.wait {
            (self, pool, IpiWait::Done)
        } else if self.done == self.targets {
            (BroadcastState { acquired: self.targets, ..self }, pool, IpiWait::Done)
        } else {
            (
                BroadcastState {
                    acquired: self.done,
                    waiters: waited(self.waiters, pool, tid).0,
                    ..self
                },
                waited(self.waiters, pool, tid).1,
                if pool.can_acquire(tid) {
                    IpiWait::Parked
                } else {
                    IpiWait::Retry
                },
            )
        }
    }
}

/// Mathematical state of the bus.
#[verifier::ext_equal]
pub ghost struct IpiState<E> {
    /// The pending events of each CPU, oldest first.
    pub queues: Seq<Seq<InvokeEvent<E>>>,
    /// The broadcasts that are under way, by id.
    pub broadcasts: Seq<Option<BroadcastState>>,
}

impl<E> IpiState<E> {
    pub open spec fn inv(self) -> bool {
        forall|id: int|
            0 <= id < self.broadcasts.len() && (#[trigger] self.broadcasts[id]) is Some
                ==> self.broadcasts[id]->0.inv()
    }

    pub open spec fn has_broadcast(self, id: usize) -> bool {
        id < self.broadcasts.len() && self.broadcasts[id as int] is Some
    }

    /// A new broadcast `id` of `event` to all CPUs.
    pub open spec fn invoked(self, id: usize, event: E, wait: bool) -> Self {
        IpiState {
            queues: Seq::new(
                self.queues.len(),
                |cpu: int| self.queues[cpu].push(InvokeEvent { event, broadcast: id }),
            ),
            broadcasts: put(
                self.broadcasts,
                id,
                BroadcastState {
                    targets: self.queues.len(),
                    wait,
                    acquired: 0,
                    done: 0,
                    waiters: Seq::empty(),
                },
            ),
        }
    }

    /// The broadcasts with `id` set to `b`, or dropped if `b` is finished.
    pub open spec fn settled(self, id: usize, b: BroadcastState) -> Seq<Option<BroadcastState>> {
        self.broadcasts.update(
            id as int,
            if b.finished() {
                None
            } else {
                Some(b)
            },
        )
    }
}

struct Broadcast {
    sem: Semaphore,
    targets: usize,
    wait: bool,
    acquired: usize,
    done: usize,
}

impl Broadcast {
    spec fn view(&self) -> BroadcastState {
        BroadcastState {
            targets: self.targets as nat,
            wait: self.wait,
            acquired: self.acquired as nat,
            done: self.done as nat,
            waiters: self.sem.waiters(),
        }
    }

    spec fn wf(&self) -> bool {
        &&& self@.inv()
        &&& self.sem.count() == self.done - self.acquired
    }
}

spec fn slot_view(slot: Option<Broadcast>) -> Option<BroadcastState> {
    match slot {
        Some(b) => Some(b@),
        None => None,
    }
}

/// The pending events of all CPUs and the broadcasts under way.
pub struct IpiBus<E> {
    queues: Vec<Vec<InvokeEvent<E>>>,
    broadcasts: Vec<Option<Broadcast>>,
}

impl<E: Copy> IpiBus<E> {
    pub closed spec fn view(&self) -> IpiState<E> {
        IpiState {
            queues: Seq::new(self.queues@.len(), |cpu: int| self.queues@[cpu]@),
            broadcasts: Seq::new(self.broadcasts@.len(), |id: int| slot_view(self.broadcasts@[id])),
        }
    }

    pub closed spec fn wf(&self) -> bool {
        forall|id: int|
            0 <= id < self.broadcasts@.len() && (#[trigger] self.broadcasts@[id]) is Some
                ==> self.broadcasts@[id]->0.wf()
    }

    /// A well-formed bus is in a reachable state.
    pub proof fn lemma_wf(&self)
        requires
            self.wf(),
        ensures
            self@.inv(),
    {
        assert forall|id: int|
            0 <= id < self@.broadcasts.len() && (#[trigger] self@.broadcasts[id]) is Some implies self@.broadcasts[id]->0.inv() by {
            assert(self.broadcasts@[id] is Some);
        }
    }

    /// A bus for `cpu_count` CPUs with nothing pending.
    pub fn new(cpu_count: usize) -> (r: Self)
        ensures
            r.wf(),
            r@.queues.len() == cpu_count,
            forall|cpu: int| 0 <= cpu < cpu_count ==> (#[trigger] r@.queues[cpu]).len() == 0,
            r@.broadcasts.len() == 0,
    {
        let mut queues: Vec<Vec<InvokeEvent<E>>> = Vec::new();
        while queues.len() < cpu_count
            invariant
                queues@.len() <= cpu_count,
                forall|cpu: int| 0 <= cpu < queues@.len() ==> (#[trigger] queues@[cpu])@.len() == 0,
            decreases cpu_count - queues@.len(),
        {
            queues.push(Vec::new());
        }
        IpiBus { queues, broadcasts: Vec::new() }
    }

    /// Number of CPUs.
    pub fn cpu_count(&self) -> (r: usize)
        ensures
            r == self@.queues.len(),
    {
        self.queues.len()
    }

    /// Queues `event` on every CPU and returns the id of the broadcast: the
    /// lowest free one. The caller then sends every CPU the interrupt that makes
    /// it look at its queue and, if it asked to `wait`, calls `wait` with the
    /// id.
    pub fn invoke_on_allcpu(&mut self, event: E, wait: bool) -> (id: usize)
        requires
            old(self).wf(),
        ensures
            is_first_free_slot(old(self)@.broadcasts, id),
            final(self)@ == old(self)@.invoked(id, event, wait),
            final(self).wf(),
    {
        let id = first_free(&self.broadcasts);
        let ghost s = self@;
        proof {
            assert forall|j: int| 0 <= j < id implies s.broadcasts[j] is Some by {
                assert(self.broadcasts@[j] is Some);
            }
        }
        let n = self.queues.len();
        let mut cpu: usize = 0;
        while cpu < n
            invariant
                cpu <= n,
                n == s.queues.len(),
                self.queues@.len() == n,
                self.broadcasts == old(self).broadcasts,
                s == old(self)@,
                forall|k: int|
                    0 <= k < cpu ==> (#[trigger] self.queues@[k])@ == s.queues[k].push(
                        InvokeEvent { event, broadcast: id },
                    ),
                forall|k: int| cpu <= k < n ==> (#[trigger] self.queues@[k])@ == s.queues[k],
            decreases n - cpu,
        {
            self.queues[cpu].push(InvokeEvent { event, broadcast: id });
            cpu += 1;
        }
        grow(&mut self.broadcasts, id);
        self.broadcasts[id] = Some(
            Broadcast { sem: Semaphore::new(0), targets: n, wait, acquired: 0, done: 0 },
        );
        proof {
            let b = BroadcastState {
                targets: n as nat,
                wait,
                acquired: 0,
                done: 0,
                waiters: Seq::empty(),
            };
            assert(self@.broadcasts == put(s.broadcasts, id, b));
            assert(self@.queues == s.invoked(id, event, wait).queues);
            assert forall|k: int|
                0 <= k < self.broadcasts@.len() && (#[trigger] self.broadcasts@[k])
                    is Some implies self.broadcasts@[k]->0.wf() by {
                if k != id {
                    assert(k < old(self).broadcasts@.len());
                    assert(old(self).broadcasts@[k] is Some);
                }
            }
        }
        id
    }

    /// Takes the oldest pending event of `cpu` off its queue. The CPU runs it
    /// and then reports with `done`.
    pub fn next_event(&mut self, cpu: usize) -> (r: Option<InvokeEvent<E>>)
        requires
            old(self).wf(),
        ensures
            final(self).wf(),
            final(self)@.broadcasts == old(self)@.broadcasts,
            cpu < old(self)@.queues.len() && old(self)@.queues[cpu as int].len() > 0 ==> {
                &&& r == Some(old(self)@.queues[cpu as int][0])
                &&& final(self)@.queues == old(self)@.queues.update(
                    cpu as int,
                    old(self)@.queues[cpu as int].remove(0),
                )
            },
            !(cpu < old(self)@.queues.len() && old(self)@.queues[cpu as int].len() > 0) ==> {
                &&& r is None
                &&& final(self)@.queues == old(self)@.queues
            },
    {
        if cpu < self.queues.len() && self.queues[cpu].len() > 0 {
            let item = self.queues[cpu].remove(0);
            assert(self@.queues == old(self)@.queues.update(
                cpu as int,
                old(self)@.queues[cpu as int].remove(0),
            ));
            Some(item)
        } else {
            None
        }
    }

    /// A CPU has run an event of broadcast `id`: the semaphore of the broadcast
    /// is released once, which wakes the caller if it is parked there. Reports
    /// beyond the number of CPUs, or for an unknown id, are ignored.
    pub fn done<C>(&mut self, pool: &mut ThreadPool<C>, id: usize)
        requires
            old(self).wf(),
            old(pool).wf(),
        ensures
            final(self)@.queues == old(self)@.queues,
            old(self)@.has_broadcast(id) ==> {
                &&& final(self)@.broadcasts == old(self)@.settled(
                    id,
                    old(self)@.broadcasts[id as int]->0.completed(old(pool)@).0,
                )
                &&& final(pool)@ == old(self)@.broadcasts[id as int]->0.completed(old(pool)@).1
            },
            !old(self)@.has_broadcast(id) ==> {
                &&& final(self)@.broadcasts == old(self)@.broadcasts
                &&& final(pool)@ == old(pool)@
            },
            final(self).wf(),
            final(pool).wf(),
    {
        if id >= self.broadcasts.len() {
            return ;
        }
        let ghost s = self@;
        match self.broadcasts[id].take() {
            Some(mut b) => {
                let ghost b0 = b@;
                assert(b.wf());
                if b.done < b.targets && b.sem.permits() < isize::MAX {
                    b.done = b.done + 1;
                    b.sem.release(pool);
                }
                let finished = b.done == b.targets && (!b.wait || b.acquired == b.targets);
                assert(b@ == b0.completed(old(pool)@).0);
                if !finished {
                    self.broadcasts[id] = Some(b);
                }
                proof {
                    assert(self@.broadcasts == s.settled(id, b0.completed(old(pool)@).0));
                    assert forall|k: int|
                        0 <= k < self.broadcasts@.len() && (#[trigger] self.broadcasts@[k])
                            is Some implies self.broadcasts@[k]->0.wf() by {
                        if k != id {
                            assert(old(self).broadcasts@[k] is Some);
                        }
                    }
                }
            },
            None => {
                assert(self@.broadcasts == s.broadcasts);
            },
        }
    }

    /// The caller `tid` of broadcast `id` waits for the CPUs. It takes note of
    /// the completions that have been reported since it last asked. If that is
    /// all of them the answer is `Done`; a broadcast that is finished leaves
    /// the table. Else the caller is parked until the next report. For an
    /// unknown id the answer is `Done`.
    pub fn wait<C>(&mut self, pool: &mut ThreadPool<C>, tid: Tid, id: usize) -> (r: IpiWait)
        requires
            old(self).wf(),
            old(pool).wf(),
        ensures
            final(self)@.queues == old(self)@.queues,
            old(self)@.has_broadcast(id) ==> {
                &&& final(self)@.broadcasts == old(self)@.settled(
                    id,
                    old(self)@.broadcasts[id as int]->0.waited(old(pool)@, tid).0,
                )
                &&& final(pool)@ == old(self)@.broadcasts[id as int]->0.waited(old(pool)@, tid).1
                &&& r == old(self)@.broadcasts[id as int]->0.waited(old(pool)@, tid).2
            },
            !old(self)@.has_broadcast(id) ==> {
                &&& final(self)@.broadcasts == old(self)@.broadcasts
                &&& final(pool)@ == old(pool)@
                &&& r == IpiWait::Done
            },
            final(self).wf(),
            final(pool).wf(),
    {
        if id >= self.broadcasts.len() {
            return IpiWait::Done;
        }
        let ghost s = self@;
        match self.broadcasts[id].take() {
            Some(mut b) => {
                let ghost b0 = b@;
                assert(b.wf());
                let mut answer = IpiWait::Done;
                if b.wait {
                    while b.acquired < b.done
                        invariant
                            b.wf(),
                            b.wait,
                            pool.wf(),
                            pool@ == old(pool)@,
                            b@.targets == b0.targets,
                            b@.done == b0.done,
                            b@.waiters == b0.waiters,
                            b0.acquired <= b@.acquired,
                        decreases b.done - b.acquired,
                    {
                        let _ = b.sem.acquire(pool, tid);
                        b.acquired = b.acquired + 1;
                    }
                    if b.acquired < b.targets {
                        answer = match b.sem.acquire(pool, tid) {
                            Acquire::Parked => IpiWait::Parked,
                            _ => IpiWait::Retry,
                        };
                    }
                }
                assert(b@ == b0.waited(old(pool)@, tid).0);
                let finished = b.done == b.targets && (!b.wait || b.acquired == b.targets);
                if !finished {
                    self.broadcasts[id] = Some(b);
                }
                proof {
                    assert(self@.broadcasts == s.settled(id, b0.waited(old(pool)@, tid).0));
                    assert forall|k: int|
                        0 <= k < self.broadcasts@.len() && (#[trigger] self.broadcasts@[k])
                            is Some implies self.broadcasts@[k]->0.wf() by {
                        if k != id {
                            assert(old(self).broadcasts@[k] is Some);
                        }
                    }
                }
                answer
            },
            None => {
                assert(self@.broadcasts == s.broadcasts);
                IpiWait::Done
            },
        }
    }
}

/// A caller that waits for its broadcast is told `Done` only when every CPU
/// has run the function.
pub proof fn lemma_wait_ends_after_all_cpus<C>(b: BroadcastState, pool: PoolState<C>, tid: Tid)
    requires
        b.inv(),
        b.wait,
    ensures
        b.waited(pool, tid).2 == IpiWait::Done <==> b.done == b.targets,
        b.waited(pool, tid).0.inv(),
        b.completed(pool).0.inv(),
{
}

/// Size of a page of memory in bytes.
pub const PAGE_SIZE: usize = 4096;

/// `addr` is canonical: its bits 48 to 63 are copies of bit 47.
pub open spec fn is_canonical(addr: u64) -> bool {
    addr < 0x0000_8000_0000_0000 || addr >= 0xffff_8000_0000_0000
}

/// Start addresses of the pages that hold the bytes from `begin` up to, not
/// including, `end`: from the page of `begin` to the page of `end - 1`.
pub open spec fn page_addresses(begin: usize, end: usize) -> Seq<u64> {
    let first = begin as int / PAGE_SIZE as int;
    let last = (end - 1) / PAGE_SIZE as int;
    Seq::new(
        if first <= last {
            (last - first + 1) as nat
        } else {
            0
        },
        |i: int| ((first + i) * PAGE_SIZE) as u64,
    )
}

/// `x86_64::VirtAddr::new` and, on what it returns, `as_u64`. The first takes
/// a canonical address as it is and panics for any other; the second gives
/// the address back as a number.
#[verifier::external_body]
fn virt_addr(addr: u64) -> (r: u64)
    requires
        is_canonical(addr),
    ensures
        r == addr,
{
    x86_64::VirtAddr::new(addr).as_u64()
}

/// The function that a broadcast runs on every CPU to drop a range of
/// addresses from the translation buffer: for the range `(begin, end)` it
/// gives the virtual addresses to flush, one for each page of the range, in
/// ascending order. The caller flushes them.
pub fn tlb_shootdown(tuple: &(usize, usize)) -> (r: Vec<u64>)
    requires
        tuple.1 > 0,
        forall|i: int|
            0 <= i < page_addresses(tuple.0, tuple.1).len() ==> is_canonical(
                #[trigger] page_addresses(tuple.0, tuple.1)[i],
            ),
    ensures
        r@ == page_addresses(tuple.0, tuple.1),
{
    let begin = tuple.0;
    let end = tuple.1;
    let first = begin / PAGE_SIZE;
    let last = (end - 1) / PAGE_SIZE;
    let ghost pages = page_addresses(begin, end);
    let mut flushed: Vec<u64> = Vec::new();
    let mut page = first;
    while page <= last
        invariant
            first <= page <= last + 1 || (first > last && page == first),
            last == (end - 1) / PAGE_SIZE as int,
            first == begin as int / PAGE_SIZE as int,
            end > 0,
            pages == page_addresses(begin, end),
            forall|i: int| 0 <= i < pages.len() ==> is_canonical(#[trigger] pages[i]),
            flushed@.len() == (if first <= last {
                page - first
            } else {
                0
            }),
            forall|i: int| 0 <= i < flushed@.len() ==> flushed@[i] == pages[i],
        decreases last + 1 - page,
    {
        assert(page * PAGE_SIZE <= last * PAGE_SIZE) by (nonlinear_arith)
            requires
                page <= last,
        ;
        let addr = (page * PAGE_SIZE) as u64;
        assert(pages[page - first] == addr);
        flushed.push(virt_addr(addr));
        page += 1;
    }
    flushed
}

} // verus!
