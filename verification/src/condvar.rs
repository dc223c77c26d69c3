//! Condition variable: a first-in first-out queue of thread handles. A waiter
//! is queued and parked in one step, so a notification that comes at any
//! time after finds it in the queue and wakes it.

use crate::scheduler::Tid;
use crate::spin::SpinLock;
use crate::thread_pool::{lemma_alive_stays, lemma_kept_slot_stays, 
    lemma_acquire_inv, lemma_release_inv, lemma_sleep_inv, lemma_wakeup_inv, PoolState,
    ThreadHandle, ThreadPool,
};
use std::collections::VecDeque;
use vstd::prelude::*;

verus! {

/// What the caller of a wait does next.
#[derive(Clone, Copy, Debug, PartialEq, Eq, Structural)]
pub enum WaitAction {
    /// The caller is queued and parked, and the mutex it passed is released.
    /// It restores these interrupt flags, if any, and gives up the CPU. When
    /// it is resumed it takes the mutex again.
    Park(Option<usize>),
    /// No handle to the caller could be had: it is not queued, holds the mutex
    /// still, and goes on.
    Return,
}

/// The queue and the pool after `tid` has joined the queue.
pub open spec fn enqueued<C>(q: Seq<Tid>, pool: PoolState<C>, tid: Tid) -> (
    Seq<Tid>,
    PoolState<C>,
) {
    if pool.can_acquire(tid) {
        (q.push(tid), pool.acquire(tid))
    } else {
        (q, pool)
    }
}

/// The queue and the pool after `tid` has begun to wait: queued, and parked.
pub open spec fn waited<C>(q: Seq<Tid>, pool: PoolState<C>, tid: Tid) -> (Seq<Tid>, PoolState<C>) {
    if pool.can_acquire(tid) {
        (q.push(tid), pool.acquire(tid).sleep(tid))
    } else {
        (q, pool)
    }
}

/// The queue and the pool after the oldest waiter, if there is one, has been
/// taken out and woken.
pub open spec fn notified_one<C>(q: Seq<Tid>, pool: PoolState<C>) -> (Seq<Tid>, PoolState<C>) {
    if q.len() > 0 {
        (q.remove(0), pool.wakeup(q[0]).release(q[0]))
    } else {
        (q, pool)
    }
}

/// The pool after the handles of the first `n` waiters of `q` have come back.
pub open spec fn released<C>(pool: PoolState<C>, q: Seq<Tid>, n: nat) -> PoolState<C>
    decreases n,
{
    if n == 0 || n > q.len() {
        pool
    } else {
        released(pool, q, (n - 1) as nat).release(q[n - 1])
    }
}

/// The queue and the pool after up to `n` waiters have been woken, oldest
/// first.
pub open spec fn notified<C>(q: Seq<Tid>, pool: PoolState<C>, n: nat) -> (
    Seq<Tid>,
    PoolState<C>,
)
    decreases n,
{
    if n == 0 {
        (q, pool)
    } else {
        let before = notified(q, pool, (n - 1) as nat);
        notified_one(before.0, before.1)
    }
}

/// The queues and the pool after `tid` has been offered to the first `n` of
/// the queues, and the number of queues it has joined.
pub open spec fn enqueued_on<C>(qs: Seq<Seq<Tid>>, pool: PoolState<C>, tid: Tid, n: nat) -> (
    Seq<Seq<Tid>>,
    PoolState<C>,
    nat,
)
    decreases n,
{
    if n == 0 || n > qs.len() {
        (qs, pool, 0)
    } else {
        let before = enqueued_on(qs, pool, tid, (n - 1) as nat);
        let one = enqueued(before.0[n - 1], before.1, tid);
        (
            before.0.update(n - 1, one.0),
            one.1,
            if before.1.can_acquire(tid) {
                before.2 + 1
            } else {
                before.2
            },
        )
    }
}

/// The queues and the pool after `tid` has begun to wait on all the queues:
/// queued on those that could get a handle, and parked if there is one.
pub open spec fn waited_on<C>(qs: Seq<Seq<Tid>>, pool: PoolState<C>, tid: Tid) -> (
    Seq<Seq<Tid>>,
    PoolState<C>,
    nat,
) {
    let e = enqueued_on(qs, pool, tid, qs.len());
    (e.0, if e.2 > 0 {
        e.1.sleep(tid)
    } else {
        e.1
    }, e.2)
}

/// Offering a thread to queues keeps their number and the pool's invariant.
pub proof fn lemma_enqueued_on<C>(qs: Seq<Seq<Tid>>, pool: PoolState<C>, tid: Tid, n: nat)
    requires
        pool.inv(),
        n <= qs.len(),
    ensures
        enqueued_on(qs, pool, tid, n).0.len() == qs.len(),
        enqueued_on(qs, pool, tid, n).1.inv(),
        enqueued_on(qs, pool, tid, n).2 <= n,
        forall|k: int| n <= k < qs.len() ==> enqueued_on(qs, pool, tid, n).0[k] == qs[k],
    decreases n,
{
    if n > 0 {
        lemma_enqueued_on(qs, pool, tid, (n - 1) as nat);
        lemma_acquire_inv(enqueued_on(qs, pool, tid, (n - 1) as nat).1, tid);
    }
}

/// Waking waiters keeps the pool's invariant, shortens the queue by the number
/// woken, and never wakes more than there are.
pub proof fn lemma_notified<C>(q: Seq<Tid>, pool: PoolState<C>, n: nat)
    requires
        pool.inv(),
    ensures
        notified(q, pool, n).1.inv(),
        notified(q, pool, n).0.len() == (if n <= q.len() {
            q.len() - n
        } else {
            0
        }),
        n <= q.len() ==> notified(q, pool, n).0 == q.subrange(n as int, q.len() as int),
    decreases n,
{
    if n > 0 {
        lemma_notified(q, pool, (n - 1) as nat);
        let before = notified(q, pool, (n - 1) as nat);
        if before.0.len() > 0 {
            lemma_wakeup_inv(before.1, before.0[0]);
            lemma_release_inv(before.1.wakeup(before.0[0]), before.0[0]);
            if n <= q.len() {
                assert(before.0.remove(0) == q.subrange(n as int, q.len() as int));
            }
        }
    } else {
        assert(q == q.subrange(0, q.len() as int));
    }
}

/// Waking waiters and taking handles back keep the slots that the pool
/// keeps.
pub proof fn lemma_queue_keeps_slots<C>(q: Seq<Tid>, pool: PoolState<C>, n: nat, t: Tid)
    requires
        pool.keeps(t),
    ensures
        notified(q, pool, n).1.keeps(t),
        released(pool, q, n).keeps(t),
    decreases n,
{
    if n > 0 {
        lemma_queue_keeps_slots(q, pool, (n - 1) as nat, t);
        let before = notified(q, pool, (n - 1) as nat);
        if before.0.len() > 0 {
            let w = before.0[0];
            lemma_kept_slot_stays(before.1, t, w, 0, 0, 0, arbitrary());
            lemma_kept_slot_stays(before.1.wakeup(w), t, w, 0, 0, 0, arbitrary());
        }
        if n <= q.len() {
            let r = released(pool, q, (n - 1) as nat);
            lemma_kept_slot_stays(r, t, q[n - 1], 0, 0, 0, arbitrary());
        }
    }
}

/// Taking handles back changes neither the number of slots nor the order of
/// the pool.
pub proof fn lemma_released_len<C>(pool: PoolState<C>, q: Seq<Tid>, n: nat)
    requires
        pool.inv(),
    ensures
        released(pool, q, n).inv(),
        released(pool, q, n).threads.len() == pool.threads.len(),
    decreases n,
{
    if n > 0 && n <= q.len() {
        lemma_released_len(pool, q, (n - 1) as nat);
        lemma_release_inv(released(pool, q, (n - 1) as nat), q[n - 1]);
    }
}

/// Waking waiters and taking handles back leave the threads alive that
/// were.
pub proof fn lemma_queue_keeps_alive<C>(q: Seq<Tid>, pool: PoolState<C>, n: nat, t: Tid)
    requires
        pool.inv(),
        pool.alive(t),
    ensures
        notified(q, pool, n).1.alive(t),
        released(pool, q, n).alive(t),
    decreases n,
{
    if n > 0 {
        lemma_queue_keeps_alive(q, pool, (n - 1) as nat, t);
        lemma_notified(q, pool, (n - 1) as nat);
        let before = notified(q, pool, (n - 1) as nat);
        if before.0.len() > 0 {
            let w = before.0[0];
            lemma_alive_stays(before.1, t, w, 0, 0, 0, arbitrary());
            lemma_wakeup_inv(before.1, w);
            lemma_alive_stays(before.1.wakeup(w), t, w, 0, 0, 0, arbitrary());
        }
        if n <= q.len() {
            lemma_released_len(pool, q, (n - 1) as nat);
            lemma_alive_stays(released(pool, q, (n - 1) as nat), t, q[n - 1], 0, 0, 0, arbitrary());
        }
    }
}

/// A condition variable.
pub struct Condvar {
    wait_queue: VecDeque<ThreadHandle>,
}

impl Condvar {
    /// The threads that wait, oldest first.
    pub closed spec fn view(&self) -> Seq<Tid> {
        self.wait_queue@.map_values(|h: ThreadHandle| h.tid())
    }

    /// A condition variable on which nobody waits.
    pub fn new() -> (r: Self)
        ensures
            r@ == Seq::<Tid>::empty(),
    {
        Condvar { wait_queue: VecDeque::new() }
    }

    /// Number of waiters.
    pub fn waiters(&self) -> (r: usize)
        ensures
            r == self@.len(),
    {
        self.wait_queue.len()
    }

    /// Puts a handle to `tid` at the end of the queue. `false`, and no change,
    /// where the pool has no such thread.
    pub fn add_to_wait_queue<C>(&mut self, pool: &mut ThreadPool<C>, tid: Tid) -> (r: bool)
        requires
            old(pool).wf(),
        ensures
            final(self)@ == enqueued(old(self)@, old(pool)@, tid).0,
            final(pool)@ == enqueued(old(self)@, old(pool)@, tid).1,
            r == old(pool)@.can_acquire(tid),
            final(pool).wf(),
    {
        match pool.acquire(tid) {
            Some(handle) => {
                self.wait_queue.push_back(handle);
                assert(self@ == old(self)@.push(tid));
                true
            },
            None => false,
        }
    }

    /// Queues the caller `tid` and parks it, in one step. The caller then gives
    /// up the CPU. It holds no mutex that the notifier needs: a caller that
    /// does uses `wait`. `false`, and no change, where the pool has no such
    /// thread.
    pub fn _wait<C>(&mut self, pool: &mut ThreadPool<C>, tid: Tid) -> (r: bool)
        requires
            old(pool).wf(),
        ensures
            final(self)@ == waited(old(self)@, old(pool)@, tid).0,
            final(pool)@ == waited(old(self)@, old(pool)@, tid).1,
            r == old(pool)@.can_acquire(tid),
            final(pool).wf(),
    {
        let queued = self.add_to_wait_queue(pool, tid);
        if queued {
            proof {
                lemma_sleep_inv(pool@, tid);
            }
            pool.sleep(tid);
        }
        queued
    }

    /// Queues the caller `tid` on each of the condition variables, then parks
    /// it once. When it wakes it looks at all its conditions again. Returns on
    /// how many of them it was queued; with 0 it is not parked.
    pub fn wait_any<C>(condvars: &mut Vec<Condvar>, pool: &mut ThreadPool<C>, tid: Tid) -> (r:
        usize)
        requires
            old(pool).wf(),
        ensures
            final(condvars)@.len() == old(condvars)@.len(),
            forall|i: int|
                0 <= i < final(condvars)@.len() ==> (#[trigger] final(condvars)@[i])@ == waited_on(
                    Seq::new(old(condvars)@.len(), |k: int| old(condvars)@[k]@),
                    old(pool)@,
                    tid,
                ).0[i],
            final(pool)@ == waited_on(
                Seq::new(old(condvars)@.len(), |k: int| old(condvars)@[k]@),
                old(pool)@,
                tid,
            ).1,
            r == waited_on(
                Seq::new(old(condvars)@.len(), |k: int| old(condvars)@[k]@),
                old(pool)@,
                tid,
            ).2,
            final(pool).wf(),
    {
        let ghost qs = Seq::new(condvars@.len(), |k: int| condvars@[k]@);
        let n = condvars.len();
        let mut count: usize = 0;
        let mut i: usize = 0;
        while i < n
            invariant
                i <= n,
                n == qs.len(),
                condvars@.len() == n,
                pool.wf(),
                old(pool)@.inv(),
                forall|k: int|
                    0 <= k < n ==> (#[trigger] condvars@[k])@ == enqueued_on(
                        qs,
                        old(pool)@,
                        tid,
                        i as nat,
                    ).0[k],
                pool@ == enqueued_on(qs, old(pool)@, tid, i as nat).1,
                count == enqueued_on(qs, old(pool)@, tid, i as nat).2,
            decreases n - i,
        {
            proof {
                lemma_enqueued_on(qs, old(pool)@, tid, i as nat);
                lemma_enqueued_on(qs, old(pool)@, tid, (i + 1) as nat);
            }
            if condvars[i].add_to_wait_queue(pool, tid) {
                count += 1;
            }
            i += 1;
        }
        if count > 0 {
            proof {
                lemma_sleep_inv(pool@, tid);
            }
            pool.sleep(tid);
        }
        count
    }

    /// Queues the caller `tid`, parks it and releases the mutex it holds, in
    /// one step: a notification that is sent once the mutex is free finds the
    /// caller in the queue. Where the pool has no such thread nothing changes
    /// and the mutex stays held.
    pub fn wait<C>(&mut self, pool: &mut ThreadPool<C>, tid: Tid, mutex: &mut SpinLock) -> (r:
        WaitAction)
        requires
            old(pool).wf(),
            old(mutex).wf(),
        ensures
            final(self)@ == enqueued(old(self)@, old(pool)@, tid).0,
            old(pool)@.can_acquire(tid) ==> {
                &&& final(pool)@ == waited(old(self)@, old(pool)@, tid).1
                &&& final(mutex)@ == old(mutex)@.unlock().0
                &&& r == WaitAction::Park(old(mutex)@.unlock().1)
            },
            !old(pool)@.can_acquire(tid) ==> {
                &&& final(pool)@ == old(pool)@
                &&& final(mutex)@ == old(mutex)@
                &&& r == WaitAction::Return
            },
            final(pool).wf(),
            final(mutex).wf(),
    {
        if self.add_to_wait_queue(pool, tid) {
            proof {
                lemma_sleep_inv(pool@, tid);
            }
            pool.sleep(tid);
            let restore = mutex.unlock();
            WaitAction::Park(restore)
        } else {
            WaitAction::Return
        }
    }

    /// Wakes the oldest waiter, if there is one.
    pub fn notify_one<C>(&mut self, pool: &mut ThreadPool<C>)
        requires
            old(pool).wf(),
        ensures
            final(self)@ == notified_one(old(self)@, old(pool)@).0,
            final(pool)@ == notified_one(old(self)@, old(pool)@).1,
            final(pool).wf(),
    {
        match self.wait_queue.pop_front() {
            Some(handle) => {
                assert(self@ == old(self)@.remove(0));
                assert(handle.tid() == old(self)@[0]);
                proof {
                    lemma_wakeup_inv(pool@, handle.tid());
                    lemma_release_inv(pool@.wakeup(handle.tid()), handle.tid());
                }
                pool.unpark(&handle);
                pool.release(handle);
            },
            None => {},
        }
    }

    /// Gives the handles of all waiters back without waking anybody, oldest
    /// first: for a queue that nobody will notify any more.
    pub fn release_all<C>(&mut self, pool: &mut ThreadPool<C>)
        requires
            old(pool).wf(),
        ensures
            final(self)@ == Seq::<Tid>::empty(),
            final(pool)@ == released(old(pool)@, old(self)@, old(self)@.len()),
            final(pool).wf(),
    {
        let ghost queue = self@;
        let n = self.wait_queue.len();
        let mut done: usize = 0;
        while self.wait_queue.len() > 0
            invariant
                pool.wf(),
                n == queue.len(),
                queue == old(self)@,
                done + self@.len() == queue.len(),
                self@ == queue.subrange(done as int, queue.len() as int),
                pool@ == released(old(pool)@, queue, done as nat),
            decreases self@.len(),
        {
            let ghost before = self@;
            match self.wait_queue.pop_front() {
                Some(handle) => {
                    assert(handle.tid() == before[0]);
                    proof {
                        lemma_release_inv(pool@, handle.tid());
                    }
                    pool.release(handle);
                    done += 1;
                    assert(self@ =~= before.subrange(1, before.len() as int));
                    assert(self@ =~= queue.subrange(done as int, queue.len() as int));
                },
                None => {},
            }
        }
        assert(self@ == Seq::<Tid>::empty());
    }

    /// Wakes all waiters, oldest first.
    pub fn notify_all<C>(&mut self, pool: &mut ThreadPool<C>)
        requires
            old(pool).wf(),
        ensures
            final(self)@ == Seq::<Tid>::empty(),
            final(pool)@ == notified(old(self)@, old(pool)@, old(self)@.len()).1,
            final(pool).wf(),
    {
        let n = self.wait_queue.len();
        proof {
            lemma_notified(self@, pool@, n as nat);
        }
        let _ = self.notify_n(pool, n);
    }

    /// Wakes up to `n` waiters, oldest first, and returns how many it woke.
    pub fn notify_n<C>(&mut self, pool: &mut ThreadPool<C>, n: usize) -> (r: usize)
        requires
            old(pool).wf(),
        ensures
            final(self)@ == notified(old(self)@, old(pool)@, n as nat).0,
            final(pool)@ == notified(old(self)@, old(pool)@, n as nat).1,
            r == (if n <= old(self)@.len() {
                n as int
            } else {
                old(self)@.len() as int
            }),
            final(pool).wf(),
    {
        let mut count: usize = 0;
        while count < n
            invariant
                count <= n,
                pool.wf(),
                old(pool)@.inv(),
                self@ == notified(old(self)@, old(pool)@, count as nat).0,
                pool@ == notified(old(self)@, old(pool)@, count as nat).1,
                count <= old(self)@.len(),
            decreases n - count,
        {
            proof {
                lemma_notified(old(self)@, old(pool)@, count as nat);
            }
            if self.wait_queue.len() == 0 {
                proof {
                    lemma_notified_empty(
                        old(self)@,
                        old(pool)@,
                        count as nat,
                        n as nat,
                    );
                }
                return count;
            }
            self.notify_one(pool);
            count += 1;
        }
        count
    }
}

/// Once the queue is empty further notifications change nothing.
proof fn lemma_notified_empty<C>(q: Seq<Tid>, pool: PoolState<C>, a: nat, b: nat)
    requires
        a <= b,
        notified(q, pool, a).0.len() == 0,
    ensures
        notified(q, pool, b) == notified(q, pool, a),
    decreases b,
{
    if a < b {
        lemma_notified_empty(q, pool, a, (b - 1) as nat);
    }
}

/// What one notification does to a thread `t`: a thread that will run keeps
/// doing so; a parked one stays parked unless it is the oldest waiter, and
/// then it will run.
pub proof fn lemma_notified_one_effect<C>(q: Seq<Tid>, pool: PoolState<C>, t: Tid)
    requires
        pool.inv(),
    ensures
        notified_one(q, pool).1.inv(),
        pool.runnable(t) ==> notified_one(q, pool).1.runnable(t),
        pool.parked(t) && (q.len() == 0 || q[0] != t) ==> notified_one(q, pool).1.parked(t),
        pool.parked(t) && q.len() > 0 && q[0] == t ==> notified_one(q, pool).1.runnable(t),
{
    if q.len() > 0 {
        let u = q[0];
        lemma_wakeup_inv(pool, u);
        lemma_release_inv(pool.wakeup(u), u);
        if pool.has(t) {
            assert(PoolState::<C>::thread_inv(pool.thread(t)));
        }
    }
}

/// A parked thread at place `i` of the queue is still parked, or runs again,
/// while fewer than `i + 1` waiters have been woken, and runs again from then
/// on.
pub proof fn lemma_notify_reaches_waiter<C>(q: Seq<Tid>, pool: PoolState<C>, i: int, n: nat)
    requires
        pool.inv(),
        0 <= i < q.len(),
        pool.parked(q[i]),
    ensures
        notified(q, pool, n).1.inv(),
        n <= i ==> notified(q, pool, n).1.parked(q[i]) || notified(q, pool, n).1.runnable(q[i]),
        n > i ==> notified(q, pool, n).1.runnable(q[i]),
    decreases n,
{
    if n > 0 {
        lemma_notify_reaches_waiter(q, pool, i, (n - 1) as nat);
        lemma_notified(q, pool, (n - 1) as nat);
        let before = notified(q, pool, (n - 1) as nat);
        lemma_notified_one_effect(before.0, before.1, q[i]);
        if n - 1 == i {
            assert(before.0 == q.subrange(i, q.len() as int));
            assert(before.0[0] == q[i]);
        }
    }
}

/// No wakeup is lost. A thread that will run and begins to wait is, in that one
/// step, both queued and parked: there is no state in which it is one without
/// the other. Notifications that reach its place in the queue, whenever they
/// come, leave it in a state in which it runs again; and if they come before
/// its processor has taken it back, it is handed back as ready, not asleep.
pub proof fn lemma_no_lost_wakeup<C>(
    q: Seq<Tid>,
    pool: PoolState<C>,
    tid: Tid,
    n: nat,
    context: C,
)
    requires
        pool.inv(),
        pool.runnable(tid),
        pool.can_acquire(tid),
        n > q.len(),
    ensures
        waited(q, pool, tid).0 == q.push(tid),
        waited(q, pool, tid).1.inv(),
        waited(q, pool, tid).1.parked(tid),
        notified(waited(q, pool, tid).0, waited(q, pool, tid).1, n).1.runnable(tid),
        notified(waited(q, pool, tid).0, waited(q, pool, tid).1, n).1.thread(tid).status
            is Running ==> notified(waited(q, pool, tid).0, waited(q, pool, tid).1, n).1.stop(
            tid,
            context,
        ).status(tid) == Some(crate::thread_pool::Status::Ready),
{
    lemma_acquire_inv(pool, tid);
    lemma_sleep_inv(pool.acquire(tid), tid);
    assert(PoolState::<C>::thread_inv(pool.thread(tid)));
    let w = waited(q, pool, tid);
    assert(w.0[q.len() as int] == tid);
    lemma_notify_reaches_waiter(w.0, w.1, q.len() as int, n);
}

/// A channel with room for one item, made of a mutex and a condition
/// variable: a producer that hands over `items` one by one, and a consumer.
/// Each works under the mutex. Who finds the slot as it needs it acts and
/// notifies; who does not waits on the condition variable, queued and parked
/// in one step, and looks again when it is woken.
#[verifier::ext_equal]
pub ghost struct Channel {
    /// The item in the slot.
    pub slot: Option<int>,
    /// How many items the producer has put in the slot.
    pub sent: nat,
    /// What the consumer has taken out, in the order in which it came.
    pub received: Seq<int>,
    /// The producer is parked.
    pub producer_waits: bool,
    /// The consumer is parked.
    pub consumer_waits: bool,
}

impl Channel {
    /// An empty channel on which nobody waits.
    pub open spec fn start() -> Channel {
        Channel {
            slot: None,
            sent: 0,
            received: Seq::empty(),
            producer_waits: false,
            consumer_waits: false,
        }
    }

    /// The next step of the producer if `producer`, else of the consumer. Who
    /// is parked does nothing. The producer puts its next item in an empty
    /// slot and wakes the consumer, and waits at a full one; the consumer
    /// takes the item out of a full slot and wakes the producer, and waits at
    /// an empty one.
    pub open spec fn step(self, items: Seq<int>, producer: bool) -> Channel {
        if producer {
            if self.producer_waits || self.sent >= items.len() {
                self
            } else if self.slot is Some {
                Channel { producer_waits: true, ..self }
            } else {
                Channel {
                    slot: Some(items[self.sent as int]),
                    sent: self.sent + 1,
                    consumer_waits: false,
                    ..self
                }
            }
        } else {
            if self.consumer_waits {
                self
            } else {
                match self.slot {
                    Some(item) => Channel {
                        slot: None,
                        received: self.received.push(item),
                        producer_waits: false,
                        ..self
                    },
                    None => Channel { consumer_waits: true, ..self },
                }
            }
        }
    }

    /// The state after the first `n` of `turns`: `true` is a turn of the
    /// producer, `false` one of the consumer.
    pub open spec fn run(self, items: Seq<int>, turns: Seq<bool>, n: nat) -> Channel
        decreases n,
    {
        if n == 0 || n > turns.len() {
            self
        } else {
            self.run(items, turns, (n - 1) as nat).step(items, turns[n - 1])
        }
    }

    /// What is in the slot and what was received are the items that were
    /// sent, in their order; who waits has a reason to.
    pub open spec fn inv(self, items: Seq<int>) -> bool {
        &&& self.sent <= items.len()
        &&& self.sent == self.received.len() + (if self.slot is Some {
            1nat
        } else {
            0nat
        })
        &&& self.received == items.subrange(0, self.received.len() as int)
        &&& self.slot matches Some(item) ==> item == items[self.sent - 1]
        &&& self.producer_waits ==> self.slot is Some
        &&& self.consumer_waits ==> self.slot is None
    }
}

/// The channel hands the items over in order. In whatever order producer and
/// consumer get their turns, the consumer has received the first items that
/// the producer sent, each once and in the order in which they were sent.
/// The two never wait for each other: the producer waits only at a full
/// slot, which the next turn of the consumer empties, waking it; the consumer
/// waits only at an empty slot, parked and not spinning, and the next item
/// of the producer wakes it.
pub proof fn lemma_channel_keeps_order(items: Seq<int>, turns: Seq<bool>, n: nat)
    ensures
        Channel::start().run(items, turns, n).inv(items),
        Channel::start().run(items, turns, n).received == items.subrange(
            0,
            Channel::start().run(items, turns, n).received.len() as int,
        ),
        !(Channel::start().run(items, turns, n).producer_waits && Channel::start().run(
            items,
            turns,
            n,
        ).consumer_waits),
        Channel::start().run(items, turns, n).producer_waits ==> !Channel::start().run(
            items,
            turns,
            n,
        ).step(items, false).producer_waits,
        Channel::start().run(items, turns, n).consumer_waits && Channel::start().run(
            items,
            turns,
            n,
        ).sent < items.len() ==> !Channel::start().run(items, turns, n).step(
            items,
            true,
        ).consumer_waits,
    decreases n,
{
    if n > 0 && n <= turns.len() {
        lemma_channel_keeps_order(items, turns, (n - 1) as nat);
        let before = Channel::start().run(items, turns, (n - 1) as nat);
        let after = before.step(items, turns[n - 1]);
        if !turns[n - 1] && !before.consumer_waits && before.slot is Some {
            assert(after.received == items.subrange(0, after.received.len() as int));
        }
    } else {
        assert(Channel::start().received == items.subrange(0, 0));
    }
}

} // verus!
