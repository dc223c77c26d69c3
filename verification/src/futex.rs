//! Futex table: wait queues keyed by the address of a 32-bit word in user
//! memory. The caller reads the word and passes its value.

use crate::condvar::{
    lemma_queue_keeps_alive, lemma_queue_keeps_slots, lemma_released_len, notified, released,
    waited, Condvar,
};
use crate::scheduler::Tid;
use crate::thread_pool::{PoolState, ThreadPool};
use std::collections::BTreeMap;
use vstd::prelude::*;

verus! {

broadcast use {vstd::std_specs::btree::group_btree_axioms, vstd::laws_cmp::group_laws_cmp};

/// How a futex wait ended.
#[derive(Clone, Copy, Debug, PartialEq, Eq, Structural)]
pub enum FutexWait {
    /// The word had the expected value: the caller is queued on the address
    /// and parked, and gives up the CPU.
    Parked,
    /// The word did not have the expected value: nothing was done.
    Changed,
    /// The word had the expected value but the caller could not be queued.
    Unqueued,
}

/// The pool after the handles of all waiters of the first `n` queues have come
/// back: `order` lists the addresses, `queues` has the queue of each.
pub open spec fn released_all<C>(
    pool: PoolState<C>,
    queues: Map<usize, Seq<Tid>>,
    order: Seq<usize>,
    n: nat,
) -> PoolState<C>
    decreases n,
{
    if n == 0 || n > order.len() {
        pool
    } else {
        let q = queues[order[n - 1]];
        released(released_all(pool, queues, order, (n - 1) as nat), q, q.len())
    }
}

/// Taking the handles of all queues back keeps the pool in order, the slots
/// that it keeps and the threads that are alive.
pub proof fn lemma_released_all<C>(
    pool: PoolState<C>,
    queues: Map<usize, Seq<Tid>>,
    order: Seq<usize>,
    n: nat,
    t: Tid,
)
    requires
        pool.inv(),
    ensures
        released_all(pool, queues, order, n).inv(),
        released_all(pool, queues, order, n).threads.len() == pool.threads.len(),
        pool.keeps(t) ==> released_all(pool, queues, order, n).keeps(t),
        pool.alive(t) ==> released_all(pool, queues, order, n).alive(t),
    decreases n,
{
    if n > 0 && n <= order.len() {
        lemma_released_all(pool, queues, order, (n - 1) as nat, t);
        let before = released_all(pool, queues, order, (n - 1) as nat);
        let q = queues[order[n - 1]];
        lemma_released_len(before, q, q.len());
        if before.keeps(t) {
            lemma_queue_keeps_slots(q, before, q.len(), t);
        }
        if before.alive(t) {
            lemma_queue_keeps_alive(q, before, q.len(), t);
        }
    }
}

/// Wait queues by address.
pub struct FutexTable {
    table: BTreeMap<usize, Condvar>,
    first_use: Vec<usize>,
}

impl FutexTable {
    /// The addresses in order of first use are those that have a queue, each
    /// once.
    #[verifier::type_invariant]
    spec fn tidy(&self) -> bool {
        &&& self.first_use@.no_duplicates()
        &&& forall|a: usize| self.table@.contains_key(a) <==> self.first_use@.contains(a)
    }

    /// The addresses that have a queue, in the order in which they were first
    /// waited on.
    pub closed spec fn order(&self) -> Seq<usize> {
        self.first_use@
    }

    /// The queues by address.
    pub open spec fn queues(&self) -> Map<usize, Seq<Tid>> {
        Map::total(|addr: usize| self.queue_of(addr))
    }

    /// The threads that wait on `addr`, oldest first.
    pub closed spec fn queue_of(&self, addr: usize) -> Seq<Tid> {
        if self.table@.contains_key(addr) {
            self.table@[addr]@
        } else {
            Seq::empty()
        }
    }

    /// A table with no waiter.
    pub fn new() -> (r: Self)
        ensures
            forall|addr: usize| #[trigger] r.queue_of(addr) == Seq::<Tid>::empty(),
            r.order() == Seq::<usize>::empty(),
    {
        FutexTable { table: BTreeMap::new(), first_use: Vec::new() }
    }

    /// The caller `tid` waits on `addr` if the word there, whose value the
    /// caller has read as `value`, is `expected`: then it is queued and parked
    /// in one step.
    pub fn futex_wait<C>(
        &mut self,
        pool: &mut ThreadPool<C>,
        tid: Tid,
        addr: usize,
        expected: u32,
        value: u32,
    ) -> (r: FutexWait)
        requires
            old(pool).wf(),
        ensures
            forall|a: usize| a != addr ==> #[trigger] final(self).queue_of(a) == old(self).queue_of(a),
            final(self).order() == (if value == expected && !old(self).order().contains(addr) {
                old(self).order().push(addr)
            } else {
                old(self).order()
            }),
            value != expected ==> {
                &&& r == FutexWait::Changed
                &&& final(self).queue_of(addr) == old(self).queue_of(addr)
                &&& final(pool)@ == old(pool)@
            },
            value == expected ==> {
                &&& r == (if old(pool)@.can_acquire(tid) {
                    FutexWait::Parked
                } else {
                    FutexWait::Unqueued
                })
                &&& final(self).queue_of(addr) == waited(old(self).queue_of(addr), old(pool)@, tid).0
                &&& final(pool)@ == waited(old(self).queue_of(addr), old(pool)@, tid).1
            },
            final(pool).wf(),
    {
        proof {
            use_type_invariant(&*self);
        }
        if value != expected {
            return FutexWait::Changed;
        }
        let mut taken = FutexTable::new();
        core::mem::swap(self, &mut taken);
        let FutexTable { table, first_use } = taken;
        let mut table = table;
        let mut first_use = first_use;
        let ghost before = table@;
        let ghost order0 = first_use@;
        assert(order0.no_duplicates());
        assert(forall|a: usize| before.contains_key(a) <==> order0.contains(a));
        let mut queue = match table.remove(&addr) {
            Some(queue) => queue,
            None => {
                first_use.push(addr);
                Condvar::new()
            },
        };
        assert(queue@ == old(self).queue_of(addr));
        let queued = queue._wait(pool, tid);
        let _ = table.insert(addr, queue);
        proof {
            assert(table@ =~= before.insert(addr, queue));
            if before.contains_key(addr) {
                assert(first_use@ == order0);
            } else {
                assert(first_use@ == order0.push(addr));
                assert(first_use@.last() == addr);
                assert forall|i: int, j: int|
                    0 <= i < first_use@.len() && 0 <= j < first_use@.len() && i != j implies first_use@[i]
                    != first_use@[j] by {
                    if i < order0.len() && j < order0.len() {
                        assert(order0[i] != order0[j]);
                    } else if i < order0.len() {
                        assert(order0.contains(order0[i]));
                    } else {
                        assert(order0.contains(order0[j]));
                    }
                }
            }
            assert forall|a: usize| table@.contains_key(a) <==> first_use@.contains(a) by {
                if a != addr {
                    assert(table@.contains_key(a) <==> before.contains_key(a));
                    if order0.contains(a) {
                        let k = choose|k: int| 0 <= k < order0.len() && order0[k] == a;
                        assert(first_use@[k] == a);
                    }
                    if first_use@.contains(a) {
                        let k = choose|k: int| 0 <= k < first_use@.len() && first_use@[k] == a;
                        assert(order0[k] == a);
                    }
                } else {
                    if before.contains_key(addr) {
                        assert(order0.contains(addr));
                    } else {
                        assert(first_use@[first_use@.len() - 1] == addr);
                    }
                }
            }
        }
        *self = FutexTable { table, first_use };
        if queued {
            FutexWait::Parked
        } else {
            FutexWait::Unqueued
        }
    }

    /// Wakes up to `n` of the threads that wait on `addr`, oldest first, and
    /// returns how many it woke.
    pub fn futex_wake<C>(&mut self, pool: &mut ThreadPool<C>, addr: usize, n: usize) -> (r: usize)
        requires
            old(pool).wf(),
        ensures
            forall|a: usize| a != addr ==> #[trigger] final(self).queue_of(a) == old(self).queue_of(a),
            final(self).order() == old(self).order(),
            final(self).queue_of(addr) == notified(old(self).queue_of(addr), old(pool)@, n as nat).0,
            final(pool)@ == notified(old(self).queue_of(addr), old(pool)@, n as nat).1,
            r == (if n <= old(self).queue_of(addr).len() {
                n as int
            } else {
                old(self).queue_of(addr).len() as int
            }),
            final(pool).wf(),
    {
        proof {
            use_type_invariant(&*self);
        }
        let mut taken = FutexTable::new();
        core::mem::swap(self, &mut taken);
        let FutexTable { table, first_use } = taken;
        let mut table = table;
        let ghost before = table@;
        let woken = match table.remove(&addr) {
            Some(queue) => {
                let mut queue = queue;
                let woken = queue.notify_n(pool, n);
                let _ = table.insert(addr, queue);
                assert(table@ =~= before.insert(addr, queue));
                woken
            },
            None => {
                proof {
                    lemma_notified_nobody(pool@, n as nat);
                }
                assert(table@ =~= before);
                0
            },
        };
        assert forall|a: usize| table@.contains_key(a) <==> before.contains_key(a) by {}
        *self = FutexTable { table, first_use };
        woken
    }

    /// Gives the handles of all waiters back without waking anybody, queue
    /// by queue: for a table that nobody will wake any more. The table is
    /// empty afterwards.
    pub fn release_all<C>(&mut self, pool: &mut ThreadPool<C>)
        requires
            old(pool).wf(),
        ensures
            final(pool)@ == released_all(
                old(pool)@,
                old(self).queues(),
                old(self).order(),
                old(self).order().len(),
            ),
            final(pool).wf(),
            final(self).order() == Seq::<usize>::empty(),
            forall|a: usize| #[trigger] final(self).queue_of(a) == Seq::<Tid>::empty(),
    {
        proof {
            use_type_invariant(&*self);
        }
        let ghost queues = self.queues();
        let ghost pool0 = pool@;
        let mut taken = FutexTable::new();
        core::mem::swap(self, &mut taken);
        let FutexTable { table, first_use } = taken;
        let mut table = table;
        let ghost order = first_use@;
        proof {
            assert forall|k: int| 0 <= k < order.len() implies table@.contains_key(order[k])
                && table@[order[k]]@ == queues[order[k]] by {
                assert(order.contains(order[k]));
            }
        }
        let mut i: usize = 0;
        while i < first_use.len()
            invariant
                i <= order.len(),
                first_use@ == order,
                order.no_duplicates(),
                forall|k: int|
                    i <= k < order.len() ==> table@.contains_key(#[trigger] order[k])
                        && table@[order[k]]@ == queues[order[k]],
                pool0.inv(),
                pool.wf(),
                pool@ == released_all(pool0, queues, order, i as nat),
            decreases order.len() - i,
        {
            proof {
                lemma_released_all(pool0, queues, order, i as nat, 0);
            }
            let ghost before = table@;
            match table.remove(&first_use[i]) {
                Some(queue) => {
                    let mut queue = queue;
                    queue.release_all(pool);
                },
                None => {},
            }
            proof {
                assert(table@ =~= before.remove(order[i as int]));
                assert forall|k: int| i < k < order.len() implies table@.contains_key(
                    #[trigger] order[k],
                ) && table@[order[k]]@ == queues[order[k]] by {
                    assert(order[k] != order[i as int]);
                }
            }
            i += 1;
        }
    }
}

/// Notifying an empty queue changes nothing.
proof fn lemma_notified_nobody<C>(pool: PoolState<C>, n: nat)
    ensures
        notified(Seq::<Tid>::empty(), pool, n) == (Seq::<Tid>::empty(), pool),
    decreases n,
{
    if n > 0 {
        lemma_notified_nobody(pool, (n - 1) as nat);
    }
}

} // verus!
