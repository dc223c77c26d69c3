//! Counting semaphore on top of a condition variable. Waiters are served in
//! the order in which they came.

use crate::condvar::{notified_one, waited, Condvar};
use crate::scheduler::Tid;
use crate::thread_pool::ThreadPool;
use vstd::prelude::*;

verus! {

/// How an attempt to take a permit ended.
#[derive(Clone, Copy, Debug, PartialEq, Eq, Structural)]
pub enum Acquire {
    /// The caller has a permit.
    Acquired,
    /// No permit is free. The caller is queued and parked: it gives up the CPU
    /// and tries again when it is resumed.
    Parked,
    /// No permit is free and the caller could not be queued: it tries again.
    Retry,
}

/// A counting semaphore.
pub struct Semaphore {
    count: isize,
    cvar: Condvar,
}

impl Semaphore {
    /// Number of free permits.
    pub closed spec fn count(&self) -> int {
        self.count as int
    }

    /// The threads that wait for a permit, oldest first.
    pub closed spec fn waiters(&self) -> Seq<Tid> {
        self.cvar@
    }

    /// A semaphore with `count` free permits and no waiter.
    pub fn new(count: isize) -> (r: Self)
        ensures
            r.count() == count,
            r.waiters() == Seq::<Tid>::empty(),
    {
        Semaphore { count, cvar: Condvar::new() }
    }

    /// Number of free permits.
    pub fn permits(&self) -> (r: isize)
        ensures
            r == self.count(),
    {
        self.count
    }

    /// The caller `tid` asks for a permit. It gets one exactly if one is free;
    /// else it joins the queue and is parked, in one step.
    pub fn acquire<C>(&mut self, pool: &mut ThreadPool<C>, tid: Tid) -> (r: Acquire)
        requires
            old(pool).wf(),
        ensures
            old(self).count() >= 0 ==> final(self).count() >= 0,
            final(self).count() == taken(old(self).count()).0,
            r == Acquire::Acquired <==> taken(old(self).count()).1,
            old(self).count() > 0 ==> {
                &&& r == Acquire::Acquired
                &&& final(self).count() == old(self).count() - 1
                &&& final(self).waiters() == old(self).waiters()
                &&& final(pool)@ == old(pool)@
            },
            old(self).count() <= 0 ==> {
                &&& r == (if old(pool)@.can_acquire(tid) {
                    Acquire::Parked
                } else {
                    Acquire::Retry
                })
                &&& final(self).count() == old(self).count()
                &&& final(self).waiters() == waited(old(self).waiters(), old(pool)@, tid).0
                &&& final(pool)@ == waited(old(self).waiters(), old(pool)@, tid).1
            },
            final(pool).wf(),
    {
        if self.count > 0 {
            self.count = self.count - 1;
            Acquire::Acquired
        } else if self.cvar._wait(pool, tid) {
            Acquire::Parked
        } else {
            Acquire::Retry
        }
    }

    /// Takes a permit if one is free, and never blocks.
    pub fn try_acquire(&mut self) -> (r: bool)
        ensures
            r == (old(self).count() > 0),
            (final(self).count(), r) == taken(old(self).count()),
            old(self).count() >= 0 ==> final(self).count() >= 0,
            final(self).count() == (if r {
                old(self).count() - 1
            } else {
                old(self).count()
            }),
            final(self).waiters() == old(self).waiters(),
    {
        if self.count > 0 {
            self.count = self.count - 1;
            true
        } else {
            false
        }
    }

    /// Gives a permit back and wakes the oldest waiter.
    pub fn release<C>(&mut self, pool: &mut ThreadPool<C>)
        requires
            old(pool).wf(),
            old(self).count() < isize::MAX,
        ensures
            final(self).count() == old(self).count() + 1,
            final(self).waiters() == notified_one(old(self).waiters(), old(pool)@).0,
            final(pool)@ == notified_one(old(self).waiters(), old(pool)@).1,
            final(pool).wf(),
    {
        self.count = self.count + 1;
        self.cvar.notify_one(pool);
    }
}

/// The free permits after an attempt to take one, and whether it got one.
pub open spec fn taken(count: int) -> (int, bool) {
    if count > 0 {
        (count - 1, true)
    } else {
        (count, false)
    }
}

/// What a user of a semaphore does next.
pub ghost enum SemStep {
    /// The user asks for a permit.
    Acquire(nat),
    /// The user gives its permit back.
    Release(nat),
}

/// A semaphore in use: its free permits, and the users that hold one.
#[verifier::ext_equal]
pub ghost struct SemUse {
    pub count: int,
    pub inside: Set<nat>,
}

impl SemUse {
    /// A semaphore with `count` permits that nobody holds.
    pub open spec fn start(count: int) -> SemUse {
        SemUse { count, inside: Set::empty() }
    }

    /// One step: a user that holds no permit takes one if one is free, as
    /// `acquire` and `try_acquire` decide; a user that holds one gives it
    /// back, as `release` does. Any other step changes nothing.
    pub open spec fn step(self, step: SemStep) -> SemUse {
        match step {
            SemStep::Acquire(user) => if !self.inside.contains(user) && taken(self.count).1 {
                SemUse { count: taken(self.count).0, inside: self.inside.insert(user) }
            } else {
                self
            },
            SemStep::Release(user) => if self.inside.contains(user) {
                SemUse { count: self.count + 1, inside: self.inside.remove(user) }
            } else {
                self
            },
        }
    }

    /// The state after the first `n` of `steps`.
    pub open spec fn run(self, steps: Seq<SemStep>, n: nat) -> SemUse
        decreases n,
    {
        if n == 0 || n > steps.len() {
            self
        } else {
            self.run(steps, (n - 1) as nat).step(steps[n - 1])
        }
    }
}

/// A semaphore bounds its users. Whatever the users of a semaphore with
/// `permits` permits do and in whatever order, at every moment the users that
/// hold a permit are at most `permits`, and together with the free permits
/// exactly `permits`. So while a user has to wait, because no permit is free,
/// another holds one and has still to give it back, which wakes the oldest
/// waiter: the users never all wait for each other.
pub proof fn lemma_semaphore_bounds_its_users(permits: int, steps: Seq<SemStep>, n: nat)
    requires
        permits >= 0,
    ensures
        SemUse::start(permits).run(steps, n).inside.finite(),
        SemUse::start(permits).run(steps, n).inside.len() <= permits,
        SemUse::start(permits).run(steps, n).count >= 0,
        SemUse::start(permits).run(steps, n).count + SemUse::start(permits).run(
            steps,
            n,
        ).inside.len() == permits,
        permits > 0 && SemUse::start(permits).run(steps, n).count == 0 ==> SemUse::start(
            permits,
        ).run(steps, n).inside.len() > 0,
    decreases n,
{
    if n > 0 && n <= steps.len() {
        lemma_semaphore_bounds_its_users(permits, steps, (n - 1) as nat);
    }
}

} // verus!
