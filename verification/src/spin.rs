//! Spinlocks as the scheduler sees them: a flag, and for the interrupt-safe
//! kind the interrupt flags that were saved when the lock was taken. Turning
//! interrupts off and on is done by the caller; the lock says which flags go
//! back when.

use vstd::prelude::*;

verus! {

/// How a lock treats the interrupts of the CPU that holds it.
#[derive(Clone, Copy, Debug, PartialEq, Eq, Structural)]
pub enum LockKind {
    /// Test-and-set only; interrupts are left as they are.
    Spin,
    /// Interrupts stay disabled while the lock is held and get their old
    /// state back at release.
    SpinNoIrq,
}

/// Mathematical state of a lock.
pub ghost struct LockState {
    pub kind: LockKind,
    pub locked: bool,
    /// Interrupt flags to restore at release.
    pub saved: Option<usize>,
}

impl LockState {
    /// The flags are kept exactly while an interrupt-safe lock is held.
    pub open spec fn inv(self) -> bool {
        self.saved is Some <==> (self.locked && self.kind == LockKind::SpinNoIrq)
    }

    /// An attempt to take the lock with the caller's saved interrupt flags.
    pub open spec fn try_lock(self, flags: usize) -> (LockState, bool) {
        if self.locked {
            (self, false)
        } else {
            (
                LockState {
                    locked: true,
                    saved: if self.kind == LockKind::SpinNoIrq {
                        Some(flags)
                    } else {
                        None
                    },
                    ..self
                },
                true,
            )
        }
    }

    /// Release: the state after, and the flags the caller restores.
    pub open spec fn unlock(self) -> (LockState, Option<usize>) {
        (LockState { locked: false, saved: None, ..self }, self.saved)
    }
}

/// A spinlock of either kind.
pub struct SpinLock {
    kind: LockKind,
    locked: bool,
    saved: Option<usize>,
}

impl SpinLock {
    pub closed spec fn view(&self) -> LockState {
        LockState { kind: self.kind, locked: self.locked, saved: self.saved }
    }

    pub open spec fn wf(&self) -> bool {
        self@.inv()
    }

    /// A free lock of the given kind.
    pub fn new(kind: LockKind) -> (r: Self)
        ensures
            r.wf(),
            r@ == (LockState { kind, locked: false, saved: None }),
    {
        SpinLock { kind, locked: false, saved: None }
    }

    /// Is the lock held?
    pub fn is_locked(&self) -> (r: bool)
        ensures
            r == self@.locked,
    {
        self.locked
    }

    /// One attempt to take the lock. For an interrupt-safe lock the caller has
    /// disabled interrupts and passes the flags it got; they are kept for the
    /// release. On `false` the lock is held by another party: the caller
    /// restores its flags and tries again.
    pub fn try_lock(&mut self, flags: usize) -> (r: bool)
        requires
            old(self).wf(),
        ensures
            final(self)@ == old(self)@.try_lock(flags).0,
            r == old(self)@.try_lock(flags).1,
            final(self).wf(),
    {
        if self.locked {
            false
        } else {
            self.locked = true;
            self.saved = match self.kind {
                LockKind::SpinNoIrq => Some(flags),
                LockKind::Spin => None,
            };
            true
        }
    }

    /// Releases the lock. Returns the interrupt flags that the caller has to
    /// restore: `Some` exactly for an interrupt-safe lock that was held.
    pub fn unlock(&mut self) -> (r: Option<usize>)
        requires
            old(self).wf(),
        ensures
            final(self)@ == old(self)@.unlock().0,
            r == old(self)@.unlock().1,
            final(self).wf(),
    {
        self.locked = false;
        self.saved.take()
    }
}

/// A counter that threads increment under a lock: each takes the lock, reads
/// the counter, writes the value it read plus one, and releases the lock.
#[verifier::ext_equal]
pub ghost struct Guarded {
    pub lock: LockState,
    /// The thread that holds the lock.
    pub holder: Option<nat>,
    /// What the holder has read, once it has.
    pub read: Option<int>,
    pub counter: int,
    /// How many times a thread has been through.
    pub rounds: int,
}

impl Guarded {
    /// A free lock and a counter at `counter`.
    pub open spec fn start(kind: LockKind, counter: int) -> Guarded {
        Guarded {
            lock: LockState { kind, locked: false, saved: None },
            holder: None,
            read: None,
            counter,
            rounds: 0,
        }
    }

    /// The lock is held exactly while a thread is between taking and
    /// releasing it, and the holder has read what the counter still holds.
    pub open spec fn inv(self) -> bool {
        &&& self.lock.inv()
        &&& self.lock.locked <==> self.holder is Some
        &&& self.read is Some ==> self.holder is Some && self.read->0 == self.counter
    }

    /// Thread `thread` does its next step, with `flags` as its interrupt
    /// flags: without the lock it tries to take it, and stays where it is if
    /// it fails; with the lock it reads, then writes and releases.
    pub open spec fn step(self, thread: nat, flags: usize) -> Guarded {
        if self.holder == Some(thread) {
            match self.read {
                None => Guarded { read: Some(self.counter), ..self },
                Some(value) => Guarded {
                    lock: self.lock.unlock().0,
                    holder: None,
                    read: None,
                    counter: value + 1,
                    rounds: self.rounds + 1,
                },
            }
        } else if self.lock.try_lock(flags).1 {
            Guarded { lock: self.lock.try_lock(flags).0, holder: Some(thread), ..self }
        } else {
            self
        }
    }

    /// The state after the threads have done the first `n` of `steps`, one
    /// after the other, whoever's turn it is.
    pub open spec fn run(self, steps: Seq<(nat, usize)>, n: nat) -> Guarded
        decreases n,
    {
        if n == 0 || n > steps.len() {
            self
        } else {
            self.run(steps, (n - 1) as nat).step(steps[n - 1].0, steps[n - 1].1)
        }
    }
}

/// No increment under the lock is lost. In whatever order the threads take
/// their steps, at most one of them is between taking and releasing the
/// lock, nobody else gets it meanwhile, and the counter has grown by one for
/// each time that a thread has been through.
pub proof fn lemma_guarded_counter_counts(
    kind: LockKind,
    counter: int,
    steps: Seq<(nat, usize)>,
    n: nat,
)
    ensures
        Guarded::start(kind, counter).run(steps, n).inv(),
        Guarded::start(kind, counter).run(steps, n).counter == counter + Guarded::start(
            kind,
            counter,
        ).run(steps, n).rounds,
    decreases n,
{
    if n > 0 && n <= steps.len() {
        lemma_guarded_counter_counts(kind, counter, steps, (n - 1) as nat);
    }
}

/// A lock that is held is not given to another: every attempt fails and
/// changes nothing until the holder releases it, and the attempt after the
/// release succeeds.
pub proof fn lemma_lock_is_exclusive(lock: LockState, flags: usize, other: usize)
    requires
        lock.inv(),
        lock.try_lock(flags).1,
    ensures
        lock.try_lock(flags).0.inv(),
        lock.try_lock(flags).0.try_lock(other) == (lock.try_lock(flags).0, false),
        lock.try_lock(flags).0.unlock().0.inv(),
        lock.try_lock(flags).0.unlock().0.try_lock(other).1,
        lock.kind == LockKind::SpinNoIrq ==> lock.try_lock(flags).0.unlock().1 == Some(flags),
{
}

} // verus!
