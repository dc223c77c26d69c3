//! The per-CPU executor. It owns the context of the scheduler loop and, while
//! a thread runs, the context of that thread. The code that switches stacks
//! calls `run` once per turn of the loop and does what the answer says.

use crate::scheduler::Tid;
use crate::thread_pool::{lemma_run_inv, lemma_stop_inv, lemma_tick_inv, PoolState, Status, ThreadPool};
use vstd::prelude::*;

verus! {

/// What the scheduler loop does after a call of `run`.
#[derive(Clone, Copy, Debug, PartialEq, Eq, Structural)]
pub enum RunAction {
    /// Switch from the loop context into the context of this thread. The
    /// switch returns when the thread yields.
    Switch(Tid),
    /// Nothing to run: enable interrupts, wait for one, disable them again.
    Idle,
}

/// Mathematical state of an initialized processor.
#[verifier::ext_equal]
pub ghost struct CpuState<C> {
    /// Id of the CPU.
    pub id: usize,
    /// The thread in the slot, with its context.
    pub proc: Option<(Tid, C)>,
    /// The saved state of the scheduler loop.
    pub loop_context: C,
    /// The CPU executes the thread in the slot, not the scheduler loop.
    pub on_thread: bool,
}

impl<C> CpuState<C> {
    /// Id of the thread in the slot.
    pub open spec fn current(self) -> Option<Tid> {
        match self.proc {
            Some((tid, _)) => Some(tid),
            None => None,
        }
    }

    /// Context of the thread in the slot.
    pub open spec fn context(self) -> Option<C> {
        match self.proc {
            Some((_, context)) => Some(context),
            None => None,
        }
    }

    /// The processor and the pool tell the same story: the pool has a thread
    /// as running on this CPU exactly if it is the one in the slot.
    pub open spec fn agrees(self, pool: PoolState<C>) -> bool {
        forall|tid: Tid| #[trigger]
            pool.status(tid) == Some(Status::Running(self.id)) <==> self.current() == Some(tid)
    }

    /// The pool after the thread in the slot, if any, was handed back.
    pub open spec fn handed_back(self, pool: PoolState<C>) -> PoolState<C> {
        match self.proc {
            Some((tid, context)) => pool.stop(tid, context),
            None => pool,
        }
    }

    /// One turn of the scheduler loop: the thread that yielded goes back to the
    /// pool and the next one is taken.
    pub open spec fn run(self, pool: PoolState<C>) -> (Self, PoolState<C>, RunAction) {
        let (pool2, next) = self.handed_back(pool).run(self.id);
        (
            CpuState { proc: next, on_thread: next is Some, ..self },
            pool2,
            match next {
                Some((tid, _)) => RunAction::Switch(tid),
                None => RunAction::Idle,
            },
        )
    }

    /// A timer interrupt: the pool is told, and a thread that is to be
    /// preempted gives up the CPU.
    pub open spec fn tick(self, pool: PoolState<C>) -> (Self, PoolState<C>, bool) {
        let (pool2, preempt) = pool.tick(self.id, self.current());
        (
            CpuState { on_thread: if preempt {
                false
            } else {
                self.on_thread
            }, ..self },
            pool2,
            preempt,
        )
    }
}

/// A turn of the scheduler loop keeps the pool's invariant.
pub proof fn lemma_cpu_run_inv<C>(cpu: CpuState<C>, pool: PoolState<C>)
    requires
        pool.inv(),
    ensures
        cpu.handed_back(pool).inv(),
        cpu.run(pool).1.inv(),
{
    match cpu.proc {
        Some((tid, context)) => {
            lemma_stop_inv(pool, tid, context);
        },
        None => {},
    }
    lemma_run_inv(cpu.handed_back(pool), cpu.id);
}

struct ProcessorInner<C> {
    id: usize,
    proc: Option<(Tid, C)>,
    loop_context: C,
    on_thread: bool,
}

/// The executor of one CPU. It is made empty, then installed once with `init`.
pub struct Processor<C> {
    inner: Option<ProcessorInner<C>>,
}

impl<C> Processor<C> {
    /// `init` has been called.
    pub closed spec fn is_initialized(&self) -> bool {
        self.inner is Some
    }

    pub closed spec fn view(&self) -> CpuState<C> {
        CpuState {
            id: self.inner->0.id,
            proc: self.inner->0.proc,
            loop_context: self.inner->0.loop_context,
            on_thread: self.inner->0.on_thread,
        }
    }

    /// A processor that is not installed yet.
    pub fn new() -> (r: Self)
        ensures
            !r.is_initialized(),
    {
        Processor { inner: None }
    }

    /// Installs the processor of CPU `id` with the context of its scheduler
    /// loop. No thread is in the slot.
    pub fn init(&mut self, id: usize, context: C)
        ensures
            final(self).is_initialized(),
            final(self)@ == (CpuState { id, proc: None, loop_context: context, on_thread: false }),
    {
        self.inner = Some(ProcessorInner { id, proc: None, loop_context: context, on_thread: false });
    }

    /// Has `init` been called?
    pub fn initialized(&self) -> (r: bool)
        ensures
            r == self.is_initialized(),
    {
        self.inner.is_some()
    }

    /// Id of the CPU.
    pub fn id(&self) -> (r: usize)
        requires
            self.is_initialized(),
        ensures
            r == self@.id,
    {
        match &self.inner {
            Some(inner) => inner.id,
            None => 0,
        }
    }

    /// One turn of the scheduler loop, to be called with interrupts disabled.
    /// The thread that has yielded, if one is in the slot, goes back to the
    /// pool; then the pool is asked for the next thread of this CPU. The
    /// answer tells the caller whether to switch into it or to wait.
    pub fn run(&mut self, pool: &mut ThreadPool<C>) -> (r: RunAction)
        requires
            old(self).is_initialized(),
            old(pool).wf(),
        ensures
            final(self).is_initialized(),
            final(self)@ == old(self)@.run(old(pool)@).0,
            final(pool)@ == old(self)@.run(old(pool)@).1,
            r == old(self)@.run(old(pool)@).2,
            final(pool).wf(),
    {
        match &mut self.inner {
            Some(inner) => {
                proof {
                    lemma_cpu_run_inv(old(self)@, pool@);
                    lemma_run_inv(old(self)@.handed_back(pool@), inner.id);
                }
                match inner.proc.take() {
                    Some((tid, context)) => {
                        pool.stop(tid, context);
                    },
                    None => {},
                }
                match pool.run(inner.id) {
                    Some((tid, context)) => {
                        inner.proc = Some((tid, context));
                        inner.on_thread = true;
                        RunAction::Switch(tid)
                    },
                    None => {
                        inner.on_thread = false;
                        RunAction::Idle
                    },
                }
            },
            None => RunAction::Idle,
        }
    }

    /// The running thread gives up the CPU: control goes back to the scheduler
    /// loop. The caller saves the interrupt flags, disables interrupts,
    /// switches from the thread's context to the loop context and, when the
    /// thread is resumed, restores the flags.
    pub fn yield_now(&mut self)
        requires
            old(self).is_initialized(),
            old(self)@.proc is Some,
        ensures
            final(self).is_initialized(),
            final(self)@ == (CpuState { on_thread: false, ..old(self)@ }),
    {
        match &mut self.inner {
            Some(inner) => {
                inner.on_thread = false;
            },
            None => {},
        }
    }

    /// Id of the thread in the slot.
    pub fn tid(&self) -> (r: Tid)
        requires
            self.is_initialized(),
            self@.proc is Some,
        ensures
            Some(r) == self@.current(),
    {
        match &self.inner {
            Some(inner) => match &inner.proc {
                Some(p) => p.0,
                None => 0,
            },
            None => 0,
        }
    }

    /// Id of the thread in the slot, or `None` when the CPU is idle.
    pub fn current(&self) -> (r: Option<Tid>)
        requires
            self.is_initialized(),
        ensures
            r == self@.current(),
    {
        match &self.inner {
            Some(inner) => match &inner.proc {
                Some(p) => Some(p.0),
                None => None,
            },
            None => None,
        }
    }

    /// Does the CPU execute the thread in the slot, and not the scheduler loop?
    pub fn is_on_thread(&self) -> (r: bool)
        requires
            self.is_initialized(),
        ensures
            r == self@.on_thread,
    {
        match &self.inner {
            Some(inner) => inner.on_thread,
            None => false,
        }
    }

    /// Context of the thread in the slot.
    pub fn context(&self) -> (r: &C)
        requires
            self.is_initialized(),
            self@.proc is Some,
        ensures
            Some(*r) == self@.context(),
    {
        match &self.inner {
            Some(inner) => match &inner.proc {
                Some(p) => &p.1,
                None => &inner.loop_context,
            },
            None => vstd::pervasive::unreached(),
        }
    }

    /// The loop context and the context of the thread in the slot, for the code
    /// that switches from one to the other. The switch changes what the two
    /// hold and nothing else.
    pub fn contexts_mut(&mut self) -> (r: (&mut C, &mut C))
        requires
            old(self).is_initialized(),
            old(self)@.proc is Some,
        ensures
            *r.0 == old(self)@.loop_context,
            Some(*r.1) == old(self)@.context(),
            final(self).is_initialized(),
            final(self)@ == (CpuState {
                loop_context: *final(r.0),
                proc: Some((old(self)@.current()->0, *final(r.1))),
                ..old(self)@
            }),
    {
        match &mut self.inner {
            Some(inner) => match &mut inner.proc {
                Some(p) => (&mut inner.loop_context, &mut p.1),
                None => vstd::pervasive::unreached(),
            },
            None => vstd::pervasive::unreached(),
        }
    }

    /// Puts `context` in the place of the context of the thread in the slot,
    /// which goes on under its id, and returns the old one.
    pub fn replace_context(&mut self, context: C) -> (r: C)
        requires
            old(self).is_initialized(),
            old(self)@.proc is Some,
        ensures
            final(self).is_initialized(),
            Some(r) == old(self)@.context(),
            final(self)@ == (CpuState {
                proc: Some((old(self)@.current()->0, context)),
                ..old(self)@
            }),
    {
        match &mut self.inner {
            Some(inner) => match inner.proc.take() {
                Some((tid, old_context)) => {
                    inner.proc = Some((tid, context));
                    old_context
                },
                None => context,
            },
            None => context,
        }
    }

    /// Called by the timer interrupt handler, with interrupts disabled. The
    /// pool is told of the tick. Where it asks for preemption the running
    /// thread yields: the result is `true` and the caller switches to the loop
    /// context. On an idle CPU nothing is charged and the result is `false`.
    pub fn tick(&mut self, pool: &mut ThreadPool<C>) -> (r: bool)
        requires
            old(self).is_initialized(),
            old(pool).wf(),
        ensures
            final(self).is_initialized(),
            final(self)@ == old(self)@.tick(old(pool)@).0,
            final(pool)@ == old(self)@.tick(old(pool)@).1,
            r == old(self)@.tick(old(pool)@).2,
            final(pool).wf(),
    {
        match &mut self.inner {
            Some(inner) => {
                let tid = match &inner.proc {
                    Some(p) => Some(p.0),
                    None => None,
                };
                proof {
                    lemma_tick_inv(pool@, inner.id, tid);
                }
                let need_reschedule = pool.tick(inner.id, tid);
                if need_reschedule {
                    inner.on_thread = false;
                }
                need_reschedule
            },
            None => false,
        }
    }
}

} // verus!
