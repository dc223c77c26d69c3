//! The system calls of the scheduler core. Each takes the kernel state and
//! the id of the calling thread. What only the memory manager can do, the
//! checks of user pointers above all, is done by the caller, who passes the
//! outcome; what only the CPU can do, giving up the processor, is left to the
//! caller, who is told when.

use crate::condvar::{
    lemma_notified, lemma_queue_keeps_alive, lemma_queue_keeps_slots, notified, notified_one,
    waited,
};
use crate::errno::{SysError, SysResult};
use crate::exit_codes::{is_first, Pid};
use crate::process::{
    cleared, exit_all, fresh_proc, grow, lemma_collected_inv, lemma_ended_inv, lemma_killed_inv,
    lemma_left_inv, lemma_new_proc_inv, lemma_new_thread_inv, lemma_quiet_change_inv,
    lemma_without_thread_inv, lemma_without_threads_inv, orphan_children, orphaned, put,
    release_held, remove_all, without, Kernel, KernelState, ProcState, Process, ThreadInfo,
};
use crate::processor::{CpuState, Processor};
use crate::scheduler::Tid;
use crate::thread_pool::{
    lemma_acquire_inv, lemma_alive_stays, lemma_exit_inv, lemma_first_free_unique,
    lemma_kept_slot_stays, lemma_set_inv, lemma_sleep_for_inv, lemma_sleep_inv,
};
use vstd::prelude::*;

verus! {

/// How a `wait4` ended.
#[derive(Clone, Copy, Debug, PartialEq, Eq, Structural)]
pub enum Wait4 {
    /// A child has ended: its pid, and the low 8 bits of its exit code for the
    /// status word, if the caller asked for one.
    Exited(Pid, i32),
    /// No child has ended yet. The caller is parked: it gives up the CPU and
    /// makes the call again when it is resumed.
    Blocked,
}

/// The child whose code a `wait4` for `pid` collects: for `pid` 0 or -1 the
/// one with the lowest pid among those that have ended, else the process
/// `pid` if it has ended.
pub open spec fn wait_target(codes: Map<Pid, usize>, pid: isize) -> Option<Pid> {
    if pid <= 0 {
        if exists|p: Pid| is_first(codes, p) {
            Some(choose|p: Pid| is_first(codes, p))
        } else {
            None
        }
    } else if codes.dom().contains(pid as usize) {
        Some(pid as usize)
    } else {
        None
    }
}

/// A `wait4` for `pid` has nothing to wait for: no child, or no such child.
pub open spec fn wait_invalid(children: Seq<Pid>, pid: isize) -> bool {
    if pid <= 0 {
        children.len() == 0
    } else {
        !children.contains(pid as usize)
    }
}

impl<C> KernelState<C> {
    /// `wait4` by thread `tid`.
    pub open spec fn sys_wait4(self, tid: Tid, pid: isize, wstatus_check: Result<(), SysError>) -> (
        Self,
        Result<Wait4, SysError>,
    ) {
        if wstatus_check is Err {
            (self, Err(wstatus_check->Err_0))
        } else if pid < -1 {
            (self, Err(SysError::ENOSYS))
        } else if self.caller(tid) is None {
            (self, Err(SysError::ESRCH))
        } else {
            let cur = self.caller(tid)->0;
            let p = self.proc(cur);
            match wait_target(p.exit_codes, pid) {
                Some(child) => (
                    self.collected(cur, child),
                    Ok(Wait4::Exited(child, (p.exit_codes[child] % 256) as i32)),
                ),
                None => if wait_invalid(p.children, pid) {
                    (self, Err(SysError::ECHILD))
                } else {
                    let w = waited(p.child_exit, self.pool, tid);
                    (
                        KernelState {
                            pool: w.1,
                            procs: self.procs.update(
                                cur as int,
                                Some(ProcState { child_exit: w.0, ..p }),
                            ),
                            ..self
                        },
                        Ok(Wait4::Blocked),
                    )
                },
            }
        }
    }
}

/// Does `list` hold `v`?
fn holds(list: &Vec<usize>, v: usize) -> (r: bool)
    ensures
        r == list@.contains(v),
{
    let mut i: usize = 0;
    while i < list.len()
        invariant
            i <= list@.len(),
            forall|j: int| 0 <= j < i ==> list@[j] != v,
        decreases list@.len() - i,
    {
        if list[i] == v {
            return true;
        }
        i += 1;
    }
    false
}

/// Waits for a child of the caller to end and collects its exit code. With
/// `pid` 0 or -1 any child will do, and of those that have ended the one with
/// the lowest pid is taken; with a positive `pid` only that child. A `pid`
/// below -1, which stands for a process group, is refused with `ENOSYS` and
/// nothing changes. The code
/// is handed out once: it leaves the table with this call. Where no code is
/// there yet, the call fails with `ECHILD` if there is nobody to wait for, and
/// else parks the caller on the queue that ending children notify.
///
/// `wstatus_check` is what the check of the status pointer gave, `Ok` also for
/// a null pointer; an error there is returned as it is.
pub fn sys_wait4<C>(
    kernel: &mut Kernel<C>,
    tid: Tid,
    pid: isize,
    wstatus_check: Result<(), SysError>,
) -> (r: Result<Wait4, SysError>)
    requires
        old(kernel).wf(),
    ensures
        final(kernel)@ == old(kernel)@.sys_wait4(tid, pid, wstatus_check).0,
        r == old(kernel)@.sys_wait4(tid, pid, wstatus_check).1,
        final(kernel).wf(),
{
    match wstatus_check {
        Err(e) => {
            return Err(e);
        },
        Ok(_) => {},
    }
    if pid < -1 {
        return Err(SysError::ENOSYS);
    }
    let cur = match kernel.caller(tid) {
        Some(cur) => cur,
        None => {
            return Err(SysError::ESRCH);
        },
    };
    let any = pid <= 0;
    let target: usize = if any {
        0
    } else {
        pid as usize
    };
    let ghost s = kernel@;
    let ghost p0 = s.proc(cur);
    match &mut kernel.procs[cur] {
        Some(p) => {
            let found = if any {
                p.child_exit_code.first()
            } else {
                match p.child_exit_code.get(target) {
                    Some(code) => Some((target, code)),
                    None => None,
                }
            };
            proof {
                if any {
                    match found {
                        Some((child, _)) => {
                            let c = choose|q: Pid| is_first(p0.exit_codes, q);
                            assert(is_first(p0.exit_codes, child));
                            assert(is_first(p0.exit_codes, c));
                        },
                        None => {
                            assert forall|q: Pid| !is_first(p0.exit_codes, q) by {
                                assert(!p0.exit_codes.dom().contains(q));
                            }
                        },
                    }
                }
                assert(found is Some <==> wait_target(p0.exit_codes, pid) is Some);
                assert(found matches Some((child, code)) ==> wait_target(p0.exit_codes, pid)
                    == Some(child) && p0.exit_codes[child] == code);
            }
            match found {
                Some((child, code)) => {
                    p.child_exit_code.remove(child);
                    kernel.pool.unkeep(child);
                    proof {
                        assert(kernel@.procs == s.procs.update(
                            cur as int,
                            Some(ProcState { exit_codes: p0.exit_codes.remove(child), ..p0 }),
                        ));
                        assert(s.zombie_of(child, cur));
                        lemma_collected_inv(s, cur, child);
                    }
                    Ok(Wait4::Exited(child, (code % 256) as i32))
                },
                None => {
                    let invalid = if any {
                        p.children.len() == 0
                    } else {
                        !holds(&p.children, target)
                    };
                    if invalid {
                        assert(kernel@.procs == s.procs);
                        return Err(SysError::ECHILD);
                    }
                    proof {
                        if s.pool.can_acquire(tid) {
                            lemma_acquire_inv(s.pool, tid);
                            lemma_sleep_inv(s.pool.acquire(tid), tid);
                        }
                    }
                    p.child_exit._wait(&mut kernel.pool, tid);
                    proof {
                        assert(kernel@.procs == s.procs.update(
                            cur as int,
                            Some(
                                ProcState {
                                    child_exit: waited(p0.child_exit, s.pool, tid).0,
                                    ..p0
                                },
                            ),
                        ));
                        assert forall|t: Tid| s.pool.keeps(t) implies #[trigger] kernel@.pool.keeps(
                            t,
                        ) by {
                            lemma_kept_slot_stays(s.pool, t, tid, 0, 0, 0, arbitrary());
                            lemma_kept_slot_stays(s.pool.acquire(tid), t, tid, 0, 0, 0, arbitrary());
                        }
                        assert forall|t: Tid, q: Pid| #[trigger] s.lists(t, q) implies kernel@.pool.alive(
                            t,
                        ) by {
                            lemma_alive_stays(s.pool, t, tid, 0, 0, 0, arbitrary());
                            if s.pool.can_acquire(tid) {
                                lemma_alive_stays(s.pool.acquire(tid), t, tid, 0, 0, 0, arbitrary());
                            }
                        }
                        lemma_quiet_change_inv(s, kernel@);
                    }
                    Ok(Wait4::Blocked)
                },
            }
        },
        None => Err(SysError::ESRCH),
    }
}

/// Flags with which `clone` is a `fork`.
pub const CLONE_AS_FORK: usize = 0x4111;

/// Flags with which `clone` makes a thread in the caller's process.
pub const CLONE_AS_THREAD: usize = 0x7d0f00;

/// Timer ticks per second.
pub const TICKS_PER_SECOND: usize = 100;

/// Nanoseconds per timer tick.
pub const NANOS_PER_TICK: usize = 10_000_000;

impl<C> KernelState<C> {
    /// The id that the next new thread gets.
    pub open spec fn free_tid(self) -> Tid {
        choose|tid: Tid| self.pool.is_first_free(tid)
    }

    /// `fork` by thread `tid`, with the context that was made for the child.
    /// The pid of the child is the id of its thread.
    pub open spec fn sys_fork(self, tid: Tid, context: C) -> (Self, SysResult) {
        match self.caller(tid) {
            Some(cur) => (
                self.with_new_proc(self.free_tid(), Some(cur), context),
                Ok(self.free_tid()),
            ),
            None => (self, Err(SysError::ESRCH)),
        }
    }

    /// `clone` by thread `tid`, with the context that was made for the new
    /// thread.
    pub open spec fn sys_clone(
        self,
        tid: Tid,
        flags: usize,
        parent_tid_check: Result<(), SysError>,
        child_tid_check: Result<(), SysError>,
        child_tid: usize,
        context: C,
    ) -> (Self, SysResult) {
        if flags == CLONE_AS_FORK {
            self.sys_fork(tid, context)
        } else if flags != CLONE_AS_THREAD {
            (self, Err(SysError::ENOSYS))
        } else if parent_tid_check is Err {
            (self, Err(parent_tid_check->Err_0))
        } else if child_tid_check is Err {
            (self, Err(child_tid_check->Err_0))
        } else {
            match self.caller(tid) {
                Some(cur) => (
                    self.with_new_thread(cur, self.free_tid(), child_tid, context),
                    Ok(self.free_tid()),
                ),
                None => (self, Err(SysError::ESRCH)),
            }
        }
    }

    /// `exit` by thread `tid`.
    pub open spec fn sys_exit(self, tid: Tid, exit_code: usize) -> (Self, SysResult) {
        match self.caller(tid) {
            Some(pid) => {
                let info = self.info(tid)->0;
                let s1 = self.without_thread(pid, tid);
                let s2 = if s1.proc(pid).threads.len() == 0 {
                    s1.ended(pid, exit_code)
                } else {
                    s1
                };
                let s3 = if info.clear_child_tid != 0 && s2.has_proc(pid) {
                    s2.futex_woken(pid, info.clear_child_tid, 1)
                } else {
                    s2
                };
                (KernelState { pool: s3.pool.exit(tid, exit_code), ..s3 }, Ok(0))
            },
            None => (self, Err(SysError::ESRCH)),
        }
    }

    /// `exit_group` by thread `tid`.
    pub open spec fn sys_exit_group(self, tid: Tid, exit_code: usize) -> (Self, SysResult) {
        match self.caller(tid) {
            Some(pid) => (self.killed(pid, exit_code), Ok(0)),
            None => (self, Err(SysError::ESRCH)),
        }
    }

    /// `kill` of process `pid` by thread `tid`.
    pub open spec fn sys_kill(self, tid: Tid, pid: Pid, sig: usize) -> (Self, SysResult) {
        match self.caller(tid) {
            Some(cur) => if cur == pid {
                self.sys_exit_group(tid, sig)
            } else if self.has_proc(pid) {
                (self.killed(pid, sig), Ok(0))
            } else {
                (self, Err(SysError::EINVAL))
            },
            None => (self, Err(SysError::ESRCH)),
        }
    }

    /// `nanosleep` by thread `tid` for `sec` seconds and `nsec` nanoseconds.
    pub open spec fn sys_nanosleep(
        self,
        tid: Tid,
        req_check: Result<(), SysError>,
        sec: usize,
        nsec: usize,
    ) -> (Self, SysResult) {
        if req_check is Err {
            (self, Err(req_check->Err_0))
        } else {
            let ticks = sleep_ticks(sec, nsec);
            (
                if ticks > 0 {
                    KernelState { pool: self.pool.sleep_for(tid, ticks as usize), ..self }
                } else {
                    self
                },
                Ok(0),
            )
        }
    }
}

/// Timer ticks that a sleep of `sec` seconds and `nsec` nanoseconds lasts:
/// the duration in ticks, rounded down.
pub open spec fn sleep_ticks(sec: usize, nsec: usize) -> int {
    sec * TICKS_PER_SECOND + nsec / NANOS_PER_TICK
}

/// Exactly one thread id is the next to be given out.
pub proof fn lemma_free_tid<C>(s: KernelState<C>, tid: Tid)
    requires
        s.pool.is_first_free(tid),
    ensures
        s.free_tid() == tid,
{
    lemma_first_free_unique(s.pool, tid, s.free_tid());
}

/// Makes a child process of the caller's process, with one thread that runs
/// in `context`, the copy of the caller that the memory manager has made.
/// Returns the pid of the child, which is the id that the pool gave its
/// thread.
pub fn sys_fork<C>(kernel: &mut Kernel<C>, tid: Tid, context: C) -> (r: SysResult)
    requires
        old(kernel).wf(),
    ensures
        final(kernel)@ == old(kernel)@.sys_fork(tid, context).0,
        r == old(kernel)@.sys_fork(tid, context).1,
        final(kernel).wf(),
{
    let cur = match kernel.caller(tid) {
        Some(cur) => cur,
        None => {
            return Err(SysError::ESRCH);
        },
    };
    let ghost s = kernel@;
    let child = kernel.pool.add(context);
    proof {
        lemma_free_tid(s, child);
        lemma_new_proc_inv(s, child, Some(cur), context);
        assert(s.pool.keeps(cur));
        assert(cur != child);
    }
    kernel.pool.keep(child);
    grow(&mut kernel.procs, child);
    kernel.procs[child] = Some(Process::new(Some(cur), child));
    match &mut kernel.procs[cur] {
        Some(p) => {
            p.children.push(child);
        },
        None => {},
    }
    grow(&mut kernel.infos, child);
    kernel.infos[child] = Some(ThreadInfo { pid: child, clear_child_tid: 0 });
    proof {
        let procs = put(s.procs, child, fresh_proc(Some(cur), child));
        assert(kernel@.procs == procs.update(
            cur as int,
            Some(ProcState { children: s.proc(cur).children.push(child), ..s.proc(cur) }),
        ));
    }
    Ok(child)
}

/// Makes a new thread in the caller's process, or with the flags of a `fork`
/// a new process. Other flags are not supported. The new thread runs in
/// `context`; `child_tid` is the address whose futex is woken when it exits.
/// The checks of the two pointers to which the caller writes the new id come
/// as `parent_tid_check` and `child_tid_check`; an error there is returned as
/// it is.
pub fn sys_clone<C>(
    kernel: &mut Kernel<C>,
    tid: Tid,
    flags: usize,
    parent_tid_check: Result<(), SysError>,
    child_tid_check: Result<(), SysError>,
    child_tid: usize,
    context: C,
) -> (r: SysResult)
    requires
        old(kernel).wf(),
    ensures
        final(kernel)@ == old(kernel)@.sys_clone(
            tid,
            flags,
            parent_tid_check,
            child_tid_check,
            child_tid,
            context,
        ).0,
        r == old(kernel)@.sys_clone(
            tid,
            flags,
            parent_tid_check,
            child_tid_check,
            child_tid,
            context,
        ).1,
        final(kernel).wf(),
{
    if flags == CLONE_AS_FORK {
        return sys_fork(kernel, tid, context);
    }
    if flags != CLONE_AS_THREAD {
        return Err(SysError::ENOSYS);
    }
    match parent_tid_check {
        Err(e) => {
            return Err(e);
        },
        Ok(_) => {},
    }
    match child_tid_check {
        Err(e) => {
            return Err(e);
        },
        Ok(_) => {},
    }
    let cur = match kernel.caller(tid) {
        Some(cur) => cur,
        None => {
            return Err(SysError::ESRCH);
        },
    };
    let ghost s = kernel@;
    let new_tid = kernel.pool.add(context);
    proof {
        lemma_free_tid(s, new_tid);
    }
    match &mut kernel.procs[cur] {
        Some(p) => {
            p.threads.push(new_tid);
        },
        None => {},
    }
    grow(&mut kernel.infos, new_tid);
    kernel.infos[new_tid] = Some(ThreadInfo { pid: cur, clear_child_tid: child_tid });
    proof {
        assert(kernel@.procs == s.procs.update(
            cur as int,
            Some(ProcState { threads: s.proc(cur).threads.push(new_tid), ..s.proc(cur) }),
        ));
        lemma_new_thread_inv(s, cur, new_tid, child_tid, context);
    }
    Ok(new_tid)
}

/// Ends process `pid`, which is in the table.
fn end_process<C>(kernel: &mut Kernel<C>, pid: Pid, code: usize)
    requires
        old(kernel).wf(),
        old(kernel)@.has_proc(pid),
        old(kernel)@.proc(pid).threads.len() == 0,
    ensures
        final(kernel)@ == old(kernel)@.ended(pid, code),
        final(kernel).wf(),
{
    let ghost s = kernel@;
    proof {
        lemma_ended_inv(s, pid, code);
        lemma_left_inv(s, pid);
    }
    let (parent, orphan) = match &mut kernel.procs[pid] {
        Some(p) => {
            release_held(p, &mut kernel.pool);
            (p.parent, p.orphan)
        },
        None => (None, true),
    };
    kernel.procs[pid] = None;
    orphan_children(&mut kernel.procs, pid);
    let ghost s1 = kernel@;
    proof {
        assert(s1.procs =~= orphaned(s.procs, pid).update(pid as int, None));
        assert(s1 == s.left(pid));
    }
    let reported = match parent {
        Some(pp) => !orphan && pp < kernel.procs.len() && kernel.procs[pp].is_some(),
        None => false,
    };
    if reported {
        let pp = match parent {
            Some(pp) => pp,
            None => 0,
        };
        match &mut kernel.procs[pp] {
            Some(p) => {
                p.child_exit_code.insert(pid, code);
                remove_all(&mut p.children, pid);
                p.child_exit.notify_one(&mut kernel.pool);
                proof {
                    let p1 = s1.proc(pp);
                    assert(kernel@.procs == s1.procs.update(
                        pp as int,
                        Some(
                            ProcState {
                                exit_codes: p1.exit_codes.insert(pid, code),
                                children: without(p1.children, pid),
                                child_exit: notified_one(p1.child_exit, s1.pool).0,
                                ..p1
                            },
                        ),
                    ));
                }
            },
            None => {},
        }
    } else {
        kernel.pool.unkeep(pid);
    }
}

/// Ends all threads of process `pid`, which is in the table, and then the
/// process.
fn kill_process<C>(kernel: &mut Kernel<C>, pid: Pid, code: usize)
    requires
        old(kernel).wf(),
        old(kernel)@.has_proc(pid),
    ensures
        final(kernel)@ == old(kernel)@.killed(pid, code),
        final(kernel).wf(),
{
    let ghost s = kernel@;
    let ghost threads = s.proc(pid).threads;
    proof {
        lemma_without_threads_inv(s, pid, code);
    }
    let n = match &kernel.procs[pid] {
        Some(p) => p.threads.len(),
        None => 0,
    };
    let mut i: usize = 0;
    while i < n
        invariant
            i <= n,
            n == threads.len(),
            pid < kernel.procs@.len(),
            kernel.procs == old(kernel).procs,
            s == old(kernel)@,
            s.has_proc(pid),
            threads == s.proc(pid).threads,
            s.pool.inv(),
            kernel.pool.wf(),
            kernel.pool@ == exit_all(s.pool, threads, code, i as nat),
            kernel.infos@ == cleared(s.infos, threads.subrange(0, i as int)),
        decreases n - i,
    {
        let t = match &kernel.procs[pid] {
            Some(p) => p.threads[i],
            None => 0,
        };
        proof {
            lemma_exit_inv(kernel.pool@, t, code);
        }
        kernel.pool.exit(t, code);
        if t < kernel.infos.len() {
            kernel.infos[t] = None;
        }
        proof {
            let before = threads.subrange(0, i as int);
            let after = threads.subrange(0, i + 1);
            assert(after == before.push(t));
            assert forall|j: usize| after.contains(j) <==> (before.contains(j) || j == t) by {
                if before.contains(j) {
                    let k = choose|k: int| 0 <= k < before.len() && before[k] == j;
                    assert(after[k] == j);
                }
                if j == t {
                    assert(after[i as int] == t);
                }
            }
            assert(kernel.infos@ =~= cleared(s.infos, after));
        }
        i += 1;
    }
    assert(threads.subrange(0, n as int) == threads);
    match &mut kernel.procs[pid] {
        Some(p) => {
            p.threads.clear();
        },
        None => {},
    }
    proof {
        assert(kernel@.procs == s.procs.update(
            pid as int,
            Some(ProcState { threads: Seq::empty(), ..s.proc(pid) }),
        ));
        assert(kernel@ == s.without_threads(pid, code));
    }
    end_process(kernel, pid, code);
}

/// The calling thread exits with `exit_code`. It leaves its process; if it
/// was the last thread there the process ends: the parent gets the code and
/// the oldest thread that waits for a child is woken. One waiter on the
/// futex at the thread's clear-child-tid address, if it has one, is woken; the
/// caller has cleared the word there. Then the thread is ended in the pool.
/// The caller gives up the CPU and is not resumed.
pub fn sys_exit<C>(kernel: &mut Kernel<C>, tid: Tid, exit_code: usize) -> (r: SysResult)
    requires
        old(kernel).wf(),
    ensures
        final(kernel)@ == old(kernel)@.sys_exit(tid, exit_code).0,
        r == old(kernel)@.sys_exit(tid, exit_code).1,
        final(kernel).wf(),
{
    let pid = match kernel.caller(tid) {
        Some(pid) => pid,
        None => {
            return Err(SysError::ESRCH);
        },
    };
    let clear_child_tid = match kernel.info(tid) {
        Some(info) => info.clear_child_tid,
        None => 0,
    };
    let ghost s = kernel@;
    let ghost p0 = s.proc(pid);
    let last = match &mut kernel.procs[pid] {
        Some(p) => {
            remove_all(&mut p.threads, tid);
            p.threads.len() == 0
        },
        None => false,
    };
    if tid < kernel.infos.len() {
        kernel.infos[tid] = None;
    }
    let ghost s1 = kernel@;
    proof {
        assert(s1.procs == s.procs.update(
            pid as int,
            Some(ProcState { threads: without(p0.threads, tid), ..p0 }),
        ));
        assert(s1 == s.without_thread(pid, tid));
        lemma_without_thread_inv(s, pid, tid);
        if last {
            lemma_ended_inv(s1, pid, exit_code);
        }
    }
    if last {
        end_process(kernel, pid, exit_code);
    }
    let ghost s2 = kernel@;
    if clear_child_tid != 0 && pid < kernel.procs.len() {
        match &mut kernel.procs[pid] {
            Some(p) => {
                proof {
                    lemma_notified(p@.futexes[clear_child_tid], s2.pool, 1);
                }
                p.futexes.futex_wake(&mut kernel.pool, clear_child_tid, 1);
                proof {
                    let p2 = s2.proc(pid);
                    let r = notified(p2.futexes[clear_child_tid], s2.pool, 1);
                    let p3 = kernel@.proc(pid);
                    assert(p3.futexes[clear_child_tid] == r.0);
                    assert forall|a: usize| a != clear_child_tid implies #[trigger] p3.futexes[a]
                        == p2.futexes[a] by {}
                    assert(p3.futexes =~= p2.futexes.insert(clear_child_tid, r.0));
                    assert(kernel@.procs == s2.procs.update(
                        pid as int,
                        Some(
                            ProcState { futexes: p2.futexes.insert(clear_child_tid, r.0), ..p2 },
                        ),
                    ));
                    assert forall|t: Tid| s2.pool.keeps(t) implies #[trigger] kernel@.pool.keeps(
                        t,
                    ) by {
                        lemma_queue_keeps_slots(p2.futexes[clear_child_tid], s2.pool, 1, t);
                    }
                    assert forall|t: Tid, q: Pid| #[trigger] s2.lists(t, q) implies kernel@.pool.alive(
                        t,
                    ) by {
                        lemma_queue_keeps_alive(p2.futexes[clear_child_tid], s2.pool, 1, t);
                    }
                    lemma_quiet_change_inv(s2, kernel@);
                }
            },
            None => {
                assert(kernel@.procs == s2.procs);
            },
        }
    }
    let ghost s3 = kernel@;
    proof {
        lemma_exit_inv(s3.pool, tid, exit_code);
    }
    kernel.pool.exit(tid, exit_code);
    proof {
        assert forall|t: Tid| s3.pool.keeps(t) implies #[trigger] kernel@.pool.keeps(t) by {
            lemma_kept_slot_stays(s3.pool, t, tid, exit_code, 0, 0, arbitrary());
        }
        assert(s3.info(tid) is None);
        assert forall|t: Tid, q: Pid| #[trigger] s3.lists(t, q) implies kernel@.pool.alive(t) by {
            assert(s3.info(t) is Some);
            lemma_alive_stays(s3.pool, t, tid, exit_code, 0, 0, arbitrary());
        }
        lemma_quiet_change_inv(s3, kernel@);
    }
    Ok(0)
}

/// The process of the calling thread ends with `exit_code`: all its threads
/// are ended, its parent gets the code, and the oldest thread that waits there
/// for a child is woken. The caller gives up the CPU and is not resumed.
pub fn sys_exit_group<C>(kernel: &mut Kernel<C>, tid: Tid, exit_code: usize) -> (r: SysResult)
    requires
        old(kernel).wf(),
    ensures
        final(kernel)@ == old(kernel)@.sys_exit_group(tid, exit_code).0,
        r == old(kernel)@.sys_exit_group(tid, exit_code).1,
        final(kernel).wf(),
{
    match kernel.caller(tid) {
        Some(pid) => {
            kill_process(kernel, pid, exit_code);
            Ok(0)
        },
        None => Err(SysError::ESRCH),
    }
}

/// Kills process `pid` with signal `sig`: all its threads are ended with
/// `sig` as their code, and so is the process. A caller that kills its own
/// process gives up the CPU and is not resumed. `EINVAL` where no such
/// process is in the table.
pub fn sys_kill<C>(kernel: &mut Kernel<C>, tid: Tid, pid: Pid, sig: usize) -> (r: SysResult)
    requires
        old(kernel).wf(),
    ensures
        final(kernel)@ == old(kernel)@.sys_kill(tid, pid, sig).0,
        r == old(kernel)@.sys_kill(tid, pid, sig).1,
        final(kernel).wf(),
{
    let cur = match kernel.caller(tid) {
        Some(cur) => cur,
        None => {
            return Err(SysError::ESRCH);
        },
    };
    if cur == pid {
        sys_exit_group(kernel, tid, sig)
    } else if pid < kernel.procs.len() && kernel.procs[pid].is_some() {
        kill_process(kernel, pid, sig);
        Ok(0)
    } else {
        Err(SysError::EINVAL)
    }
}

/// Pid of the caller's process.
pub fn sys_getpid<C>(kernel: &Kernel<C>, tid: Tid) -> (r: SysResult)
    ensures
        r == (match kernel@.caller(tid) {
            Some(pid) => Ok(pid),
            None => Err(SysError::ESRCH),
        }),
{
    match kernel.caller(tid) {
        Some(pid) => Ok(pid),
        None => Err(SysError::ESRCH),
    }
}

/// Id of the calling thread.
pub fn sys_gettid(tid: Tid) -> (r: SysResult)
    ensures
        r == Ok::<usize, SysError>(tid),
{
    Ok(tid)
}

/// Pid of the parent of the caller's process, which has one.
pub fn sys_getppid<C>(kernel: &Kernel<C>, tid: Tid) -> (r: SysResult)
    requires
        kernel@.caller(tid) is Some,
        kernel@.proc(kernel@.caller(tid)->0).parent is Some,
    ensures
        r == Ok::<usize, SysError>(kernel@.proc(kernel@.caller(tid)->0).parent->0),
{
    match kernel.caller(tid) {
        Some(pid) => match kernel.parent(pid) {
            Some(parent) => Ok(parent),
            None => Err(SysError::ESRCH),
        },
        None => Err(SysError::ESRCH),
    }
}

/// Replaces the program of the calling thread. `name_check` is what copying
/// the program name from user memory gave; an error there is returned as it
/// is. A null argument vector is refused with `EINVAL`. Only then `load` is
/// called: it copies the arguments, reads the program they name and builds
/// the context in which it starts, or fails. On success the new context
/// takes the place of the caller's, under the same thread id, and the result
/// is 0; on failure nothing changes.
pub fn sys_exec<C, F: FnOnce() -> Result<C, SysError>>(
    cpu: &mut Processor<C>,
    name_check: Result<(), SysError>,
    argv_is_null: bool,
    load: F,
) -> (r: SysResult)
    requires
        old(cpu).is_initialized(),
        old(cpu)@.proc is Some,
        call_requires(load, ()),
    ensures
        final(cpu).is_initialized(),
        name_check matches Err(e) ==> r == Err::<usize, SysError>(e) && final(cpu)@ == old(cpu)@,
        name_check is Ok && argv_is_null ==> r == Err::<usize, SysError>(SysError::EINVAL)
            && final(cpu)@ == old(cpu)@,
        name_check is Ok && !argv_is_null ==> exists|loaded: Result<C, SysError>|
            call_ensures(load, (), loaded) && match loaded {
                Ok(context) => r == Ok::<usize, SysError>(0) && final(cpu)@ == (CpuState {
                    proc: Some((old(cpu)@.current()->0, context)),
                    ..old(cpu)@
                }),
                Err(e) => r == Err::<usize, SysError>(e) && final(cpu)@ == old(cpu)@,
            },
{
    match name_check {
        Err(e) => {
            return Err(e);
        },
        Ok(_) => {},
    }
    if argv_is_null {
        return Err(SysError::EINVAL);
    }
    let loaded = load();
    match loaded {
        Ok(context) => {
            let _old = cpu.replace_context(context);
            Ok(0)
        },
        Err(e) => Err(e),
    }
}

/// The running thread gives up the CPU for a turn and stays ready. The caller
/// switches to the scheduler loop.
pub fn sys_yield<C>(cpu: &mut Processor<C>) -> (r: SysResult)
    requires
        old(cpu).is_initialized(),
        old(cpu)@.proc is Some,
    ensures
        final(cpu).is_initialized(),
        final(cpu)@ == (CpuState { on_thread: false, ..old(cpu)@ }),
        r == Ok::<usize, SysError>(0),
{
    cpu.yield_now();
    Ok(0)
}

/// Parks the calling thread for the given time, counted in timer ticks of ten
/// milliseconds and rounded down; for less than a tick it is not parked. The
/// caller then gives up the CPU. `req_check` is what the check of the pointer
/// to the time gave; an error there is returned as it is.
pub fn sys_nanosleep<C>(
    kernel: &mut Kernel<C>,
    tid: Tid,
    req_check: Result<(), SysError>,
    sec: usize,
    nsec: usize,
) -> (r: SysResult)
    requires
        old(kernel).wf(),
        sleep_ticks(sec, nsec) <= usize::MAX,
    ensures
        final(kernel)@ == old(kernel)@.sys_nanosleep(tid, req_check, sec, nsec).0,
        r == old(kernel)@.sys_nanosleep(tid, req_check, sec, nsec).1,
        final(kernel).wf(),
{
    match req_check {
        Err(e) => {
            return Err(e);
        },
        Ok(_) => {},
    }
    assert(sec * TICKS_PER_SECOND <= sleep_ticks(sec, nsec));
    let ticks = sec * TICKS_PER_SECOND + nsec / NANOS_PER_TICK;
    if ticks > 0 {
        let ghost s = kernel@;
        proof {
            lemma_sleep_for_inv(kernel.pool@, tid, ticks);
        }
        kernel.pool.sleep_for(tid, ticks);
        proof {
            assert forall|t: Tid| s.pool.keeps(t) implies #[trigger] kernel@.pool.keeps(t) by {
                lemma_kept_slot_stays(s.pool, t, tid, 0, ticks, 0, arbitrary());
            }
            assert forall|t: Tid, q: Pid| #[trigger] s.lists(t, q) implies kernel@.pool.alive(
                t,
            ) by {
                lemma_alive_stays(s.pool, t, tid, 0, ticks, 0, arbitrary());
            }
            lemma_quiet_change_inv(s, kernel@);
        }
    }
    Ok(0)
}

/// Sets the priority of the calling thread to the low 8 bits of `priority`.
pub fn sys_set_priority<C>(kernel: &mut Kernel<C>, tid: Tid, priority: usize) -> (r: SysResult)
    requires
        old(kernel).wf(),
    ensures
        final(kernel)@ == (KernelState {
            pool: old(kernel)@.pool.set_priority(tid, (priority % 256) as u8),
            ..old(kernel)@
        }),
        r == Ok::<usize, SysError>(0),
        final(kernel).wf(),
{
    let ghost s = kernel@;
    proof {
        lemma_set_inv(kernel.pool@, tid, (priority % 256) as u8, None);
    }
    kernel.pool.set_priority(tid, (priority % 256) as u8);
    proof {
        assert forall|t: Tid| s.pool.keeps(t) implies #[trigger] kernel@.pool.keeps(t) by {
            lemma_kept_slot_stays(s.pool, t, tid, 0, 0, (priority % 256) as u8, arbitrary());
        }
        assert forall|t: Tid, q: Pid| #[trigger] s.lists(t, q) implies kernel@.pool.alive(t) by {
            lemma_alive_stays(s.pool, t, tid, 0, 0, (priority % 256) as u8, arbitrary());
        }
        lemma_quiet_change_inv(s, kernel@);
    }
    Ok(0)
}

/// What is taken out of a list is no longer in it.
pub proof fn lemma_without(list: Seq<usize>, v: usize)
    ensures
        !without(list, v).contains(v),
    decreases list.len(),
{
    if list.len() > 0 {
        lemma_without(list.drop_last(), v);
        let rest = without(list.drop_last(), v);
        if list.last() != v {
            let r = rest.push(list.last());
            if r.contains(v) {
                let i = choose|i: int| 0 <= i < r.len() && r[i] == v;
                if i < rest.len() {
                    assert(rest[i] == v);
                }
            }
        }
    }
}

/// A parent observes the end of a child exactly once. When a process whose
/// parent lives is ended, the next `wait4` of the parent for it returns its
/// pid with the low 8 bits of its code; the `wait4` after that finds neither
/// a code nor a child of that pid, and fails with `ECHILD`.
pub proof fn lemma_wait4_collects_once<C>(
    s: KernelState<C>,
    tid: Tid,
    child: Pid,
    code: usize,
)
    requires
        s.inv(),
        s.has_proc(child),
        s.proc(child).parent is Some,
        !s.proc(child).orphan,
        s.caller(tid) == s.proc(child).parent,
        0 < child <= isize::MAX,
    ensures
        s.killed(child, code).sys_wait4(tid, child as isize, Ok(())).1 == Ok::<Wait4, SysError>(
            Wait4::Exited(child, (code % 256) as i32),
        ),
        s.killed(child, code).sys_wait4(tid, child as isize, Ok(())).0.sys_wait4(
            tid,
            child as isize,
            Ok(()),
        ).1 == Err::<Wait4, SysError>(SysError::ECHILD),
{
    let cur = s.proc(child).parent->0;
    assert(s.reports_to(child, cur));
    assert(cur != child);
    assert(s.lists(tid, cur));
    assert(!s.proc(child).threads.contains(tid)) by {
        if s.proc(child).threads.contains(tid) {
            assert(s.lists(tid, child));
        }
    }
    let s0 = s.without_threads(child, code);
    lemma_without_threads_inv(s, child, code);
    assert(s0.info(tid) == s.info(tid));
    lemma_left_inv(s0, child);
    lemma_ended_inv(s0, child, code);
    let l = s0.left(child);
    assert(l.has_proc(cur));
    let s1 = s0.ended(child, code);
    assert(s1 == s.killed(child, code));
    assert(s1.has_proc(cur));
    assert(s1.caller(tid) == Some(cur));
    let p1 = s1.proc(cur);
    assert(p1.exit_codes.dom().contains(child));
    assert(p1.exit_codes[child] == code);
    lemma_without(l.proc(cur).children, child);
    assert(!p1.children.contains(child));
    let s2 = s1.sys_wait4(tid, child as isize, Ok(())).0;
    assert(s2 == s1.collected(cur, child));
    assert(s2.caller(tid) == Some(cur));
    let p2 = s2.proc(cur);
    assert(!p2.exit_codes.dom().contains(child));
    assert(p2.children == p1.children);
}

/// The same holds of a process that ends because its last thread exits: the
/// next `wait4` of the parent for it returns its pid with the low 8 bits of
/// the code of that thread, and the one after that fails with `ECHILD`.
pub proof fn lemma_exit_is_collected_once<C>(
    s: KernelState<C>,
    tid: Tid,
    last: Tid,
    child: Pid,
    code: usize,
)
    requires
        s.inv(),
        s.caller(last) == Some(child),
        without(s.proc(child).threads, last).len() == 0,
        s.proc(child).parent is Some,
        !s.proc(child).orphan,
        s.caller(tid) == s.proc(child).parent,
        0 < child <= isize::MAX,
    ensures
        s.sys_exit(last, code).0.inv(),
        s.sys_exit(last, code).0.sys_wait4(tid, child as isize, Ok(())).1 == Ok::<
            Wait4,
            SysError,
        >(Wait4::Exited(child, (code % 256) as i32)),
        s.sys_exit(last, code).0.sys_wait4(tid, child as isize, Ok(())).0.sys_wait4(
            tid,
            child as isize,
            Ok(()),
        ).1 == Err::<Wait4, SysError>(SysError::ECHILD),
{
    let cur = s.proc(child).parent->0;
    assert(s.reports_to(child, cur));
    assert(cur != child);
    assert(s.lists(tid, cur));
    assert(tid != last);
    let s0 = s.without_thread(child, last);
    lemma_without_thread_inv(s, child, last);
    assert(s0.info(tid) == s.info(tid));
    assert(s0.proc(child).threads.len() == 0);
    lemma_left_inv(s0, child);
    lemma_ended_inv(s0, child, code);
    let l = s0.left(child);
    assert(l.has_proc(cur));
    let s1 = s0.ended(child, code);
    assert(s1.has_proc(cur));
    assert(!s1.has_proc(child));
    let s2 = KernelState { pool: s1.pool.exit(last, code), ..s1 };
    assert(s.sys_exit(last, code).0 == s2);
    assert(s1.info(last) is None);
    lemma_exit_inv(s1.pool, last, code);
    assert forall|t: Tid| s1.pool.keeps(t) implies #[trigger] s2.pool.keeps(t) by {
        lemma_kept_slot_stays(s1.pool, t, last, code, 0, 0, arbitrary());
    }
    assert forall|t: Tid, q: Pid| #[trigger] s1.lists(t, q) implies s2.pool.alive(t) by {
        assert(s1.info(t) is Some);
        lemma_alive_stays(s1.pool, t, last, code, 0, 0, arbitrary());
    }
    lemma_quiet_change_inv(s1, s2);
    assert(s2.caller(tid) == Some(cur));
    let p1 = s2.proc(cur);
    assert(p1.exit_codes.dom().contains(child));
    assert(p1.exit_codes[child] == code);
    lemma_without(l.proc(cur).children, child);
    assert(!p1.children.contains(child));
    let s3 = s2.sys_wait4(tid, child as isize, Ok(())).0;
    assert(s3 == s2.collected(cur, child));
    assert(s3.caller(tid) == Some(cur));
    let p3 = s3.proc(cur);
    assert(!p3.exit_codes.dom().contains(child));
    assert(p3.children == p1.children);
}

/// A process ends once. After a process has been killed it is no longer in
/// the table: a second `kill` of it by a thread of another process fails with
/// `EINVAL` and changes nothing, so that the code that its parent collects is
/// that of the first.
pub proof fn lemma_kill_is_idempotent<C>(
    s: KernelState<C>,
    tid: Tid,
    pid: Pid,
    sig: usize,
    again: usize,
)
    requires
        s.inv(),
        s.has_proc(pid),
        s.caller(tid) is Some,
        s.caller(tid) != Some(pid),
    ensures
        s.sys_kill(tid, pid, sig).1 == Ok::<usize, SysError>(0),
        s.sys_kill(tid, pid, sig).0.inv(),
        s.sys_kill(tid, pid, sig).0.sys_kill(tid, pid, again) == (
            s.sys_kill(tid, pid, sig).0,
            Err::<usize, SysError>(SysError::EINVAL),
        ),
{
    let cur = s.caller(tid)->0;
    lemma_killed_inv(s, pid, sig);
    assert(s.lists(tid, cur));
    assert(!s.proc(pid).threads.contains(tid)) by {
        if s.proc(pid).threads.contains(tid) {
            assert(s.lists(tid, pid));
        }
    }
    let s0 = s.without_threads(pid, sig);
    lemma_without_threads_inv(s, pid, sig);
    assert(s0.info(tid) == s.info(tid));
    lemma_left_inv(s0, pid);
    lemma_ended_inv(s0, pid, sig);
    let r = s.sys_kill(tid, pid, sig).0;
    assert(r == s0.ended(pid, sig));
    assert(s0.left(pid).has_proc(cur));
    assert(r.has_proc(cur));
    assert(r.info(tid) == s.info(tid));
    assert(r.caller(tid) == Some(cur));
}

} // verus!
