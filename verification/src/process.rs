//! Processes as the scheduler core sees them: who is whose parent, which
//! threads belong to whom, which exit codes wait to be collected, and the
//! queues that threads of a process sleep on. Address spaces, files and
//! signals are kept elsewhere.
//!
//! The pid of a process is the id of its first thread. The pool keeps that
//! slot while the process is in the table, and after its end until the
//! parent has collected the exit code, so that a pid names one process at a
//! time and an exit code belongs to the process that it was recorded for.

use crate::condvar::{
    lemma_notified, lemma_queue_keeps_alive, lemma_queue_keeps_slots, lemma_released_len,
    notified, notified_one, released, waited, Condvar,
};
use crate::exit_codes::{ExitCodes, Pid};
use crate::futex::{lemma_released_all, released_all, FutexTable};
use crate::scheduler::Tid;
use crate::thread_pool::{
    lemma_add_inv, lemma_alive_stays, lemma_exit_inv, lemma_keep_inv, lemma_kept_slot_stays,
    ExitCode, PoolState, ThreadPool,
};
use vstd::prelude::*;

verus! {

/// What the process layer keeps for a thread.
#[derive(Clone, Copy, Debug, PartialEq, Eq, Structural)]
pub struct ThreadInfo {
    /// The process the thread belongs to.
    pub pid: Pid,
    /// Address of a word in user memory that is cleared, and whose futex is
    /// woken, when the thread exits; 0 for none.
    pub clear_child_tid: usize,
}

/// Mathematical state of a process.
#[verifier::ext_equal]
pub ghost struct ProcState {
    /// The process that made this one.
    pub parent: Option<Pid>,
    /// The parent has ended: nobody collects the exit code of this process.
    pub orphan: bool,
    /// The children that have not ended.
    pub children: Seq<Pid>,
    /// The threads that have not exited.
    pub threads: Seq<Tid>,
    /// Exit codes of children that have ended and were not waited for yet.
    pub exit_codes: Map<Pid, usize>,
    /// Threads that wait for a child to end, oldest first.
    pub child_exit: Seq<Tid>,
    /// Threads that wait on a futex, by address, oldest first.
    pub futexes: Map<usize, Seq<Tid>>,
    /// The addresses that have a futex queue, in the order in which they were
    /// first waited on.
    pub futex_order: Seq<usize>,
}

/// Mathematical state of the kernel core.
#[verifier::ext_equal]
pub ghost struct KernelState<C> {
    /// The thread pool.
    pub pool: PoolState<C>,
    /// The process table, indexed by pid.
    pub procs: Seq<Option<ProcState>>,
    /// The process facts of the threads, indexed by thread id.
    pub infos: Seq<Option<ThreadInfo>>,
}

/// `s` without the entries equal to `v`.
pub open spec fn without(s: Seq<usize>, v: usize) -> Seq<usize>
    decreases s.len(),
{
    if s.len() == 0 {
        s
    } else if s.last() == v {
        without(s.drop_last(), v)
    } else {
        without(s.drop_last(), v).push(s.last())
    }
}

/// The pool after the first `n` of `threads` have been ended with `code`.
pub open spec fn exit_all<C>(pool: PoolState<C>, threads: Seq<Tid>, code: ExitCode, n: nat) -> PoolState<
    C,
>
    decreases n,
{
    if n == 0 || n > threads.len() {
        pool
    } else {
        exit_all(pool, threads, code, (n - 1) as nat).exit(threads[n - 1], code)
    }
}

/// The process facts without those of `threads`.
pub open spec fn cleared(infos: Seq<Option<ThreadInfo>>, threads: Seq<Tid>) -> Seq<
    Option<ThreadInfo>,
> {
    Seq::new(
        infos.len(),
        |i: int|
            if threads.contains(i as usize) {
                None
            } else {
                infos[i]
            },
    )
}

/// `s`, made at least `n` long with empty slots.
pub open spec fn grown<T>(s: Seq<Option<T>>, n: nat) -> Seq<Option<T>> {
    if s.len() >= n {
        s
    } else {
        s + Seq::new((n - s.len()) as nat, |i: int| None)
    }
}

/// `s` with slot `i` set to `v`, after growing to hold it.
pub open spec fn put<T>(s: Seq<Option<T>>, i: usize, v: T) -> Seq<Option<T>> {
    grown(s, (i + 1) as nat).update(i as int, Some(v))
}

/// `i` is the lowest free slot of `s`, or its length if none is free.
pub open spec fn is_first_free_slot<T>(s: Seq<Option<T>>, i: usize) -> bool {
    &&& i <= s.len()
    &&& i < s.len() ==> s[i as int] is None
    &&& forall|j: int| 0 <= j < i ==> s[j] is Some
}

/// A slot of the process table after process `pid` has ended: a child of
/// `pid` is an orphan from now on.
pub open spec fn orphaned_slot(slot: Option<ProcState>, pid: Pid) -> Option<ProcState> {
    match slot {
        Some(q) => if q.parent == Some(pid) {
            Some(ProcState { orphan: true, ..q })
        } else {
            Some(q)
        },
        None => None,
    }
}

/// The process table after the children of `pid` have become orphans.
pub open spec fn orphaned(procs: Seq<Option<ProcState>>, pid: Pid) -> Seq<Option<ProcState>> {
    Seq::new(procs.len(), |i: int| orphaned_slot(procs[i], pid))
}

/// The pool after the slots below `n` whose ids have a code in `codes` are no
/// longer kept.
pub open spec fn unkept<C>(pool: PoolState<C>, codes: Map<Pid, usize>, n: nat) -> PoolState<C>
    decreases n,
{
    if n == 0 {
        pool
    } else {
        let before = unkept(pool, codes, (n - 1) as nat);
        if codes.dom().contains((n - 1) as usize) {
            before.unkeep((n - 1) as usize)
        } else {
            before
        }
    }
}

/// A process that has just been made.
pub open spec fn fresh_proc(parent: Option<Pid>, thread: Tid) -> ProcState {
    ProcState {
        parent,
        orphan: false,
        children: Seq::empty(),
        threads: seq![thread],
        exit_codes: Map::empty(),
        child_exit: Seq::empty(),
        futexes: Map::total(|addr: usize| Seq::empty()),
        futex_order: Seq::empty(),
    }
}

impl ProcState {
    /// The pool after the handles in the queues of the process have come
    /// back: those of the threads that wait for a child, then those of the
    /// threads that wait on a futex.
    pub open spec fn handed_back<C>(self, pool: PoolState<C>) -> PoolState<C> {
        released_all(
            released(pool, self.child_exit, self.child_exit.len()),
            self.futexes,
            self.futex_order,
            self.futex_order.len(),
        )
    }
}

impl<C> KernelState<C> {
    /// What holds of every state that the system calls reach. The pool is in
    /// order. The id of a process is that of its first thread, whose slot the
    /// pool keeps while the process is in the table and, after its end, until
    /// its exit code is collected: no new thread, and so no new process, gets
    /// that id before. An exit code waits with one process only, for a process
    /// that has left the table. A process that is no orphan has its parent in
    /// the table, and is listed there as a child; nobody is its own parent.
    /// The threads that a process lists are alive in the pool and have that
    /// process in their facts, and a thread with process facts is listed by
    /// the process that they name. The children that a process lists are in
    /// the table, and theirs.
    pub open spec fn inv(self) -> bool {
        &&& self.inv_but_children()
        &&& forall|c: Pid, p: Pid| #[trigger] self.child_of(c, p) ==> self.reports_to(c, p)
    }

    /// Process `p` is in the table and lists `c` among its children.
    pub open spec fn child_of(self, c: Pid, p: Pid) -> bool {
        self.has_proc(p) && self.proc(p).children.contains(c)
    }

    /// All of `inv` but that the children that a process lists are in the
    /// table: what holds while a process that has left the table is still
    /// listed by its parent.
    pub open spec fn inv_but_children(self) -> bool {
        &&& self.pool.inv()
        &&& forall|p: Pid| #[trigger]
            self.has_proc(p) ==> self.pool.keeps(p) && self.proc(p).parent != Some(p)
        &&& forall|c: Pid, q: Pid| #[trigger]
            self.zombie_of(c, q) ==> self.pool.keeps(c) && !self.has_proc(c)
        &&& forall|c: Pid, q: Pid, r: Pid| #[trigger]
            self.zombie_of(c, q) && #[trigger] self.zombie_of(c, r) ==> q == r
        &&& forall|c: Pid, p: Pid| #[trigger]
            self.reports_to(c, p) ==> self.has_proc(p) && self.proc(p).children.contains(c)
        &&& forall|t: Tid, p: Pid| #[trigger]
            self.lists(t, p) ==> self.pool.alive(t) && self.info(t) is Some && self.info(t)->0.pid
                == p
        &&& forall|t: Tid| (#[trigger] self.info(t)) is Some ==> self.lists(t, self.info(t)->0.pid)
    }

    /// Process `p` is in the table and lists `t` among its threads.
    pub open spec fn lists(self, t: Tid, p: Pid) -> bool {
        self.has_proc(p) && self.proc(p).threads.contains(t)
    }

    /// Process `c` is in the table, and its end will be reported to `p`.
    pub open spec fn reports_to(self, c: Pid, p: Pid) -> bool {
        self.has_proc(c) && self.proc(c).parent == Some(p) && !self.proc(c).orphan
    }

    /// The exit code of `c` waits with process `q` to be collected.
    pub open spec fn zombie_of(self, c: Pid, q: Pid) -> bool {
        self.has_proc(q) && self.proc(q).exit_codes.dom().contains(c)
    }

    /// Process facts of thread `tid`.
    pub open spec fn info(self, tid: Tid) -> Option<ThreadInfo> {
        if tid < self.infos.len() {
            self.infos[tid as int]
        } else {
            None
        }
    }

    /// `pid` is in the process table.
    pub open spec fn has_proc(self, pid: Pid) -> bool {
        pid < self.procs.len() && self.procs[pid as int] is Some
    }

    pub open spec fn proc(self, pid: Pid) -> ProcState {
        self.procs[pid as int]->0
    }

    /// The process of the calling thread `tid`, if it belongs to one that is
    /// in the table.
    pub open spec fn caller(self, tid: Tid) -> Option<Pid> {
        match self.info(tid) {
            Some(info) => if self.has_proc(info.pid) {
                Some(info.pid)
            } else {
                None
            },
            None => None,
        }
    }

    /// A new process with the one thread `tid`, child of `parent`. Its pid is
    /// `tid`, and the pool keeps that slot for it.
    pub open spec fn with_new_proc(self, tid: Tid, parent: Option<Pid>, context: C) -> Self {
        let procs = put(self.procs, tid, fresh_proc(parent, tid));
        KernelState {
            pool: self.pool.add(tid, context).keep(tid),
            procs: match parent {
                Some(pp) => procs.update(
                    pp as int,
                    Some(
                        ProcState {
                            children: self.proc(pp).children.push(tid),
                            ..self.proc(pp)
                        },
                    ),
                ),
                None => procs,
            },
            infos: put(self.infos, tid, ThreadInfo { pid: tid, clear_child_tid: 0 }),
        }
    }

    /// A new thread `tid` in process `pid`.
    pub open spec fn with_new_thread(
        self,
        pid: Pid,
        tid: Tid,
        clear_child_tid: usize,
        context: C,
    ) -> Self {
        KernelState {
            pool: self.pool.add(tid, context),
            procs: self.procs.update(
                pid as int,
                Some(ProcState { threads: self.proc(pid).threads.push(tid), ..self.proc(pid) }),
            ),
            infos: put(self.infos, tid, ThreadInfo { pid, clear_child_tid }),
        }
    }

    /// Process `pid` has ended with `code`. The handles of the threads that
    /// waited there, for a child or on a futex, come back, the ids of the children whose codes
    /// nobody collected are kept no longer, its children become orphans, and
    /// it leaves the table. If it is no orphan and its parent is in the table,
    /// the parent gets the code, loses the child, and the oldest thread that
    /// waits there for a child is woken; the id stays kept until the code is
    /// collected. Else the id is kept no longer.
    pub open spec fn ended(self, pid: Pid, code: usize) -> Self {
        let p = self.proc(pid);
        let s = self.left(pid);
        if p.parent is Some && !p.orphan && s.has_proc(p.parent->0) {
            let pp = p.parent->0;
            let q = s.proc(pp);
            let n = notified_one(q.child_exit, s.pool);
            KernelState {
                pool: n.1,
                procs: s.procs.update(
                    pp as int,
                    Some(
                        ProcState {
                            exit_codes: q.exit_codes.insert(pid, code),
                            children: without(q.children, pid),
                            child_exit: n.0,
                            ..q
                        },
                    ),
                ),
                ..s
            }
        } else {
            KernelState { pool: s.pool.unkeep(pid), ..s }
        }
    }

    /// Process `pid` has left the table, with what it held: the handles in its
    /// queues, the ids of ended children, its children.
    pub open spec fn left(self, pid: Pid) -> Self {
        let p = self.proc(pid);
        KernelState {
            pool: unkept(p.handed_back(self.pool), p.exit_codes, self.pool.threads.len()),
            procs: orphaned(self.procs, pid).update(pid as int, None),
            ..self
        }
    }

    /// Process `cur` has collected the exit code of `child`: the code leaves
    /// the table, and the id of `child` is kept no longer.
    pub open spec fn collected(self, cur: Pid, child: Pid) -> Self {
        let p = self.proc(cur);
        KernelState {
            pool: self.pool.unkeep(child),
            procs: self.procs.update(
                cur as int,
                Some(ProcState { exit_codes: p.exit_codes.remove(child), ..p }),
            ),
            ..self
        }
    }

    /// Up to `n` of the threads that wait on the futex at `addr` in process
    /// `pid` have been woken.
    pub open spec fn futex_woken(self, pid: Pid, addr: usize, n: nat) -> Self {
        let p = self.proc(pid);
        let r = notified(p.futexes[addr], self.pool, n);
        KernelState {
            pool: r.1,
            procs: self.procs.update(
                pid as int,
                Some(ProcState { futexes: p.futexes.insert(addr, r.0), ..p }),
            ),
            ..self
        }
    }

    /// Thread `tid` has left process `pid`: it is listed no longer, and has
    /// no process facts.
    pub open spec fn without_thread(self, pid: Pid, tid: Tid) -> Self {
        let p = self.proc(pid);
        KernelState {
            procs: self.procs.update(
                pid as int,
                Some(ProcState { threads: without(p.threads, tid), ..p }),
            ),
            infos: if tid < self.infos.len() {
                self.infos.update(tid as int, None)
            } else {
                self.infos
            },
            ..self
        }
    }

    /// All threads of process `pid` have been ended with `code`: the process
    /// lists none, and they have no process facts.
    pub open spec fn without_threads(self, pid: Pid, code: usize) -> Self {
        let p = self.proc(pid);
        KernelState {
            pool: exit_all(self.pool, p.threads, code, p.threads.len()),
            procs: self.procs.update(pid as int, Some(ProcState { threads: Seq::empty(), ..p })),
            infos: cleared(self.infos, p.threads),
        }
    }

    /// All threads of process `pid` have been ended with `code`, and then the
    /// process.
    pub open spec fn killed(self, pid: Pid, code: usize) -> Self {
        self.without_threads(pid, code).ended(pid, code)
    }
}

/// Ending threads keeps the pool's invariant.
pub proof fn lemma_exit_all_inv<C>(pool: PoolState<C>, threads: Seq<Tid>, code: ExitCode, n: nat)
    requires
        pool.inv(),
    ensures
        exit_all(pool, threads, code, n).inv(),
    decreases n,
{
    if n > 0 && n <= threads.len() {
        lemma_exit_all_inv(pool, threads, code, (n - 1) as nat);
        lemma_exit_inv(exit_all(pool, threads, code, (n - 1) as nat), threads[n - 1], code);
    }
}

/// Ending threads keeps the slots that the pool keeps.
pub proof fn lemma_exit_all_keeps<C>(
    pool: PoolState<C>,
    threads: Seq<Tid>,
    code: ExitCode,
    n: nat,
    t: Tid,
)
    requires
        pool.keeps(t),
    ensures
        exit_all(pool, threads, code, n).keeps(t),
    decreases n,
{
    if n > 0 && n <= threads.len() {
        lemma_exit_all_keeps(pool, threads, code, (n - 1) as nat, t);
        lemma_kept_slot_stays(
            exit_all(pool, threads, code, (n - 1) as nat),
            t,
            threads[n - 1],
            code,
            0,
            0,
            arbitrary(),
        );
    }
}

/// Ending threads leaves the others alive.
pub proof fn lemma_exit_all_alive<C>(
    pool: PoolState<C>,
    threads: Seq<Tid>,
    code: ExitCode,
    n: nat,
    t: Tid,
)
    requires
        pool.inv(),
        pool.alive(t),
        !threads.contains(t),
    ensures
        exit_all(pool, threads, code, n).alive(t),
    decreases n,
{
    if n > 0 && n <= threads.len() {
        lemma_exit_all_alive(pool, threads, code, (n - 1) as nat, t);
        lemma_exit_all_inv(pool, threads, code, (n - 1) as nat);
        assert(threads[n - 1] != t);
        lemma_alive_stays(
            exit_all(pool, threads, code, (n - 1) as nat),
            t,
            threads[n - 1],
            code,
            0,
            0,
            arbitrary(),
        );
    }
}

/// Keeping the ids of collected children no longer keeps the pool in order
/// and touches neither another slot that is kept nor a thread that is alive.
pub proof fn lemma_unkept<C>(pool: PoolState<C>, codes: Map<Pid, usize>, n: nat)
    requires
        pool.inv(),
    ensures
        unkept(pool, codes, n).inv(),
        unkept(pool, codes, n).threads.len() == pool.threads.len(),
        forall|t: Tid|
            pool.keeps(t) && !codes.dom().contains(t) ==> #[trigger] unkept(pool, codes, n).keeps(
                t,
            ),
        forall|t: Tid| pool.alive(t) ==> #[trigger] unkept(pool, codes, n).alive(t),
    decreases n,
{
    if n > 0 {
        lemma_unkept(pool, codes, (n - 1) as nat);
        let before = unkept(pool, codes, (n - 1) as nat);
        lemma_keep_inv(before, (n - 1) as usize);
        assert forall|t: Tid| pool.alive(t) implies #[trigger] unkept(pool, codes, n).alive(t) by {
            assert(before.alive(t));
            lemma_alive_stays(before, t, (n - 1) as usize, 0, 0, 0, arbitrary());
        }
        assert forall|t: Tid| pool.keeps(t) && !codes.dom().contains(t) implies #[trigger] unkept(
            pool,
            codes,
            n,
        ).keeps(t) by {
            assert(before.keeps(t));
        }
    }
}

/// Two slots of the process table agree on who is whose parent and child, on
/// the exit codes that wait and on the threads.
pub open spec fn same_family(a: Option<ProcState>, b: Option<ProcState>) -> bool {
    match (a, b) {
        (Some(x), Some(y)) => x.parent == y.parent && x.orphan == y.orphan && x.children
            == y.children && x.exit_codes == y.exit_codes && x.threads == y.threads,
        (None, None) => true,
        _ => false,
    }
}

/// A change that leaves the families as they are, and kept what the pool
/// kept, keeps the invariant.
pub proof fn lemma_quiet_change_inv<C>(s: KernelState<C>, r: KernelState<C>)
    requires
        s.inv(),
        r.pool.inv(),
        r.procs.len() == s.procs.len(),
        forall|i: int| 0 <= i < s.procs.len() ==> same_family(s.procs[i], #[trigger] r.procs[i]),
        forall|t: Tid| s.pool.keeps(t) ==> #[trigger] r.pool.keeps(t),
        forall|t: Tid, p: Pid| #[trigger] s.lists(t, p) ==> r.pool.alive(t),
        r.infos == s.infos,
    ensures
        r.inv(),
{
    assert forall|t: Tid, p: Pid| #[trigger] r.lists(t, p) implies r.pool.alive(t) && r.info(
        t,
    ) is Some && r.info(t)->0.pid == p by {
        assert(same_family(s.procs[p as int], r.procs[p as int]));
        assert(s.lists(t, p));
    }
    assert forall|t: Tid| (#[trigger] r.info(t)) is Some implies r.lists(t, r.info(t)->0.pid) by {
        assert(s.info(t) is Some);
        let p = s.info(t)->0.pid;
        assert(s.lists(t, p));
        assert(same_family(s.procs[p as int], r.procs[p as int]));
    }
    assert forall|c: Pid, u: Pid| #[trigger] r.child_of(c, u) implies r.reports_to(c, u) by {
        assert(same_family(s.procs[u as int], r.procs[u as int]));
        assert(s.child_of(c, u));
        assert(s.reports_to(c, u));
        assert(same_family(s.procs[c as int], r.procs[c as int]));
    }
    assert forall|p: Pid| #[trigger] r.has_proc(p) implies r.pool.keeps(p) && r.proc(
        p,
    ).parent != Some(p) by {
        assert(same_family(s.procs[p as int], r.procs[p as int]));
        assert(s.has_proc(p));
    }
    assert forall|c: Pid, q: Pid| #[trigger] r.zombie_of(c, q) implies r.pool.keeps(c)
        && !r.has_proc(c) by {
        assert(same_family(s.procs[q as int], r.procs[q as int]));
        assert(s.zombie_of(c, q));
        if r.has_proc(c) {
            assert(same_family(s.procs[c as int], r.procs[c as int]));
        }
    }
    assert forall|c: Pid, q: Pid, u: Pid| #[trigger]
        r.zombie_of(c, q) && #[trigger] r.zombie_of(c, u) implies q == u by {
        assert(same_family(s.procs[q as int], r.procs[q as int]));
        assert(same_family(s.procs[u as int], r.procs[u as int]));
        assert(s.zombie_of(c, q) && s.zombie_of(c, u));
    }
    assert forall|c: Pid, p: Pid| #[trigger] r.reports_to(c, p) implies r.has_proc(p) && r.proc(
        p,
    ).children.contains(c) by {
        assert(same_family(s.procs[c as int], r.procs[c as int]));
        assert(s.reports_to(c, p));
        assert(same_family(s.procs[p as int], r.procs[p as int]));
    }
}

/// What is in a list stays in it when something else is taken out.
pub proof fn lemma_without_keeps(list: Seq<usize>, v: usize, x: usize)
    requires
        list.contains(x),
        x != v,
    ensures
        without(list, v).contains(x),
    decreases list.len(),
{
    let rest = without(list.drop_last(), v);
    if list.last() == x {
        assert(rest.push(x).last() == x);
    } else {
        let i = choose|i: int| 0 <= i < list.len() && list[i] == x;
        assert(list.drop_last()[i] == x);
        lemma_without_keeps(list.drop_last(), v, x);
        let j = choose|j: int| 0 <= j < rest.len() && rest[j] == x;
        if list.last() != v {
            assert(rest.push(list.last())[j] == x);
        }
    }
}

/// What is left in a list was in it, and is not what was taken out.
pub proof fn lemma_without_subset(list: Seq<usize>, v: usize, x: usize)
    requires
        without(list, v).contains(x),
    ensures
        list.contains(x),
        x != v,
    decreases list.len(),
{
    if list.len() > 0 {
        let rest = without(list.drop_last(), v);
        if list.last() != v {
            let r = rest.push(list.last());
            let i = choose|i: int| 0 <= i < r.len() && r[i] == x;
            if i < rest.len() {
                assert(rest[i] == x);
                lemma_without_subset(list.drop_last(), v, x);
                let j = choose|j: int| 0 <= j < list.drop_last().len() && list.drop_last()[j] == x;
                assert(list[j] == x);
            } else {
                assert(list[list.len() - 1] == x);
            }
        } else {
            lemma_without_subset(list.drop_last(), v, x);
            let j = choose|j: int| 0 <= j < list.drop_last().len() && list.drop_last()[j] == x;
            assert(list[j] == x);
        }
    }
}

/// A thread that leaves its process keeps the invariant.
pub proof fn lemma_without_thread_inv<C>(s: KernelState<C>, pid: Pid, tid: Tid)
    requires
        s.inv(),
        s.caller(tid) == Some(pid),
    ensures
        s.without_thread(pid, tid).inv(),
        s.without_thread(pid, tid).info(tid) is None,
        s.without_thread(pid, tid).has_proc(pid),
{
    let r = s.without_thread(pid, tid);
    let p = s.proc(pid);
    assert forall|u: Pid| (#[trigger] r.has_proc(u) <==> s.has_proc(u)) by {}
    assert forall|u: Pid| #[trigger] r.has_proc(u) implies same_family(
        Some(ProcState { threads: r.proc(u).threads, ..s.proc(u) }),
        Some(r.proc(u)),
    ) by {}
    assert forall|u: Pid| #[trigger] r.has_proc(u) implies r.pool.keeps(u) && r.proc(
        u,
    ).parent != Some(u) by {
        assert(s.has_proc(u));
    }
    assert forall|c: Pid, u: Pid| #[trigger] r.zombie_of(c, u) implies r.pool.keeps(c)
        && !r.has_proc(c) by {
        assert(s.zombie_of(c, u));
    }
    assert forall|c: Pid, u: Pid, v: Pid| #[trigger]
        r.zombie_of(c, u) && #[trigger] r.zombie_of(c, v) implies u == v by {
        assert(s.zombie_of(c, u) && s.zombie_of(c, v));
    }
    assert forall|c: Pid, u: Pid| #[trigger] r.reports_to(c, u) implies r.has_proc(u) && r.proc(
        u,
    ).children.contains(c) by {
        assert(s.reports_to(c, u));
    }
    assert forall|c: Pid, u: Pid| #[trigger] r.child_of(c, u) implies r.reports_to(c, u) by {
        assert(s.child_of(c, u));
        assert(s.reports_to(c, u));
        assert(r.has_proc(c));
    }
    assert forall|t: Tid, u: Pid| #[trigger] r.lists(t, u) implies s.lists(t, u) && t != tid by {
        if u == pid {
            lemma_without_subset(p.threads, tid, t);
        } else {
            assert(s.lists(t, u));
            assert(s.info(t)->0.pid == u);
        }
    }
    assert forall|t: Tid, u: Pid| #[trigger] r.lists(t, u) implies r.pool.alive(t) && r.info(
        t,
    ) is Some && r.info(t)->0.pid == u by {
        assert(s.lists(t, u) && t != tid);
    }
    assert forall|t: Tid| (#[trigger] r.info(t)) is Some implies r.lists(t, r.info(t)->0.pid) by {
        assert(t != tid);
        assert(s.info(t) == r.info(t));
        let u = s.info(t)->0.pid;
        assert(s.lists(t, u));
        if u == pid {
            lemma_without_keeps(p.threads, tid, t);
        }
    }
}

/// A process whose threads have all been ended keeps the invariant.
pub proof fn lemma_without_threads_inv<C>(s: KernelState<C>, pid: Pid, code: usize)
    requires
        s.inv(),
        s.has_proc(pid),
    ensures
        s.without_threads(pid, code).inv(),
        s.without_threads(pid, code).has_proc(pid),
        s.without_threads(pid, code).proc(pid).threads.len() == 0,
{
    let r = s.without_threads(pid, code);
    let p = s.proc(pid);
    let threads = p.threads;
    lemma_exit_all_inv(s.pool, threads, code, threads.len());
    assert forall|t: Tid| s.pool.keeps(t) implies #[trigger] r.pool.keeps(t) by {
        lemma_exit_all_keeps(s.pool, threads, code, threads.len(), t);
    }
    assert forall|u: Pid| (#[trigger] r.has_proc(u) <==> s.has_proc(u)) by {}
    assert forall|u: Pid| #[trigger] r.has_proc(u) implies r.pool.keeps(u) && r.proc(
        u,
    ).parent != Some(u) by {
        assert(s.has_proc(u));
    }
    assert forall|c: Pid, u: Pid| #[trigger] r.zombie_of(c, u) implies r.pool.keeps(c)
        && !r.has_proc(c) by {
        assert(s.zombie_of(c, u));
    }
    assert forall|c: Pid, u: Pid, v: Pid| #[trigger]
        r.zombie_of(c, u) && #[trigger] r.zombie_of(c, v) implies u == v by {
        assert(s.zombie_of(c, u) && s.zombie_of(c, v));
    }
    assert forall|c: Pid, u: Pid| #[trigger] r.reports_to(c, u) implies r.has_proc(u) && r.proc(
        u,
    ).children.contains(c) by {
        assert(s.reports_to(c, u));
    }
    assert forall|c: Pid, u: Pid| #[trigger] r.child_of(c, u) implies r.reports_to(c, u) by {
        assert(s.child_of(c, u));
        assert(s.reports_to(c, u));
        assert(r.has_proc(c));
    }
    assert forall|t: Tid, u: Pid| #[trigger] r.lists(t, u) implies s.lists(t, u) && u != pid
        && !threads.contains(t) by {
        assert(u != pid);
        assert(s.lists(t, u));
        if threads.contains(t) {
            assert(s.lists(t, pid));
        }
    }
    assert forall|t: Tid, u: Pid| #[trigger] r.lists(t, u) implies r.pool.alive(t) && r.info(
        t,
    ) is Some && r.info(t)->0.pid == u by {
        assert(s.lists(t, u) && !threads.contains(t));
        lemma_exit_all_alive(s.pool, threads, code, threads.len(), t);
    }
    assert forall|t: Tid| (#[trigger] r.info(t)) is Some implies r.lists(t, r.info(t)->0.pid) by {
        assert(!threads.contains(t));
        assert(s.info(t) == r.info(t));
        let u = s.info(t)->0.pid;
        assert(s.lists(t, u));
        assert(u != pid);
    }
}

/// A new thread in a process keeps the invariant.
pub proof fn lemma_new_thread_inv<C>(
    s: KernelState<C>,
    pid: Pid,
    tid: Tid,
    clear_child_tid: usize,
    context: C,
)
    requires
        s.inv(),
        s.has_proc(pid),
        s.pool.is_first_free(tid),
    ensures
        s.with_new_thread(pid, tid, clear_child_tid, context).inv(),
{
    let r = s.with_new_thread(pid, tid, clear_child_tid, context);
    let p = s.proc(pid);
    lemma_add_inv(s.pool, tid, context);
    assert(!s.pool.has(tid));
    assert forall|t: Tid| s.pool.keeps(t) implies #[trigger] r.pool.keeps(t) by {
        lemma_kept_slot_stays(s.pool, t, tid, 0, 0, 0, context);
    }
    assert forall|u: Pid| (#[trigger] r.has_proc(u) <==> s.has_proc(u)) by {}
    assert forall|u: Pid| #[trigger] r.has_proc(u) implies r.pool.keeps(u) && r.proc(
        u,
    ).parent != Some(u) by {
        assert(s.has_proc(u));
    }
    assert forall|c: Pid, u: Pid| #[trigger] r.zombie_of(c, u) implies r.pool.keeps(c)
        && !r.has_proc(c) by {
        assert(s.zombie_of(c, u));
    }
    assert forall|c: Pid, u: Pid, v: Pid| #[trigger]
        r.zombie_of(c, u) && #[trigger] r.zombie_of(c, v) implies u == v by {
        assert(s.zombie_of(c, u) && s.zombie_of(c, v));
    }
    assert forall|c: Pid, u: Pid| #[trigger] r.reports_to(c, u) implies r.has_proc(u) && r.proc(
        u,
    ).children.contains(c) by {
        assert(s.reports_to(c, u));
    }
    assert forall|c: Pid, u: Pid| #[trigger] r.child_of(c, u) implies r.reports_to(c, u) by {
        assert(s.child_of(c, u));
        assert(s.reports_to(c, u));
        assert(r.has_proc(c));
    }
    assert(r.pool.alive(tid));
    assert(s.info(tid) is None) by {
        if s.info(tid) is Some {
            assert(s.lists(tid, s.info(tid)->0.pid));
        }
    }
    assert forall|t: Tid, u: Pid| #[trigger] r.lists(t, u) implies r.pool.alive(t) && r.info(
        t,
    ) is Some && r.info(t)->0.pid == u by {
        if t == tid {
            if u != pid {
                assert(s.lists(t, u));
            }
        } else {
            if u == pid {
                let i = choose|i: int| 0 <= i < r.proc(u).threads.len() && r.proc(u).threads[i]
                    == t;
                assert(p.threads[i] == t);
            }
            assert(s.lists(t, u));
            lemma_alive_stays(s.pool, t, tid, 0, 0, 0, context);
        }
    }
    assert forall|t: Tid| (#[trigger] r.info(t)) is Some implies r.lists(t, r.info(t)->0.pid) by {
        if t == tid {
            assert(p.threads.push(tid).last() == tid);
        } else {
            assert(s.info(t) == r.info(t));
            let u = s.info(t)->0.pid;
            assert(s.lists(t, u));
            if u == pid {
                let i = choose|i: int| 0 <= i < p.threads.len() && p.threads[i] == t;
                assert(p.threads.push(tid)[i] == t);
            }
        }
    }
}

/// A new process keeps the invariant.
pub proof fn lemma_new_proc_inv<C>(s: KernelState<C>, tid: Tid, parent: Option<Pid>, context: C)
    requires
        s.inv(),
        s.pool.is_first_free(tid),
        parent matches Some(pp) ==> s.has_proc(pp),
    ensures
        s.with_new_proc(tid, parent, context).inv(),
{
    let r = s.with_new_proc(tid, parent, context);
    let added = s.pool.add(tid, context);
    lemma_add_inv(s.pool, tid, context);
    lemma_keep_inv(added, tid);
    assert(!s.pool.has(tid));
    assert(!s.has_proc(tid));
    assert forall|t: Tid| s.pool.keeps(t) implies #[trigger] r.pool.keeps(t) by {
        lemma_kept_slot_stays(s.pool, t, tid, 0, 0, 0, context);
        lemma_kept_slot_stays(added, t, tid, 0, 0, 0, context);
    }
    assert(r.pool.keeps(tid));
    assert(r.procs.len() == put(s.procs, tid, fresh_proc(parent, tid)).len());
    assert forall|q: Pid| q != tid implies (r.has_proc(q) <==> s.has_proc(q)) && (s.has_proc(q)
        ==> same_family(
        Some(ProcState { children: r.proc(q).children, ..s.proc(q) }),
        Some(r.proc(q)),
    )) && (s.has_proc(q) && parent != Some(q) ==> r.proc(q).children == s.proc(q).children)
        && (s.has_proc(q) && parent == Some(q) ==> r.proc(q).children == s.proc(q).children.push(
        tid,
    )) by {}
    assert(r.has_proc(tid));
    assert(parent is None || parent->0 != tid);
    assert(r.proc(tid) == fresh_proc(parent, tid));
    assert forall|p: Pid| #[trigger] r.has_proc(p) implies r.pool.keeps(p) && r.proc(
        p,
    ).parent != Some(p) by {
        if p != tid {
            assert(s.has_proc(p));
        }
    }
    assert forall|c: Pid, q: Pid| #[trigger] r.zombie_of(c, q) implies r.pool.keeps(c)
        && !r.has_proc(c) by {
        assert(q != tid);
        assert(s.zombie_of(c, q));
        assert(s.pool.keeps(c));
    }
    assert forall|c: Pid, q: Pid, u: Pid| #[trigger]
        r.zombie_of(c, q) && #[trigger] r.zombie_of(c, u) implies q == u by {
        assert(q != tid && u != tid);
        assert(s.zombie_of(c, q) && s.zombie_of(c, u));
    }
    assert forall|c: Pid, p: Pid| #[trigger] r.reports_to(c, p) implies r.has_proc(p) && r.proc(
        p,
    ).children.contains(c) by {
        if c == tid {
            assert(parent == Some(p));
            assert(r.proc(p).children == s.proc(p).children.push(tid));
            assert(s.proc(p).children.push(tid).last() == tid);
        } else {
            assert(s.reports_to(c, p));
            assert(s.has_proc(p));
            assert(p != tid);
            let i = choose|i: int|
                0 <= i < s.proc(p).children.len() && s.proc(p).children[i] == c;
            if parent == Some(p) {
                assert(s.proc(p).children.push(tid)[i] == c);
            }
        }
    }
    assert forall|c: Pid, u: Pid| #[trigger] r.child_of(c, u) implies r.reports_to(c, u) by {
        assert(u != tid);
        assert(s.has_proc(u));
        if c == tid {
            if s.child_of(tid, u) {
                assert(s.reports_to(tid, u));
            }
            assert(parent == Some(u));
        } else {
            if parent == Some(u) {
                let i = choose|i: int|
                    0 <= i < r.proc(u).children.len() && r.proc(u).children[i] == c;
                assert(s.proc(u).children[i] == c);
            }
            assert(s.child_of(c, u));
            assert(s.reports_to(c, u));
        }
    }
    assert(added.alive(tid));
    assert(r.pool.alive(tid));
    assert(s.info(tid) is None) by {
        if s.info(tid) is Some {
            assert(s.lists(tid, s.info(tid)->0.pid));
        }
    }
    assert forall|q: Pid| q != tid && s.has_proc(q) implies #[trigger] r.proc(q).threads
        == s.proc(q).threads by {}
    assert forall|t: Tid, p: Pid| #[trigger] r.lists(t, p) implies r.pool.alive(t) && r.info(
        t,
    ) is Some && r.info(t)->0.pid == p by {
        if p == tid {
            assert(t == tid);
        } else {
            assert(s.has_proc(p));
            assert(s.lists(t, p));
            assert(t != tid);
            lemma_alive_stays(s.pool, t, tid, 0, 0, 0, context);
            lemma_alive_stays(added, t, tid, 0, 0, 0, context);
        }
    }
    assert forall|t: Tid| (#[trigger] r.info(t)) is Some implies r.lists(t, r.info(t)->0.pid) by {
        if t == tid {
            assert(r.proc(tid).threads[0] == tid);
        } else {
            assert(s.info(t) == r.info(t));
            let p = s.info(t)->0.pid;
            assert(s.lists(t, p));
            assert(p != tid);
        }
    }
}

/// A process that leaves the table with what it held keeps the invariant,
/// and its own slot stays kept.
pub proof fn lemma_left_inv<C>(s: KernelState<C>, pid: Pid)
    requires
        s.inv(),
        s.has_proc(pid),
        s.proc(pid).threads.len() == 0,
    ensures
        s.left(pid).inv_but_children(),
        forall|c: Pid, q: Pid|
            c != pid && #[trigger] s.left(pid).child_of(c, q) ==> s.left(pid).reports_to(c, q),
        forall|q: Pid| #[trigger] s.left(pid).child_of(pid, q) ==> s.reports_to(pid, q),
        s.left(pid).pool.keeps(pid),
        s.left(pid).procs.len() == s.procs.len(),
        !s.left(pid).has_proc(pid),
        forall|q: Pid| q != pid ==> (#[trigger] s.left(pid).has_proc(q) <==> s.has_proc(q)),
        forall|q: Pid|
            q != pid && s.has_proc(q) ==> #[trigger] s.left(pid).procs[q as int] == orphaned_slot(
                s.procs[q as int],
                pid,
            ),
        forall|c: Pid, q: Pid| #[trigger] s.left(pid).zombie_of(c, q) ==> s.zombie_of(c, q),
{
    let r = s.left(pid);
    let p = s.proc(pid);
    let first = released(s.pool, p.child_exit, p.child_exit.len());
    let back = p.handed_back(s.pool);
    assert(s.pool.keeps(pid));
    lemma_released_len(s.pool, p.child_exit, p.child_exit.len());
    lemma_released_all(first, p.futexes, p.futex_order, p.futex_order.len(), pid);
    lemma_unkept(back, p.exit_codes, s.pool.threads.len());
    assert forall|t: Tid| s.pool.keeps(t) implies #[trigger] back.keeps(t) by {
        lemma_queue_keeps_slots(p.child_exit, s.pool, p.child_exit.len(), t);
        lemma_released_all(first, p.futexes, p.futex_order, p.futex_order.len(), t);
    }
    assert forall|t: Tid| s.pool.alive(t) implies #[trigger] back.alive(t) by {
        lemma_queue_keeps_alive(p.child_exit, s.pool, p.child_exit.len(), t);
        lemma_released_all(first, p.futexes, p.futex_order, p.futex_order.len(), t);
    }
    assert forall|t: Tid| s.pool.keeps(t) && !p.exit_codes.dom().contains(t) implies #[trigger]
        r.pool.keeps(t) by {
        assert(back.keeps(t));
    }
    assert(!s.zombie_of(pid, pid)) by {
        if s.zombie_of(pid, pid) {
            assert(!s.has_proc(pid));
        }
    }
    assert forall|q: Pid| q != pid implies (#[trigger] r.has_proc(q) <==> s.has_proc(q)) by {}
    assert forall|q: Pid| q != pid && s.has_proc(q) implies #[trigger] r.procs[q as int]
        == orphaned_slot(s.procs[q as int], pid) by {}
    assert forall|c: Pid, q: Pid| #[trigger] r.zombie_of(c, q) implies s.zombie_of(c, q) by {
        assert(q != pid);
        assert(r.procs[q as int] == orphaned_slot(s.procs[q as int], pid));
    }
    assert forall|q: Pid| #[trigger] r.has_proc(q) implies r.pool.keeps(q) && r.proc(
        q,
    ).parent != Some(q) by {
        assert(s.has_proc(q));
        if p.exit_codes.dom().contains(q) {
            assert(s.zombie_of(q, pid));
        }
    }
    assert forall|c: Pid, q: Pid| #[trigger] r.zombie_of(c, q) implies r.pool.keeps(c)
        && !r.has_proc(c) by {
        assert(s.zombie_of(c, q));
        if p.exit_codes.dom().contains(c) {
            assert(s.zombie_of(c, pid));
        }
        if r.has_proc(c) {
            assert(s.has_proc(c));
        }
    }
    assert forall|c: Pid, q: Pid, u: Pid| #[trigger]
        r.zombie_of(c, q) && #[trigger] r.zombie_of(c, u) implies q == u by {
        assert(s.zombie_of(c, q) && s.zombie_of(c, u));
    }
    assert forall|c: Pid, pp: Pid| #[trigger] r.reports_to(c, pp) implies r.has_proc(pp) && r.proc(
        pp,
    ).children.contains(c) by {
        assert(c != pid);
        assert(r.procs[c as int] == orphaned_slot(s.procs[c as int], pid));
        assert(s.reports_to(c, pp));
        assert(pp != pid);
        assert(s.has_proc(pp));
        assert(r.procs[pp as int] == orphaned_slot(s.procs[pp as int], pid));
    }
    assert forall|c: Pid, q: Pid| c != pid && #[trigger] r.child_of(c, q) implies r.reports_to(
        c,
        q,
    ) by {
        assert(q != pid);
        assert(r.procs[q as int] == orphaned_slot(s.procs[q as int], pid));
        assert(s.child_of(c, q));
        assert(s.reports_to(c, q));
        assert(r.procs[c as int] == orphaned_slot(s.procs[c as int], pid));
    }
    assert forall|q: Pid| #[trigger] r.child_of(pid, q) implies s.reports_to(pid, q) by {
        assert(q != pid);
        assert(r.procs[q as int] == orphaned_slot(s.procs[q as int], pid));
        assert(s.child_of(pid, q));
    }
    assert forall|t: Tid, q: Pid| #[trigger] r.lists(t, q) implies r.pool.alive(t) && r.info(
        t,
    ) is Some && r.info(t)->0.pid == q by {
        assert(q != pid);
        assert(r.procs[q as int] == orphaned_slot(s.procs[q as int], pid));
        assert(s.lists(t, q));
        assert(back.alive(t));
    }
    assert forall|t: Tid| (#[trigger] r.info(t)) is Some implies r.lists(t, r.info(t)->0.pid) by {
        assert(s.info(t) == r.info(t));
        let q = s.info(t)->0.pid;
        assert(s.lists(t, q));
        assert(q != pid);
        assert(r.procs[q as int] == orphaned_slot(s.procs[q as int], pid));
    }
}

/// The end of a process keeps the invariant, and the process is no longer in
/// the table.
pub proof fn lemma_ended_inv<C>(s: KernelState<C>, pid: Pid, code: usize)
    requires
        s.inv(),
        s.has_proc(pid),
        s.proc(pid).threads.len() == 0,
    ensures
        s.ended(pid, code).infos == s.infos,
        s.ended(pid, code).inv(),
        !s.ended(pid, code).has_proc(pid),
{
    let p = s.proc(pid);
    let l = s.left(pid);
    let r = s.ended(pid, code);
    lemma_left_inv(s, pid);
    if p.parent is Some && !p.orphan && l.has_proc(p.parent->0) {
        let pp = p.parent->0;
        let q = l.proc(pp);
        assert(pp != pid);
        lemma_notified(q.child_exit, l.pool, 1);
        assert(notified(q.child_exit, l.pool, 0) == (q.child_exit, l.pool));
        assert(notified(q.child_exit, l.pool, 1) == notified_one(q.child_exit, l.pool));
        assert forall|t: Tid| l.pool.keeps(t) implies #[trigger] r.pool.keeps(t) by {
            lemma_queue_keeps_slots(q.child_exit, l.pool, 1, t);
        }
        assert forall|u: Pid| (#[trigger] r.has_proc(u) <==> l.has_proc(u)) by {}
        assert forall|u: Pid| u != pp && l.has_proc(u) implies #[trigger] r.proc(u) == l.proc(
            u,
        ) by {}
        assert forall|u: Pid| #[trigger] r.has_proc(u) implies r.pool.keeps(u) && r.proc(
        u,
    ).parent != Some(u) by {
            assert(l.has_proc(u));
        }
        assert forall|c: Pid, u: Pid| #[trigger] r.zombie_of(c, u) implies r.pool.keeps(c)
            && !r.has_proc(c) by {
            if c != pid {
                assert(l.zombie_of(c, u));
            }
        }
        assert forall|c: Pid, u: Pid, v: Pid| #[trigger]
            r.zombie_of(c, u) && #[trigger] r.zombie_of(c, v) implies u == v by {
            if c == pid {
                if u != pp {
                    assert(l.zombie_of(c, u));
                    assert(s.zombie_of(c, u));
                }
                if v != pp {
                    assert(l.zombie_of(c, v));
                    assert(s.zombie_of(c, v));
                }
            } else {
                assert(l.zombie_of(c, u) && l.zombie_of(c, v));
            }
        }
        assert forall|c: Pid, u: Pid| #[trigger] r.reports_to(c, u) implies r.has_proc(u)
            && r.proc(u).children.contains(c) by {
            assert(c != pid);
            if c == pp {
                assert(l.reports_to(c, u));
            } else {
                assert(r.proc(c) == l.proc(c));
                assert(l.reports_to(c, u));
            }
            if u == pp {
                lemma_without_keeps(q.children, pid, c);
            }
        }
        assert forall|c: Pid, u: Pid| #[trigger] r.child_of(c, u) implies r.reports_to(c, u) by {
            if u == pp {
                lemma_without_subset(q.children, pid, c);
                assert(l.child_of(c, pp));
            } else {
                assert(l.child_of(c, u));
                if c == pid {
                    assert(s.reports_to(pid, u));
                }
            }
            assert(c != pid);
            assert(l.reports_to(c, u));
            if c != pp {
                assert(r.proc(c) == l.proc(c));
            }
        }
        assert forall|t: Tid, u: Pid| #[trigger] r.lists(t, u) implies r.pool.alive(t) && r.info(
            t,
        ) is Some && r.info(t)->0.pid == u by {
            assert(l.lists(t, u));
            lemma_queue_keeps_alive(q.child_exit, l.pool, 1, t);
        }
        assert forall|t: Tid| (#[trigger] r.info(t)) is Some implies r.lists(
            t,
            r.info(t)->0.pid,
        ) by {
            assert(l.info(t) == r.info(t));
            assert(l.lists(t, l.info(t)->0.pid));
        }
    } else {
        lemma_keep_inv(l.pool, pid);
        let r2 = KernelState { pool: l.pool.unkeep(pid), ..l };
        assert(r == r2);
        assert forall|t: Tid| t != pid && l.pool.keeps(t) implies #[trigger] r.pool.keeps(t) by {
            lemma_kept_slot_stays(l.pool, t, pid, 0, 0, 0, arbitrary());
        }
        assert forall|u: Pid| #[trigger] r.has_proc(u) implies r.pool.keeps(u) && r.proc(
        u,
    ).parent != Some(u) by {
            assert(l.has_proc(u));
        }
        assert forall|c: Pid, u: Pid| #[trigger] r.zombie_of(c, u) implies r.pool.keeps(c)
            && !r.has_proc(c) by {
            assert(l.zombie_of(c, u));
            assert(s.zombie_of(c, u));
            assert(c != pid);
        }
        assert forall|c: Pid, u: Pid, v: Pid| #[trigger]
            r.zombie_of(c, u) && #[trigger] r.zombie_of(c, v) implies u == v by {
            assert(l.zombie_of(c, u) && l.zombie_of(c, v));
        }
        assert forall|c: Pid, u: Pid| #[trigger] r.reports_to(c, u) implies r.has_proc(u)
            && r.proc(u).children.contains(c) by {
            assert(l.reports_to(c, u));
        }
        assert forall|c: Pid, u: Pid| #[trigger] r.child_of(c, u) implies r.reports_to(c, u) by {
            assert(l.child_of(c, u));
            if c == pid {
                assert(s.reports_to(pid, u));
                assert(l.has_proc(u));
            }
            assert(l.reports_to(c, u));
        }
        assert forall|t: Tid, u: Pid| #[trigger] r.lists(t, u) implies r.pool.alive(t) && r.info(
            t,
        ) is Some && r.info(t)->0.pid == u by {
            assert(l.lists(t, u));
            lemma_alive_stays(l.pool, t, pid, 0, 0, 0, arbitrary());
        }
        assert forall|t: Tid| (#[trigger] r.info(t)) is Some implies r.lists(
            t,
            r.info(t)->0.pid,
        ) by {
            assert(l.info(t) == r.info(t));
            assert(l.lists(t, l.info(t)->0.pid));
        }
    }
}

/// Collecting an exit code keeps the invariant.
pub proof fn lemma_collected_inv<C>(s: KernelState<C>, cur: Pid, child: Pid)
    requires
        s.inv(),
        s.zombie_of(child, cur),
    ensures
        s.collected(cur, child).inv(),
{
    let r = s.collected(cur, child);
    lemma_keep_inv(s.pool, child);
    assert(!s.has_proc(child));
    assert forall|t: Tid| t != child && s.pool.keeps(t) implies #[trigger] r.pool.keeps(t) by {
        lemma_kept_slot_stays(s.pool, t, child, 0, 0, 0, arbitrary());
    }
    assert forall|u: Pid| (#[trigger] r.has_proc(u) <==> s.has_proc(u)) by {}
    assert forall|u: Pid| #[trigger] r.has_proc(u) implies r.pool.keeps(u) && r.proc(
        u,
    ).parent != Some(u) by {
        assert(s.has_proc(u));
    }
    assert forall|c: Pid, u: Pid| #[trigger] r.zombie_of(c, u) implies s.zombie_of(c, u)
        && c != child by {
        if c == child && u != cur {
            assert(s.zombie_of(c, u));
        }
    }
    assert forall|c: Pid, u: Pid| #[trigger] r.zombie_of(c, u) implies r.pool.keeps(c)
        && !r.has_proc(c) by {
        assert(s.zombie_of(c, u) && c != child);
    }
    assert forall|c: Pid, u: Pid, v: Pid| #[trigger]
        r.zombie_of(c, u) && #[trigger] r.zombie_of(c, v) implies u == v by {
        assert(s.zombie_of(c, u) && s.zombie_of(c, v));
    }
    assert forall|c: Pid, u: Pid| #[trigger] r.reports_to(c, u) implies r.has_proc(u) && r.proc(
        u,
    ).children.contains(c) by {
        assert(s.reports_to(c, u));
    }
    assert forall|c: Pid, u: Pid| #[trigger] r.child_of(c, u) implies r.reports_to(c, u) by {
        assert(s.child_of(c, u));
        assert(s.reports_to(c, u));
        assert(r.has_proc(c));
    }
    assert forall|t: Tid, u: Pid| #[trigger] r.lists(t, u) implies r.pool.alive(t) && r.info(
        t,
    ) is Some && r.info(t)->0.pid == u by {
        assert(s.lists(t, u));
        lemma_alive_stays(s.pool, t, child, 0, 0, 0, arbitrary());
    }
    assert forall|t: Tid| (#[trigger] r.info(t)) is Some implies r.lists(t, r.info(t)->0.pid) by {
        assert(s.info(t) == r.info(t));
        assert(s.lists(t, s.info(t)->0.pid));
    }
}

/// Ending all threads of a process and then the process keeps the invariant.
pub proof fn lemma_killed_inv<C>(s: KernelState<C>, pid: Pid, code: usize)
    requires
        s.inv(),
        s.has_proc(pid),
    ensures
        s.killed(pid, code).inv(),
        !s.killed(pid, code).has_proc(pid),
{
    lemma_without_threads_inv(s, pid, code);
    lemma_ended_inv(s.without_threads(pid, code), pid, code);
}

/// One process of the table.
pub struct Process {
    /// The process that made this one.
    pub parent: Option<Pid>,
    /// The parent has ended: nobody collects the exit code of this process.
    pub orphan: bool,
    /// The children that have not ended.
    pub children: Vec<Pid>,
    /// The threads that have not exited.
    pub threads: Vec<Tid>,
    /// Exit codes of children that have ended and were not waited for yet.
    pub child_exit_code: ExitCodes,
    /// Where threads wait for a child to end.
    pub child_exit: Condvar,
    /// Where threads wait on futexes.
    pub futexes: FutexTable,
}

impl Process {
    pub open spec fn view(&self) -> ProcState {
        ProcState {
            parent: self.parent,
            orphan: self.orphan,
            children: self.children@,
            threads: self.threads@,
            exit_codes: self.child_exit_code@,
            child_exit: self.child_exit@,
            futexes: self.futexes.queues(),
            futex_order: self.futexes.order(),
        }
    }

    /// A process with one thread, no child and no waiter.
    pub fn new(parent: Option<Pid>, thread: Tid) -> (r: Self)
        ensures
            r@ == fresh_proc(parent, thread),
    {
        let mut threads = Vec::new();
        threads.push(thread);
        let r = Process {
            parent,
            orphan: false,
            children: Vec::new(),
            threads,
            child_exit_code: ExitCodes::new(),
            child_exit: Condvar::new(),
            futexes: FutexTable::new(),
        };
        assert(r@.threads == seq![thread]);
        assert(r@.futexes == Map::total(|addr: usize| Seq::<Tid>::empty()));
        r
    }
}

/// View of a slot of the process table.
pub open spec fn slot_view(slot: Option<Process>) -> Option<ProcState> {
    match slot {
        Some(p) => Some(p@),
        None => None,
    }
}

/// Takes the entries equal to `v` out of `list`.
pub fn remove_all(list: &mut Vec<usize>, v: usize)
    ensures
        final(list)@ == without(old(list)@, v),
{
    let mut kept: Vec<usize> = Vec::new();
    let mut i: usize = 0;
    while i < list.len()
        invariant
            i <= list@.len(),
            list@ == old(list)@,
            kept@ == without(list@.subrange(0, i as int), v),
        decreases list@.len() - i,
    {
        proof {
            let next = list@.subrange(0, i + 1);
            assert(next.drop_last() == list@.subrange(0, i as int));
            assert(next.last() == list@[i as int]);
        }
        if list[i] != v {
            kept.push(list[i]);
        }
        i += 1;
    }
    assert(list@.subrange(0, i as int) == list@);
    *list = kept;
}

/// Makes `table` long enough to have slot `i`.
pub fn grow<T>(table: &mut Vec<Option<T>>, i: usize)
    ensures
        final(table)@ == grown(old(table)@, (i + 1) as nat),
        i < final(table)@.len(),
{
    while table.len() <= i
        invariant
            table@.len() <= i + 1 || table@ == old(table)@,
            table@.len() >= old(table)@.len(),
            table@ == grown(old(table)@, table@.len()),
        decreases i + 1 - table@.len(),
    {
        table.push(None);
    }
}

/// Lowest free slot of `table`.
pub fn first_free<T>(table: &Vec<Option<T>>) -> (i: usize)
    ensures
        is_first_free_slot(table@, i),
{
    let mut i: usize = 0;
    while i < table.len() && table[i].is_some()
        invariant
            i <= table@.len(),
            forall|j: int| 0 <= j < i ==> table@[j] is Some,
        decreases table@.len() - i,
    {
        i += 1;
    }
    i
}

/// Every child of `pid` in `table` becomes an orphan.
pub fn orphan_children(table: &mut Vec<Option<Process>>, pid: Pid)
    ensures
        final(table)@.len() == old(table)@.len(),
        forall|i: int|
            0 <= i < old(table)@.len() ==> slot_view(#[trigger] final(table)@[i]) == orphaned_slot(
                slot_view(old(table)@[i]),
                pid,
            ),
{
    let mut i: usize = 0;
    while i < table.len()
        invariant
            i <= table@.len(),
            table@.len() == old(table)@.len(),
            forall|j: int|
                0 <= j < i ==> slot_view(#[trigger] table@[j]) == orphaned_slot(
                    slot_view(old(table)@[j]),
                    pid,
                ),
            forall|j: int| i <= j < table@.len() ==> #[trigger] table@[j] == old(table)@[j],
        decreases table@.len() - i,
    {
        match &mut table[i] {
            Some(q) => {
                match q.parent {
                    Some(pp) => {
                        if pp == pid {
                            q.orphan = true;
                        }
                    },
                    None => {},
                }
            },
            None => {},
        }
        i += 1;
    }
}

/// Gives back what process `p` holds in the pool when it ends: the handles of
/// the threads that wait in its queue, and the ids of the children whose exit
/// codes it has not collected.
pub fn release_held<C>(p: &mut Process, pool: &mut ThreadPool<C>)
    requires
        old(pool).wf(),
    ensures
        final(pool)@ == unkept(
            old(p)@.handed_back(old(pool)@),
            old(p)@.exit_codes,
            old(pool)@.threads.len(),
        ),
        final(pool).wf(),
        final(p)@ == (ProcState {
            child_exit: Seq::empty(),
            futexes: Map::total(|addr: usize| Seq::empty()),
            futex_order: Seq::empty(),
            ..old(p)@
        }),
{
    let ghost queue = p@.child_exit;
    proof {
        lemma_released_len(pool@, queue, queue.len());
    }
    p.child_exit.release_all(pool);
    proof {
        lemma_released_all(
            pool@,
            old(p)@.futexes,
            old(p)@.futex_order,
            old(p)@.futex_order.len(),
            0,
        );
    }
    p.futexes.release_all(pool);
    let ghost back = pool@;
    let ghost after = *p;
    proof {
        assert(p@.futexes =~= Map::total(|addr: usize| Seq::<Tid>::empty()));
    }
    let ghost codes = p@.exit_codes;
    let n = pool.slots();
    let mut i: usize = 0;
    while i < n
        invariant
            i <= n,
            n == back.threads.len(),
            back.inv(),
            pool.wf(),
            codes == p@.exit_codes,
            codes == old(p)@.exit_codes,
            *p == after,
            pool@ == unkept(back, codes, i as nat),
        decreases n - i,
    {
        if p.child_exit_code.get(i).is_some() {
            pool.unkeep(i);
        }
        i += 1;
    }
}

/// The state that the system calls of the scheduler core act on: the thread
/// pool, the process table, and the process facts of each thread.
pub struct Kernel<C> {
    /// The thread pool.
    pub pool: ThreadPool<C>,
    /// The process table, indexed by pid.
    pub procs: Vec<Option<Process>>,
    /// The process facts of the threads, indexed by thread id.
    pub infos: Vec<Option<ThreadInfo>>,
}

impl<C> Kernel<C> {
    pub open spec fn view(&self) -> KernelState<C> {
        KernelState {
            pool: self.pool@,
            procs: Seq::new(self.procs@.len(), |i: int| slot_view(self.procs@[i])),
            infos: self.infos@,
        }
    }

    pub open spec fn wf(&self) -> bool {
        self@.inv()
    }

    /// A kernel without threads and processes, whose scheduler hands out
    /// slices of `max_time_slice` ticks.
    pub fn new(max_time_slice: usize) -> (r: Self)
        requires
            max_time_slice > 0,
        ensures
            r.wf(),
            r@.procs.len() == 0,
            r@.infos.len() == 0,
            r@.pool.threads.len() == 0,
            r@.pool.sched.max_slice == max_time_slice,
    {
        Kernel { pool: ThreadPool::new(max_time_slice), procs: Vec::new(), infos: Vec::new() }
    }

    /// Starts a process that has no parent, with one thread that is ready to
    /// run. Returns the pid and the id of the thread, which are the same: the
    /// lowest id that the pool has free.
    pub fn spawn(&mut self, context: C) -> (r: (Pid, Tid))
        requires
            old(self).wf(),
        ensures
            r.0 == r.1,
            old(self)@.pool.is_first_free(r.1),
            final(self)@ == old(self)@.with_new_proc(r.1, None, context),
            final(self).wf(),
    {
        let ghost s = self@;
        let tid = self.pool.add(context);
        self.pool.keep(tid);
        grow(&mut self.procs, tid);
        self.procs[tid] = Some(Process::new(None, tid));
        grow(&mut self.infos, tid);
        self.infos[tid] = Some(ThreadInfo { pid: tid, clear_child_tid: 0 });
        proof {
            assert(self@.procs == put(s.procs, tid, fresh_proc(None, tid)));
            lemma_new_proc_inv(s, tid, None, context);
        }
        (tid, tid)
    }

    /// Process facts of thread `tid`.
    pub fn info(&self, tid: Tid) -> (r: Option<ThreadInfo>)
        ensures
            r == self@.info(tid),
    {
        if tid < self.infos.len() {
            self.infos[tid]
        } else {
            None
        }
    }

    /// The process of thread `tid`, if it belongs to one that is in the table.
    pub fn caller(&self, tid: Tid) -> (r: Option<Pid>)
        ensures
            r == self@.caller(tid),
    {
        match self.info(tid) {
            Some(info) => {
                if info.pid < self.procs.len() && self.procs[info.pid].is_some() {
                    Some(info.pid)
                } else {
                    None
                }
            },
            None => None,
        }
    }

    /// Parent of process `pid`.
    pub fn parent(&self, pid: Pid) -> (r: Option<Pid>)
        ensures
            r == (if self@.has_proc(pid) {
                self@.proc(pid).parent
            } else {
                None
            }),
    {
        if pid < self.procs.len() {
            match &self.procs[pid] {
                Some(p) => p.parent,
                None => None,
            }
        } else {
            None
        }
    }
}

} // verus!
