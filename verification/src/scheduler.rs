//! Run-queue policy: round-robin inside a priority class, with a fixed time
//! slice and an optional CPU affinity per thread.

use vstd::prelude::*;

verus! {

/// Thread identifier: the index of the thread's slot in the pool.
pub type Tid = usize;

/// Scheduling metadata kept for every thread slot.
#[derive(Clone, Copy, Debug)]
pub struct SchedInfo {
    /// Priority tier; a larger value is served first.
    pub priority: u8,
    /// `Some(cpu)` restricts the thread to that CPU, `None` lets any CPU take it.
    pub affinity: Option<usize>,
    /// Ticks left of the current time slice.
    pub slice: usize,
}

/// Mathematical state of the scheduler.
#[verifier::ext_equal]
pub ghost struct SchedState {
    /// The ready queue, oldest entry first.
    pub queue: Seq<Tid>,
    /// Metadata, indexed by thread id.
    pub infos: Seq<SchedInfo>,
    /// Length of a full time slice in ticks.
    pub max_slice: nat,
}

impl SchedState {
    pub open spec fn inv(self) -> bool {
        &&& 0 < self.max_slice <= usize::MAX
        &&& self.queue.no_duplicates()
        &&& forall|i: int| 0 <= i < self.queue.len() ==> #[trigger] self.queue[i] < self.infos.len()
        &&& forall|t: int| 0 <= t < self.infos.len() ==> (#[trigger] self.infos[t]).slice <= self.max_slice
        &&& forall|i: int|
            0 <= i < self.queue.len() ==> self.infos[(#[trigger] self.queue[i]) as int].slice >= 1
    }

    pub open spec fn priority(self, tid: Tid) -> u8 {
        self.infos[tid as int].priority
    }

    /// May `cpu` take thread `tid`?
    pub open spec fn eligible(self, tid: Tid, cpu: usize) -> bool {
        self.infos[tid as int].affinity is None || self.infos[tid as int].affinity == Some(cpu)
    }

    /// Some queued thread may be taken by `cpu`.
    pub open spec fn has_work(self, cpu: usize) -> bool {
        exists|i: int| 0 <= i < self.queue.len() && self.eligible(#[trigger] self.queue[i], cpu)
    }

    /// Entry `i` is the one `cpu` takes next: among the entries it may take, the
    /// one of highest priority, and among those the oldest.
    pub open spec fn is_choice(self, i: int, cpu: usize) -> bool {
        &&& 0 <= i < self.queue.len()
        &&& self.eligible(self.queue[i], cpu)
        &&& forall|j: int|
            0 <= j < self.queue.len() && self.eligible(#[trigger] self.queue[j], cpu) ==> {
                ||| self.priority(self.queue[j]) < self.priority(self.queue[i])
                ||| (self.priority(self.queue[j]) == self.priority(self.queue[i]) && i <= j)
            }
    }

    pub open spec fn choice(self, cpu: usize) -> int {
        choose|i: int| self.is_choice(i, cpu)
    }

    /// A queued thread that `cpu` may take has a higher priority than `tid`.
    pub open spec fn outranked(self, tid: Tid, cpu: usize) -> bool {
        exists|i: int|
            0 <= i < self.queue.len() && self.eligible(#[trigger] self.queue[i], cpu)
                && self.priority(self.queue[i]) > self.priority(tid)
    }

    /// Metadata of a thread that has just been created.
    pub open spec fn fresh_info() -> SchedInfo {
        SchedInfo { priority: 0, affinity: None, slice: 0 }
    }

    /// Gives slot `tid` fresh metadata, growing the table by one if `tid` is new.
    pub open spec fn insert(self, tid: Tid) -> SchedState {
        if tid < self.infos.len() {
            SchedState { infos: self.infos.update(tid as int, Self::fresh_info()), ..self }
        } else {
            SchedState { infos: self.infos.push(Self::fresh_info()), ..self }
        }
    }

    /// Appends `tid` to the ready queue; an exhausted slice is refilled.
    pub open spec fn push(self, tid: Tid) -> SchedState {
        let info = self.infos[tid as int];
        let slice = if info.slice == 0 {
            self.max_slice as usize
        } else {
            info.slice
        };
        SchedState {
            queue: self.queue.push(tid),
            infos: self.infos.update(tid as int, SchedInfo { slice, ..info }),
            ..self
        }
    }

    /// Takes the next thread for `cpu` out of the queue.
    pub open spec fn pop(self, cpu: usize) -> (SchedState, Option<Tid>) {
        if self.has_work(cpu) {
            let i = self.choice(cpu);
            (SchedState { queue: self.queue.remove(i), ..self }, Some(self.queue[i]))
        } else {
            (self, None)
        }
    }

    /// One timer tick charged to `tid`, which runs on `cpu`. The flag asks for
    /// preemption: the slice is used up, or a thread of higher priority waits.
    /// A thread that is unknown, or waits in the queue, is charged nothing.
    pub open spec fn tick(self, cpu: usize, tid: Tid) -> (SchedState, bool) {
        if tid < self.infos.len() && !self.queue.contains(tid) {
            let info = self.infos[tid as int];
            let slice = if info.slice > 0 {
                (info.slice - 1) as usize
            } else {
                0
            };
            (
                SchedState {
                    infos: self.infos.update(tid as int, SchedInfo { slice, ..info }),
                    ..self
                },
                slice == 0 || self.outranked(tid, cpu),
            )
        } else {
            (self, false)
        }
    }

    /// Takes `tid` out of the queue, if it is there.
    pub open spec fn remove(self, tid: Tid) -> SchedState {
        if self.queue.contains(tid) {
            SchedState { queue: self.queue.remove(self.queue.index_of(tid)), ..self }
        } else {
            self
        }
    }

    pub open spec fn set_priority(self, tid: Tid, priority: u8) -> SchedState {
        if tid < self.infos.len() {
            SchedState {
                infos: self.infos.update(
                    tid as int,
                    SchedInfo { priority, ..self.infos[tid as int] },
                ),
                ..self
            }
        } else {
            self
        }
    }

    pub open spec fn set_affinity(self, tid: Tid, affinity: Option<usize>) -> SchedState {
        if tid < self.infos.len() {
            SchedState {
                infos: self.infos.update(
                    tid as int,
                    SchedInfo { affinity, ..self.infos[tid as int] },
                ),
                ..self
            }
        } else {
            self
        }
    }
}

/// Removing one entry of a duplicate-free sequence keeps it duplicate-free and
/// removes exactly that value.
pub proof fn lemma_remove_no_duplicates(s: Seq<Tid>, i: int)
    requires
        s.no_duplicates(),
        0 <= i < s.len(),
    ensures
        s.remove(i).no_duplicates(),
        !s.remove(i).contains(s[i]),
        forall|t: Tid| t != s[i] ==> (s.remove(i).contains(t) <==> s.contains(t)),
{
    let r = s.remove(i);
    assert forall|a: int, b: int| 0 <= a < r.len() && 0 <= b < r.len() && a != b implies r[a]
        != r[b] by {
        let a2 = if a < i { a } else { a + 1 };
        let b2 = if b < i { b } else { b + 1 };
        assert(r[a] == s[a2] && r[b] == s[b2]);
    }
    if r.contains(s[i]) {
        let a = choose|a: int| 0 <= a < r.len() && r[a] == s[i];
        let a2 = if a < i { a } else { a + 1 };
        assert(r[a] == s[a2]);
    }
    assert forall|t: Tid| t != s[i] implies (r.contains(t) <==> s.contains(t)) by {
        if r.contains(t) {
            let a = choose|a: int| 0 <= a < r.len() && r[a] == t;
            let a2 = if a < i { a } else { a + 1 };
            assert(s[a2] == t);
        }
        if s.contains(t) {
            let a = choose|a: int| 0 <= a < s.len() && s[a] == t;
            let a2 = if a < i { a } else { a - 1 };
            assert(r[a2] == t);
        }
    }
}

/// Appending a value that is not yet there keeps a sequence duplicate-free.
pub proof fn lemma_push_no_duplicates(s: Seq<Tid>, t: Tid)
    requires
        s.no_duplicates(),
        !s.contains(t),
    ensures
        s.push(t).no_duplicates(),
        forall|u: Tid| s.push(t).contains(u) <==> (u == t || s.contains(u)),
{
    let r = s.push(t);
    assert forall|a: int, b: int| 0 <= a < r.len() && 0 <= b < r.len() && a != b implies r[a]
        != r[b] by {
        if a < s.len() {
            assert(s.contains(r[a]));
        }
        if b < s.len() {
            assert(s.contains(r[b]));
        }
    }
    assert forall|u: Tid| r.contains(u) <==> (u == t || s.contains(u)) by {
        if r.contains(u) {
            let a = choose|a: int| 0 <= a < r.len() && r[a] == u;
            if a < s.len() {
                assert(s[a] == u);
            }
        }
        if s.contains(u) {
            let a = choose|a: int| 0 <= a < s.len() && s[a] == u;
            assert(r[a] == u);
        }
        if u == t {
            assert(r[s.len() as int] == t);
        }
    }
}

/// In a duplicate-free sequence a value stands at one index only.
pub proof fn lemma_index_of_unique(s: Seq<Tid>, i: int)
    requires
        s.no_duplicates(),
        0 <= i < s.len(),
    ensures
        s.index_of(s[i]) == i,
{
    let j = s.index_of(s[i]);
    assert(0 <= j < s.len() && s[j] == s[i]);
}

/// At most one entry is the choice of a CPU.
pub proof fn lemma_choice_unique(s: SchedState, a: int, b: int, cpu: usize)
    requires
        s.is_choice(a, cpu),
        s.is_choice(b, cpu),
    ensures
        a == b,
{
}

/// `push` keeps the invariant and adds exactly `tid` to the queue.
pub proof fn lemma_push(s: SchedState, tid: Tid)
    requires
        s.inv(),
        tid < s.infos.len(),
        !s.queue.contains(tid),
    ensures
        s.push(tid).inv(),
        s.push(tid).infos.len() == s.infos.len(),
        forall|u: Tid| s.push(tid).queue.contains(u) <==> (u == tid || s.queue.contains(u)),
{
    lemma_push_no_duplicates(s.queue, tid);
    let r = s.push(tid);
    assert forall|i: int| 0 <= i < r.queue.len() implies #[trigger] r.queue[i] < r.infos.len() by {
        if i < s.queue.len() {
            assert(r.queue[i] == s.queue[i]);
        }
    }
}

/// `remove` keeps the invariant and takes exactly `tid` out of the queue.
pub proof fn lemma_remove(s: SchedState, tid: Tid)
    requires
        s.inv(),
    ensures
        s.remove(tid).inv(),
        s.remove(tid).infos == s.infos,
        !s.remove(tid).queue.contains(tid),
        forall|u: Tid| u != tid ==> (s.remove(tid).queue.contains(u) <==> s.queue.contains(u)),
{
    if s.queue.contains(tid) {
        let i = s.queue.index_of(tid);
        assert(0 <= i < s.queue.len() && s.queue[i] == tid);
        lemma_remove_no_duplicates(s.queue, i);
        let r = s.remove(tid);
        assert forall|k: int| 0 <= k < r.queue.len() implies #[trigger] r.queue[k]
            < r.infos.len() by {
            let k2 = if k < i { k } else { k + 1 };
            assert(r.queue[k] == s.queue[k2]);
        }
    }
}

/// `pop` keeps the invariant; what it returns was queued and may run on `cpu`,
/// and it returns nothing only when `cpu` may take none of the queued threads.
pub proof fn lemma_pop(s: SchedState, cpu: usize)
    requires
        s.inv(),
    ensures
        s.pop(cpu).0.inv(),
        s.pop(cpu).0.infos == s.infos,
        s.pop(cpu).1 is None ==> s.pop(cpu).0 == s && !s.has_work(cpu),
        s.pop(cpu).1 matches Some(tid) ==> {
            &&& s.queue.contains(tid)
            &&& tid < s.infos.len()
            &&& s.eligible(tid, cpu)
            &&& s.is_choice(s.queue.index_of(tid), cpu)
            &&& s.pop(cpu).0.queue == s.queue.remove(s.queue.index_of(tid))
            &&& !s.pop(cpu).0.queue.contains(tid)
            &&& forall|u: Tid|
                u != tid ==> (s.pop(cpu).0.queue.contains(u) <==> s.queue.contains(u))
        },
{
    if s.has_work(cpu) {
        lemma_has_work_has_choice(s, cpu, s.queue.len() as int);
        let i = s.choice(cpu);
        assert(s.is_choice(i, cpu));
        lemma_index_of_unique(s.queue, i);
        lemma_remove_no_duplicates(s.queue, i);
        let r = s.pop(cpu).0;
        assert forall|k: int| 0 <= k < r.queue.len() implies #[trigger] r.queue[k]
            < r.infos.len() by {
            let k2 = if k < i { k } else { k + 1 };
            assert(r.queue[k] == s.queue[k2]);
        }
    }
}

/// Some entry among the first `n` is the best of them, if `cpu` may take any.
proof fn lemma_best_of_prefix(s: SchedState, cpu: usize, n: int) -> (b: int)
    requires
        0 <= n <= s.queue.len(),
        exists|i: int| 0 <= i < n && s.eligible(#[trigger] s.queue[i], cpu),
    ensures
        0 <= b < n,
        s.eligible(s.queue[b], cpu),
        forall|j: int|
            0 <= j < n && s.eligible(#[trigger] s.queue[j], cpu) ==> {
                ||| s.priority(s.queue[j]) < s.priority(s.queue[b])
                ||| (s.priority(s.queue[j]) == s.priority(s.queue[b]) && b <= j)
            },
    decreases n,
{
    let last = n - 1;
    if exists|i: int| 0 <= i < last && s.eligible(#[trigger] s.queue[i], cpu) {
        let b = lemma_best_of_prefix(s, cpu, last);
        if s.eligible(s.queue[last], cpu) && s.priority(s.queue[last]) > s.priority(s.queue[b]) {
            last
        } else {
            b
        }
    } else {
        assert(s.eligible(s.queue[last], cpu));
        last
    }
}

/// Where `cpu` may take some queued thread, one entry is its choice.
pub proof fn lemma_has_work_has_choice(s: SchedState, cpu: usize, n: int)
    requires
        s.has_work(cpu),
        n == s.queue.len(),
    ensures
        s.is_choice(s.choice(cpu), cpu),
{
    let b = lemma_best_of_prefix(s, cpu, n);
    assert(s.is_choice(b, cpu));
}

/// `insert` keeps the invariant and the queue.
pub proof fn lemma_insert(s: SchedState, tid: Tid)
    requires
        s.inv(),
        tid <= s.infos.len(),
        !s.queue.contains(tid),
    ensures
        s.insert(tid).inv(),
        s.insert(tid).queue == s.queue,
        s.insert(tid).infos.len() == (if tid < s.infos.len() {
            s.infos.len()
        } else {
            s.infos.len() + 1
        }),
{
    let r = s.insert(tid);
    assert forall|i: int| 0 <= i < r.queue.len() implies r.infos[(#[trigger] r.queue[i]) as int].slice
        >= 1 by {
        assert(s.queue.contains(s.queue[i]));
        assert(s.infos[s.queue[i] as int].slice >= 1);
    }
    assert forall|i: int| 0 <= i < r.queue.len() implies #[trigger] r.queue[i] < r.infos.len() by {
        assert(s.queue[i] < s.infos.len());
    }
}

/// `tick` keeps the invariant and the queue.
pub proof fn lemma_tick(s: SchedState, cpu: usize, tid: Tid)
    requires
        s.inv(),
    ensures
        s.tick(cpu, tid).0.inv(),
        s.tick(cpu, tid).0.queue == s.queue,
        s.tick(cpu, tid).0.infos.len() == s.infos.len(),
{
}

/// The round-robin scheduler.
pub struct Scheduler {
    queue: Vec<Tid>,
    infos: Vec<SchedInfo>,
    max_slice: usize,
}

impl Scheduler {
    pub closed spec fn view(&self) -> SchedState {
        SchedState { queue: self.queue@, infos: self.infos@, max_slice: self.max_slice as nat }
    }

    pub open spec fn wf(&self) -> bool {
        self@.inv()
    }

    /// An empty scheduler that hands out slices of `max_time_slice` ticks.
    pub fn new(max_time_slice: usize) -> (r: Self)
        requires
            max_time_slice > 0,
        ensures
            r.wf(),
            r@ == (SchedState {
                queue: Seq::empty(),
                infos: Seq::empty(),
                max_slice: max_time_slice as nat,
            }),
    {
        Scheduler { queue: Vec::new(), infos: Vec::new(), max_slice: max_time_slice }
    }

    /// Gives slot `tid` fresh metadata.
    pub fn insert(&mut self, tid: Tid)
        requires
            old(self).wf(),
            tid <= old(self)@.infos.len(),
            !old(self)@.queue.contains(tid),
        ensures
            final(self).wf(),
            final(self)@ == old(self)@.insert(tid),
    {
        let info = SchedInfo { priority: 0, affinity: None, slice: 0 };
        if tid < self.infos.len() {
            self.infos[tid] = info;
        } else {
            self.infos.push(info);
        }
    }

    /// Appends `tid` to the ready queue.
    pub fn push(&mut self, tid: Tid)
        requires
            old(self).wf(),
            tid < old(self)@.infos.len(),
            !old(self)@.queue.contains(tid),
        ensures
            final(self).wf(),
            final(self)@ == old(self)@.push(tid),
    {
        let mut info = self.infos[tid];
        if info.slice == 0 {
            info.slice = self.max_slice;
        }
        self.infos[tid] = info;
        self.queue.push(tid);
        proof {
            lemma_push_no_duplicates(old(self)@.queue, tid);
            assert forall|i: int| 0 <= i < self@.queue.len() implies #[trigger] self@.queue[i]
                < self@.infos.len() by {
                if i < old(self)@.queue.len() {
                    assert(self@.queue[i] == old(self)@.queue[i]);
                }
            }
        }
    }

    /// Takes the next thread for `cpu_id` out of the queue.
    pub fn pop(&mut self, cpu_id: usize) -> (r: Option<Tid>)
        requires
            old(self).wf(),
        ensures
            final(self).wf(),
            final(self)@ == old(self)@.pop(cpu_id).0,
            r == old(self)@.pop(cpu_id).1,
    {
        let ghost s = self@;
        let mut best: Option<usize> = None;
        let mut i: usize = 0;
        while i < self.queue.len()
            invariant
                self@ == s,
                s.inv(),
                i <= s.queue.len(),
                best is None ==> forall|j: int|
                    0 <= j < i ==> !s.eligible(#[trigger] s.queue[j], cpu_id),
                best matches Some(b) ==> {
                    &&& b < i
                    &&& s.eligible(s.queue[b as int], cpu_id)
                    &&& forall|j: int|
                        0 <= j < i && s.eligible(#[trigger] s.queue[j], cpu_id) ==> {
                            ||| s.priority(s.queue[j]) < s.priority(s.queue[b as int])
                            ||| (s.priority(s.queue[j]) == s.priority(s.queue[b as int]) && b
                                <= j)
                        }
                },
            decreases s.queue.len() - i,
        {
            let tid = self.queue[i];
            let info = self.infos[tid];
            let may_take = match info.affinity {
                None => true,
                Some(c) => c == cpu_id,
            };
            if may_take {
                match best {
                    None => {
                        best = Some(i);
                    },
                    Some(b) => {
                        let other = self.infos[self.queue[b]];
                        if other.priority < info.priority {
                            best = Some(i);
                        }
                    },
                }
            }
            i += 1;
        }
        match best {
            None => {
                assert(!s.has_work(cpu_id));
                None
            },
            Some(b) => {
                proof {
                    assert(s.is_choice(b as int, cpu_id));
                    assert(s.has_work(cpu_id));
                    lemma_choice_unique(s, b as int, s.choice(cpu_id), cpu_id);
                    lemma_remove_no_duplicates(s.queue, b as int);
                }
                let tid = self.queue.remove(b);
                proof {
                    assert forall|k: int| 0 <= k < self@.queue.len() implies #[trigger] self@.queue[k]
                        < self@.infos.len() by {
                        let k2 = if k < b { k } else { k + 1 };
                        assert(self@.queue[k] == s.queue[k2]);
                    }
                }
                Some(tid)
            },
        }
    }

    /// Charges one timer tick to `tid`, which runs on `cpu_id`, and says whether
    /// it should be preempted.
    pub fn tick(&mut self, cpu_id: usize, tid: Tid) -> (r: bool)
        requires
            old(self).wf(),
        ensures
            final(self).wf(),
            final(self)@ == old(self)@.tick(cpu_id, tid).0,
            r == old(self)@.tick(cpu_id, tid).1,
    {
        if tid >= self.infos.len() {
            return false;
        }
        let ghost s = self@;
        let mut info = self.infos[tid];
        if info.slice > 0 {
            info.slice = info.slice - 1;
        }
        let priority = info.priority;
        let mut outranked = false;
        let mut queued = false;
        let mut i: usize = 0;
        while i < self.queue.len()
            invariant
                self@ == s,
                s.inv(),
                tid < s.infos.len(),
                priority == s.priority(tid),
                i <= s.queue.len(),
                outranked <==> exists|j: int|
                    0 <= j < i && s.eligible(#[trigger] s.queue[j], cpu_id) && s.priority(
                        s.queue[j],
                    ) > s.priority(tid),
                queued <==> exists|j: int| 0 <= j < i && s.queue[j] == tid,
            decreases s.queue.len() - i,
        {
            let other = self.infos[self.queue[i]];
            let may_take = match other.affinity {
                None => true,
                Some(c) => c == cpu_id,
            };
            if may_take && other.priority > priority {
                outranked = true;
            }
            if self.queue[i] == tid {
                queued = true;
            }
            i += 1;
        }
        if queued {
            return false;
        }
        assert(!s.queue.contains(tid));
        self.infos[tid] = info;
        proof {
            assert forall|k: int| 0 <= k < self@.queue.len() implies self@.infos[(
            #[trigger] self@.queue[k]) as int].slice >= 1 by {
                assert(s.queue.contains(s.queue[k]));
            }
        }
        info.slice == 0 || outranked
    }

    /// Takes `tid` out of the queue, if it is there.
    pub fn remove(&mut self, tid: Tid)
        requires
            old(self).wf(),
        ensures
            final(self).wf(),
            final(self)@ == old(self)@.remove(tid),
    {
        let ghost s = self@;
        let mut i: usize = 0;
        while i < self.queue.len()
            invariant
                self@ == s,
                s == old(self)@,
                s.inv(),
                i <= s.queue.len(),
                forall|j: int| 0 <= j < i ==> s.queue[j] != tid,
            decreases s.queue.len() - i,
        {
            if self.queue[i] == tid {
                proof {
                    assert(s.queue[i as int] == tid);
                    assert(s.queue.contains(tid));
                    lemma_index_of_unique(s.queue, i as int);
                    lemma_remove_no_duplicates(s.queue, i as int);
                }
                self.queue.remove(i);
                proof {
                    assert forall|k: int| 0 <= k < self@.queue.len() implies #[trigger] self@.queue[k]
                        < self@.infos.len() by {
                        let k2 = if k < i { k } else { k + 1 };
                        assert(self@.queue[k] == s.queue[k2]);
                    }
                }
                return ;
            }
            i += 1;
        }
    }

    /// Sets the priority of `tid`; an unknown id is ignored.
    pub fn set_priority(&mut self, tid: Tid, priority: u8)
        requires
            old(self).wf(),
        ensures
            final(self).wf(),
            final(self)@ == old(self)@.set_priority(tid, priority),
    {
        if tid < self.infos.len() {
            let mut info = self.infos[tid];
            info.priority = priority;
            self.infos[tid] = info;
        }
    }

    /// Sets the CPU affinity of `tid`; an unknown id is ignored.
    pub fn set_affinity(&mut self, tid: Tid, affinity: Option<usize>)
        requires
            old(self).wf(),
        ensures
            final(self).wf(),
            final(self)@ == old(self)@.set_affinity(tid, affinity),
    {
        if tid < self.infos.len() {
            let mut info = self.infos[tid];
            info.affinity = affinity;
            self.infos[tid] = info;
        }
    }

    /// Priority of `tid`, if the scheduler knows the id.
    pub fn priority(&self, tid: Tid) -> (r: Option<u8>)
        requires
            self.wf(),
        ensures
            r == (if tid < self@.infos.len() {
                Some(self@.priority(tid))
            } else {
                None
            }),
    {
        if tid < self.infos.len() {
            Some(self.infos[tid].priority)
        } else {
            None
        }
    }

    /// Number of threads in the ready queue.
    pub fn ready_count(&self) -> (r: usize)
        ensures
            r == self@.queue.len(),
    {
        self.queue.len()
    }
}

} // verus!
