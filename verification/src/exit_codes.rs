//! The exit codes of a process's children that nobody has collected yet: a
//! map from child pid to code, ordered by pid.

use std::collections::BTreeMap;
use vstd::prelude::*;
use vstd::std_specs::btree::*;
use vstd::std_specs::cmp::OrdSpec;
use vstd::std_specs::iter::IteratorSpec;

verus! {

broadcast use {vstd::std_specs::btree::group_btree_axioms, vstd::laws_cmp::group_laws_cmp};

/// Process identifier.
pub type Pid = usize;

/// Exit codes by child pid.
pub struct ExitCodes {
    codes: BTreeMap<Pid, usize>,
}

impl ExitCodes {
    /// The map from pid to code.
    pub closed spec fn view(&self) -> Map<Pid, usize> {
        self.codes@
    }

    /// No codes.
    pub fn new() -> (r: Self)
        ensures
            r@ == Map::<Pid, usize>::empty(),
    {
        ExitCodes { codes: BTreeMap::new() }
    }

    /// Records `code` for `pid`, in place of a code that was there.
    pub fn insert(&mut self, pid: Pid, code: usize)
        ensures
            final(self)@ == old(self)@.insert(pid, code),
    {
        let _ = self.codes.insert(pid, code);
    }

    /// The code of `pid`, if one is recorded.
    pub fn get(&self, pid: Pid) -> (r: Option<usize>)
        ensures
            r == (if self@.dom().contains(pid) {
                Some(self@[pid])
            } else {
                None
            }),
    {
        match self.codes.get(&pid) {
            Some(code) => Some(*code),
            None => None,
        }
    }

    /// Takes the code of `pid` out, if one is recorded.
    pub fn remove(&mut self, pid: Pid) -> (r: Option<usize>)
        ensures
            final(self)@ == old(self)@.remove(pid),
            r == (if old(self)@.dom().contains(pid) {
                Some(old(self)@[pid])
            } else {
                None
            }),
    {
        self.codes.remove(&pid)
    }

    /// The entry with the lowest pid.
    pub fn first(&self) -> (r: Option<(Pid, usize)>)
        ensures
            r is None ==> self@.dom() == Set::<Pid>::empty(),
            r matches Some((pid, code)) ==> is_first(self@, pid) && self@[pid] == code,
    {
        for e in it: self.codes.iter()
            invariant
                it.index@ == 0,
                increasing_seq(it.seq().map_values(|kv: (&Pid, &usize)| *kv.0)),
        {
            proof {
                let v = it.seq();
                let keys = v.map_values(|kv: (&Pid, &usize)| *kv.0);
                assert(e == v[0]);
                assert forall|q: Pid| self@.dom().contains(q) implies *e.0 <= q by {
                    assert(v.contains((&q, &self@[q])));
                    let i = choose|i: int| 0 <= i < v.len() && v[i] == (&q, &self@[q]);
                    if i > 0 {
                        assert(keys[0] == *e.0);
                        assert(keys[i] == q);
                        axiom_increasing_seq_meaning(keys);
                        assert(keys[0].cmp_spec(&keys[i]) is Less);
                    }
                }
            }
            return Some((*e.0, *e.1));
        }
        proof {
            assert forall|q: Pid| !self@.dom().contains(q) by {
                if self@.dom().contains(q) {
                    assert(spec_btree_map_iter(&self.codes).remaining().contains((&q, &self@[q])));
                }
            }
            assert(self@.dom() =~= Set::<Pid>::empty());
        }
        None
    }
}

/// `pid` has a code in `codes`, and no lower pid has one.
pub open spec fn is_first(codes: Map<Pid, usize>, pid: Pid) -> bool {
    codes.dom().contains(pid) && forall|q: Pid| codes.dom().contains(q) ==> pid <= q
}

} // verus!
