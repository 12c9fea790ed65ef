//! The data access of a system or of a listener, by archetype component id:
//! what it reads or writes, what it writes, and what it modifies (writes
//! with a modification event, which runs the listeners of that data).
use vstd::prelude::*;
use std::collections::HashMap;
use fixedbitset::FixedBitSet;
use crate::dispatch::bits::{bit_ones, bit_len, bits_within, bits_new, bits_grow, bits_insert, bits_contains, bits_union_with, bits_len, bits_clone};

verus! {

broadcast use vstd::std_specs::hash::group_hash_axioms;

/// Data access as three bit sets of archetype component ids. A modification
/// is a write, and a write is a read-or-write.
pub struct Access {
    reads_and_writes: FixedBitSet,
    writes: FixedBitSet,
    modify: FixedBitSet,
}

impl Access {
    /// The ids read or written.
    pub closed spec fn rw_set(&self) -> Set<usize> {
        bit_ones(self.reads_and_writes)
    }

    /// The ids written.
    pub closed spec fn w_set(&self) -> Set<usize> {
        bit_ones(self.writes)
    }

    /// The ids modified.
    pub closed spec fn m_set(&self) -> Set<usize> {
        bit_ones(self.modify)
    }

    /// The largest length of the three bit sets: every id is below it.
    pub closed spec fn extent(&self) -> usize {
        let a = bit_len(self.reads_and_writes);
        let b = bit_len(self.writes);
        let c = bit_len(self.modify);
        if a >= b && a >= c { a } else if b >= c { b } else { c }
    }

    pub closed spec fn wf(&self) -> bool {
        &&& bits_within(self.reads_and_writes)
        &&& bits_within(self.writes)
        &&& bits_within(self.modify)
        &&& self.m_set().subset_of(self.w_set())
        &&& self.w_set().subset_of(self.rw_set())
    }

    /// Every id of a well-formed access is below its extent.
    pub proof fn lemma_below_extent(&self)
        requires
            self.wf(),
        ensures
            forall|i: usize| #[trigger] self.rw_set().contains(i) ==> i < self.extent(),
            forall|i: usize| #[trigger] self.w_set().contains(i) ==> i < self.extent(),
            forall|i: usize| #[trigger] self.m_set().contains(i) ==> i < self.extent(),
    {
    }

    /// A modification is a write, and a write is a read-or-write.
    pub proof fn lemma_nested(&self)
        requires
            self.wf(),
        ensures
            self.m_set().subset_of(self.w_set()),
            self.w_set().subset_of(self.rw_set()),
    {
    }

    /// No access.
    pub fn new() -> (r: Self)
        ensures
            r.wf(),
            r.rw_set() == Set::<usize>::empty(),
            r.w_set() == Set::<usize>::empty(),
            r.m_set() == Set::<usize>::empty(),
    {
        Access { reads_and_writes: bits_new(), writes: bits_new(), modify: bits_new() }
    }

    /// Adds a read of `id`.
    pub fn add_read(&mut self, id: usize)
        requires
            old(self).wf(),
            id < usize::MAX,
        ensures
            final(self).wf(),
            final(self).rw_set() == old(self).rw_set().insert(id),
            final(self).w_set() == old(self).w_set(),
            final(self).m_set() == old(self).m_set(),
    {
        bits_grow(&mut self.reads_and_writes, id + 1);
        bits_insert(&mut self.reads_and_writes, id);
    }

    /// Adds a write of `id`.
    pub fn add_write(&mut self, id: usize)
        requires
            old(self).wf(),
            id < usize::MAX,
        ensures
            final(self).wf(),
            final(self).rw_set() == old(self).rw_set().insert(id),
            final(self).w_set() == old(self).w_set().insert(id),
            final(self).m_set() == old(self).m_set(),
    {
        bits_grow(&mut self.reads_and_writes, id + 1);
        bits_insert(&mut self.reads_and_writes, id);
        bits_grow(&mut self.writes, id + 1);
        bits_insert(&mut self.writes, id);
    }

    /// Adds a modification of `id`.
    pub fn add_modify(&mut self, id: usize)
        requires
            old(self).wf(),
            id < usize::MAX,
        ensures
            final(self).wf(),
            final(self).rw_set() == old(self).rw_set().insert(id),
            final(self).w_set() == old(self).w_set().insert(id),
            final(self).m_set() == old(self).m_set().insert(id),
    {
        self.add_write(id);
        bits_grow(&mut self.modify, id + 1);
        bits_insert(&mut self.modify, id);
    }

    /// Whether `id` is read or written.
    pub fn has_read(&self, id: usize) -> (r: bool)
        requires
            self.wf(),
        ensures
            r == self.rw_set().contains(id),
    {
        bits_contains(&self.reads_and_writes, id)
    }

    /// Whether `id` is written.
    pub fn has_write(&self, id: usize) -> (r: bool)
        requires
            self.wf(),
        ensures
            r == self.w_set().contains(id),
    {
        bits_contains(&self.writes, id)
    }

    /// The ids read or written.
    pub fn get_reads_and_writes(&self) -> (r: &FixedBitSet)
        ensures
            bit_ones(*r) == self.rw_set(),
            self.wf() ==> bits_within(*r) && bit_len(*r) <= self.extent(),
    {
        &self.reads_and_writes
    }

    /// The ids written.
    pub fn get_writes(&self) -> (r: &FixedBitSet)
        ensures
            bit_ones(*r) == self.w_set(),
            self.wf() ==> bits_within(*r) && bit_len(*r) <= self.extent(),
    {
        &self.writes
    }

    /// The ids modified.
    pub fn get_modify(&self) -> (r: &FixedBitSet)
        ensures
            bit_ones(*r) == self.m_set(),
            self.wf() ==> bits_within(*r) && bit_len(*r) <= self.extent(),
    {
        &self.modify
    }

    /// A copy of this access.
    pub fn clone_access(&self) -> (r: Access)
        requires
            self.wf(),
        ensures
            r.wf(),
            r.rw_set() == self.rw_set(),
            r.w_set() == self.w_set(),
            r.m_set() == self.m_set(),
    {
        Access {
            reads_and_writes: bits_clone(&self.reads_and_writes),
            writes: bits_clone(&self.writes),
            modify: bits_clone(&self.modify),
        }
    }

    /// Adds the access of `other`.
    pub fn extend(&mut self, other: &Access)
        requires
            old(self).wf(),
            other.wf(),
        ensures
            final(self).wf(),
            final(self).rw_set() == old(self).rw_set().union(other.rw_set()),
            final(self).w_set() == old(self).w_set().union(other.w_set()),
            final(self).m_set() == old(self).m_set().union(other.m_set()),
    {
        bits_union_with(&mut self.reads_and_writes, &other.reads_and_writes);
        bits_union_with(&mut self.writes, &other.writes);
        bits_union_with(&mut self.modify, &other.modify);
    }
}

/// For each archetype component id, the accesses of the listeners that a
/// modification of it runs.
pub struct ListenerAccess {
    by_id: HashMap<usize, Vec<Access>>,
    limit: usize,
}

impl ListenerAccess {
    /// The listener accesses, by archetype component id.
    pub closed spec fn table(&self) -> Map<usize, Seq<Access>> {
        self.by_id@.map_values(|v: Vec<Access>| v@)
    }

    /// Every id in the table is below this bound.
    pub closed spec fn bound(&self) -> usize {
        self.limit
    }

    pub closed spec fn wf(&self) -> bool {
        forall|k: usize, j: int| #[trigger] self.by_id@.contains_key(k) && 0 <= j < self.by_id@[k]@.len() ==> {
            &&& (#[trigger] self.by_id@[k]@[j]).wf()
            &&& self.by_id@[k]@[j].extent() <= self.limit
        }
    }

    /// No listener.
    pub fn new() -> (r: Self)
        ensures
            r.wf(),
            r.table() == Map::<usize, Seq<Access>>::empty(),
    {
        let r = ListenerAccess { by_id: HashMap::new(), limit: 0 };
        proof {
            assert(r.table() =~= Map::<usize, Seq<Access>>::empty());
        }
        r
    }

    /// Records a listener with access `access` on `a_c_id`.
    pub fn add_access(&mut self, a_c_id: usize, access: Access)
        requires
            old(self).wf(),
            access.wf(),
        ensures
            final(self).wf(),
            final(self).table() == old(self).table().insert(a_c_id,
                if old(self).table().contains_key(a_c_id) { old(self).table()[a_c_id].push(access) } else { seq![access] }),
    {
        let ext = {
            let a = bits_len(&access.reads_and_writes);
            let b = bits_len(&access.writes);
            let c = bits_len(&access.modify);
            if a >= b && a >= c { a } else if b >= c { b } else { c }
        };
        let ghost old_limit = self.limit;
        if ext > self.limit {
            self.limit = ext;
        }
        let mut list = match self.by_id.remove(&a_c_id) {
            Some(v) => v,
            None => Vec::new(),
        };
        let ghost prev = list@;
        list.push(access);
        self.by_id.insert(a_c_id, list);
        proof {
            assert(self.table() =~= old(self).table().insert(a_c_id,
                if old(self).table().contains_key(a_c_id) { old(self).table()[a_c_id].push(access) } else { seq![access] }));
            assert forall|k: usize, j: int| #[trigger] self.by_id@.contains_key(k) && 0 <= j < self.by_id@[k]@.len() implies {
                &&& (#[trigger] self.by_id@[k]@[j]).wf()
                &&& self.by_id@[k]@[j].extent() <= self.limit
            } by {
                if k == a_c_id {
                    if j < prev.len() {
                        assert(old(self).by_id@[k]@[j] == self.by_id@[k]@[j]);
                    }
                } else {
                    assert(old(self).by_id@[k] == self.by_id@[k]);
                }
            }
        }
    }

    /// Every listener access in the table is well formed and within the
    /// bound.
    pub proof fn lemma_entry(&self, k: usize, j: int)
        requires
            self.wf(),
            self.table().contains_key(k),
            0 <= j < self.table()[k].len(),
        ensures
            self.table()[k][j].wf(),
            self.table()[k][j].extent() <= self.bound(),
    {
        assert(self.by_id@.contains_key(k));
        assert(self.table()[k][j] == self.by_id@[k]@[j]);
    }

    /// The bound below which every id of the table lies.
    pub fn limit(&self) -> (r: usize)
        ensures
            r == self.bound(),
    {
        self.limit
    }

    /// The listener accesses on `a_c_id`, if any.
    pub fn get(&self, a_c_id: usize) -> (r: Option<&Vec<Access>>)
        ensures
            match r {
                Some(v) => self.table().contains_key(a_c_id) && v@ == self.table()[a_c_id],
                None => !self.table().contains_key(a_c_id),
            },
    {
        self.by_id.get(&a_c_id)
    }
}

} // verus!
