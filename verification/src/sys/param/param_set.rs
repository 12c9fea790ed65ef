//! Parameter sets: parameters of one system that may conflict with each
//! other, handed out one at a time.
use vstd::prelude::*;
use crate::dispatch::access::Access;

verus! {

/// Parameters that the system takes one at a time.
pub struct ParamSet<T>(pub T);

/// The states of the parameters of a `ParamSet`.
pub struct ParamSetState<T>(pub T);

impl<T> ParamSetState<T> {
    /// The data access of a system whose access so far is `before` and whose
    /// set holds parameters with accesses `each`, each counted against
    /// `before` alone: `before` together with every one of them.
    pub fn combined_access(before: &Access, each: &Vec<Access>) -> (r: Access)
        requires
            before.wf(),
            forall|i: int| 0 <= i < each@.len() ==> (#[trigger] each@[i]).wf(),
        ensures
            r.wf(),
            r.rw_set() == before.rw_set().union(Set::new(|k: usize| exists|i: int| 0 <= i < each@.len() && (#[trigger] each@[i]).rw_set().contains(k))),
            r.w_set() == before.w_set().union(Set::new(|k: usize| exists|i: int| 0 <= i < each@.len() && (#[trigger] each@[i]).w_set().contains(k))),
            r.m_set() == before.m_set().union(Set::new(|k: usize| exists|i: int| 0 <= i < each@.len() && (#[trigger] each@[i]).m_set().contains(k))),
    {
        let mut cur = before.clone_access();
        let mut i: usize = 0;
        while i < each.len()
            invariant
                0 <= i <= each@.len(),
                cur.wf(),
                forall|j: int| 0 <= j < each@.len() ==> (#[trigger] each@[j]).wf(),
                cur.rw_set() == before.rw_set().union(Set::new(|k: usize| exists|j: int| 0 <= j < i && (#[trigger] each@[j]).rw_set().contains(k))),
                cur.w_set() == before.w_set().union(Set::new(|k: usize| exists|j: int| 0 <= j < i && (#[trigger] each@[j]).w_set().contains(k))),
                cur.m_set() == before.m_set().union(Set::new(|k: usize| exists|j: int| 0 <= j < i && (#[trigger] each@[j]).m_set().contains(k))),
            decreases each@.len() - i,
        {
            cur.extend(&each[i]);
            proof {
                assert(cur.rw_set() =~= before.rw_set().union(Set::new(|k: usize| exists|j: int| 0 <= j < i + 1 && (#[trigger] each@[j]).rw_set().contains(k))));
                assert(cur.w_set() =~= before.w_set().union(Set::new(|k: usize| exists|j: int| 0 <= j < i + 1 && (#[trigger] each@[j]).w_set().contains(k))));
                assert(cur.m_set() =~= before.m_set().union(Set::new(|k: usize| exists|j: int| 0 <= j < i + 1 && (#[trigger] each@[j]).m_set().contains(k))));
            }
            i = i + 1;
        }
        cur
    }
}

} // verus!
