//! Queries as parameters of a system.
use vstd::prelude::*;
use std::marker::PhantomData;
use crate::archetype::Archetype;
use crate::dispatch::access::Access;

verus! {

/// Marks a query parameter reading with `Q` and filtering with `F`.
pub struct QueryFetch<Q, F>(pub PhantomData<(Q, F)>);

impl<Q, F> QueryFetch<Q, F> {
    /// Records in `access` that a query on `archetype` reads its entity
    /// list.
    pub fn add_entity_read<V>(archetype: &Archetype<V>, access: &mut Access)
        requires
            old(access).wf(),
            archetype.entity_access_id().0 < usize::MAX,
        ensures
            final(access).wf(),
            final(access).rw_set() == old(access).rw_set().insert(archetype.entity_access_id().0),
            final(access).w_set() == old(access).w_set(),
            final(access).m_set() == old(access).m_set(),
    {
        access.add_read(archetype.entity_archetype_component_id().0);
    }
}

} // verus!
