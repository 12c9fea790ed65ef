//! Parameters through which a system makes entities live or removes them.
use vstd::prelude::*;
use std::marker::PhantomData;
use crate::archetype::{ArchetypeId, remove_key_outcome};
use crate::dispatch::access::Access;
use crate::entity::Id;
use crate::world::World;

verus! {

/// The archetype component id that the entity list (`delete` false) or the
/// entity deletion (`delete` true) of the archetype of type key `type_key`
/// has in `w`, or will have once the archetype is created.
pub open spec fn entity_access_of<V, R>(w: World<V, R>, type_key: u64, delete: bool) -> int {
    let t = w.archetype_table();
    if t.ident_map().contains_key(type_key) {
        let a = t.view()[t.ident_map()[type_key].0 as int];
        if delete { a.entity_delete_access_id().0 as int } else { a.entity_access_id().0 as int }
    } else {
        t.access_infos().len() + if delete { 2int } else { 1int }
    }
}

/// Makes entities live in one archetype.
pub struct EntityInsert<T> {
    pub arch_id: ArchetypeId,
    pub mark: PhantomData<T>,
}

impl<T> EntityInsert<T> {
    /// Makes a new entity live; see `World::spawn_in`.
    pub fn spawn<V, R>(&mut self, world: &mut World<V, R>) -> (r: Id<T>)
        requires
            old(world).wf(),
            (old(self).arch_id.0 as int) < old(world).archetype_table().view().len(),
            old(world).archetype_table().view()[old(self).arch_id.0 as int].entity_store().has_room(),
            old(world).archetype_table().view()[old(self).arch_id.0 as int].entity_store().reserved_count() == 0,
        ensures
            final(world).wf(),
            *final(self) == *old(self),
            ({
                let i = old(self).arch_id.0 as int;
                &&& !old(world).archetype_table().view()[i].entity_store().view().contains(r.0)
                &&& final(world).archetype_table().view()[i].entity_store().view()
                    == old(world).archetype_table().view()[i].entity_store().view().push(r.0)
                &&& final(world).archetype_table().view()[i].columns() == old(world).archetype_table().view()[i].columns()
                &&& final(world).archetype_table().same_but(&old(world).archetype_table(), i)
            }),
    {
        let e = world.spawn_in(self.arch_id);
        Id::new(e.local())
    }
}

/// The state of an `EntityInsert`: the archetype.
pub struct EntityInsertState<T>(pub ArchetypeId, pub PhantomData<T>);

impl<T> EntityInsertState<T> {
    /// Takes the archetype of type key `type_key` (named `name`), created if
    /// need be, and records in `access` that the system writes its entity
    /// list, which the system must not read otherwise.
    pub fn init<V, R>(world: &mut World<V, R>, access: &mut Access, type_key: u64, name: &'static str) -> (r: Self)
        requires
            old(world).wf(),
            old(access).wf(),
            old(world).archetype_table().access_infos().len() + 2 < usize::MAX,
            entity_access_of(*old(world), type_key, false) < usize::MAX,
            !old(access).rw_set().contains(entity_access_of(*old(world), type_key, false) as usize),
        ensures
            final(world).wf(),
            final(world).archetype_table().ident_map()[type_key] == r.0,
            final(access).wf(),
            final(access).rw_set() == old(access).rw_set().insert(entity_access_of(*old(world), type_key, false) as usize),
            final(access).w_set() == old(access).w_set().insert(entity_access_of(*old(world), type_key, false) as usize),
            final(access).m_set() == old(access).m_set(),
    {
        let arch_id = world.new_archetype(type_key, name);
        proof {
            world.lemma_parts_wf();
            world.archetype_table().lemma_member_wf(arch_id.0 as int);
        }
        let acid = world.archetypes().index(arch_id).entity_archetype_component_id();
        access.add_write(acid.0);
        EntityInsertState(arch_id, PhantomData)
    }

    /// The parameter for a run of the system.
    pub fn get_param(&self) -> (r: EntityInsert<T>)
        ensures
            r.arch_id == self.0,
    {
        EntityInsert { arch_id: self.0, mark: PhantomData }
    }
}

/// Removes entities of one archetype from its entity list.
pub struct EntityDelete<T> {
    pub arch_id: ArchetypeId,
    pub mark: PhantomData<T>,
}

impl<T> EntityDelete<T> {
    /// Removes entity `id` from the entity list; see `World::remove_key`.
    pub fn despawn<V, R>(&mut self, world: &mut World<V, R>, id: Id<T>) -> (r: Option<()>)
        requires
            old(world).wf(),
            (old(self).arch_id.0 as int) < old(world).archetype_table().view().len(),
            old(world).archetype_table().view()[old(self).arch_id.0 as int].entity_store().reserved_count() == 0,
        ensures
            final(world).wf(),
            *final(self) == *old(self),
            final(world).archetype_table().same_but(&old(world).archetype_table(), old(self).arch_id.0 as int),
            remove_key_outcome(old(world).archetype_table().view()[old(self).arch_id.0 as int],
                final(world).archetype_table().view()[old(self).arch_id.0 as int], id.0, r),
    {
        world.remove_key(self.arch_id, id.local())
    }
}

/// The state of an `EntityDelete`: the archetype.
pub struct EntityDeleteState<T>(pub ArchetypeId, pub PhantomData<T>);

impl<T> EntityDeleteState<T> {
    /// Takes the archetype of type key `type_key` (named `name`), created if
    /// need be, and records in `access` that the system writes its entity
    /// deletion, which the system must not read otherwise.
    pub fn init<V, R>(world: &mut World<V, R>, access: &mut Access, type_key: u64, name: &'static str) -> (r: Self)
        requires
            old(world).wf(),
            old(access).wf(),
            old(world).archetype_table().access_infos().len() + 2 < usize::MAX,
            entity_access_of(*old(world), type_key, true) < usize::MAX,
            !old(access).rw_set().contains(entity_access_of(*old(world), type_key, true) as usize),
        ensures
            final(world).wf(),
            final(world).archetype_table().ident_map()[type_key] == r.0,
            final(access).wf(),
            final(access).rw_set() == old(access).rw_set().insert(entity_access_of(*old(world), type_key, true) as usize),
            final(access).w_set() == old(access).w_set().insert(entity_access_of(*old(world), type_key, true) as usize),
            final(access).m_set() == old(access).m_set(),
    {
        let arch_id = world.new_archetype(type_key, name);
        proof {
            world.lemma_parts_wf();
            world.archetype_table().lemma_member_wf(arch_id.0 as int);
        }
        let acid = world.archetypes().index(arch_id).entity_archetype_component_delete_id();
        access.add_write(acid.0);
        EntityDeleteState(arch_id, PhantomData)
    }

    /// The parameter for a run of the system.
    pub fn get_param(&self) -> (r: EntityDelete<T>)
        ensures
            r.arch_id == self.0,
    {
        EntityDelete { arch_id: self.0, mark: PhantomData }
    }
}

} // verus!
