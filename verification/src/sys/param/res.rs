//! Resources as parameters of a system.
use vstd::prelude::*;
use std::marker::PhantomData;
use crate::component::ComponentId;
use crate::dispatch::access::Access;
use crate::world::World;

verus! {

/// The archetype component id that the resource of type key `type_key` has
/// in `w`, or will have once it is registered.
pub open spec fn resource_access_of<V, R>(w: World<V, R>, type_key: u64) -> int {
    if w.registry().resource_ids().contains_key(type_key) {
        w.archetype_table().resource_access_map()[type_key].0 as int
    } else {
        w.archetype_table().access_infos().len() + 1int
    }
}

/// Reads one resource.
pub struct ResState<T> {
    pub component_id: ComponentId,
    pub type_key: u64,
    pub marker: PhantomData<T>,
}

impl<T> ResState<T> {
    /// Takes the resource of type key `type_key` (named `name`), registered
    /// if need be, and records in `access` that the system reads it, which
    /// the system must not write otherwise.
    pub fn init<V, R>(world: &mut World<V, R>, access: &mut Access, type_key: u64, name: &'static str) -> (r: Self)
        requires
            old(world).wf(),
            old(access).wf(),
            old(world).registry().infos_view().len() < usize::MAX,
            old(world).archetype_table().access_infos().len() + 1 < usize::MAX,
            resource_access_of(*old(world), type_key) < usize::MAX,
            !old(access).w_set().contains(resource_access_of(*old(world), type_key) as usize),
        ensures
            final(world).wf(),
            r.type_key == type_key,
            final(world).registry().resource_ids().contains_key(type_key),
            r.component_id.0 as nat == final(world).registry().resource_ids()[type_key],
            forall|k: u64| #[trigger] final(world).resource_value(k) == old(world).resource_value(k),
            final(access).wf(),
            final(access).rw_set() == old(access).rw_set().insert(resource_access_of(*old(world), type_key) as usize),
            final(access).w_set() == old(access).w_set(),
            final(access).m_set() == old(access).m_set(),
    {
        let component_id = world.get_or_insert_resource_id(type_key, name);
        proof {
            world.lemma_resource_registered(type_key);
            if old(world).registry().resource_ids().contains_key(type_key) {
                old(world).lemma_resource_registered(type_key);
            }
        }
        let acid = world.archetypes().get_archetype_resource_id(type_key).unwrap();
        access.add_read(acid.0);
        ResState { component_id, type_key, marker: PhantomData }
    }

    /// The value of the resource, which must have one.
    pub fn get_param<'w, V, R>(&self, world: &'w World<V, R>) -> (r: &'w R)
        requires
            world.wf(),
            world.resource_value(self.type_key) is Some,
        ensures
            world.resource_value(self.type_key) == Some(*r),
    {
        world.get_resource(self.type_key).unwrap()
    }
}

/// Reads and writes one resource.
pub struct ResMutState<T> {
    pub component_id: ComponentId,
    pub type_key: u64,
    pub name: &'static str,
    pub marker: PhantomData<T>,
}

impl<T> ResMutState<T> {
    /// Takes the resource of type key `type_key` (named `name`), registered
    /// if need be, and records in `access` that the system writes it, which
    /// the system must not otherwise read or write.
    pub fn init<V, R>(world: &mut World<V, R>, access: &mut Access, type_key: u64, name: &'static str) -> (r: Self)
        requires
            old(world).wf(),
            old(access).wf(),
            old(world).registry().infos_view().len() < usize::MAX,
            old(world).archetype_table().access_infos().len() + 1 < usize::MAX,
            resource_access_of(*old(world), type_key) < usize::MAX,
            !old(access).rw_set().contains(resource_access_of(*old(world), type_key) as usize),
        ensures
            final(world).wf(),
            r.type_key == type_key,
            r.name == name,
            final(world).registry().resource_ids().contains_key(type_key),
            r.component_id.0 as nat == final(world).registry().resource_ids()[type_key],
            forall|k: u64| #[trigger] final(world).resource_value(k) == old(world).resource_value(k),
            final(access).wf(),
            final(access).rw_set() == old(access).rw_set().insert(resource_access_of(*old(world), type_key) as usize),
            final(access).w_set() == old(access).w_set().insert(resource_access_of(*old(world), type_key) as usize),
            final(access).m_set() == old(access).m_set(),
    {
        let component_id = world.get_or_insert_resource_id(type_key, name);
        proof {
            world.lemma_resource_registered(type_key);
            if old(world).registry().resource_ids().contains_key(type_key) {
                old(world).lemma_resource_registered(type_key);
            }
        }
        let acid = world.archetypes().get_archetype_resource_id(type_key).unwrap();
        access.add_write(acid.0);
        ResMutState { component_id, type_key, name, marker: PhantomData }
    }

    /// The value of the resource, which must have one.
    pub fn get_param<'w, V, R>(&self, world: &'w World<V, R>) -> (r: &'w R)
        requires
            world.wf(),
            world.resource_value(self.type_key) is Some,
        ensures
            world.resource_value(self.type_key) == Some(*r),
    {
        world.get_resource(self.type_key).unwrap()
    }

    /// Sets the resource to `value` at the current tick, emitting its
    /// modification.
    pub fn write<V, R>(&self, world: &mut World<V, R>, value: R)
        requires
            old(world).wf(),
            old(world).registry().resource_ids().contains_key(self.type_key),
        ensures
            final(world).wf(),
            final(world).resource_value(self.type_key) == Some(value),
            forall|k: u64| k != self.type_key ==> #[trigger] final(world).resource_value(k) == old(world).resource_value(k),
    {
        proof {
            old(world).lemma_parts_wf();
            old(world).registry().lemma_ids_bounded(self.type_key);
        }
        world.insert_resource(self.type_key, self.name, value);
    }
}

} // verus!
