//! Listener events. Every store records the events that it emits, in order, in
//! a `NotifyImpl`; whoever runs the listeners drains them from there.
use vstd::prelude::*;
use std::marker::PhantomData;
use crate::entity::Entity;
use crate::dispatch::access::Access;
use crate::storage::Local;
use crate::world::World;

verus! {

/// The kind of change an event reports.
#[derive(Clone, Copy, Debug, PartialEq, Eq, Structural)]
pub enum EventType {
    Create,
    Modify,
    Delete,
}

/// A change of an entity, a component or a resource.
#[derive(Clone, Copy, Debug)]
pub struct Event {
    pub id: Entity,
    pub ty: EventType,
    pub field: &'static str,
    /// Meaningful only when an element of an array or vector was modified.
    pub index: usize,
}

/// A kind of event a listener can subscribe to.
pub trait ListenType {
    /// Whether a listener of this kind hears an event of type `ty`.
    spec fn hears(ty: EventType) -> bool;

    /// Whether a listener of this kind hears an event of type `ty`.
    fn listens_to(ty: EventType) -> (r: bool)
        ensures
            r == Self::hears(ty),
    ;
}

/// Subscription to creations.
pub struct Create;

/// Subscription to deletions.
pub struct Delete;

/// Subscription to modifications.
pub struct Modify;

impl ListenType for Create {
    open spec fn hears(ty: EventType) -> bool {
        ty == EventType::Create
    }

    fn listens_to(ty: EventType) -> (r: bool) {
        match ty {
            EventType::Create => true,
            _ => false,
        }
    }
}

impl ListenType for Delete {
    open spec fn hears(ty: EventType) -> bool {
        ty == EventType::Delete
    }

    fn listens_to(ty: EventType) -> (r: bool) {
        match ty {
            EventType::Delete => true,
            _ => false,
        }
    }
}

impl ListenType for Modify {
    open spec fn hears(ty: EventType) -> bool {
        ty == EventType::Modify
    }

    fn listens_to(ty: EventType) -> (r: bool) {
        match ty {
            EventType::Modify => true,
            _ => false,
        }
    }
}

impl<A: ListenType, B: ListenType> ListenType for (A, B) {
    open spec fn hears(ty: EventType) -> bool {
        A::hears(ty) || B::hears(ty)
    }

    fn listens_to(ty: EventType) -> (r: bool) {
        A::listens_to(ty) || B::listens_to(ty)
    }
}

impl<A: ListenType, B: ListenType, C: ListenType> ListenType for (A, B, C) {
    open spec fn hears(ty: EventType) -> bool {
        A::hears(ty) || B::hears(ty) || C::hears(ty)
    }

    fn listens_to(ty: EventType) -> (r: bool) {
        A::listens_to(ty) || B::listens_to(ty) || C::listens_to(ty)
    }
}

/// The event reporting that `id` was created.
pub open spec fn create_of(id: Entity) -> Event {
    Event { id, ty: EventType::Create, field: "", index: 0 }
}

/// The event reporting that `id` was deleted.
pub open spec fn delete_of(id: Entity) -> Event {
    Event { id, ty: EventType::Delete, field: "", index: 0 }
}

/// The event reporting that `field` (element `index`) of `id` was modified.
pub open spec fn modify_of(id: Entity, field: &'static str, index: usize) -> Event {
    Event { id, ty: EventType::Modify, field, index }
}

/// The events emitted by a store, oldest first.
pub struct NotifyImpl {
    pub events: Vec<Event>,
}

impl NotifyImpl {
    /// The events emitted so far, oldest first.
    pub open spec fn emitted(&self) -> Seq<Event> {
        self.events@
    }

    /// A notifier that has emitted nothing.
    pub fn new() -> (r: Self)
        ensures
            r.emitted() == Seq::<Event>::empty(),
    {
        NotifyImpl { events: Vec::new() }
    }

    /// Emits the creation of `id`.
    pub fn create_event(&mut self, id: Entity)
        ensures
            final(self).emitted() == old(self).emitted().push(create_of(id)),
    {
        self.events.push(Event { id, ty: EventType::Create, field: "", index: 0 });
    }

    /// Emits the deletion of `id`.
    pub fn delete_event(&mut self, id: Entity)
        ensures
            final(self).emitted() == old(self).emitted().push(delete_of(id)),
    {
        self.events.push(Event { id, ty: EventType::Delete, field: "", index: 0 });
    }

    /// Emits the modification of `field` (element `index`) of `id`.
    pub fn modify_event(&mut self, id: Entity, field: &'static str, index: usize)
        ensures
            final(self).emitted() == old(self).emitted().push(modify_of(id, field, index)),
    {
        self.events.push(Event { id, ty: EventType::Modify, field, index });
    }

    /// Hands out the emitted events, oldest first, and forgets them.
    pub fn take_events(&mut self) -> (r: Vec<Event>)
        ensures
            r@ == old(self).emitted(),
            final(self).emitted() == Seq::<Event>::empty(),
    {
        let mut out: Vec<Event> = Vec::new();
        std::mem::swap(&mut out, &mut self.events);
        out
    }
}

/// Hands out listeners of type `L`, for parameters `P`.
pub trait Listeners<P, L> {
    /// The listeners.
    fn listeners(&self) -> L;
}

/// Something whose buffered effects are applied once its stage has run.
pub trait Apply {
    /// Applies the buffered effects.
    fn apply(&self);
}

/// The listener table of `w1` is that of `w0` with `access` recorded on
/// archetype component id `a_c_id`.
pub open spec fn access_added<V, R>(w0: World<V, R>, w1: World<V, R>, a_c_id: usize, access: Access) -> bool {
    w1.listeners().table() == w0.listeners().table().insert(a_c_id,
        if w0.listeners().table().contains_key(a_c_id) { w0.listeners().table()[a_c_id].push(access) } else { seq![access] })
}

/// Listens to events of kind `T` on the components of one type of the
/// entities of one archetype, both given by their type keys and names.
pub struct ComponentListen<A, C, T> {
    pub archetype_key: u64,
    pub archetype_name: &'static str,
    pub component_key: u64,
    pub component_name: &'static str,
    pub mark: PhantomData<(A, C, T)>,
}

impl<A, C, T> ComponentListen<A, C, T> {
    /// Records that the listener, with data access `access`, runs on
    /// modifications of the components: the archetype is created and the
    /// component type registered in it if need be.
    pub fn add_access<V, R>(&self, world: &mut World<V, R>, access: Access) -> (r: usize)
        requires
            old(world).wf(),
            access.wf(),
            old(world).archetype_table().access_infos().len() + 3 < usize::MAX,
            old(world).registry().infos_view().len() < usize::MAX,
        ensures
            final(world).wf(),
            ({
                let t = final(world).archetype_table();
                let a = t.view()[t.ident_map()[self.archetype_key].0 as int];
                let cid = Local(final(world).registry().component_ids()[self.component_key] as usize);
                &&& t.ident_map().contains_key(self.archetype_key)
                &&& a.component_list().contains(cid)
                &&& r == a.archetype_component_list()[a.component_list().index_of(cid)].0
            }),
            exists|w_mid: World<V, R>| #[trigger] access_added(w_mid, *final(world), r, access)
                && w_mid.listeners() == old(world).listeners(),
            final(world).tick() == old(world).tick(),
            final(world).last_tick() == old(world).last_tick(),
            final(world).world_id() == old(world).world_id(),
            final(world).queries_made() == old(world).queries_made(),
            final(world).resource_table() == old(world).resource_table(),
            forall|j: int| 0 <= j < old(world).archetype_table().view().len()
                && j != final(world).archetype_table().ident_map()[self.archetype_key].0
                ==> #[trigger] final(world).archetype_table().view()[j] == old(world).archetype_table().view()[j],
            final(world).registry().resource_ids() == old(world).registry().resource_ids(),
    {
        let arch_id = world.new_archetype(self.archetype_key, self.archetype_name);
        let cid = world.get_or_register_component(arch_id, self.component_key, self.component_name);
        proof {
            world.lemma_parts_wf();
            world.archetype_table().lemma_member_wf(arch_id.0 as int);
        }
        let a_c_id = world.archetypes().index(arch_id).archetype_component_id(cid).0;
        let ghost w_mid = *world;
        world.add_access(a_c_id, access);
        proof {
            assert(access_added(w_mid, *world, a_c_id, access));
        }
        a_c_id
    }
}

/// Listens to events of kind `T` on one resource, given by its type key.
pub struct ResourceListen<R, T> {
    pub resource_key: u64,
    pub mark: PhantomData<(R, T)>,
}

impl<RT, T> ResourceListen<RT, T> {
    /// Records that the listener, with data access `access`, runs on
    /// modifications of the resource, which must be registered.
    pub fn add_access<V, R>(&self, world: &mut World<V, R>, access: Access) -> (r: usize)
        requires
            old(world).wf(),
            access.wf(),
            old(world).archetype_table().resource_access_map().contains_key(self.resource_key),
        ensures
            final(world).wf(),
            r == old(world).archetype_table().resource_access_map()[self.resource_key].0,
            access_added(*old(world), *final(world), r, access),
            final(world).tick() == old(world).tick(),
            final(world).last_tick() == old(world).last_tick(),
            final(world).world_id() == old(world).world_id(),
            final(world).queries_made() == old(world).queries_made(),
            final(world).resource_table() == old(world).resource_table(),
            final(world).registry() == old(world).registry(),
            final(world).archetype_table() == old(world).archetype_table(),
    {
        let a_c_id = world.archetypes().get_archetype_resource_id(self.resource_key).unwrap().0;
        world.add_access(a_c_id, access);
        a_c_id
    }
}

/// Listens to events of kind `T` on the entities of one archetype, given by
/// its type key and name.
pub struct EntityListen<A, T> {
    pub archetype_key: u64,
    pub archetype_name: &'static str,
    pub mark: PhantomData<(A, T)>,
}

impl<A, T> EntityListen<A, T> {
    /// Records that the listener, with data access `access`, runs on changes
    /// of the entity list: the archetype is created if need be.
    pub fn add_access<V, R>(&self, world: &mut World<V, R>, access: Access) -> (r: usize)
        requires
            old(world).wf(),
            access.wf(),
            old(world).archetype_table().access_infos().len() + 2 < usize::MAX,
        ensures
            final(world).wf(),
            ({
                let t = final(world).archetype_table();
                &&& t.ident_map().contains_key(self.archetype_key)
                &&& r == t.view()[t.ident_map()[self.archetype_key].0 as int].entity_access_id().0
            }),
            exists|w_mid: World<V, R>| #[trigger] access_added(w_mid, *final(world), r, access)
                && w_mid.listeners() == old(world).listeners(),
            final(world).tick() == old(world).tick(),
            final(world).last_tick() == old(world).last_tick(),
            final(world).world_id() == old(world).world_id(),
            final(world).queries_made() == old(world).queries_made(),
            final(world).resource_table() == old(world).resource_table(),
            forall|j: int| 0 <= j < old(world).archetype_table().view().len()
                && j != final(world).archetype_table().ident_map()[self.archetype_key].0
                ==> #[trigger] final(world).archetype_table().view()[j] == old(world).archetype_table().view()[j],
            final(world).registry() == old(world).registry(),
    {
        let arch_id = world.new_archetype(self.archetype_key, self.archetype_name);
        proof {
            world.lemma_parts_wf();
            world.archetype_table().lemma_member_wf(arch_id.0 as int);
        }
        let a_c_id = world.archetypes().index(arch_id).entity_archetype_component_id().0;
        let ghost w_mid = *world;
        world.add_access(a_c_id, access);
        proof {
            assert(access_added(w_mid, *world, a_c_id, access));
        }
        a_c_id
    }
}

} // verus!
