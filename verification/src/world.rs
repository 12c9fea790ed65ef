//! The world: the registry of component and resource types, the archetypes
//! with their entities and components, the resources, the accesses of
//! listeners, and the change ticks.
use vstd::prelude::*;
use crate::archetype::{
    Archetypes, ArchetypeComponentInfo, ArchetypeId, insert_outcome, remove_component_outcome,
    remove_entity_outcome, register_outcome, flush_entities_outcome, reserve_outcome, remove_key_outcome,
    take_entity_events_outcome, take_component_events_outcome,
};
use crate::component::{Components, ComponentId};
use crate::dispatch::access::{Access, ListenerAccess};
use crate::dispatch::interface::GraphNode;
use crate::entity::Entity;
use crate::resource::Singles;
use crate::storage::{Local, LocalVersion};

verus! {

/// The id of a world.
#[derive(Clone, Copy, Debug, PartialEq, Eq, Structural, Hash, PartialOrd, Ord)]
pub struct WorldId(pub usize);

/// A world. Component values are of one type `V` and resource values of one
/// type `R`, sums of the types the application uses; types are known by
/// keys.
pub struct World<V, R> {
    id: WorldId,
    components: Components,
    archetypes: Archetypes<V>,
    resources: Singles<R>,
    listener_access: ListenerAccess,
    change_tick: u32,
    last_change_tick: u32,
    query_generator: usize,
}

impl<V, R> World<V, R> {
    /// The registry of types.
    pub closed spec fn registry(&self) -> Components {
        self.components
    }

    /// The archetypes.
    pub closed spec fn archetype_table(&self) -> Archetypes<V> {
        self.archetypes
    }

    /// The resources.
    pub closed spec fn resource_table(&self) -> Singles<R> {
        self.resources
    }

    /// The accesses of listeners.
    pub closed spec fn listeners(&self) -> ListenerAccess {
        self.listener_access
    }

    /// The current change tick.
    pub closed spec fn tick(&self) -> u32 {
        self.change_tick
    }

    /// The change tick at the last clearing of trackers.
    pub closed spec fn last_tick(&self) -> u32 {
        self.last_change_tick
    }

    /// The number of query ids handed out.
    pub closed spec fn queries_made(&self) -> usize {
        self.query_generator
    }

    /// The id of this world.
    pub closed spec fn world_id(&self) -> WorldId {
        self.id
    }

    pub closed spec fn wf(&self) -> bool {
        &&& self.components.wf()
        &&& self.archetypes.wf()
        &&& self.listener_access.wf()
        &&& forall|k: u64| #[trigger] self.components.resource_ids().contains_key(k) ==> {
            &&& self.resources.slots().contains_key(self.components.resource_ids()[k] as usize)
            &&& self.archetypes.resource_access_map().contains_key(k)
        }
        &&& forall|j: usize| #[trigger] self.resources.slots().contains_key(j) ==> j < self.components.infos_view().len()
    }

    /// The resource value of type `type_key`, as the registry and the
    /// resource slots have it.
    pub open spec fn resource_value(&self, type_key: u64) -> Option<R> {
        if self.registry().resource_ids().contains_key(type_key) {
            self.resource_table().slots()[self.registry().resource_ids()[type_key] as usize].value
        } else {
            None
        }
    }

    /// The parts of a well-formed world are well formed.
    pub proof fn lemma_parts_wf(&self)
        requires
            self.wf(),
        ensures
            self.registry().wf(),
            self.archetype_table().wf(),
            self.listeners().wf(),
    {
    }

    /// A registered resource type has an archetype component id and a slot.
    pub proof fn lemma_resource_registered(&self, type_key: u64)
        requires
            self.wf(),
            self.registry().resource_ids().contains_key(type_key),
        ensures
            self.archetype_table().resource_access_map().contains_key(type_key),
            self.resource_table().slots().contains_key(self.registry().resource_ids()[type_key] as usize),
    {
    }

    /// An empty world, with id 0, change tick 1 and last change tick 0.
    pub fn new() -> (r: Self)
        ensures
            r.wf(),
            r.world_id() == WorldId(0),
            r.tick() == 1,
            r.last_tick() == 0,
            r.queries_made() == 0,
            r.registry().infos_view() == Seq::<crate::component::ComponentInfo>::empty(),
            r.registry().component_ids() == Map::<u64, nat>::empty(),
            r.registry().resource_ids() == Map::<u64, nat>::empty(),
            r.archetype_table().view() == Seq::<crate::archetype::Archetype<V>>::empty(),
            r.archetype_table().access_infos() == Seq::<ArchetypeComponentInfo>::empty(),
            r.listeners().table() == Map::<usize, Seq<Access>>::empty(),
    {
        World {
            id: WorldId(0),
            components: Components::new(),
            archetypes: Archetypes::new(),
            resources: Singles::new(),
            listener_access: ListenerAccess::new(),
            change_tick: 1,
            last_change_tick: 0,
            query_generator: 0,
        }
    }

    /// Hands out the next query id.
    pub fn gen_query_id(&mut self) -> (r: usize)
        requires
            old(self).queries_made() < usize::MAX,
        ensures
            r == old(self).queries_made(),
            final(self).queries_made() == old(self).queries_made() + 1,
            final(self).world_id() == old(self).world_id(),
            old(self).wf() ==> final(self).wf(),
            final(self).registry() == old(self).registry(),
            final(self).archetype_table() == old(self).archetype_table(),
            final(self).resource_table() == old(self).resource_table(),
            final(self).tick() == old(self).tick(),
            final(self).last_tick() == old(self).last_tick(),
    {
        self.query_generator = self.query_generator + 1;
        self.query_generator - 1
    }

    /// The resource id of type `type_key`, registering the type (named
    /// `name`) with a fresh archetype component id and an empty slot if it
    /// is new.
    pub fn get_or_insert_resource_id(&mut self, type_key: u64, name: &'static str) -> (r: ComponentId)
        requires
            old(self).wf(),
            !old(self).registry().resource_ids().contains_key(type_key) ==> {
                &&& old(self).registry().infos_view().len() < usize::MAX
                &&& old(self).archetype_table().access_infos().len() + 1 < usize::MAX
            },
        ensures
            final(self).wf(),
            final(self).registry().resource_ids().contains_key(type_key),
            r.0 as nat == final(self).registry().resource_ids()[type_key],
            final(self).registry().component_ids() == old(self).registry().component_ids(),
            old(self).registry().resource_ids().contains_key(type_key) ==> {
                &&& r.0 as nat == old(self).registry().resource_ids()[type_key]
                &&& final(self).registry() == old(self).registry()
                &&& final(self).archetype_table() == old(self).archetype_table()
                &&& final(self).resource_table() == old(self).resource_table()
            },
            !old(self).registry().resource_ids().contains_key(type_key) ==> {
                &&& r.0 as nat == old(self).registry().infos_view().len()
                &&& final(self).resource_value(type_key) is None
                &&& final(self).archetype_table().resource_access_map()[type_key].0
                    == old(self).archetype_table().access_infos().len() + 1
            },
            forall|k: u64| k != type_key ==> #[trigger] final(self).resource_value(k) == old(self).resource_value(k),
            final(self).archetype_table().view() == old(self).archetype_table().view(),
            final(self).tick() == old(self).tick(),
            final(self).last_tick() == old(self).last_tick(),
    {
        match self.components.get_resource_id(type_key) {
            Some(id) => id,
            None => {
                let acid = self.archetypes.archetype_component_grow(ArchetypeComponentInfo { name, is_delete: false });
                let id = self.components.get_or_insert_resource_id(type_key, name);
                self.archetypes.register_resource(type_key, acid);
                self.resources.register(id);
                proof {
                    self.archetypes.lemma_wf_from_parts(&old(self).archetypes);
                    old(self).components.lemma_ids_bounded(type_key);
                    assert(!old(self).resources.slots().contains_key(id.0));
                    let ids = self.components.resource_ids();
                    assert forall|k: u64| #[trigger] ids.contains_key(k) implies {
                        &&& self.resources.slots().contains_key(ids[k] as usize)
                        &&& self.archetypes.resource_access_map().contains_key(k)
                    } by {
                        if k != type_key {
                            assert(old(self).components.resource_ids().contains_key(k));
                        }
                    }
                    assert forall|j: usize| #[trigger] self.resources.slots().contains_key(j) implies j < self.components.infos_view().len() by {
                        if j != id.0 {
                            assert(old(self).resources.slots().contains_key(j));
                        }
                    }
                    assert forall|k: u64| k != type_key implies #[trigger] self.resource_value(k) == old(self).resource_value(k) by {
                        if old(self).components.resource_ids().contains_key(k) {
                            old(self).components.lemma_ids_bounded(k);
                            assert(ids[k] == old(self).components.resource_ids()[k]);
                            assert(old(self).resources.slots().contains_key(ids[k] as usize));
                        }
                    }
                }
                id
            },
        }
    }

    /// Sets the resource of type `type_key` (named `name`) to `value` at the
    /// current change tick, registering the type first if it is new; returns
    /// its resource id.
    pub fn insert_resource(&mut self, type_key: u64, name: &'static str, value: R) -> (r: ComponentId)
        requires
            old(self).wf(),
            !old(self).registry().resource_ids().contains_key(type_key) ==> {
                &&& old(self).registry().infos_view().len() < usize::MAX
                &&& old(self).archetype_table().access_infos().len() + 1 < usize::MAX
            },
        ensures
            final(self).wf(),
            final(self).registry().resource_ids().contains_key(type_key),
            r.0 as nat == final(self).registry().resource_ids()[type_key],
            final(self).resource_value(type_key) == Some(value),
            final(self).resource_table().slots()[r.0].tick.changed == old(self).tick(),
            forall|k: u64| k != type_key ==> #[trigger] final(self).resource_value(k) == old(self).resource_value(k),
            final(self).registry().component_ids() == old(self).registry().component_ids(),
            final(self).archetype_table().view() == old(self).archetype_table().view(),
            final(self).tick() == old(self).tick(),
    {
        let id = self.get_or_insert_resource_id(type_key, name);
        let ghost mid = *self;
        let tick = self.change_tick;
        self.resources.insert(id, value, tick);
        proof {
            let ids = self.components.resource_ids();
            assert(self.resources.slots().dom() == mid.resources.slots().dom());
            self.components.lemma_ids_bounded(type_key);
            assert forall|k: u64| #[trigger] ids.contains_key(k) implies {
                &&& self.resources.slots().contains_key(ids[k] as usize)
                &&& self.archetypes.resource_access_map().contains_key(k)
            } by {
                assert(mid.resources.slots().contains_key(ids[k] as usize));
            }
            assert forall|j: usize| #[trigger] self.resources.slots().contains_key(j) implies j < self.components.infos_view().len() by {
                assert(mid.resources.slots().contains_key(j));
            }
            assert forall|k: u64| k != type_key implies #[trigger] self.resource_value(k) == old(self).resource_value(k) by {
                assert(mid.resource_value(k) == old(self).resource_value(k));
                if ids.contains_key(k) {
                    self.components.lemma_ids_distinct(k, type_key);
                    self.components.lemma_ids_bounded(k);
                    assert(mid.resources.slots().contains_key(ids[k] as usize));
                }
            }
        }
        id
    }

    /// The resource id of type `type_key`, if it is registered.
    pub fn get_resource_id(&self, type_key: u64) -> (r: Option<ComponentId>)
        ensures
            match r {
                Some(c) => self.registry().resource_ids().contains_key(type_key) && c.0 as nat == self.registry().resource_ids()[type_key],
                None => !self.registry().resource_ids().contains_key(type_key),
            },
    {
        self.components.get_resource_id(type_key)
    }

    /// The resource of type `type_key`, if it has a value.
    pub fn get_resource(&self, type_key: u64) -> (r: Option<&R>)
        requires
            self.wf(),
        ensures
            match r {
                Some(v) => self.resource_value(type_key) == Some(*v),
                None => self.resource_value(type_key) is None,
            },
    {
        match self.components.get_resource_id(type_key) {
            Some(id) => self.resources.get(id),
            None => None,
        }
    }

    /// Hands out the events of the resource of type `type_key`, oldest
    /// first, for the application to deliver to its listeners; none if the
    /// type is not registered. Resource values and ticks are unchanged.
    pub fn take_resource_events(&mut self, type_key: u64) -> (r: Vec<crate::monitor::Event>)
        requires
            old(self).wf(),
        ensures
            final(self).wf(),
            final(self).registry() == old(self).registry(),
            final(self).archetype_table() == old(self).archetype_table(),
            final(self).listeners() == old(self).listeners(),
            final(self).tick() == old(self).tick(),
            final(self).last_tick() == old(self).last_tick(),
            final(self).resource_table().slots().dom() == old(self).resource_table().slots().dom(),
            forall|k: u64| #[trigger] final(self).resource_value(k) == old(self).resource_value(k),
            !old(self).registry().resource_ids().contains_key(type_key) ==> {
                &&& r@ == Seq::<crate::monitor::Event>::empty()
                &&& final(self).resource_table() == old(self).resource_table()
            },
            old(self).registry().resource_ids().contains_key(type_key) ==> {
                let j = old(self).registry().resource_ids()[type_key] as usize;
                &&& r@ == old(self).resource_table().slots()[j].notify.emitted()
                &&& final(self).resource_table().slots()[j].notify.emitted() == Seq::<crate::monitor::Event>::empty()
                &&& final(self).resource_table().slots()[j].tick == old(self).resource_table().slots()[j].tick
                &&& forall|i: usize| i != j && #[trigger] old(self).resource_table().slots().contains_key(i)
                    ==> final(self).resource_table().slots()[i] == old(self).resource_table().slots()[i]
            },
    {
        match self.components.get_resource_id(type_key) {
            Some(id) => {
                let r = self.resources.take_events(id);
                proof {
                    assert forall|k: u64| #[trigger] final(self).resource_value(k) == old(self).resource_value(k) by {
                        if self.registry().resource_ids().contains_key(k) {
                            assert(old(self).resources.slots().contains_key(self.registry().resource_ids()[k] as usize));
                        }
                    }
                }
                r
            },
            None => Vec::new(),
        }
    }

    /// Hands out the next archetype component id, for data named `name`.
    pub fn archetype_component_grow(&mut self, name: &'static str) -> (r: usize)
        requires
            old(self).wf(),
            old(self).archetype_table().access_infos().len() < usize::MAX,
        ensures
            final(self).wf(),
            r == final(self).archetype_table().access_infos().len(),
            final(self).archetype_table().access_infos() == old(self).archetype_table().access_infos().push(
                ArchetypeComponentInfo { name, is_delete: false }),
            final(self).archetype_table().view() == old(self).archetype_table().view(),
            final(self).registry() == old(self).registry(),
            final(self).resource_table() == old(self).resource_table(),
    {
        let r = self.archetypes.archetype_component_grow(ArchetypeComponentInfo { name, is_delete: false });
        proof {
            self.archetypes.lemma_wf_from_parts(&old(self).archetypes);
        }
        r
    }

    /// The system node that a single dispatcher places after each stage:
    /// it gets a new archetype component id named `arrange` (the number of
    /// archetype components after it was added), reads and
    /// writes nothing, runs `node` and is labelled
    /// `increment_change_tick`.
    pub fn arrange<N>(&mut self, node: N) -> (r: GraphNode<N>)
        requires
            old(self).wf(),
            old(self).archetype_table().access_infos().len() < usize::MAX,
        ensures
            final(self).wf(),
            r.id == old(self).archetype_table().access_infos().len() + 1,
            final(self).archetype_table().access_infos() == old(self).archetype_table().access_infos().push(
                ArchetypeComponentInfo { name: "arrange", is_delete: false }),
            final(self).archetype_table().view() == old(self).archetype_table().view(),
            final(self).registry() == old(self).registry(),
            final(self).resource_table() == old(self).resource_table(),
            r.node == node,
            r.access.wf(),
            r.access.rw_set() == Set::<usize>::empty(),
            r.label@ == "increment_change_tick"@,
    {
        let id = self.archetype_component_grow("arrange");
        let access = Access::new();
        let label = String::from_str("increment_change_tick");
        GraphNode { id, access, node, label }
    }

    /// The archetype of type key `type_key` (named `name`), created if there
    /// is none yet.
    pub fn new_archetype(&mut self, type_key: u64, name: &'static str) -> (r: ArchetypeId)
        requires
            old(self).wf(),
            !old(self).archetype_table().ident_map().contains_key(type_key) ==> old(self).archetype_table().access_infos().len() + 2 < usize::MAX,
        ensures
            final(self).wf(),
            final(self).archetype_table().ident_map().contains_key(type_key),
            final(self).archetype_table().ident_map()[type_key] == r,
            (r.0 as int) < final(self).archetype_table().view().len(),
            old(self).archetype_table().ident_map().contains_key(type_key) ==> {
                &&& r == old(self).archetype_table().ident_map()[type_key]
                &&& final(self).archetype_table().view() == old(self).archetype_table().view()
                &&& final(self).archetype_table().access_infos() == old(self).archetype_table().access_infos()
            },
            !old(self).archetype_table().ident_map().contains_key(type_key) ==> {
                &&& r.0 == old(self).archetype_table().view().len()
                &&& final(self).archetype_table().view().len() == old(self).archetype_table().view().len() + 1
                &&& forall|i: int| 0 <= i < old(self).archetype_table().view().len()
                    ==> #[trigger] final(self).archetype_table().view()[i] == old(self).archetype_table().view()[i]
                &&& final(self).archetype_table().view()[r.0 as int].component_list() == Seq::<ComponentId>::empty()
                &&& final(self).archetype_table().ident_map() == old(self).archetype_table().ident_map().insert(type_key, r)
                &&& final(self).archetype_table().access_infos() == old(self).archetype_table().access_infos()
                    .push(ArchetypeComponentInfo { name, is_delete: false })
                    .push(ArchetypeComponentInfo { name, is_delete: true })
                &&& final(self).archetype_table().view()[r.0 as int].entity_access_id().0
                    == old(self).archetype_table().access_infos().len() + 1
                &&& final(self).archetype_table().view()[r.0 as int].entity_delete_access_id().0
                    == old(self).archetype_table().access_infos().len() + 2
                &&& final(self).archetype_table().view()[r.0 as int].entity_store().view() == Seq::<LocalVersion>::empty()
                &&& final(self).archetype_table().view()[r.0 as int].entity_store().reserved_count() == 0
            },
            final(self).registry() == old(self).registry(),
            final(self).resource_table() == old(self).resource_table(),
            final(self).listeners() == old(self).listeners(),
            final(self).archetype_table().access_infos().len() <= old(self).archetype_table().access_infos().len() + 2,
            final(self).world_id() == old(self).world_id(),
            final(self).queries_made() == old(self).queries_made(),
            final(self).tick() == old(self).tick(),
            final(self).last_tick() == old(self).last_tick(),
    {
        let r = self.archetypes.get_or_create_archetype(type_key, name);
        proof {
            self.lemma_resources_kept(old(self));
        }
        r
    }

    /// Makes a new entity live in the archetype of type key `type_key`,
    /// which must exist.
    pub fn spawn(&mut self, type_key: u64) -> (r: Entity)
        requires
            old(self).wf(),
            old(self).archetype_table().ident_map().contains_key(type_key),
            old(self).archetype_table().view()[old(self).archetype_table().ident_map()[type_key].0 as int].entity_store().has_room(),
            old(self).archetype_table().view()[old(self).archetype_table().ident_map()[type_key].0 as int].entity_store().reserved_count() == 0,
        ensures
            final(self).wf(),
            r.archetype_id == old(self).archetype_table().ident_map()[type_key],
            ({
                let i = r.archetype_id.0 as int;
                &&& !old(self).archetype_table().view()[i].entity_store().view().contains(r.local)
                &&& final(self).archetype_table().view()[i].entity_store().view()
                    == old(self).archetype_table().view()[i].entity_store().view().push(r.local)
                &&& final(self).archetype_table().view()[i].entity_store().events()
                    == old(self).archetype_table().view()[i].entity_store().events().push(crate::monitor::create_of(r))
                &&& final(self).archetype_table().view()[i].columns() == old(self).archetype_table().view()[i].columns()
                &&& final(self).archetype_table().same_but(&old(self).archetype_table(), i)
            }),
            final(self).registry() == old(self).registry(),
            final(self).resource_table() == old(self).resource_table(),
            final(self).tick() == old(self).tick(),
    {
        let archetype_id = self.archetypes.get_id_by_ident(type_key).unwrap();
        proof {
            old(self).archetypes.lemma_ident_in_range(type_key);
        }
        let e = self.archetypes.spawn(archetype_id);
        e
    }

    /// Removes the entity `entity`; see `Archetype::remove_entity`.
    pub fn despawn(&mut self, entity: Entity)
        requires
            old(self).wf(),
            (entity.archetype_id.0 as int) < old(self).archetype_table().view().len(),
            old(self).archetype_table().view()[entity.archetype_id.0 as int].entity_store().reserved_count() == 0,
        ensures
            final(self).wf(),
            final(self).archetype_table().same_but(&old(self).archetype_table(), entity.archetype_id.0 as int),
            remove_entity_outcome(old(self).archetype_table().view()[entity.archetype_id.0 as int],
                final(self).archetype_table().view()[entity.archetype_id.0 as int], entity.local),
            final(self).registry() == old(self).registry(),
            final(self).resource_table() == old(self).resource_table(),
            final(self).tick() == old(self).tick(),
    {
        self.archetypes.despawn(entity.archetype_id(), entity.local());
    }

    /// Sets the component of type `type_key` (named `name`) of `entity` to
    /// `value` at the current change tick, registering the type if it is
    /// new. The archetype of the entity keeps nothing of a type it does not
    /// have.
    pub fn insert_component(&mut self, entity: Entity, type_key: u64, name: &'static str, value: V)
        requires
            old(self).wf(),
            (entity.archetype_id.0 as int) < old(self).archetype_table().view().len(),
            old(self).registry().infos_view().len() < usize::MAX,
        ensures
            final(self).wf(),
            final(self).registry().component_ids().contains_key(type_key),
            final(self).archetype_table().same_but(&old(self).archetype_table(), entity.archetype_id.0 as int),
            exists|r: Option<V>| #[trigger] insert_outcome(old(self).archetype_table().view()[entity.archetype_id.0 as int],
                final(self).archetype_table().view()[entity.archetype_id.0 as int], entity.local, value,
                Local(final(self).registry().component_ids()[type_key] as usize), old(self).tick(), r),
            final(self).resource_table() == old(self).resource_table(),
            final(self).tick() == old(self).tick(),
    {
        let tick = self.change_tick;
        let id = self.components.get_or_insert_with(type_key, name);
        let r = self.archetypes.insert_component(entity.archetype_id(), entity.local(), value, id, tick);
        proof {
            self.lemma_resources_kept(old(self));
            assert(Local(self.components.component_ids()[type_key] as usize) == id);
            assert(insert_outcome(old(self).archetype_table().view()[entity.archetype_id.0 as int],
                self.archetype_table().view()[entity.archetype_id.0 as int], entity.local, value,
                Local(self.registry().component_ids()[type_key] as usize), old(self).tick(), r));
        }
    }

    /// Drops the component of type `type_key` (named `name`) of `entity`,
    /// registering the type if it is new.
    pub fn remove_component(&mut self, entity: Entity, type_key: u64, name: &'static str)
        requires
            old(self).wf(),
            (entity.archetype_id.0 as int) < old(self).archetype_table().view().len(),
            old(self).registry().infos_view().len() < usize::MAX,
        ensures
            final(self).wf(),
            final(self).registry().component_ids().contains_key(type_key),
            final(self).archetype_table().same_but(&old(self).archetype_table(), entity.archetype_id.0 as int),
            remove_component_outcome(old(self).archetype_table().view()[entity.archetype_id.0 as int],
                final(self).archetype_table().view()[entity.archetype_id.0 as int], entity.local,
                Local(final(self).registry().component_ids()[type_key] as usize)),
            final(self).resource_table() == old(self).resource_table(),
            final(self).tick() == old(self).tick(),
    {
        let id = self.components.get_or_insert_with(type_key, name);
        self.archetypes.remove_component(entity.archetype_id(), entity.local(), id);
        proof {
            self.lemma_resources_kept(old(self));
            assert(Local(self.components.component_ids()[type_key] as usize) == id);
        }
    }

    /// The id of the component type `type_key`, registering it for the
    /// archetype `archetype_id` (with a fresh archetype component id) if the
    /// archetype does not have it yet.
    pub fn get_or_register_component(&mut self, archetype_id: ArchetypeId, type_key: u64, name: &'static str) -> (r: ComponentId)
        requires
            old(self).wf(),
            (archetype_id.0 as int) < old(self).archetype_table().view().len(),
            old(self).registry().infos_view().len() < usize::MAX,
            old(self).archetype_table().access_infos().len() < usize::MAX,
        ensures
            final(self).wf(),
            final(self).registry().component_ids().contains_key(type_key),
            r.0 as nat == final(self).registry().component_ids()[type_key],
            final(self).archetype_table().view()[archetype_id.0 as int].component_list().contains(r),
            old(self).archetype_table().view()[archetype_id.0 as int].component_list().contains(r) ==>
                final(self).archetype_table() == old(self).archetype_table(),
            !old(self).archetype_table().view()[archetype_id.0 as int].component_list().contains(r) ==> {
                &&& final(self).archetype_table().access_infos() == old(self).archetype_table().access_infos().push(
                    ArchetypeComponentInfo { name, is_delete: false })
                &&& register_outcome(old(self).archetype_table().view()[archetype_id.0 as int],
                    final(self).archetype_table().view()[archetype_id.0 as int], r,
                    Local(final(self).archetype_table().access_infos().len() as usize))
            },
            final(self).archetype_table().view().len() == old(self).archetype_table().view().len(),
            forall|j: int| 0 <= j < old(self).archetype_table().view().len() && j != archetype_id.0
                ==> #[trigger] final(self).archetype_table().view()[j] == old(self).archetype_table().view()[j],
            final(self).resource_table() == old(self).resource_table(),
            final(self).listeners() == old(self).listeners(),
            final(self).archetype_table().ident_map() == old(self).archetype_table().ident_map(),
            final(self).archetype_table().resource_access_map() == old(self).archetype_table().resource_access_map(),
            final(self).registry().resource_ids() == old(self).registry().resource_ids(),
            final(self).tick() == old(self).tick(),
            final(self).last_tick() == old(self).last_tick(),
            final(self).world_id() == old(self).world_id(),
            final(self).queries_made() == old(self).queries_made(),
    {
        let id = self.components.get_or_insert_with(type_key, name);
        proof {
            self.lemma_resources_kept(old(self));
        }
        let ghost before_grow = self.archetypes;
        proof {
            self.archetypes.lemma_member_wf(archetype_id.0 as int);
        }
        if self.archetypes.index(archetype_id).contains(id) {
            return id;
        }
        let ghost i = archetype_id.0 as int;
        let g = self.archetypes.archetype_component_grow(ArchetypeComponentInfo { name, is_delete: false });
        proof {
            assert(self.archetypes.wf()) by {
                assert(self.archetypes.view() == before_grow.view());
                assert(self.archetypes.ident_map() == before_grow.ident_map());
                self.archetypes.lemma_wf_from_parts(&before_grow);
            }
        }
        let ghost after_grow = self.archetypes;
        self.archetypes.register_component_type(archetype_id, id, Local::new(g));
        proof {
            assert(self.archetypes.access_infos() == after_grow.access_infos());
            self.lemma_resources_kept(old(self));
            let cl = self.archetypes.view()[i].component_list();
            assert(cl[cl.len() - 1] == id);
        }
        id
    }

    /// Makes a new entity live in archetype `archetype_id`.
    pub fn spawn_in(&mut self, archetype_id: ArchetypeId) -> (r: Entity)
        requires
            old(self).wf(),
            (archetype_id.0 as int) < old(self).archetype_table().view().len(),
            old(self).archetype_table().view()[archetype_id.0 as int].entity_store().has_room(),
            old(self).archetype_table().view()[archetype_id.0 as int].entity_store().reserved_count() == 0,
        ensures
            final(self).wf(),
            r.archetype_id == archetype_id,
            ({
                let i = archetype_id.0 as int;
                &&& !old(self).archetype_table().view()[i].entity_store().view().contains(r.local)
                &&& final(self).archetype_table().view()[i].entity_store().view()
                    == old(self).archetype_table().view()[i].entity_store().view().push(r.local)
                &&& final(self).archetype_table().view()[i].entity_store().events()
                    == old(self).archetype_table().view()[i].entity_store().events().push(crate::monitor::create_of(r))
                &&& final(self).archetype_table().view()[i].columns() == old(self).archetype_table().view()[i].columns()
                &&& final(self).archetype_table().same_but(&old(self).archetype_table(), i)
            }),
            final(self).registry() == old(self).registry(),
            final(self).resource_table() == old(self).resource_table(),
            final(self).tick() == old(self).tick(),
    {
        self.archetypes.spawn(archetype_id)
    }

    /// Removes `local` from the entity list of archetype `archetype_id`
    /// only; its components stay in the stores.
    pub fn remove_key(&mut self, archetype_id: ArchetypeId, local: LocalVersion) -> (r: Option<()>)
        requires
            old(self).wf(),
            (archetype_id.0 as int) < old(self).archetype_table().view().len(),
            old(self).archetype_table().view()[archetype_id.0 as int].entity_store().reserved_count() == 0,
        ensures
            final(self).wf(),
            final(self).archetype_table().same_but(&old(self).archetype_table(), archetype_id.0 as int),
            remove_key_outcome(old(self).archetype_table().view()[archetype_id.0 as int],
                final(self).archetype_table().view()[archetype_id.0 as int], local, r),
            final(self).registry() == old(self).registry(),
            final(self).resource_table() == old(self).resource_table(),
            final(self).tick() == old(self).tick(),
    {
        self.archetypes.remove_key(archetype_id, local)
    }

    /// Hands out the creation and deletion events of the entities of
    /// archetype `archetype_id`, oldest first, for the application to
    /// deliver to its listeners.
    pub fn take_entity_events(&mut self, archetype_id: ArchetypeId) -> (r: Vec<crate::monitor::Event>)
        requires
            old(self).wf(),
            (archetype_id.0 as int) < old(self).archetype_table().view().len(),
        ensures
            final(self).wf(),
            final(self).archetype_table().same_but(&old(self).archetype_table(), archetype_id.0 as int),
            take_entity_events_outcome(old(self).archetype_table().view()[archetype_id.0 as int],
                final(self).archetype_table().view()[archetype_id.0 as int], r@),
            final(self).registry() == old(self).registry(),
            final(self).resource_table() == old(self).resource_table(),
            final(self).tick() == old(self).tick(),
    {
        self.archetypes.take_entity_events(archetype_id)
    }

    /// Hands out the events of the components of type `component_id` of
    /// archetype `archetype_id`, oldest first, for the application to
    /// deliver to its listeners.
    pub fn take_component_events(&mut self, archetype_id: ArchetypeId, component_id: ComponentId) -> (r: Vec<crate::monitor::Event>)
        requires
            old(self).wf(),
            (archetype_id.0 as int) < old(self).archetype_table().view().len(),
        ensures
            final(self).wf(),
            final(self).archetype_table().same_but(&old(self).archetype_table(), archetype_id.0 as int),
            take_component_events_outcome(old(self).archetype_table().view()[archetype_id.0 as int],
                final(self).archetype_table().view()[archetype_id.0 as int], component_id, r@),
            final(self).registry() == old(self).registry(),
            final(self).resource_table() == old(self).resource_table(),
            final(self).tick() == old(self).tick(),
    {
        self.archetypes.take_component_events(archetype_id, component_id)
    }

    /// Reserves a key in archetype `archetype_id`, made live at its next
    /// flush.
    pub fn reserve_entity(&mut self, archetype_id: ArchetypeId) -> (r: LocalVersion)
        requires
            old(self).wf(),
            (archetype_id.0 as int) < old(self).archetype_table().view().len(),
            old(self).archetype_table().view()[archetype_id.0 as int].entity_store().can_reserve(),
        ensures
            final(self).wf(),
            final(self).archetype_table().same_but(&old(self).archetype_table(), archetype_id.0 as int),
            reserve_outcome(old(self).archetype_table().view()[archetype_id.0 as int],
                final(self).archetype_table().view()[archetype_id.0 as int], r),
            final(self).registry() == old(self).registry(),
            final(self).resource_table() == old(self).resource_table(),
            final(self).tick() == old(self).tick(),
    {
        self.archetypes.reserve_entity(archetype_id)
    }

    /// Makes the reserved entities of archetype `archetype_id` live.
    pub fn flush_entities(&mut self, archetype_id: ArchetypeId) -> (r: Vec<LocalVersion>)
        requires
            old(self).wf(),
            (archetype_id.0 as int) < old(self).archetype_table().view().len(),
        ensures
            final(self).wf(),
            final(self).archetype_table().same_but(&old(self).archetype_table(), archetype_id.0 as int),
            flush_entities_outcome(old(self).archetype_table().view()[archetype_id.0 as int],
                final(self).archetype_table().view()[archetype_id.0 as int], r@),
            final(self).registry() == old(self).registry(),
            final(self).resource_table() == old(self).resource_table(),
            final(self).tick() == old(self).tick(),
    {
        self.archetypes.flush_entities(archetype_id)
    }

    /// Sets the component of type `component_id` of entity `local` of
    /// archetype `archetype_id` to `value` at the current change tick.
    pub fn insert_component_by_id(&mut self, archetype_id: ArchetypeId, local: LocalVersion, value: V, component_id: ComponentId) -> (r: Option<V>)
        requires
            old(self).wf(),
            (archetype_id.0 as int) < old(self).archetype_table().view().len(),
        ensures
            final(self).wf(),
            final(self).archetype_table().same_but(&old(self).archetype_table(), archetype_id.0 as int),
            insert_outcome(old(self).archetype_table().view()[archetype_id.0 as int],
                final(self).archetype_table().view()[archetype_id.0 as int], local, value, component_id, old(self).tick(), r),
            final(self).registry() == old(self).registry(),
            final(self).resource_table() == old(self).resource_table(),
            final(self).tick() == old(self).tick(),
    {
        let tick = self.change_tick;
        self.archetypes.insert_component(archetype_id, local, value, component_id, tick)
    }

    /// Drops the component of type `component_id` of entity `local` of
    /// archetype `archetype_id`.
    pub fn remove_component_by_id(&mut self, archetype_id: ArchetypeId, local: LocalVersion, component_id: ComponentId)
        requires
            old(self).wf(),
            (archetype_id.0 as int) < old(self).archetype_table().view().len(),
        ensures
            final(self).wf(),
            final(self).archetype_table().same_but(&old(self).archetype_table(), archetype_id.0 as int),
            remove_component_outcome(old(self).archetype_table().view()[archetype_id.0 as int],
                final(self).archetype_table().view()[archetype_id.0 as int], local, component_id),
            final(self).registry() == old(self).registry(),
            final(self).resource_table() == old(self).resource_table(),
            final(self).tick() == old(self).tick(),
    {
        self.archetypes.remove_component(archetype_id, local, component_id)
    }

    proof fn lemma_resources_kept(&self, old_w: &Self)
        requires
            old_w.wf(),
            self.components.wf(),
            self.archetypes.wf(),
            self.listener_access == old_w.listener_access,
            self.resources == old_w.resources,
            self.components.resource_ids() == old_w.components.resource_ids(),
            self.components.infos_view().len() >= old_w.components.infos_view().len(),
            self.archetypes.resource_access_map() == old_w.archetypes.resource_access_map(),
        ensures
            self.wf(),
    {
        assert forall|j: usize| #[trigger] self.resources.slots().contains_key(j) implies j < self.components.infos_view().len() by {
            assert(old_w.resources.slots().contains_key(j));
        }
        assert forall|k: u64| #[trigger] self.components.resource_ids().contains_key(k) implies {
            &&& self.resources.slots().contains_key(self.components.resource_ids()[k] as usize)
            &&& self.archetypes.resource_access_map().contains_key(k)
        } by {
            assert(old_w.components.resource_ids().contains_key(k));
        }
    }

    /// The registry of types.
    pub fn components(&self) -> (r: &Components)
        ensures
            *r == self.registry(),
    {
        &self.components
    }

    /// The archetypes.
    pub fn archetypes(&self) -> (r: &Archetypes<V>)
        ensures
            *r == self.archetype_table(),
    {
        &self.archetypes
    }

    /// The accesses of listeners, by archetype component id.
    pub fn listener_access(&self) -> (r: &ListenerAccess)
        ensures
            *r == self.listeners(),
    {
        &self.listener_access
    }

    /// Records a listener with access `access` on the archetype component
    /// id `a_c_id`.
    pub fn add_access(&mut self, a_c_id: usize, access: Access)
        requires
            old(self).wf(),
            access.wf(),
        ensures
            final(self).wf(),
            final(self).listeners().table() == old(self).listeners().table().insert(a_c_id,
                if old(self).listeners().table().contains_key(a_c_id) {
                    old(self).listeners().table()[a_c_id].push(access)
                } else {
                    seq![access]
                }),
            final(self).registry() == old(self).registry(),
            final(self).archetype_table() == old(self).archetype_table(),
            final(self).resource_table() == old(self).resource_table(),
            final(self).tick() == old(self).tick(),
            final(self).last_tick() == old(self).last_tick(),
            final(self).world_id() == old(self).world_id(),
            final(self).queries_made() == old(self).queries_made(),
    {
        self.listener_access.add_access(a_c_id, access);
    }

    /// The id of this world.
    pub fn id(&self) -> (r: WorldId)
        ensures
            r == self.world_id(),
    {
        self.id
    }

    /// The current change tick.
    pub fn read_change_tick(&self) -> (r: u32)
        ensures
            r == self.tick(),
    {
        self.change_tick
    }

    /// The current change tick.
    pub fn change_tick(&mut self) -> (r: u32)
        ensures
            r == old(self).tick(),
            *final(self) == *old(self),
    {
        self.change_tick
    }

    /// The change tick at the last clearing of trackers.
    pub fn last_change_tick(&self) -> (r: u32)
        ensures
            r == self.last_tick(),
    {
        self.last_change_tick
    }

    /// Advances the change tick by one, wrapping, and returns it as it was.
    pub fn increment_change_tick(&mut self) -> (r: u32)
        ensures
            r == old(self).tick(),
            final(self).tick() == old(self).tick().wrapping_add(1),
            final(self).last_tick() == old(self).last_tick(),
            old(self).wf() ==> final(self).wf(),
            final(self).registry() == old(self).registry(),
            final(self).archetype_table() == old(self).archetype_table(),
            final(self).resource_table() == old(self).resource_table(),
            final(self).listeners() == old(self).listeners(),
    {
        let r = self.change_tick;
        self.change_tick = self.change_tick.wrapping_add(1);
        r
    }

    /// Advances the change tick, and makes the tick it had the last change
    /// tick.
    pub fn clear_trackers(&mut self)
        ensures
            final(self).last_tick() == old(self).tick(),
            final(self).tick() == old(self).tick().wrapping_add(1),
            old(self).wf() ==> final(self).wf(),
            final(self).registry() == old(self).registry(),
            final(self).archetype_table() == old(self).archetype_table(),
            final(self).resource_table() == old(self).resource_table(),
            final(self).listeners() == old(self).listeners(),
    {
        self.last_change_tick = self.increment_change_tick();
    }
}

} // verus!
