//! Components: change ticks, the registry of component types, and the
//! per-archetype store of one component type.
use vstd::prelude::*;
use std::collections::HashMap;
use crate::storage::{Local, LocalVersion, Offset};
use crate::entity::Entity;
use crate::monitor::{NotifyImpl, Event, create_of, delete_of, modify_of};

verus! {

broadcast use vstd::std_specs::hash::group_hash_axioms;

/// `a - b` on `u32` with wrap-around, as an integer in `[0, 2^32)`.
pub open spec fn wrapping_delta(a: u32, b: u32) -> int {
    (a as int - b as int) % 0x1_0000_0000
}

/// Whether something stamped at `stamp` happened after `last_change_tick`,
/// judged from `change_tick`: the distance back from `change_tick` to the stamp
/// is shorter than the distance back to `last_change_tick`, counted modulo
/// `2^32` so that the whole range of `u32` can be used.
pub open spec fn happened_since(stamp: u32, last_change_tick: u32, change_tick: u32) -> bool {
    wrapping_delta(change_tick, stamp) < wrapping_delta(change_tick, last_change_tick)
}

fn wrapping_sub_u32(a: u32, b: u32) -> (r: u32)
    ensures
        r as int == wrapping_delta(a, b),
{
    let r = a.wrapping_sub(b);
    assert(r as int == wrapping_delta(a, b)) by {
        if a >= b {
            assert((a as int - b as int) % 0x1_0000_0000 == a as int - b as int);
        } else {
            assert((a as int - b as int) % 0x1_0000_0000 == a as int - b as int + 0x1_0000_0000) by {
                vstd::arithmetic::div_mod::lemma_fundamental_div_mod_converse(
                    a as int - b as int, 0x1_0000_0000, -1, a as int - b as int + 0x1_0000_0000);
            }
        }
    }
    r
}

/// When a component was added and last changed.
#[derive(Copy, Clone, Debug)]
pub struct ComponentTicks {
    pub added: u32,
    pub changed: u32,
}

impl ComponentTicks {
    /// Whether the component was added since `last_change_tick`, seen from
    /// `change_tick`.
    pub fn is_added(&self, last_change_tick: u32, change_tick: u32) -> (r: bool)
        ensures
            r == happened_since(self.added, last_change_tick, change_tick),
    {
        let component_delta = wrapping_sub_u32(change_tick, self.added);
        let system_delta = wrapping_sub_u32(change_tick, last_change_tick);
        component_delta < system_delta
    }

    /// Whether the component was changed since `last_change_tick`, seen from
    /// `change_tick`.
    pub fn is_changed(&self, last_change_tick: u32, change_tick: u32) -> (r: bool)
        ensures
            r == happened_since(self.changed, last_change_tick, change_tick),
    {
        let component_delta = wrapping_sub_u32(change_tick, self.changed);
        let system_delta = wrapping_sub_u32(change_tick, last_change_tick);
        component_delta < system_delta
    }

    /// Ticks of a component added (and so changed) at `change_tick`.
    pub fn new(change_tick: u32) -> (r: Self)
        ensures
            r.added == change_tick,
            r.changed == change_tick,
    {
        ComponentTicks { added: change_tick, changed: change_tick }
    }

    /// Leaves the ticks as they are: ticks are compared modulo `2^32`, so they
    /// never need to be brought back into range.
    pub fn check_ticks(&mut self, _change_tick: u32)
        ensures
            *final(self) == *old(self),
    {
    }

    /// Records a change at `change_tick`.
    pub fn set_changed(&mut self, change_tick: u32)
        ensures
            final(self).changed == change_tick,
            final(self).added == old(self).added,
    {
        self.changed = change_tick;
    }
}

/// A component stamped at `change_tick` counts as new from `change_tick`
/// exactly for the systems that last ran at another tick.
pub proof fn lemma_stamp_seen_at_its_own_tick(stamp: u32, last_change_tick: u32)
    ensures
        happened_since(stamp, last_change_tick, stamp) <==> last_change_tick != stamp,
{
    assert(wrapping_delta(stamp, stamp) == 0);
    if last_change_tick != stamp {
        assert(wrapping_delta(stamp, last_change_tick) != 0) by {
            if stamp >= last_change_tick {
            } else {
                assert(wrapping_delta(stamp, last_change_tick) == stamp as int - last_change_tick as int + 0x1_0000_0000) by {
                    vstd::arithmetic::div_mod::lemma_fundamental_div_mod_converse(
                        stamp as int - last_change_tick as int, 0x1_0000_0000, -1,
                        stamp as int - last_change_tick as int + 0x1_0000_0000);
                }
            }
        }
    }
}

/// Nothing happened since a system that last ran at the current tick.
pub proof fn lemma_nothing_since_now(stamp: u32, change_tick: u32)
    ensures
        !happened_since(stamp, change_tick, change_tick),
{
    assert(wrapping_delta(change_tick, change_tick) == 0);
}

/// Ticks just made are added and changed, seen by any system that ran at
/// another tick; and `set_changed` makes a component changed in the same way.
pub proof fn lemma_fresh_ticks_are_new(change_tick: u32, last_change_tick: u32)
    ensures
        happened_since(ComponentTicks { added: change_tick, changed: change_tick }.added, last_change_tick, change_tick)
            <==> last_change_tick != change_tick,
        happened_since(ComponentTicks { added: change_tick, changed: change_tick }.changed, last_change_tick, change_tick)
            <==> last_change_tick != change_tick,
{
    lemma_stamp_seen_at_its_own_tick(change_tick, last_change_tick);
}

/// A component changed at `t2` after being seen as unchanged by a system at
/// `t1` is seen as changed by a system that last ran at `t1`, as long as no
/// more than `2^32 - 1` ticks separate `t1` from `t2`, in the order of ticks.
pub proof fn lemma_change_after_last_run_is_seen(t1: u32, t2: u32)
    requires
        t1 != t2,
    ensures
        happened_since(t2, t1, t2),
{
    lemma_stamp_seen_at_its_own_tick(t2, t1);
}

/// How components of a type are laid out.
#[derive(Debug, Copy, Clone, Eq, PartialEq, Structural)]
pub enum StorageType {
    Table,
    SparseSet,
}

impl StorageType {
    /// The layout used when none is asked for.
    pub fn default() -> (r: Self)
        ensures
            r == StorageType::Table,
    {
        StorageType::Table
    }
}


/// The id of a component type.
pub type ComponentId = Local;

/// What the registry knows of a component type.
pub struct ComponentInfo {
    pub storage_type: StorageType,
    pub id: ComponentId,
    pub name: &'static str,
}

impl ComponentInfo {
    pub fn storage_type(&self) -> (r: StorageType)
        ensures
            r == self.storage_type,
    {
        self.storage_type
    }

    pub fn id(&self) -> (r: ComponentId)
        ensures
            r == self.id,
    {
        self.id
    }

    pub fn name(&self) -> (r: &'static str)
        ensures
            r == self.name,
    {
        self.name
    }
}

/// An error registering a component type.
pub enum ComponentsError {
    /// The type with key `type_key`, named `name`, is already registered.
    ComponentAlreadyExists { type_key: u64, name: String },
}

/// The registry of component and resource types. A type is known by a key
/// (a hash of its type identity); ids are handed out densely from 0, in
/// registration order, and components and resources share one id space.
pub struct Components {
    pub(crate) infos: Vec<ComponentInfo>,
    indices: HashMap<u64, usize>,
    resource_indices: HashMap<u64, ComponentId>,
}

impl Components {
    /// The registered types, by id.
    pub closed spec fn infos_view(&self) -> Seq<ComponentInfo> {
        self.infos@
    }

    /// Component type keys and their ids.
    pub closed spec fn component_ids(&self) -> Map<u64, nat> {
        self.indices@.map_values(|i: usize| i as nat)
    }

    /// Resource type keys and their ids.
    pub closed spec fn resource_ids(&self) -> Map<u64, nat> {
        self.resource_indices@.map_values(|c: ComponentId| c.0 as nat)
    }

    pub closed spec fn wf(&self) -> bool {
        &&& forall|i: int| 0 <= i < self.infos@.len() ==> (#[trigger] self.infos@[i]).id.0 == i
        &&& forall|k: u64| #[trigger] self.indices@.contains_key(k) ==> self.indices@[k] < self.infos@.len()
        &&& forall|k: u64| #[trigger] self.resource_indices@.contains_key(k) ==> self.resource_indices@[k].0 < self.infos@.len()
        &&& forall|k1: u64, k2: u64| #[trigger] self.indices@.contains_key(k1) && #[trigger] self.indices@.contains_key(k2) && k1 != k2
            ==> self.indices@[k1] != self.indices@[k2]
        &&& forall|k1: u64, k2: u64| #[trigger] self.resource_indices@.contains_key(k1) && #[trigger] self.resource_indices@.contains_key(k2) && k1 != k2
            ==> self.resource_indices@[k1] != self.resource_indices@[k2]
        &&& forall|k1: u64, k2: u64| #[trigger] self.indices@.contains_key(k1) && #[trigger] self.resource_indices@.contains_key(k2)
            ==> self.indices@[k1] != self.resource_indices@[k2].0
    }

    /// An empty registry.
    pub fn new() -> (r: Self)
        ensures
            r.wf(),
            r.infos_view() == Seq::<ComponentInfo>::empty(),
            r.component_ids() == Map::<u64, nat>::empty(),
            r.resource_ids() == Map::<u64, nat>::empty(),
    {
        let r = Components { infos: Vec::new(), indices: HashMap::new(), resource_indices: HashMap::new() };
        proof {
            assert(r.component_ids() =~= Map::<u64, nat>::empty());
            assert(r.resource_ids() =~= Map::<u64, nat>::empty());
        }
        r
    }

    /// The number of registered types.
    pub fn len(&self) -> (r: usize)
        ensures
            r == self.infos_view().len(),
    {
        self.infos.len()
    }

    /// Whether no type is registered.
    pub fn is_empty(&self) -> (r: bool)
        ensures
            r == (self.infos_view().len() == 0),
    {
        self.infos.len() == 0
    }

    /// What is known of the type with id `id`, if any.
    pub fn get_info(&self, id: ComponentId) -> (r: Option<&ComponentInfo>)
        ensures
            r == (if (id.0 as int) < self.infos_view().len() { Some(&self.infos_view()[id.0 as int]) } else { None }),
    {
        if id.0 < self.infos.len() {
            Some(&self.infos[id.0])
        } else {
            None
        }
    }

    /// The id of the component type `type_key`, if it is registered.
    pub fn get_id(&self, type_key: u64) -> (r: Option<ComponentId>)
        ensures
            match r {
                Some(c) => self.component_ids().contains_key(type_key) && c.0 as nat == self.component_ids()[type_key],
                None => !self.component_ids().contains_key(type_key),
            },
    {
        match self.indices.get(&type_key) {
            Some(index) => Some(ComponentId::new(*index)),
            None => None,
        }
    }

    /// The id of the component type `type_key`, registering it (with layout
    /// `Table` and name `name`) under the next id if it is new.
    pub fn get_or_insert_with(&mut self, type_key: u64, name: &'static str) -> (r: ComponentId)
        requires
            old(self).wf(),
            old(self).infos_view().len() < usize::MAX,
        ensures
            final(self).wf(),
            final(self).resource_ids() == old(self).resource_ids(),
            old(self).component_ids().contains_key(type_key) ==> {
                &&& r.0 as nat == old(self).component_ids()[type_key]
                &&& final(self).component_ids() == old(self).component_ids()
                &&& final(self).infos_view() == old(self).infos_view()
            },
            !old(self).component_ids().contains_key(type_key) ==> {
                &&& r.0 as nat == old(self).infos_view().len()
                &&& final(self).component_ids() == old(self).component_ids().insert(type_key, r.0 as nat)
                &&& final(self).infos_view() == old(self).infos_view().push(
                    ComponentInfo { storage_type: StorageType::Table, id: r, name })
            },
    {
        match self.indices.get(&type_key) {
            Some(index) => ComponentId::new(*index),
            None => {
                let index = self.infos.len();
                let id = ComponentId::new(index);
                self.infos.push(ComponentInfo { id, storage_type: StorageType::Table, name });
                self.indices.insert(type_key, index);
                proof {
                    assert(self.component_ids() =~= old(self).component_ids().insert(type_key, index as nat));
                    assert forall|i: int| 0 <= i < self.infos@.len() implies (#[trigger] self.infos@[i]).id.0 == i by {
                        if i < old(self).infos@.len() {
                            assert(self.infos@[i] == old(self).infos@[i]);
                        }
                    }
                }
                id
            },
        }
    }

    /// The id of the resource type `type_key`, if it is registered.
    pub fn get_resource_id(&self, type_key: u64) -> (r: Option<ComponentId>)
        ensures
            match r {
                Some(c) => self.resource_ids().contains_key(type_key) && c.0 as nat == self.resource_ids()[type_key],
                None => !self.resource_ids().contains_key(type_key),
            },
    {
        match self.resource_indices.get(&type_key) {
            Some(id) => Some(*id),
            None => None,
        }
    }

    /// The id of the resource type `type_key`, registering it (with layout
    /// `Table` and name `name`) under the next id if it is new.
    pub fn get_or_insert_resource_id(&mut self, type_key: u64, name: &'static str) -> (r: ComponentId)
        requires
            old(self).wf(),
            old(self).infos_view().len() < usize::MAX,
        ensures
            final(self).wf(),
            final(self).component_ids() == old(self).component_ids(),
            old(self).resource_ids().contains_key(type_key) ==> {
                &&& r.0 as nat == old(self).resource_ids()[type_key]
                &&& final(self).resource_ids() == old(self).resource_ids()
                &&& final(self).infos_view() == old(self).infos_view()
            },
            !old(self).resource_ids().contains_key(type_key) ==> {
                &&& r.0 as nat == old(self).infos_view().len()
                &&& final(self).resource_ids() == old(self).resource_ids().insert(type_key, r.0 as nat)
                &&& final(self).infos_view() == old(self).infos_view().push(
                    ComponentInfo { storage_type: StorageType::Table, id: r, name })
            },
    {
        match self.resource_indices.get(&type_key) {
            Some(id) => *id,
            None => {
                let index = self.infos.len();
                let id = ComponentId::new(index);
                self.infos.push(ComponentInfo { id, storage_type: StorageType::Table, name });
                self.resource_indices.insert(type_key, id);
                proof {
                    assert(self.resource_ids() =~= old(self).resource_ids().insert(type_key, index as nat));
                    assert forall|i: int| 0 <= i < self.infos@.len() implies (#[trigger] self.infos@[i]).id.0 == i by {
                        if i < old(self).infos@.len() {
                            assert(self.infos@[i] == old(self).infos@[i]);
                        }
                    }
                }
                id
            },
        }
    }

    /// Registered ids are below the number of registered types, which fits
    /// in a `usize`.
    pub proof fn lemma_ids_bounded(&self, k: u64)
        requires
            self.wf(),
        ensures
            self.infos_view().len() <= usize::MAX,
            self.component_ids().contains_key(k) ==> self.component_ids()[k] < self.infos_view().len(),
            self.resource_ids().contains_key(k) ==> self.resource_ids()[k] < self.infos_view().len(),
    {
        assert(self.infos.len() == self.infos@.len());
        if self.component_ids().contains_key(k) {
            assert(self.indices@.contains_key(k));
        }
        if self.resource_ids().contains_key(k) {
            assert(self.resource_indices@.contains_key(k));
        }
    }

    /// Distinct registered types have distinct ids, whether they are
    /// components or resources, and each id names its own entry.
    pub proof fn lemma_ids_distinct(&self, k1: u64, k2: u64)
        requires
            self.wf(),
        ensures
            self.component_ids().contains_key(k1) && self.component_ids().contains_key(k2) && k1 != k2
                ==> self.component_ids()[k1] != self.component_ids()[k2],
            self.resource_ids().contains_key(k1) && self.resource_ids().contains_key(k2) && k1 != k2
                ==> self.resource_ids()[k1] != self.resource_ids()[k2],
            self.component_ids().contains_key(k1) && self.resource_ids().contains_key(k2)
                ==> self.component_ids()[k1] != self.resource_ids()[k2],
            self.component_ids().contains_key(k1) ==> {
                &&& self.component_ids()[k1] < self.infos_view().len()
                &&& self.infos_view()[self.component_ids()[k1] as int].id.0 == self.component_ids()[k1]
            },
    {
        if self.component_ids().contains_key(k1) {
            assert(self.indices@.contains_key(k1));
            let i = self.indices@[k1] as int;
            assert(self.infos@[i].id.0 == i);
        }
        if self.component_ids().contains_key(k2) {
            assert(self.indices@.contains_key(k2));
        }
        if self.resource_ids().contains_key(k1) {
            assert(self.resource_indices@.contains_key(k1));
        }
        if self.resource_ids().contains_key(k2) {
            assert(self.resource_indices@.contains_key(k2));
        }
    }
}

/// The components of one type that belong to the entities of one archetype,
/// with their change ticks. Ticks are kept by slot index, so they outlive the
/// component and are replaced when another entity of the same slot gets one.
pub struct MultiCaseImpl<C> {
    map: HashMap<u64, C>,
    notify: NotifyImpl,
    archetype_id: Local,
    ticks: HashMap<usize, ComponentTicks>,
}

impl<C> MultiCaseImpl<C> {
    /// Components by raw entity key.
    pub closed spec fn values(&self) -> Map<u64, C> {
        self.map@
    }

    /// Ticks by slot index.
    pub closed spec fn tick_map(&self) -> Map<usize, ComponentTicks> {
        self.ticks@
    }

    /// The events emitted so far, oldest first.
    pub closed spec fn events(&self) -> Seq<Event> {
        self.notify.emitted()
    }

    /// The archetype whose entities own these components.
    pub closed spec fn archetype(&self) -> Local {
        self.archetype_id
    }

    /// Every stored component has ticks for its slot.
    pub open spec fn ticks_cover_values(&self) -> bool {
        forall|k: u64| #[trigger] self.values().contains_key(k) ==> self.tick_map().contains_key(LocalVersion::index_of(k) as usize)
    }

    /// The slot index of `id`, in the domain of `tick_map`.
    pub open spec fn slot_of(id: LocalVersion) -> usize {
        LocalVersion::index_of(id.raw()) as usize
    }

    /// An empty store for the entities of `archetype_id`.
    pub fn with_capacity(_capacity: usize, archetype_id: Local) -> (r: Self)
        ensures
            r.values() == Map::<u64, C>::empty(),
            r.tick_map() == Map::<usize, ComponentTicks>::empty(),
            r.events() == Seq::<Event>::empty(),
            r.archetype() == archetype_id,
    {
        MultiCaseImpl { map: HashMap::new(), notify: NotifyImpl::new(), archetype_id, ticks: HashMap::new() }
    }

    /// The component of `id`, if it has one.
    pub fn get(&self, id: LocalVersion) -> (r: Option<&C>)
        ensures
            match r {
                Some(c) => self.values().contains_key(id.raw()) && *c == self.values()[id.raw()],
                None => !self.values().contains_key(id.raw()),
            },
    {
        self.map.get(&id.0)
    }

    /// Whether `id` has a component.
    pub fn contains_key(&self, local: &LocalVersion) -> (r: bool)
        ensures
            r == self.values().contains_key(local.raw()),
    {
        self.map.contains_key(&local.0)
    }

    /// The ticks recorded for the slot of `id`, if any.
    pub fn tick(&self, id: LocalVersion) -> (r: Option<&ComponentTicks>)
        ensures
            match r {
                Some(t) => self.tick_map().contains_key(Self::slot_of(id)) && *t == self.tick_map()[Self::slot_of(id)],
                None => !self.tick_map().contains_key(Self::slot_of(id)),
            },
    {
        let slot = id.offset();
        self.ticks.get(&slot)
    }

    /// Sets the component of `id` to `c` at tick `tick`. A new component gets
    /// fresh ticks and a creation event; a replaced one gets its change tick
    /// set and a modification event. Returns the replaced component.
    pub fn insert(&mut self, id: LocalVersion, c: C, tick: u32) -> (r: Option<C>)
        requires
            old(self).values().contains_key(id.raw()) ==> old(self).tick_map().contains_key(Self::slot_of(id)),
        ensures
            final(self).values() == old(self).values().insert(id.raw(), c),
            final(self).archetype() == old(self).archetype(),
            match r {
                Some(v) => {
                    &&& old(self).values().contains_key(id.raw())
                    &&& v == old(self).values()[id.raw()]
                    &&& final(self).tick_map() == old(self).tick_map().insert(Self::slot_of(id),
                        ComponentTicks { added: old(self).tick_map()[Self::slot_of(id)].added, changed: tick })
                    &&& final(self).events() == old(self).events().push(
                        modify_of(Entity { archetype_id: old(self).archetype(), local: id }, "", 0))
                },
                None => {
                    &&& !old(self).values().contains_key(id.raw())
                    &&& final(self).tick_map() == old(self).tick_map().insert(Self::slot_of(id), ComponentTicks { added: tick, changed: tick })
                    &&& final(self).events() == old(self).events().push(
                        create_of(Entity { archetype_id: old(self).archetype(), local: id }))
                },
            },
    {
        let r = self.map.insert(id.0, c);
        let slot = id.offset();
        match r {
            Some(_) => {
                let t = *self.ticks.get(&slot).unwrap();
                self.ticks.insert(slot, ComponentTicks { added: t.added, changed: tick });
                self.notify.modify_event(Entity::new(self.archetype_id, id), "", 0);
            },
            None => {
                self.ticks.insert(slot, ComponentTicks::new(tick));
                self.notify.create_event(Entity::new(self.archetype_id, id));
            },
        }
        r
    }

    /// Sets the component of `id` to `c` without touching ticks or emitting
    /// an event. Returns the replaced component.
    pub fn insert_no_notify(&mut self, id: LocalVersion, c: C) -> (r: Option<C>)
        ensures
            final(self).values() == old(self).values().insert(id.raw(), c),
            final(self).tick_map() == old(self).tick_map(),
            final(self).events() == old(self).events(),
            final(self).archetype() == old(self).archetype(),
            match r {
                Some(v) => old(self).values().contains_key(id.raw()) && v == old(self).values()[id.raw()],
                None => !old(self).values().contains_key(id.raw()),
            },
    {
        self.map.insert(id.0, c)
    }

    /// Removes the component of `id`, emitting its deletion if there was one.
    /// Ticks are kept.
    pub fn delete(&mut self, id: LocalVersion) -> (r: Option<C>)
        ensures
            final(self).values() == old(self).values().remove(id.raw()),
            final(self).tick_map() == old(self).tick_map(),
            final(self).archetype() == old(self).archetype(),
            match r {
                Some(v) => {
                    &&& old(self).values().contains_key(id.raw())
                    &&& v == old(self).values()[id.raw()]
                    &&& final(self).events() == old(self).events().push(
                        delete_of(Entity { archetype_id: old(self).archetype(), local: id }))
                },
                None => {
                    &&& !old(self).values().contains_key(id.raw())
                    &&& final(self).events() == old(self).events()
                },
            },
    {
        if self.map.contains_key(&id.0) {
            self.notify.delete_event(Entity::new(self.archetype_id, id));
            self.map.remove(&id.0)
        } else {
            proof {
                assert(old(self).values().remove(id.raw()) =~= old(self).values());
            }
            None
        }
    }

    /// Removes the component of `id` without emitting an event: used when the
    /// entity itself is removed.
    pub fn delete_silently(&mut self, id: LocalVersion)
        ensures
            final(self).values() == old(self).values().remove(id.raw()),
            final(self).tick_map() == old(self).tick_map(),
            final(self).events() == old(self).events(),
            final(self).archetype() == old(self).archetype(),
    {
        let _ = self.map.remove(&id.0);
    }

    /// Hands out the emitted events, oldest first, and forgets them.
    pub fn take_events(&mut self) -> (r: Vec<Event>)
        ensures
            r@ == old(self).events(),
            final(self).events() == Seq::<Event>::empty(),
            final(self).values() == old(self).values(),
            final(self).tick_map() == old(self).tick_map(),
            final(self).archetype() == old(self).archetype(),
    {
        self.notify.take_events()
    }
}

} // verus!
