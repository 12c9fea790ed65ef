//! Fetches: what a query reads of each entity of its archetype.
use vstd::prelude::*;
use std::marker::PhantomData;
use crate::archetype::{Archetype, ArchetypeId, insert_outcome, delete_component_outcome};
use crate::component::{ComponentId, ComponentTicks, MultiCaseImpl};
use crate::dispatch::access::Access;
use crate::entity::{Entity, Id};
use crate::storage::LocalVersion;

verus! {

/// What a query reads of the entities of one archetype: whether it applies
/// to the archetype at all, and what it gives for an entity (nothing, when
/// the entity is to be skipped).
pub trait Fetch<'a, V: 'a>: Sized {
    /// What is read of one entity.
    type Item;

    /// Whether the query applies to `archetype`.
    spec fn matched(&self, archetype: &Archetype<V>) -> bool;

    /// What is read of entity `local` of `archetype`.
    spec fn item(&self, archetype: &'a Archetype<V>, local: LocalVersion) -> Option<Self::Item>;

    /// Whether the query applies to `archetype`.
    fn matches_archetype(&self, archetype: &Archetype<V>) -> (r: bool)
        requires
            archetype.wf(),
        ensures
            r == self.matched(archetype);

    /// What is read of entity `local` of `archetype`.
    fn archetype_fetch(&self, archetype: &'a Archetype<V>, local: LocalVersion) -> (r: Option<Self::Item>)
        requires
            archetype.wf(),
        ensures
            r == self.item(archetype, local);

    /// Whether the data access of the fetch on `archetype` can be added to
    /// `access` without a conflict.
    spec fn access_ok(&self, archetype: &Archetype<V>, access: Access) -> bool;

    /// What adding the data access of the fetch on `archetype` does, from
    /// `a0` to `a1`.
    spec fn access_update(&self, archetype: &Archetype<V>, a0: Access, a1: Access) -> bool;

    /// Adds the data access of the fetch on `archetype` to `access`.
    fn update_archetype_component_access(&self, archetype: &Archetype<V>, access: &mut Access)
        requires
            archetype.wf(),
            old(access).wf(),
            self.access_ok(archetype, *old(access)),
        ensures
            final(access).wf(),
            self.access_update(archetype, *old(access), *final(access));

    /// The fetch once told the ticks of a run: the tick at which the system
    /// last ran and the current one.
    spec fn ticked(&self, last_change_tick: u32, change_tick: u32) -> Self;

    /// Records the ticks of a run.
    fn setting(&mut self, last_change_tick: u32, change_tick: u32)
        ensures
            *final(self) == old(self).ticked(last_change_tick, change_tick);
}

/// The archetype component id of the registered type `cid` in `archetype`.
pub open spec fn acid_of<V>(archetype: &Archetype<V>, cid: ComponentId) -> int {
    archetype.archetype_component_list()[archetype.component_list().index_of(cid)].0 as int
}

/// `a1` is `a0`.
pub open spec fn same_access(a0: Access, a1: Access) -> bool {
    &&& a1.rw_set() == a0.rw_set()
    &&& a1.w_set() == a0.w_set()
    &&& a1.m_set() == a0.m_set()
}

/// `a1` is `a0` with a read of `id`.
pub open spec fn read_added(a0: Access, a1: Access, id: int) -> bool {
    &&& a1.rw_set() == a0.rw_set().insert(id as usize)
    &&& a1.w_set() == a0.w_set()
    &&& a1.m_set() == a0.m_set()
}

/// `a1` is `a0` with a write of `id`.
pub open spec fn write_added(a0: Access, a1: Access, id: int) -> bool {
    &&& a1.rw_set() == a0.rw_set().insert(id as usize)
    &&& a1.w_set() == a0.w_set().insert(id as usize)
    &&& a1.m_set() == a0.m_set()
}

/// `a1` is `a0` with a modification of `id`.
pub open spec fn modify_added(a0: Access, a1: Access, id: int) -> bool {
    &&& a1.rw_set() == a0.rw_set().insert(id as usize)
    &&& a1.w_set() == a0.w_set().insert(id as usize)
    &&& a1.m_set() == a0.m_set().insert(id as usize)
}

/// Whether a read of the registered type `cid` of `archetype` can be added
/// to `access`: nothing writes it yet.
pub open spec fn read_ok<V>(archetype: &Archetype<V>, cid: ComponentId, access: Access) -> bool {
    &&& archetype.component_list().contains(cid)
    &&& acid_of(archetype, cid) < usize::MAX
    &&& !access.w_set().contains(acid_of(archetype, cid) as usize)
}

/// Adds a read of the registered type `cid` of `archetype` to `access`.
pub fn add_component_read<V>(archetype: &Archetype<V>, cid: ComponentId, access: &mut Access)
    requires
        archetype.wf(),
        old(access).wf(),
        read_ok(archetype, cid, *old(access)),
    ensures
        final(access).wf(),
        read_added(*old(access), *final(access), acid_of(archetype, cid)),
{
    let acid = archetype.archetype_component_id(cid);
    access.add_read(acid.0);
}

/// Marks the fetches that only read.
pub trait ReadOnlyFetch {}

/// The component of type `T` of an entity, if it has one.
pub open spec fn component_of<V>(archetype: &Archetype<V>, component_id: ComponentId, local: LocalVersion) -> Option<V> {
    if archetype.component_list().contains(component_id) && archetype.column_of(component_id).values().contains_key(local.raw()) {
        Some(archetype.column_of(component_id).values()[local.raw()])
    } else {
        None
    }
}

/// The store of `component_id` in `archetype`, if it has one.
fn column<'a, V>(archetype: &'a Archetype<V>, component_id: ComponentId) -> (r: Option<&'a MultiCaseImpl<V>>)
    requires
        archetype.wf(),
    ensures
        match r {
            Some(c) => archetype.component_list().contains(component_id) && *c == archetype.column_of(component_id),
            None => !archetype.component_list().contains(component_id),
        },
{
    if archetype.contains(component_id) {
        Some(archetype.get_component(component_id))
    } else {
        None
    }
}

/// Reads a component by shared reference: entities without it are skipped.
pub struct ReadFetch<T> {
    pub component_id: ComponentId,
    pub marker: PhantomData<T>,
}

impl<T> ReadFetch<T> {
    /// Reads the component type `component_id`.
    pub fn new(component_id: ComponentId) -> (r: Self)
        ensures
            r.component_id == component_id,
    {
        ReadFetch { component_id, marker: PhantomData }
    }
}

impl<T> ReadOnlyFetch for ReadFetch<T> {}

impl<'a, V: 'a, T> Fetch<'a, V> for ReadFetch<T> {
    open spec fn ticked(&self, last_change_tick: u32, change_tick: u32) -> Self {
        *self
    }

    /// This fetch does not depend on ticks.
    fn setting(&mut self, last_change_tick: u32, change_tick: u32) {
    }

    type Item = &'a V;

    open spec fn matched(&self, archetype: &Archetype<V>) -> bool {
        archetype.component_list().contains(self.component_id)
    }

    open spec fn item(&self, archetype: &'a Archetype<V>, local: LocalVersion) -> Option<&'a V> {
        match component_of(archetype, self.component_id, local) {
            Some(v) => Some(&v),
            None => None,
        }
    }

    fn matches_archetype(&self, archetype: &Archetype<V>) -> (r: bool) {
        archetype.contains(self.component_id)
    }

    fn archetype_fetch(&self, archetype: &'a Archetype<V>, local: LocalVersion) -> (r: Option<&'a V>) {
        match column(archetype, self.component_id) {
            Some(c) => c.get(local),
            None => None,
        }
    }

    open spec fn access_ok(&self, archetype: &Archetype<V>, access: Access) -> bool {
        read_ok(archetype, self.component_id, access)
    }

    open spec fn access_update(&self, archetype: &Archetype<V>, a0: Access, a1: Access) -> bool {
        read_added(a0, a1, acid_of(archetype, self.component_id))
    }

    fn update_archetype_component_access(&self, archetype: &Archetype<V>, access: &mut Access) {
        add_component_read(archetype, self.component_id, access);
    }
}

/// Reads what a fetch reads, where the archetype has it: an archetype it does
/// not apply to gives nothing for every entity.
pub struct OptionFetch<F> {
    pub fetch: F,
    pub matches: bool,
}

impl<F> OptionFetch<F> {
    /// Wraps `fetch`; set the archetype before fetching.
    pub fn new(fetch: F) -> (r: Self)
        ensures
            r.fetch == fetch,
            !r.matches,
    {
        OptionFetch { fetch, matches: false }
    }

    /// Records whether the inner fetch applies to `archetype`.
    pub fn set_archetype<'a, V: 'a>(&mut self, archetype: &Archetype<V>)
        where F: Fetch<'a, V>,
        requires
            archetype.wf(),
        ensures
            final(self).fetch == old(self).fetch,
            final(self).matches == old(self).fetch.matched(archetype),
    {
        self.matches = self.fetch.matches_archetype(archetype);
    }
}

impl<F: ReadOnlyFetch> ReadOnlyFetch for OptionFetch<F> {}

impl<'a, V: 'a, F: Fetch<'a, V>> Fetch<'a, V> for OptionFetch<F> {
    open spec fn ticked(&self, last_change_tick: u32, change_tick: u32) -> Self {
        *self
    }

    /// This fetch does not depend on ticks.
    fn setting(&mut self, last_change_tick: u32, change_tick: u32) {
    }

    type Item = Option<F::Item>;

    open spec fn matched(&self, archetype: &Archetype<V>) -> bool {
        true
    }

    open spec fn item(&self, archetype: &'a Archetype<V>, local: LocalVersion) -> Option<Option<F::Item>> {
        if self.matches {
            Some(self.fetch.item(archetype, local))
        } else {
            None
        }
    }

    fn matches_archetype(&self, archetype: &Archetype<V>) -> (r: bool) {
        true
    }

    fn archetype_fetch(&self, archetype: &'a Archetype<V>, local: LocalVersion) -> (r: Option<Option<F::Item>>) {
        if self.matches {
            Some(self.fetch.archetype_fetch(archetype, local))
        } else {
            None
        }
    }

    open spec fn access_ok(&self, archetype: &Archetype<V>, access: Access) -> bool {
        self.matches ==> self.fetch.access_ok(archetype, access)
    }

    open spec fn access_update(&self, archetype: &Archetype<V>, a0: Access, a1: Access) -> bool {
        if self.matches { self.fetch.access_update(archetype, a0, a1) } else { same_access(a0, a1) }
    }

    fn update_archetype_component_access(&self, archetype: &Archetype<V>, access: &mut Access) {
        if self.matches {
            self.fetch.update_archetype_component_access(archetype, access);
        }
    }
}

/// Marks a read of a component that falls back on a default value.
pub struct OrDefault<T>(pub PhantomData<T>);

/// Reads a component, or the default value where the entity has none.
pub struct OrDefaultFetch<'d, T, V> {
    pub fetch: ReadFetch<T>,
    pub default: Option<&'d V>,
    pub matches: bool,
}

impl<'d, T, V> OrDefaultFetch<'d, T, V> {
    /// Reads component type `component_id`, with `default` as the fallback;
    /// set the archetype before fetching.
    pub fn new(component_id: ComponentId, default: Option<&'d V>) -> (r: Self)
        ensures
            r.fetch.component_id == component_id,
            r.default == default,
            !r.matches,
    {
        OrDefaultFetch { fetch: ReadFetch::new(component_id), default, matches: false }
    }

    /// Records whether `archetype` has the component type.
    pub fn set_archetype(&mut self, archetype: &Archetype<V>)
        requires
            archetype.wf(),
        ensures
            final(self).fetch == old(self).fetch,
            final(self).default == old(self).default,
            final(self).matches == archetype.component_list().contains(old(self).fetch.component_id),
    {
        self.matches = archetype.contains(self.fetch.component_id);
    }
}

impl<'d, T, V> ReadOnlyFetch for OrDefaultFetch<'d, T, V> {}

impl<'a, T, V: 'a> Fetch<'a, V> for OrDefaultFetch<'a, T, V> {
    open spec fn ticked(&self, last_change_tick: u32, change_tick: u32) -> Self {
        *self
    }

    /// This fetch does not depend on ticks.
    fn setting(&mut self, last_change_tick: u32, change_tick: u32) {
    }

    type Item = &'a V;

    open spec fn matched(&self, archetype: &Archetype<V>) -> bool {
        true
    }

    open spec fn item(&self, archetype: &'a Archetype<V>, local: LocalVersion) -> Option<&'a V> {
        if !self.matches {
            None
        } else {
            match component_of(archetype, self.fetch.component_id, local) {
                Some(v) => Some(&v),
                None => self.default,
            }
        }
    }

    fn matches_archetype(&self, archetype: &Archetype<V>) -> (r: bool) {
        true
    }

    fn archetype_fetch(&self, archetype: &'a Archetype<V>, local: LocalVersion) -> (r: Option<&'a V>) {
        if !self.matches {
            return None;
        }
        match self.fetch.archetype_fetch(archetype, local) {
            Some(v) => Some(v),
            None => self.default,
        }
    }

    open spec fn access_ok(&self, archetype: &Archetype<V>, access: Access) -> bool {
        self.matches ==> read_ok(archetype, self.fetch.component_id, access)
    }

    open spec fn access_update(&self, archetype: &Archetype<V>, a0: Access, a1: Access) -> bool {
        if self.matches { read_added(a0, a1, acid_of(archetype, self.fetch.component_id)) } else { same_access(a0, a1) }
    }

    fn update_archetype_component_access(&self, archetype: &Archetype<V>, access: &mut Access) {
        if self.matches {
            add_component_read(archetype, self.fetch.component_id, access);
        }
    }
}

/// The change ticks of a component, with the ticks of the reading system.
pub struct ChangeTrackers<T> {
    pub component_ticks: ComponentTicks,
    pub last_change_tick: u32,
    pub change_tick: u32,
    pub marker: PhantomData<T>,
}

impl<T> ChangeTrackers<T> {
    /// Whether the component was added since the system last ran.
    pub fn is_added(&self) -> (r: bool)
        ensures
            r == crate::component::happened_since(self.component_ticks.added, self.last_change_tick, self.change_tick),
    {
        self.component_ticks.is_added(self.last_change_tick, self.change_tick)
    }

    /// Whether the component was changed since the system last ran.
    pub fn is_changed(&self) -> (r: bool)
        ensures
            r == crate::component::happened_since(self.component_ticks.changed, self.last_change_tick, self.change_tick),
    {
        self.component_ticks.is_changed(self.last_change_tick, self.change_tick)
    }
}

/// Reads the change ticks of a component; an entity without recorded ticks
/// reads as added and changed at tick 0.
pub struct ChangeTrackersFetch<T> {
    pub component_id: ComponentId,
    pub last_change_tick: u32,
    pub change_tick: u32,
    pub marker: PhantomData<T>,
}

impl<T> ChangeTrackersFetch<T> {
    /// Reads the ticks of component type `component_id`; set the ticks of
    /// the system before fetching.
    pub fn new(component_id: ComponentId) -> (r: Self)
        ensures
            r.component_id == component_id,
            r.last_change_tick == 0,
            r.change_tick == 0,
    {
        ChangeTrackersFetch { component_id, last_change_tick: 0, change_tick: 0, marker: PhantomData }
    }

}

impl<T> ReadOnlyFetch for ChangeTrackersFetch<T> {}

/// The ticks recorded for `local` in the store of `component_id`, or ticks 0.
pub open spec fn ticks_of<V>(archetype: &Archetype<V>, component_id: ComponentId, local: LocalVersion) -> ComponentTicks {
    if archetype.component_list().contains(component_id)
        && archetype.column_of(component_id).tick_map().contains_key(MultiCaseImpl::<V>::slot_of(local)) {
        archetype.column_of(component_id).tick_map()[MultiCaseImpl::<V>::slot_of(local)]
    } else {
        ComponentTicks { added: 0, changed: 0 }
    }
}

impl<'a, V: 'a, T> Fetch<'a, V> for ChangeTrackersFetch<T> {
    open spec fn ticked(&self, last_change_tick: u32, change_tick: u32) -> Self {
        ChangeTrackersFetch { component_id: self.component_id, last_change_tick, change_tick, marker: self.marker }
    }

    /// Records the ticks of the reading system.
    fn setting(&mut self, last_change_tick: u32, change_tick: u32) {
        self.last_change_tick = last_change_tick;
        self.change_tick = change_tick;
    }

    type Item = ChangeTrackers<T>;

    open spec fn matched(&self, archetype: &Archetype<V>) -> bool {
        archetype.component_list().contains(self.component_id)
    }

    open spec fn item(&self, archetype: &'a Archetype<V>, local: LocalVersion) -> Option<ChangeTrackers<T>> {
        Some(ChangeTrackers {
            component_ticks: ticks_of(archetype, self.component_id, local),
            last_change_tick: self.last_change_tick,
            change_tick: self.change_tick,
            marker: PhantomData,
        })
    }

    fn matches_archetype(&self, archetype: &Archetype<V>) -> (r: bool) {
        archetype.contains(self.component_id)
    }

    fn archetype_fetch(&self, archetype: &'a Archetype<V>, local: LocalVersion) -> (r: Option<ChangeTrackers<T>>) {
        let ticks = match column(archetype, self.component_id) {
            Some(c) => match c.tick(local) {
                Some(t) => *t,
                None => ComponentTicks { added: 0, changed: 0 },
            },
            None => ComponentTicks { added: 0, changed: 0 },
        };
        Some(ChangeTrackers {
            component_ticks: ticks,
            last_change_tick: self.last_change_tick,
            change_tick: self.change_tick,
            marker: PhantomData,
        })
    }

    open spec fn access_ok(&self, archetype: &Archetype<V>, access: Access) -> bool {
        read_ok(archetype, self.component_id, access)
    }

    open spec fn access_update(&self, archetype: &Archetype<V>, a0: Access, a1: Access) -> bool {
        read_added(a0, a1, acid_of(archetype, self.component_id))
    }

    fn update_archetype_component_access(&self, archetype: &Archetype<V>, access: &mut Access) {
        add_component_read(archetype, self.component_id, access);
    }
}

/// Reads the entity itself.
pub struct EntityState;

impl ReadOnlyFetch for EntityState {}

impl<'a, V: 'a> Fetch<'a, V> for EntityState {
    open spec fn ticked(&self, last_change_tick: u32, change_tick: u32) -> Self {
        *self
    }

    /// This fetch does not depend on ticks.
    fn setting(&mut self, last_change_tick: u32, change_tick: u32) {
    }

    type Item = Entity;

    open spec fn matched(&self, archetype: &Archetype<V>) -> bool {
        true
    }

    open spec fn item(&self, archetype: &'a Archetype<V>, local: LocalVersion) -> Option<Entity> {
        Some(Entity { archetype_id: archetype.view_id(), local })
    }

    fn matches_archetype(&self, archetype: &Archetype<V>) -> (r: bool) {
        true
    }

    fn archetype_fetch(&self, archetype: &'a Archetype<V>, local: LocalVersion) -> (r: Option<Entity>) {
        Some(Entity::new(archetype.id(), local))
    }

    open spec fn access_ok(&self, archetype: &Archetype<V>, access: Access) -> bool {
        true
    }

    open spec fn access_update(&self, archetype: &Archetype<V>, a0: Access, a1: Access) -> bool {
        same_access(a0, a1)
    }

    fn update_archetype_component_access(&self, archetype: &Archetype<V>, access: &mut Access) {
    }
}

/// Reads the id of the entity, typed by its archetype `T`.
pub struct IdState<T>(pub PhantomData<T>);

impl<T> ReadOnlyFetch for IdState<T> {}

impl<'a, V: 'a, T> Fetch<'a, V> for IdState<T> {
    open spec fn ticked(&self, last_change_tick: u32, change_tick: u32) -> Self {
        *self
    }

    /// This fetch does not depend on ticks.
    fn setting(&mut self, last_change_tick: u32, change_tick: u32) {
    }

    type Item = Id<T>;

    open spec fn matched(&self, archetype: &Archetype<V>) -> bool {
        true
    }

    open spec fn item(&self, archetype: &'a Archetype<V>, local: LocalVersion) -> Option<Id<T>> {
        Some(Id(local, PhantomData))
    }

    fn matches_archetype(&self, archetype: &Archetype<V>) -> (r: bool) {
        true
    }

    fn archetype_fetch(&self, archetype: &'a Archetype<V>, local: LocalVersion) -> (r: Option<Id<T>>) {
        Some(Id::new(local))
    }

    open spec fn access_ok(&self, archetype: &Archetype<V>, access: Access) -> bool {
        true
    }

    open spec fn access_update(&self, archetype: &Archetype<V>, a0: Access, a1: Access) -> bool {
        same_access(a0, a1)
    }

    fn update_archetype_component_access(&self, archetype: &Archetype<V>, access: &mut Access) {
    }
}

/// A handle on one component of one entity, through which it is read and
/// written at the tick of the query.
pub struct WriteItem<T> {
    pub local: LocalVersion,
    pub component_id: ComponentId,
    pub tick: u32,
    pub marker: PhantomData<T>,
}

impl<T> WriteItem<T> {
    /// The component, if the entity has one.
    pub fn get<'a, V>(&self, archetype: &'a Archetype<V>) -> (r: Option<&'a V>)
        requires
            archetype.wf(),
        ensures
            match r {
                Some(v) => component_of(archetype, self.component_id, self.local) == Some(*v),
                None => component_of(archetype, self.component_id, self.local) is None,
            },
    {
        match column(archetype, self.component_id) {
            Some(c) => c.get(self.local),
            None => None,
        }
    }

    /// Sets the component to `value`, emitting its creation or
    /// modification; returns the value it replaced.
    pub fn write<V>(&self, archetype: &mut Archetype<V>, value: V) -> (r: Option<V>)
        requires
            old(archetype).wf(),
        ensures
            final(archetype).wf(),
            insert_outcome(*old(archetype), *final(archetype), self.local, value, self.component_id, self.tick, r),
    {
        archetype.insert_component(self.local, value, self.component_id, self.tick)
    }

    /// Removes the component, emitting its deletion if there was one;
    /// returns it.
    pub fn remove<V>(&self, archetype: &mut Archetype<V>) -> (r: Option<V>)
        requires
            old(archetype).wf(),
        ensures
            final(archetype).wf(),
            delete_component_outcome(*old(archetype), *final(archetype), self.local, self.component_id, r),
    {
        archetype.delete_component(self.local, self.component_id)
    }

    /// The component if the entity has one, else `default`.
    pub fn get_or_default<'a, V>(&self, archetype: &'a Archetype<V>, default: &'a V) -> (r: &'a V)
        requires
            archetype.wf(),
        ensures
            *r == match component_of(archetype, self.component_id, self.local) {
                Some(v) => v,
                None => *default,
            },
    {
        match self.get(archetype) {
            Some(v) => v,
            None => default,
        }
    }
}

/// Marks a write of a component.
pub struct Write<T>(pub PhantomData<T>);

/// Hands out write handles on a component for the entities of an archetype
/// that has the component type.
pub struct WriteFetch<T> {
    pub component_id: ComponentId,
    pub matchs: bool,
    pub tick: u32,
    pub marker: PhantomData<T>,
}

impl<T> WriteFetch<T> {
    /// Writes component type `component_id`; set the tick and the archetype
    /// before fetching.
    pub fn new(component_id: ComponentId) -> (r: Self)
        ensures
            r.component_id == component_id,
            !r.matchs,
            r.tick == 0,
    {
        WriteFetch { component_id, matchs: false, tick: 0, marker: PhantomData }
    }


    /// Records whether `archetype` has the component type.
    pub fn set_archetype<V>(&mut self, archetype: &Archetype<V>)
        requires
            archetype.wf(),
        ensures
            final(self).component_id == old(self).component_id,
            final(self).tick == old(self).tick,
            final(self).matchs == archetype.component_list().contains(old(self).component_id),
    {
        self.matchs = archetype.contains(self.component_id);
    }
}

impl<'a, V: 'a, T> Fetch<'a, V> for WriteFetch<T> {
    open spec fn ticked(&self, last_change_tick: u32, change_tick: u32) -> Self {
        WriteFetch { component_id: self.component_id, matchs: self.matchs, tick: change_tick, marker: self.marker }
    }

    /// Records the tick at which the handles write: the current one.
    fn setting(&mut self, last_change_tick: u32, change_tick: u32) {
        self.tick = change_tick;
    }

    type Item = WriteItem<T>;

    open spec fn matched(&self, archetype: &Archetype<V>) -> bool {
        archetype.component_list().contains(self.component_id)
    }

    open spec fn item(&self, archetype: &'a Archetype<V>, local: LocalVersion) -> Option<WriteItem<T>> {
        if self.matchs {
            Some(WriteItem { local, component_id: self.component_id, tick: self.tick, marker: PhantomData })
        } else {
            None
        }
    }

    fn matches_archetype(&self, archetype: &Archetype<V>) -> (r: bool) {
        archetype.contains(self.component_id)
    }

    fn archetype_fetch(&self, archetype: &'a Archetype<V>, local: LocalVersion) -> (r: Option<WriteItem<T>>) {
        if self.matchs {
            Some(WriteItem { local, component_id: self.component_id, tick: self.tick, marker: PhantomData })
        } else {
            None
        }
    }

    open spec fn access_ok(&self, archetype: &Archetype<V>, access: Access) -> bool {
        archetype.component_list().contains(self.component_id) ==> {
            &&& acid_of(archetype, self.component_id) < usize::MAX
            &&& !access.rw_set().contains(acid_of(archetype, self.component_id) as usize)
        }
    }

    open spec fn access_update(&self, archetype: &Archetype<V>, a0: Access, a1: Access) -> bool {
        if archetype.component_list().contains(self.component_id) {
            modify_added(a0, a1, acid_of(archetype, self.component_id))
        } else {
            same_access(a0, a1)
        }
    }

    fn update_archetype_component_access(&self, archetype: &Archetype<V>, access: &mut Access) {
        if archetype.contains(self.component_id) {
            let acid = archetype.archetype_component_id(self.component_id);
            access.add_modify(acid.0);
        }
    }
}

/// Hands out write handles on a component for the entities that have it.
pub struct MutFetch<T> {
    pub component_id: ComponentId,
    pub tick: u32,
    pub marker: PhantomData<T>,
}

impl<T> MutFetch<T> {
    /// Writes component type `component_id` at tick `tick`.
    pub fn new(component_id: ComponentId, tick: u32) -> (r: Self)
        ensures
            r.component_id == component_id,
            r.tick == tick,
    {
        MutFetch { component_id, tick, marker: PhantomData }
    }
}

impl<'a, V: 'a, T> Fetch<'a, V> for MutFetch<T> {
    open spec fn ticked(&self, last_change_tick: u32, change_tick: u32) -> Self {
        *self
    }

    /// This fetch does not depend on ticks.
    fn setting(&mut self, last_change_tick: u32, change_tick: u32) {
    }

    type Item = WriteItem<T>;

    open spec fn matched(&self, archetype: &Archetype<V>) -> bool {
        archetype.component_list().contains(self.component_id)
    }

    open spec fn item(&self, archetype: &'a Archetype<V>, local: LocalVersion) -> Option<WriteItem<T>> {
        if component_of(archetype, self.component_id, local) is Some {
            Some(WriteItem { local, component_id: self.component_id, tick: self.tick, marker: PhantomData })
        } else {
            None
        }
    }

    fn matches_archetype(&self, archetype: &Archetype<V>) -> (r: bool) {
        archetype.contains(self.component_id)
    }

    fn archetype_fetch(&self, archetype: &'a Archetype<V>, local: LocalVersion) -> (r: Option<WriteItem<T>>) {
        let present = match column(archetype, self.component_id) {
            Some(c) => c.contains_key(&local),
            None => false,
        };
        if present {
            Some(WriteItem { local, component_id: self.component_id, tick: self.tick, marker: PhantomData })
        } else {
            None
        }
    }

    open spec fn access_ok(&self, archetype: &Archetype<V>, access: Access) -> bool {
        read_ok(archetype, self.component_id, access)
    }

    open spec fn access_update(&self, archetype: &Archetype<V>, a0: Access, a1: Access) -> bool {
        write_added(a0, a1, acid_of(archetype, self.component_id))
    }

    fn update_archetype_component_access(&self, archetype: &Archetype<V>, access: &mut Access) {
        let acid = archetype.archetype_component_id(self.component_id);
        access.add_write(acid.0);
    }
}

impl<'a, V: 'a, A: Fetch<'a, V>, B: Fetch<'a, V>> Fetch<'a, V> for (A, B) {
    open spec fn ticked(&self, last_change_tick: u32, change_tick: u32) -> Self {
        (self.0.ticked(last_change_tick, change_tick), self.1.ticked(last_change_tick, change_tick))
    }

    /// Tells both fetches the ticks.
    fn setting(&mut self, last_change_tick: u32, change_tick: u32) {
        self.0.setting(last_change_tick, change_tick);
        self.1.setting(last_change_tick, change_tick);
    }

    type Item = (A::Item, B::Item);

    open spec fn matched(&self, archetype: &Archetype<V>) -> bool {
        self.0.matched(archetype) && self.1.matched(archetype)
    }

    open spec fn item(&self, archetype: &'a Archetype<V>, local: LocalVersion) -> Option<(A::Item, B::Item)> {
        match (self.0.item(archetype, local), self.1.item(archetype, local)) {
            (Some(a), Some(b)) => Some((a, b)),
            _ => None,
        }
    }

    fn matches_archetype(&self, archetype: &Archetype<V>) -> (r: bool) {
        self.0.matches_archetype(archetype) && self.1.matches_archetype(archetype)
    }

    fn archetype_fetch(&self, archetype: &'a Archetype<V>, local: LocalVersion) -> (r: Option<(A::Item, B::Item)>) {
        let a = match self.0.archetype_fetch(archetype, local) {
            Some(a) => a,
            None => return None,
        };
        let b = match self.1.archetype_fetch(archetype, local) {
            Some(b) => b,
            None => return None,
        };
        Some((a, b))
    }

    open spec fn access_ok(&self, archetype: &Archetype<V>, access: Access) -> bool {
        &&& self.0.access_ok(archetype, access)
        &&& forall|mid: Access| #[trigger] self.0.access_update(archetype, access, mid) && mid.wf()
            ==> self.1.access_ok(archetype, mid)
    }

    open spec fn access_update(&self, archetype: &Archetype<V>, a0: Access, a1: Access) -> bool {
        exists|mid: Access| #[trigger] self.0.access_update(archetype, a0, mid) && mid.wf()
            && self.1.access_update(archetype, mid, a1)
    }

    fn update_archetype_component_access(&self, archetype: &Archetype<V>, access: &mut Access) {
        self.0.update_archetype_component_access(archetype, access);
        let ghost mid = *access;
        self.1.update_archetype_component_access(archetype, access);
        proof {
            assert(self.0.access_update(archetype, *old(access), mid) && mid.wf() && self.1.access_update(archetype, mid, *access));
        }
    }
}

impl<A: ReadOnlyFetch, B: ReadOnlyFetch> ReadOnlyFetch for (A, B) {}

} // verus!

verus! {

/// A component that names another entity, by its key.
pub trait JoinKey {
    /// The key of the entity named.
    spec fn key_of(&self) -> LocalVersion;

    /// The key of the entity named.
    fn key(&self) -> (r: LocalVersion)
        ensures
            r == self.key_of();
}

impl JoinKey for LocalVersion {
    open spec fn key_of(&self) -> LocalVersion {
        *self
    }

    fn key(&self) -> (r: LocalVersion) {
        *self
    }
}

impl<T> JoinKey for Id<T> {
    open spec fn key_of(&self) -> LocalVersion {
        self.0
    }

    fn key(&self) -> (r: LocalVersion) {
        self.0
    }
}

/// Marks a read that follows a component naming an entity of archetype `A`
/// and reads there with `Q`, filtered by `F`.
pub struct Join<C, A, Q, F>(pub PhantomData<(C, A, Q, F)>);

/// Follows the component of a type that names an entity of the target
/// archetype, and reads that entity with `fetch` when it passes `filter`.
pub struct JoinFetch<'t, V, Q, F> {
    component_id: ComponentId,
    target: &'t Archetype<V>,
    fetch: Q,
    filter: F,
}

impl<'t, V, Q, F> JoinFetch<'t, V, Q, F> {
    #[verifier::type_invariant]
    spec fn target_wf(self) -> bool {
        self.target.wf()
    }

    /// The component type followed.
    pub closed spec fn followed(&self) -> ComponentId {
        self.component_id
    }

    /// The target archetype.
    pub closed spec fn target_archetype(&self) -> &'t Archetype<V> {
        self.target
    }

    /// The read on the target archetype.
    pub closed spec fn inner_fetch(&self) -> Q {
        self.fetch
    }

    /// The filter on the target archetype.
    pub closed spec fn inner_filter(&self) -> F {
        self.filter
    }

    /// Follows component type `component_id` into `target`.
    pub fn new(component_id: ComponentId, target: &'t Archetype<V>, fetch: Q, filter: F) -> (r: Self)
        requires
            target.wf(),
        ensures
            r.followed() == component_id,
            r.target_archetype() == target,
            r.inner_fetch() == fetch,
            r.inner_filter() == filter,
    {
        JoinFetch { component_id, target, fetch, filter }
    }
}

impl<'t, V, Q: ReadOnlyFetch, F> ReadOnlyFetch for JoinFetch<'t, V, Q, F> {}

impl<'a, V: JoinKey + 'a, Q: Fetch<'a, V>, F: crate::query::filter::FilterFetch<V>> Fetch<'a, V> for JoinFetch<'a, V, Q, F> {
    open spec fn ticked(&self, last_change_tick: u32, change_tick: u32) -> Self {
        *self
    }

    /// This fetch does not depend on ticks.
    fn setting(&mut self, last_change_tick: u32, change_tick: u32) {
    }

    type Item = Q::Item;

    open spec fn matched(&self, archetype: &Archetype<V>) -> bool {
        &&& archetype.component_list().contains(self.followed())
        &&& self.inner_fetch().matched(self.target_archetype())
        &&& self.inner_filter().matched(self.target_archetype())
    }

    open spec fn item(&self, archetype: &'a Archetype<V>, local: LocalVersion) -> Option<Q::Item> {
        match component_of(archetype, self.followed(), local) {
            Some(c) => if self.inner_filter().passes(self.target_archetype(), c.key_of()) {
                self.inner_fetch().item(self.target_archetype(), c.key_of())
            } else {
                None
            },
            None => None,
        }
    }

    fn matches_archetype(&self, archetype: &Archetype<V>) -> (r: bool) {
        proof {
            use_type_invariant(self);
        }
        archetype.contains(self.component_id) && self.fetch.matches_archetype(self.target)
            && self.filter.matches_archetype(self.target)
    }

    fn archetype_fetch(&self, archetype: &'a Archetype<V>, local: LocalVersion) -> (r: Option<Q::Item>) {
        proof {
            use_type_invariant(self);
        }
        let c = match column(archetype, self.component_id) {
            Some(col) => col.get(local),
            None => None,
        };
        match c {
            Some(c) => {
                let key = c.key();
                if self.filter.archetype_filter_fetch(self.target, key) {
                    self.fetch.archetype_fetch(self.target, key)
                } else {
                    None
                }
            },
            None => None,
        }
    }

    open spec fn access_ok(&self, archetype: &Archetype<V>, access: Access) -> bool {
        &&& read_ok(archetype, self.followed(), access)
        &&& self.target_archetype().entity_access_id().0 < usize::MAX
        &&& forall|a1: Access| #[trigger] read_added(access, a1, acid_of(archetype, self.followed())) && a1.wf()
            ==> self.inner_fetch().access_ok(self.target_archetype(), a1)
        &&& forall|a1: Access, a2: Access| #[trigger] read_added(access, a1, acid_of(archetype, self.followed())) && a1.wf()
            && #[trigger] self.inner_fetch().access_update(self.target_archetype(), a1, a2) && a2.wf()
            ==> self.inner_filter().access_ok(self.target_archetype(), a2)
    }

    open spec fn access_update(&self, archetype: &Archetype<V>, a0: Access, a3: Access) -> bool {
        exists|a1: Access, a2: Access, a4: Access| {
            &&& #[trigger] read_added(a0, a1, acid_of(archetype, self.followed())) && a1.wf()
            &&& #[trigger] self.inner_fetch().access_update(self.target_archetype(), a1, a2) && a2.wf()
            &&& #[trigger] self.inner_filter().access_update(self.target_archetype(), a2, a4) && a4.wf()
            &&& read_added(a4, a3, self.target_archetype().entity_access_id().0 as int)
        }
    }

    fn update_archetype_component_access(&self, archetype: &Archetype<V>, access: &mut Access) {
        proof {
            use_type_invariant(self);
        }
        add_component_read(archetype, self.component_id, access);
        let ghost a1 = *access;
        self.fetch.update_archetype_component_access(self.target, access);
        let ghost a2 = *access;
        self.filter.update_archetype_component_access(self.target, access);
        let ghost a4 = *access;
        access.add_read(self.target.entity_archetype_component_id().0);
        proof {
            assert(read_added(*old(access), a1, acid_of(archetype, self.followed())) && a1.wf());
            assert(self.inner_fetch().access_update(self.target_archetype(), a1, a2) && a2.wf());
            assert(self.inner_filter().access_update(self.target_archetype(), a2, a4) && a4.wf());
        }
    }
}


/// An Option fetch that applies to the archetype records exactly the access
/// of the fetch it wraps, and one that does not records nothing: a query
/// reading an optional component is scheduled as a reader of it wherever the
/// component type exists.
pub proof fn law_option_access<'a, V: 'a, F: Fetch<'a, V>>(o: OptionFetch<F>, archetype: Archetype<V>, a0: Access, a1: Access)
    ensures
        o.matches ==> (<OptionFetch<F> as Fetch<'a, V>>::access_update(&o, &archetype, a0, a1)
            <==> o.fetch.access_update(&archetype, a0, a1)),
        !o.matches ==> (<OptionFetch<F> as Fetch<'a, V>>::access_update(&o, &archetype, a0, a1)
            <==> same_access(a0, a1)),
{
}

/// An Option fetch over a read of component type `cid` that applies to the
/// archetype records the read of that component's archetype component id.
pub proof fn law_option_read_is_recorded<'a, V: 'a, T>(o: OptionFetch<ReadFetch<T>>, archetype: Archetype<V>, a0: Access, a1: Access)
    requires
        o.matches,
        <OptionFetch<ReadFetch<T>> as Fetch<'a, V>>::access_update(&o, &archetype, a0, a1),
    ensures
        a1.rw_set().contains(acid_of(&archetype, o.fetch.component_id) as usize),
        a0.rw_set().subset_of(a1.rw_set()),
{
}

/// A join yields an item for entity `local` only when `local` has the
/// followed component and the entity it names passes the join's filter on
/// the target archetype; then the item is what the join's fetch reads of
/// that entity.
pub proof fn law_join_item<'a, V: JoinKey + 'a, Q: Fetch<'a, V>, F: crate::query::filter::FilterFetch<V>>(
    j: JoinFetch<'a, V, Q, F>, archetype: &'a Archetype<V>, local: LocalVersion)
    ensures
        <JoinFetch<'a, V, Q, F> as Fetch<'a, V>>::item(&j, archetype, local) is Some ==> {
            &&& component_of(archetype, j.followed(), local) is Some
            &&& j.inner_filter().passes(j.target_archetype(), component_of(archetype, j.followed(), local)->0.key_of())
        },
        (component_of(archetype, j.followed(), local) matches Some(c)
            && j.inner_filter().passes(j.target_archetype(), c.key_of()))
            ==> <JoinFetch<'a, V, Q, F> as Fetch<'a, V>>::item(&j, archetype, local)
                == j.inner_fetch().item(j.target_archetype(), component_of(archetype, j.followed(), local)->0.key_of()),
        component_of(archetype, j.followed(), local) is None
            ==> <JoinFetch<'a, V, Q, F> as Fetch<'a, V>>::item(&j, archetype, local) is None,
{
}


/// A read sees the last write: once the component of type `f.component_id`
/// of `local` is written, reading it gives the value written.
pub proof fn law_read_after_write<'a, V: 'a, T>(f: ReadFetch<T>, a0: Archetype<V>, a1: &'a Archetype<V>, local: LocalVersion,
    value: V, tick: u32, r: Option<V>)
    requires
        insert_outcome(a0, *a1, local, value, f.component_id, tick, r),
        a0.component_list().contains(f.component_id),
    ensures
        <ReadFetch<T> as Fetch<'a, V>>::item(&f, a1, local) matches Some(v) && *v == value,
{
    let p = a0.component_list().index_of(f.component_id);
    assert(a1.column_of(f.component_id) == a1.columns()[p]);
}

/// A read of a removed component gives nothing, and the same read with a
/// default gives the default.
pub proof fn law_read_after_delete<'a, V: 'a, T>(f: ReadFetch<T>, d: OrDefaultFetch<'a, T, V>, a0: Archetype<V>, a1: &'a Archetype<V>,
    local: LocalVersion, r: Option<V>)
    requires
        crate::archetype::delete_component_outcome(a0, *a1, local, f.component_id, r),
        a0.component_list().contains(f.component_id),
        d.fetch == f,
        d.matches,
    ensures
        <ReadFetch<T> as Fetch<'a, V>>::item(&f, a1, local) is None,
        <OrDefaultFetch<'a, T, V> as Fetch<'a, V>>::item(&d, a1, local) == d.default,
{
    let p = a0.component_list().index_of(f.component_id);
    assert(a1.column_of(f.component_id) == a1.columns()[p]);
}

/// The ticks a change tracker reads are those of the last write: a new
/// component was added and changed at the tick of the write; a replaced one
/// keeps its added tick and was changed at the tick of the write.
pub proof fn law_trackers_after_write<'a, V: 'a, T>(f: ChangeTrackersFetch<T>, a0: Archetype<V>, a1: &'a Archetype<V>,
    local: LocalVersion, value: V, tick: u32, r: Option<V>)
    requires
        insert_outcome(a0, *a1, local, value, f.component_id, tick, r),
        a0.component_list().contains(f.component_id),
    ensures
        <ChangeTrackersFetch<T> as Fetch<'a, V>>::item(&f, a1, local) matches Some(c) && {
            &&& c.component_ticks.changed == tick
            &&& r is None ==> c.component_ticks.added == tick
            &&& r is Some ==> c.component_ticks.added
                == a0.column_of(f.component_id).tick_map()[MultiCaseImpl::<V>::slot_of(local)].added
            &&& c.last_change_tick == f.last_change_tick
            &&& c.change_tick == f.change_tick
        },
{
    let p = a0.component_list().index_of(f.component_id);
    assert(a1.column_of(f.component_id) == a1.columns()[p]);
    assert(a0.column_of(f.component_id) == a0.columns()[p]);
}

/// The entity fetch names the entity read: the archetype it is read from
/// and its key.
pub proof fn law_entity_item<'a, V: 'a>(archetype: &'a Archetype<V>, local: LocalVersion)
    ensures
        <EntityState as Fetch<'a, V>>::item(&EntityState, archetype, local)
            == Some(Entity { archetype_id: archetype.view_id(), local }),
{
}

/// A pair of fetches yields an item exactly when both do, made of both
/// items.
pub proof fn law_pair_item<'a, V: 'a, A: Fetch<'a, V>, B: Fetch<'a, V>>(x: A, y: B, archetype: &'a Archetype<V>, local: LocalVersion)
    ensures
        <(A, B) as Fetch<'a, V>>::item(&(x, y), archetype, local) is Some
            <==> (x.item(archetype, local) is Some && y.item(archetype, local) is Some),
        <(A, B) as Fetch<'a, V>>::item(&(x, y), archetype, local) matches Some(p)
            ==> Some(p.0) == x.item(archetype, local) && Some(p.1) == y.item(archetype, local),
{
}


/// What each fetch records for scheduling, on an archetype that has its
/// component type (archetype component id `id` below): a read (or a change
/// tracker) adds `id` to what is read or written and nothing to what is
/// written; a write handle adds `id` as read, written and modified; a mutable
/// reference adds `id` as read and written, not modified. Nothing else is
/// added or removed.
pub proof fn law_fetch_access<'a, V: 'a, T>(read: ReadFetch<T>, trackers: ChangeTrackersFetch<T>, write: WriteFetch<T>,
    mutable: MutFetch<T>, archetype: Archetype<V>, a0: Access, a1: Access)
    requires
        read.component_id == trackers.component_id,
        read.component_id == write.component_id,
        read.component_id == mutable.component_id,
        archetype.component_list().contains(read.component_id),
    ensures
        ({
            let id = acid_of(&archetype, read.component_id) as usize;
            &&& <ReadFetch<T> as Fetch<'a, V>>::access_update(&read, &archetype, a0, a1)
                ==> a1.rw_set() == a0.rw_set().insert(id) && a1.w_set() == a0.w_set() && a1.m_set() == a0.m_set()
            &&& <ChangeTrackersFetch<T> as Fetch<'a, V>>::access_update(&trackers, &archetype, a0, a1)
                ==> a1.rw_set() == a0.rw_set().insert(id) && a1.w_set() == a0.w_set() && a1.m_set() == a0.m_set()
            &&& <WriteFetch<T> as Fetch<'a, V>>::access_update(&write, &archetype, a0, a1)
                ==> a1.rw_set() == a0.rw_set().insert(id) && a1.w_set() == a0.w_set().insert(id)
                    && a1.m_set() == a0.m_set().insert(id)
            &&& <MutFetch<T> as Fetch<'a, V>>::access_update(&mutable, &archetype, a0, a1)
                ==> a1.rw_set() == a0.rw_set().insert(id) && a1.w_set() == a0.w_set().insert(id)
                    && a1.m_set() == a0.m_set()
        }),
{
}

} // verus!
