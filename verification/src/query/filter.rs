//! Filters: which entities of an archetype a query visits.
use vstd::prelude::*;
use std::collections::HashMap;
use std::marker::PhantomData;
use crate::archetype::Archetype;
use crate::component::{ComponentId, MultiCaseImpl};
use crate::storage::LocalVersion;
use crate::dispatch::access::Access;
use crate::query::fetch::{acid_of, same_access, read_added, read_ok, add_component_read};

verus! {

broadcast use vstd::std_specs::hash::group_hash_axioms;

/// A filter on the entities of one archetype: whether it applies to the
/// archetype at all, and whether it lets an entity through.
pub trait FilterFetch<V>: Sized {
    /// Whether the filter applies to `archetype`.
    spec fn matched(&self, archetype: &Archetype<V>) -> bool;

    /// Whether entity `local` of `archetype` passes.
    spec fn passes(&self, archetype: &Archetype<V>, local: LocalVersion) -> bool;

    /// Whether the filter applies to `archetype`.
    fn matches_archetype(&self, archetype: &Archetype<V>) -> (r: bool)
        requires
            archetype.wf(),
        ensures
            r == self.matched(archetype);

    /// Whether entity `local` of `archetype` passes.
    fn archetype_filter_fetch(&self, archetype: &Archetype<V>, local: LocalVersion) -> (r: bool)
        requires
            archetype.wf(),
        ensures
            r == self.passes(archetype, local);

    /// Whether the data access of the filter on `archetype` can be added to
    /// `access` without a conflict.
    spec fn access_ok(&self, archetype: &Archetype<V>, access: Access) -> bool;

    /// What adding the data access of the filter on `archetype` does, from
    /// `a0` to `a1`.
    spec fn access_update(&self, archetype: &Archetype<V>, a0: Access, a1: Access) -> bool;

    /// Adds the data access of the filter on `archetype` to `access`.
    fn update_archetype_component_access(&self, archetype: &Archetype<V>, access: &mut Access)
        requires
            archetype.wf(),
            old(access).wf(),
            self.access_ok(archetype, *old(access)),
        ensures
            final(access).wf(),
            self.access_update(archetype, *old(access), *final(access));

    /// The filter once told the ticks of a run: the tick at which the system
    /// last ran and the current one.
    spec fn ticked(&self, last_change_tick: u32, change_tick: u32) -> Self;

    /// Records the ticks of a run.
    fn setting(&mut self, last_change_tick: u32, change_tick: u32)
        ensures
            *final(self) == old(self).ticked(last_change_tick, change_tick);
}

/// Whether `local` has a component of type `component_id` in `archetype`.
pub open spec fn has_component<V>(archetype: &Archetype<V>, component_id: ComponentId, local: LocalVersion) -> bool {
    archetype.component_list().contains(component_id)
        && archetype.column_of(component_id).values().contains_key(local.raw())
}

fn has_component_exec<V>(archetype: &Archetype<V>, component_id: ComponentId, local: LocalVersion) -> (r: bool)
    requires
        archetype.wf(),
    ensures
        r == has_component(archetype, component_id, local),
{
    if archetype.contains(component_id) {
        archetype.get_component(component_id).contains_key(&local)
    } else {
        false
    }
}

/// Marks the entities that have a component of type `T`.
pub struct With<T>(pub PhantomData<T>);

/// Lets through the entities that have a component of the given type; it
/// applies to the archetypes that have the type.
pub struct WithFetch<T> {
    pub component_id: ComponentId,
    pub marker: PhantomData<T>,
}

impl<T> WithFetch<T> {
    /// Filters on component type `component_id`.
    pub fn new(component_id: ComponentId) -> (r: Self)
        ensures
            r.component_id == component_id,
    {
        WithFetch { component_id, marker: PhantomData }
    }
}

impl<V, T> FilterFetch<V> for WithFetch<T> {
    open spec fn ticked(&self, last_change_tick: u32, change_tick: u32) -> Self {
        *self
    }

    /// This filter does not depend on ticks.
    fn setting(&mut self, last_change_tick: u32, change_tick: u32) {
    }

    open spec fn matched(&self, archetype: &Archetype<V>) -> bool {
        archetype.component_list().contains(self.component_id)
    }

    open spec fn passes(&self, archetype: &Archetype<V>, local: LocalVersion) -> bool {
        has_component(archetype, self.component_id, local)
    }

    fn matches_archetype(&self, archetype: &Archetype<V>) -> (r: bool) {
        archetype.contains(self.component_id)
    }

    fn archetype_filter_fetch(&self, archetype: &Archetype<V>, local: LocalVersion) -> (r: bool) {
        has_component_exec(archetype, self.component_id, local)
    }
    open spec fn access_ok(&self, archetype: &Archetype<V>, access: Access) -> bool {
        true
    }

    open spec fn access_update(&self, archetype: &Archetype<V>, a0: Access, a1: Access) -> bool {
        same_access(a0, a1)
    }

    fn update_archetype_component_access(&self, archetype: &Archetype<V>, access: &mut Access) {
    }
}

/// Marks the entities without a component of type `T`.
pub struct WithOut<T>(pub PhantomData<T>);

/// Lets through the entities without a component of the given type; it
/// applies to every archetype, and lets every entity of an archetype without
/// the type through.
pub struct WithOutFetch<T> {
    pub component_id: ComponentId,
    pub not_component: bool,
    pub marker: PhantomData<T>,
}

impl<T> WithOutFetch<T> {
    /// Filters on component type `component_id`; set the archetype before
    /// filtering.
    pub fn new(component_id: ComponentId) -> (r: Self)
        ensures
            r.component_id == component_id,
            r.not_component,
    {
        WithOutFetch { component_id, not_component: true, marker: PhantomData }
    }

    /// Records whether `archetype` lacks the component type.
    pub fn set_archetype<V>(&mut self, archetype: &Archetype<V>)
        requires
            archetype.wf(),
        ensures
            final(self).component_id == old(self).component_id,
            final(self).not_component == !archetype.component_list().contains(old(self).component_id),
    {
        self.not_component = !archetype.contains(self.component_id);
    }
}

impl<V, T> FilterFetch<V> for WithOutFetch<T> {
    open spec fn ticked(&self, last_change_tick: u32, change_tick: u32) -> Self {
        *self
    }

    /// This filter does not depend on ticks.
    fn setting(&mut self, last_change_tick: u32, change_tick: u32) {
    }

    open spec fn matched(&self, archetype: &Archetype<V>) -> bool {
        true
    }

    open spec fn passes(&self, archetype: &Archetype<V>, local: LocalVersion) -> bool {
        self.not_component || !has_component(archetype, self.component_id, local)
    }

    fn matches_archetype(&self, archetype: &Archetype<V>) -> (r: bool) {
        true
    }

    fn archetype_filter_fetch(&self, archetype: &Archetype<V>, local: LocalVersion) -> (r: bool) {
        if self.not_component {
            true
        } else {
            !has_component_exec(archetype, self.component_id, local)
        }
    }
    open spec fn access_ok(&self, archetype: &Archetype<V>, access: Access) -> bool {
        archetype.component_list().contains(self.component_id) ==> read_ok(archetype, self.component_id, access)
    }

    open spec fn access_update(&self, archetype: &Archetype<V>, a0: Access, a1: Access) -> bool {
        if archetype.component_list().contains(self.component_id) {
            read_added(a0, a1, acid_of(archetype, self.component_id))
        } else {
            same_access(a0, a1)
        }
    }

    fn update_archetype_component_access(&self, archetype: &Archetype<V>, access: &mut Access) {
        if archetype.contains(self.component_id) {
            add_component_read(archetype, self.component_id, access);
        }
    }
}

/// No filter: every entity passes.
impl<V> FilterFetch<V> for () {
    open spec fn ticked(&self, last_change_tick: u32, change_tick: u32) -> Self {
        *self
    }

    /// This filter does not depend on ticks.
    fn setting(&mut self, last_change_tick: u32, change_tick: u32) {
    }

    open spec fn matched(&self, archetype: &Archetype<V>) -> bool {
        true
    }

    open spec fn passes(&self, archetype: &Archetype<V>, local: LocalVersion) -> bool {
        true
    }

    fn matches_archetype(&self, archetype: &Archetype<V>) -> (r: bool) {
        true
    }

    fn archetype_filter_fetch(&self, archetype: &Archetype<V>, local: LocalVersion) -> (r: bool) {
        true
    }
    open spec fn access_ok(&self, archetype: &Archetype<V>, access: Access) -> bool {
        true
    }

    open spec fn access_update(&self, archetype: &Archetype<V>, a0: Access, a1: Access) -> bool {
        same_access(a0, a1)
    }

    fn update_archetype_component_access(&self, archetype: &Archetype<V>, access: &mut Access) {
    }
}

/// Both filters: an entity passes when it passes each.
impl<V, A: FilterFetch<V>, B: FilterFetch<V>> FilterFetch<V> for (A, B) {
    open spec fn ticked(&self, last_change_tick: u32, change_tick: u32) -> Self {
        (self.0.ticked(last_change_tick, change_tick), self.1.ticked(last_change_tick, change_tick))
    }

    /// Tells both filters the ticks.
    fn setting(&mut self, last_change_tick: u32, change_tick: u32) {
        self.0.setting(last_change_tick, change_tick);
        self.1.setting(last_change_tick, change_tick);
    }

    open spec fn matched(&self, archetype: &Archetype<V>) -> bool {
        self.0.matched(archetype) && self.1.matched(archetype)
    }

    open spec fn passes(&self, archetype: &Archetype<V>, local: LocalVersion) -> bool {
        self.0.passes(archetype, local) && self.1.passes(archetype, local)
    }

    fn matches_archetype(&self, archetype: &Archetype<V>) -> (r: bool) {
        self.0.matches_archetype(archetype) && self.1.matches_archetype(archetype)
    }

    fn archetype_filter_fetch(&self, archetype: &Archetype<V>, local: LocalVersion) -> (r: bool) {
        self.0.archetype_filter_fetch(archetype, local) && self.1.archetype_filter_fetch(archetype, local)
    }
    open spec fn access_ok(&self, archetype: &Archetype<V>, access: Access) -> bool {
        &&& self.0.access_ok(archetype, access)
        &&& forall|mid: Access| #[trigger] self.0.access_update(archetype, access, mid) && mid.wf()
            ==> self.1.access_ok(archetype, mid)
    }

    open spec fn access_update(&self, archetype: &Archetype<V>, a0: Access, a1: Access) -> bool {
        exists|mid: Access| #[trigger] self.0.access_update(archetype, a0, mid) && mid.wf()
            && self.1.access_update(archetype, mid, a1)
    }

    fn update_archetype_component_access(&self, archetype: &Archetype<V>, access: &mut Access) {
        self.0.update_archetype_component_access(archetype, access);
        let ghost mid = *access;
        self.1.update_archetype_component_access(archetype, access);
        proof {
            assert(self.0.access_update(archetype, *old(access), mid) && mid.wf() && self.1.access_update(archetype, mid, *access));
        }
    }
}

/// Either of several filters.
pub struct Or<T>(pub T);

/// One alternative of an `Or`, with whether it applies to the archetype.
pub struct OrFetch<F> {
    pub fetch: F,
    pub matches: bool,
}

impl<F> OrFetch<F> {
    /// Wraps `fetch`; set the archetype before filtering.
    pub fn new(fetch: F) -> (r: Self)
        ensures
            r.fetch == fetch,
            !r.matches,
    {
        OrFetch { fetch, matches: false }
    }

    /// Records whether the alternative applies to `archetype`.
    pub fn set_archetype<V>(&mut self, archetype: &Archetype<V>)
        where F: FilterFetch<V>,
        requires
            archetype.wf(),
        ensures
            final(self).fetch == old(self).fetch,
            final(self).matches == old(self).fetch.matched(archetype),
    {
        self.matches = self.fetch.matches_archetype(archetype);
    }
}

/// Either of two filters: it applies where one of them applies, and an
/// entity passes when it passes an alternative that applies.
impl<V, A: FilterFetch<V>, B: FilterFetch<V>> FilterFetch<V> for Or<(OrFetch<A>, OrFetch<B>)> {
    open spec fn ticked(&self, last_change_tick: u32, change_tick: u32) -> Self {
        Or((OrFetch { fetch: (self.0).0.fetch.ticked(last_change_tick, change_tick), matches: (self.0).0.matches },
            OrFetch { fetch: (self.0).1.fetch.ticked(last_change_tick, change_tick), matches: (self.0).1.matches }))
    }

    /// Tells both alternatives the ticks.
    fn setting(&mut self, last_change_tick: u32, change_tick: u32) {
        (self.0).0.fetch.setting(last_change_tick, change_tick);
        (self.0).1.fetch.setting(last_change_tick, change_tick);
    }

    open spec fn matched(&self, archetype: &Archetype<V>) -> bool {
        self.0.0.fetch.matched(archetype) || self.0.1.fetch.matched(archetype)
    }

    open spec fn passes(&self, archetype: &Archetype<V>, local: LocalVersion) -> bool {
        (self.0.0.matches && self.0.0.fetch.passes(archetype, local))
            || (self.0.1.matches && self.0.1.fetch.passes(archetype, local))
    }

    fn matches_archetype(&self, archetype: &Archetype<V>) -> (r: bool) {
        self.0.0.fetch.matches_archetype(archetype) || self.0.1.fetch.matches_archetype(archetype)
    }

    fn archetype_filter_fetch(&self, archetype: &Archetype<V>, local: LocalVersion) -> (r: bool) {
        (self.0.0.matches && self.0.0.fetch.archetype_filter_fetch(archetype, local))
            || (self.0.1.matches && self.0.1.fetch.archetype_filter_fetch(archetype, local))
    }
    open spec fn access_ok(&self, archetype: &Archetype<V>, access: Access) -> bool {
        &&& self.0.0.fetch.access_ok(archetype, access)
        &&& forall|mid: Access| #[trigger] self.0.0.fetch.access_update(archetype, access, mid) && mid.wf()
            ==> self.0.1.fetch.access_ok(archetype, mid)
    }

    open spec fn access_update(&self, archetype: &Archetype<V>, a0: Access, a1: Access) -> bool {
        exists|mid: Access| #[trigger] self.0.0.fetch.access_update(archetype, a0, mid) && mid.wf()
            && self.0.1.fetch.access_update(archetype, mid, a1)
    }

    fn update_archetype_component_access(&self, archetype: &Archetype<V>, access: &mut Access) {
        self.0.0.fetch.update_archetype_component_access(archetype, access);
        let ghost mid = *access;
        self.0.1.fetch.update_archetype_component_access(archetype, access);
        proof {
            assert(self.0.0.fetch.access_update(archetype, *old(access), mid) && mid.wf() && self.0.1.fetch.access_update(archetype, mid, *access));
        }
    }
}

/// Marks the entities whose component of type `T` changed since the system
/// last ran.
pub struct Changed<T>(pub PhantomData<T>);

/// Lets through the entities whose component of the given type has ticks,
/// added or changed since the system last ran; it applies to the
/// archetypes that have the type.
pub struct ChangedFetch<T> {
    pub component_id: ComponentId,
    pub last_change_tick: u32,
    pub change_tick: u32,
    pub marker: PhantomData<T>,
}

/// Added components are detected as changed ones are.
pub type AddedFetch<T> = ChangedFetch<T>;

/// Modified components are detected as changed ones are.
pub type ModifyedFetch<T> = ChangedFetch<T>;

impl<T> ChangedFetch<T> {
    /// Filters on component type `component_id`; set the ticks of the system
    /// before filtering.
    pub fn new(component_id: ComponentId) -> (r: Self)
        ensures
            r.component_id == component_id,
            r.last_change_tick == 0,
            r.change_tick == 0,
    {
        ChangedFetch { component_id, last_change_tick: 0, change_tick: 0, marker: PhantomData }
    }
}

impl<V, T> FilterFetch<V> for ChangedFetch<T> {
    open spec fn ticked(&self, last_change_tick: u32, change_tick: u32) -> Self {
        ChangedFetch { component_id: self.component_id, last_change_tick, change_tick, marker: self.marker }
    }

    /// Records the ticks of the system.
    fn setting(&mut self, last_change_tick: u32, change_tick: u32) {
        self.last_change_tick = last_change_tick;
        self.change_tick = change_tick;
    }

    open spec fn matched(&self, archetype: &Archetype<V>) -> bool {
        archetype.component_list().contains(self.component_id)
    }

    open spec fn passes(&self, archetype: &Archetype<V>, local: LocalVersion) -> bool {
        &&& archetype.component_list().contains(self.component_id)
        &&& archetype.column_of(self.component_id).tick_map().contains_key(MultiCaseImpl::<V>::slot_of(local))
        &&& {
            let t = archetype.column_of(self.component_id).tick_map()[MultiCaseImpl::<V>::slot_of(local)];
            crate::component::happened_since(t.changed, self.last_change_tick, self.change_tick)
                || crate::component::happened_since(t.added, self.last_change_tick, self.change_tick)
        }
    }

    fn matches_archetype(&self, archetype: &Archetype<V>) -> (r: bool) {
        archetype.contains(self.component_id)
    }

    fn archetype_filter_fetch(&self, archetype: &Archetype<V>, local: LocalVersion) -> (r: bool) {
        if !archetype.contains(self.component_id) {
            return false;
        }
        match archetype.get_component(self.component_id).tick(local) {
            Some(t) => t.is_changed(self.last_change_tick, self.change_tick) || t.is_added(self.last_change_tick, self.change_tick),
            None => false,
        }
    }
    open spec fn access_ok(&self, archetype: &Archetype<V>, access: Access) -> bool {
        read_ok(archetype, self.component_id, access)
    }

    open spec fn access_update(&self, archetype: &Archetype<V>, a0: Access, a1: Access) -> bool {
        read_added(a0, a1, acid_of(archetype, self.component_id))
    }

    fn update_archetype_component_access(&self, archetype: &Archetype<V>, access: &mut Access) {
        add_component_read(archetype, self.component_id, access);
    }
}

/// For each component type, the tick at which a listener last saw one of
/// its components created or modified, and whether that listener is
/// installed.
pub struct Dirty {
    ticks: HashMap<usize, u32>,
    installed: HashMap<usize, bool>,
}

impl Dirty {
    /// The last tick seen, by component type.
    pub closed spec fn marks(&self) -> Map<usize, u32> {
        self.ticks@
    }

    /// Whether the listener is installed, by component type.
    pub closed spec fn listening(&self) -> Map<usize, bool> {
        self.installed@
    }

    /// Nothing seen, no listener.
    pub fn new() -> (r: Self)
        ensures
            r.marks() == Map::<usize, u32>::empty(),
            r.listening() == Map::<usize, bool>::empty(),
    {
        Dirty { ticks: HashMap::new(), installed: HashMap::new() }
    }

    /// Records that a component of type `component_id` was created or
    /// modified at tick `tick`.
    pub fn mark(&mut self, component_id: ComponentId, tick: u32)
        ensures
            final(self).marks() == old(self).marks().insert(component_id.0, tick),
            final(self).listening() == old(self).listening(),
    {
        self.ticks.insert(component_id.0, tick);
    }

    /// Records that the listener for component type `component_id` is
    /// installed; returns whether it was installed already, in which case a
    /// second one must not be.
    pub fn install(&mut self, component_id: ComponentId) -> (r: bool)
        ensures
            r == (old(self).listening().contains_key(component_id.0) && old(self).listening()[component_id.0]),
            final(self).listening() == old(self).listening().insert(component_id.0, true),
            final(self).marks() == old(self).marks(),
    {
        let was = match self.installed.get(&component_id.0) {
            Some(b) => *b,
            None => false,
        };
        self.installed.insert(component_id.0, true);
        was
    }

    /// The tick last seen for component type `component_id`, if any.
    pub fn get(&self, component_id: ComponentId) -> (r: Option<u32>)
        ensures
            r == (if self.marks().contains_key(component_id.0) { Some(self.marks()[component_id.0]) } else { None::<u32> }),
    {
        match self.ticks.get(&component_id.0) {
            Some(t) => Some(*t),
            None => None,
        }
    }
}

impl<T> ChangedFetch<T> {
    /// Which entities a query filtered on changes of the component type has
    /// to visit: all of them (`None`) when a change was seen after
    /// `last_change_tick`, else none (an empty list).
    pub fn main_fetch(&self, dirty: &Dirty, last_change_tick: u32) -> (r: Option<(Vec<LocalVersion>, Vec<Vec<LocalVersion>>)>)
        ensures
            (r is None) == (dirty.marks().contains_key(self.component_id.0) && dirty.marks()[self.component_id.0] > last_change_tick),
            r matches Some((first, others)) ==> first@.len() == 0 && others@.len() == 0,
    {
        match dirty.get(self.component_id) {
            Some(t) => {
                if t > last_change_tick {
                    None
                } else {
                    Some((Vec::new(), Vec::new()))
                }
            },
            None => Some((Vec::new(), Vec::new())),
        }
    }
}


/// A Changed filter sees writes: once the component of type `f.component_id`
/// of `local` is written at a tick that lies in the window of the run (after
/// the system last ran, up to now), whether it is added or modified, the
/// entity passes. This holds for a modification that keeps the old added
/// tick as much as for a new component.
pub proof fn law_changed_sees_writes<V, T>(f: ChangedFetch<T>, a0: Archetype<V>, a1: Archetype<V>, local: LocalVersion,
    value: V, tick: u32, r: Option<V>)
    requires
        crate::archetype::insert_outcome(a0, a1, local, value, f.component_id, tick, r),
        a0.component_list().contains(f.component_id),
        crate::component::happened_since(tick, f.last_change_tick, f.change_tick),
    ensures
        <ChangedFetch<T> as FilterFetch<V>>::passes(&f, &a1, local),
{
    let p = a0.component_list().index_of(f.component_id);
    assert(a1.component_list() == a0.component_list());
    assert(a1.column_of(f.component_id) == a1.columns()[p]);
}

/// A Changed filter lets an entity through exactly when its component has
/// ticks and either its change tick or its added tick lies in the window of
/// the run; a component neither changed nor added since the system last ran
/// is not let through, and one changed since is, whatever its added tick.
pub proof fn law_changed_window<V, T>(f: ChangedFetch<T>, archetype: Archetype<V>, local: LocalVersion, t: crate::component::ComponentTicks)
    requires
        archetype.component_list().contains(f.component_id),
        archetype.column_of(f.component_id).tick_map().contains_key(MultiCaseImpl::<V>::slot_of(local)),
        archetype.column_of(f.component_id).tick_map()[MultiCaseImpl::<V>::slot_of(local)] == t,
    ensures
        crate::component::happened_since(t.changed, f.last_change_tick, f.change_tick)
            ==> <ChangedFetch<T> as FilterFetch<V>>::passes(&f, &archetype, local),
        crate::component::happened_since(t.added, f.last_change_tick, f.change_tick)
            ==> <ChangedFetch<T> as FilterFetch<V>>::passes(&f, &archetype, local),
        !crate::component::happened_since(t.changed, f.last_change_tick, f.change_tick)
            && !crate::component::happened_since(t.added, f.last_change_tick, f.change_tick)
            ==> !<ChangedFetch<T> as FilterFetch<V>>::passes(&f, &archetype, local),
{
}

/// An Or filter lets an entity through exactly when some alternative that
/// applies to the archetype lets it through: either alternative suffices,
/// and nothing else does.
pub proof fn law_or_passes<V, A: FilterFetch<V>, B: FilterFetch<V>>(x: OrFetch<A>, y: OrFetch<B>,
    archetype: Archetype<V>, local: LocalVersion)
    ensures
        x.matches && x.fetch.passes(&archetype, local)
            ==> <Or<(OrFetch<A>, OrFetch<B>)> as FilterFetch<V>>::passes(&Or((x, y)), &archetype, local),
        y.matches && y.fetch.passes(&archetype, local)
            ==> <Or<(OrFetch<A>, OrFetch<B>)> as FilterFetch<V>>::passes(&Or((x, y)), &archetype, local),
        <Or<(OrFetch<A>, OrFetch<B>)> as FilterFetch<V>>::passes(&Or((x, y)), &archetype, local)
            ==> (x.matches && x.fetch.passes(&archetype, local)) || (y.matches && y.fetch.passes(&archetype, local)),
{
}


/// With and WithOut follow the components: after a write of the component
/// the entity passes With and, on an archetype that has the type, fails
/// WithOut; after its removal, the reverse.
pub proof fn law_with_follows_components<V, T>(w: WithFetch<T>, wo: WithOutFetch<T>, a0: Archetype<V>, a1: Archetype<V>,
    a2: Archetype<V>, local: LocalVersion, value: V, tick: u32, r1: Option<V>, r2: Option<V>)
    requires
        w.component_id == wo.component_id,
        !wo.not_component,
        a0.component_list().contains(w.component_id),
        crate::archetype::insert_outcome(a0, a1, local, value, w.component_id, tick, r1),
        crate::archetype::delete_component_outcome(a1, a2, local, w.component_id, r2),
    ensures
        <WithFetch<T> as FilterFetch<V>>::passes(&w, &a1, local),
        !<WithOutFetch<T> as FilterFetch<V>>::passes(&wo, &a1, local),
        !<WithFetch<T> as FilterFetch<V>>::passes(&w, &a2, local),
        <WithOutFetch<T> as FilterFetch<V>>::passes(&wo, &a2, local),
        r2 == Some(value),
{
    let p = a0.component_list().index_of(w.component_id);
    assert(a1.column_of(w.component_id) == a1.columns()[p]);
    assert(a2.column_of(w.component_id) == a2.columns()[p]);
}

/// WithOut lets every entity through on an archetype that lacks the type.
pub proof fn law_without_on_other_archetypes<V, T>(wo: WithOutFetch<T>, archetype: Archetype<V>, local: LocalVersion)
    requires
        wo.not_component,
    ensures
        <WithOutFetch<T> as FilterFetch<V>>::passes(&wo, &archetype, local),
{
}

/// A pair of filters lets an entity through exactly when both do.
pub proof fn law_pair_passes<V, A: FilterFetch<V>, B: FilterFetch<V>>(x: A, y: B, archetype: Archetype<V>, local: LocalVersion)
    ensures
        <(A, B) as FilterFetch<V>>::passes(&(x, y), &archetype, local)
            <==> (x.passes(&archetype, local) && y.passes(&archetype, local)),
{
}


/// A Changed filter on an archetype that has its component type records a
/// read of that component (and nothing else), so it is scheduled after the
/// writers of the component; With records nothing.
pub proof fn law_filter_access<V, T>(changed: ChangedFetch<T>, with: WithFetch<T>, archetype: Archetype<V>, a0: Access, a1: Access)
    requires
        archetype.component_list().contains(changed.component_id),
    ensures
        <ChangedFetch<T> as FilterFetch<V>>::access_update(&changed, &archetype, a0, a1)
            ==> a1.rw_set() == a0.rw_set().insert(acid_of(&archetype, changed.component_id) as usize)
                && a1.w_set() == a0.w_set() && a1.m_set() == a0.m_set(),
        <WithFetch<T> as FilterFetch<V>>::access_update(&with, &archetype, a0, a1)
            ==> a1.rw_set() == a0.rw_set() && a1.w_set() == a0.w_set() && a1.m_set() == a0.m_set(),
{
}

} // verus!
