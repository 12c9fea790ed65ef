//! Archetypes: the kinds of entities. Each archetype owns its entities and,
//! for each component type registered on it, the store of those components.
//! Component values are all of one type `V` here, a sum of the component
//! types the application uses.
use vstd::prelude::*;
use crate::storage::{Local, LocalVersion};
use crate::entity::{Entity, Entities};
use crate::component::{ComponentId, MultiCaseImpl};

verus! {

/// The id of an archetype.
pub type ArchetypeId = Local;

/// The id of a component type of one archetype (or of a resource, or of the
/// entity list of an archetype): the unit of data-access conflicts.
pub type ArchetypeComponentId = Local;

/// Marks the types that can name an archetype.
pub trait ArchetypeIdent {}

/// The number of archetypes at some moment: archetypes created later have
/// ids from this value on.
#[derive(Debug, Copy, Clone, Eq, PartialEq, Structural)]
pub struct ArchetypeGeneration(pub usize);

impl ArchetypeGeneration {
    pub fn new(generation: usize) -> (r: Self)
        ensures
            r.0 == generation,
    {
        ArchetypeGeneration(generation)
    }

    pub fn value(self) -> (r: usize)
        ensures
            r == self.0,
    {
        self.0
    }
}

/// A component store, seen from the archetype that owns it.
pub trait MultiCase {
    /// Drops the component of `id`, emitting nothing: its entity is gone.
    fn delete(&mut self, id: LocalVersion);
}

impl<V> MultiCase for MultiCaseImpl<V> {
    fn delete(&mut self, id: LocalVersion)
        ensures
            final(self).values() == old(self).values().remove(id.raw()),
            final(self).tick_map() == old(self).tick_map(),
            final(self).events() == old(self).events(),
            final(self).archetype() == old(self).archetype(),
    {
        self.delete_silently(id)
    }
}

/// An archetype: its entities and the stores of its component types.
pub struct Archetype<V> {
    id: ArchetypeId,
    archetype_component_id: ArchetypeComponentId,
    archetype_component_delete_id: ArchetypeComponentId,
    pub(crate) entities: Entities,
    components: Vec<MultiCaseImpl<V>>,
    component_ids: Vec<ComponentId>,
    archetype_component_ids: Vec<ArchetypeComponentId>,
    /// Entities to remove at the next `flush`.
    pub delete_list: Vec<LocalVersion>,
}


/// The raw keys of a sequence of keys.
pub open spec fn raw_keys(s: Seq<LocalVersion>) -> Set<u64> {
    Set::new(|r: u64| exists|i: int| 0 <= i < s.len() && s[i].raw() == r)
}

/// The keys `s` after removing each key of `dl` in turn, as
/// `Entities::remove` does: a key present is replaced by the last one.
pub open spec fn removed_in_order(s: Seq<LocalVersion>, dl: Seq<LocalVersion>) -> Seq<LocalVersion>
    decreases dl.len(),
{
    if dl.len() == 0 {
        s
    } else {
        let s1 = removed_in_order(s, dl.drop_last());
        if s1.contains(dl.last()) {
            crate::entity::swap_removed(s1, s1.index_of(dl.last()))
        } else {
            s1
        }
    }
}

/// Removing the element at `j` of a sequence without duplicates by moving
/// the last element into its place removes exactly that element.
pub proof fn lemma_swap_removed_keys(s: Seq<LocalVersion>, j: int)
    requires
        s.no_duplicates(),
        0 <= j < s.len(),
    ensures
        crate::entity::swap_removed(s, j).no_duplicates(),
        raw_keys(crate::entity::swap_removed(s, j)) == raw_keys(s).remove(s[j].raw()),
{
    let t = crate::entity::swap_removed(s, j);
    assert forall|r: u64| raw_keys(t).contains(r) <==> raw_keys(s).remove(s[j].raw()).contains(r) by {
        if raw_keys(t).contains(r) {
            let i = choose|i: int| 0 <= i < t.len() && t[i].raw() == r;
            if i == j {
                assert(t[i] == s[s.len() - 1]);
                assert(s[s.len() - 1] != s[j]);
            } else {
                assert(t[i] == s[i]);
                assert(s[i] != s[j]);
            }
        }
        if raw_keys(s).remove(s[j].raw()).contains(r) {
            let i = choose|i: int| 0 <= i < s.len() && s[i].raw() == r;
            assert(i != j);
            if i == s.len() - 1 {
                assert(t[j] == s[i]);
            } else {
                assert(t[i] == s[i]);
            }
        }
    }
    assert(raw_keys(t) =~= raw_keys(s).remove(s[j].raw()));
}

/// What `Archetype::insert_component` does, from `a0` to `a1`: the component
/// of type `id` of `local` becomes `value` at tick `tick`, and `r` is the
/// component it replaced.
pub open spec fn insert_outcome<V>(a0: Archetype<V>, a1: Archetype<V>, local: LocalVersion, value: V, id: ComponentId, tick: u32, r: Option<V>) -> bool {
    &&& a1.same_frame(&a0)
    &&& a1.entity_store() == a0.entity_store()
    &&& a1.pending_deletions() == a0.pending_deletions()
    &&& !a0.component_list().contains(id) ==> r is None && a1.columns() == a0.columns()
    &&& a0.component_list().contains(id) ==> {
        let p = a0.component_list().index_of(id);
        let before = a0.columns()[p];
        let after = a1.columns()[p];
        &&& a1.columns() == a0.columns().update(p, after)
        &&& after.values() == before.values().insert(local.raw(), value)
        &&& match r {
            Some(v) => {
                &&& before.values().contains_key(local.raw())
                &&& v == before.values()[local.raw()]
                &&& after.tick_map() == before.tick_map().insert(MultiCaseImpl::<V>::slot_of(local),
                    crate::component::ComponentTicks { added: before.tick_map()[MultiCaseImpl::<V>::slot_of(local)].added, changed: tick })
                &&& after.events() == before.events().push(
                    crate::monitor::modify_of(Entity { archetype_id: a0.view_id(), local }, "", 0))
            },
            None => {
                &&& !before.values().contains_key(local.raw())
                &&& after.tick_map() == before.tick_map().insert(MultiCaseImpl::<V>::slot_of(local),
                    crate::component::ComponentTicks { added: tick, changed: tick })
                &&& after.events() == before.events().push(
                    crate::monitor::create_of(Entity { archetype_id: a0.view_id(), local }))
            },
        }
    }
}

/// What `Archetype::remove_component` does, from `a0` to `a1`: the component
/// of type `id` of `local` is dropped, with no event.
pub open spec fn remove_component_outcome<V>(a0: Archetype<V>, a1: Archetype<V>, local: LocalVersion, id: ComponentId) -> bool {
    &&& a1.same_frame(&a0)
    &&& a1.entity_store() == a0.entity_store()
    &&& a1.pending_deletions() == a0.pending_deletions()
    &&& !a0.component_list().contains(id) ==> a1.columns() == a0.columns()
    &&& a0.component_list().contains(id) ==> {
        let p = a0.component_list().index_of(id);
        let before = a0.columns()[p];
        let after = a1.columns()[p];
        &&& a1.columns() == a0.columns().update(p, after)
        &&& after.values() == before.values().remove(local.raw())
        &&& after.tick_map() == before.tick_map()
        &&& after.events() == before.events()
    }
}

/// What `Archetype::delete_component` does, from `a0` to `a1`: the component
/// of type `id` of `local` is removed and, if there was one, its deletion is
/// emitted; `r` is the removed component.
pub open spec fn delete_component_outcome<V>(a0: Archetype<V>, a1: Archetype<V>, local: LocalVersion, id: ComponentId, r: Option<V>) -> bool {
    &&& a1.same_frame(&a0)
    &&& a1.entity_store() == a0.entity_store()
    &&& a1.pending_deletions() == a0.pending_deletions()
    &&& !a0.component_list().contains(id) ==> r is None && a1.columns() == a0.columns()
    &&& a0.component_list().contains(id) ==> {
        let p = a0.component_list().index_of(id);
        let before = a0.columns()[p];
        let after = a1.columns()[p];
        &&& a1.columns() == a0.columns().update(p, after)
        &&& after.values() == before.values().remove(local.raw())
        &&& after.tick_map() == before.tick_map()
        &&& match r {
            Some(v) => {
                &&& before.values().contains_key(local.raw())
                &&& v == before.values()[local.raw()]
                &&& after.events() == before.events().push(
                    crate::monitor::delete_of(Entity { archetype_id: a0.view_id(), local }))
            },
            None => {
                &&& !before.values().contains_key(local.raw())
                &&& after.events() == before.events()
            },
        }
    }
}

/// What `Archetype::take_entity_events` does, from `a0` to `a1`, returning
/// `r`: the events of the entity list are handed out and forgotten; nothing
/// else changes.
pub open spec fn take_entity_events_outcome<V>(a0: Archetype<V>, a1: Archetype<V>, r: Seq<crate::monitor::Event>) -> bool {
    &&& r == a0.entity_store().events()
    &&& a1.entity_store().events() == Seq::<crate::monitor::Event>::empty()
    &&& a1.entity_store().view() == a0.entity_store().view()
    &&& a1.entity_store().archetype() == a0.entity_store().archetype()
    &&& a1.entity_store().reserved_count() == a0.entity_store().reserved_count()
    &&& a1.entity_store().pending() == a0.entity_store().pending()
    &&& a1.entity_store().next_reservation() == a0.entity_store().next_reservation()
    &&& a1.entity_store().has_room() == a0.entity_store().has_room()
    &&& a1.entity_store().can_reserve() == a0.entity_store().can_reserve()
    &&& a1.same_frame(&a0)
    &&& a1.columns() == a0.columns()
    &&& a1.pending_deletions() == a0.pending_deletions()
}

/// What `Archetype::take_component_events` does, from `a0` to `a1`, returning
/// `r`: the events of the store of component type `id` are handed out and
/// forgotten (none if the type is not registered); nothing else changes.
pub open spec fn take_component_events_outcome<V>(a0: Archetype<V>, a1: Archetype<V>, id: ComponentId, r: Seq<crate::monitor::Event>) -> bool {
    &&& a1.same_frame(&a0)
    &&& a1.entity_store() == a0.entity_store()
    &&& a1.pending_deletions() == a0.pending_deletions()
    &&& !a0.component_list().contains(id) ==> r == Seq::<crate::monitor::Event>::empty() && a1.columns() == a0.columns()
    &&& a0.component_list().contains(id) ==> {
        let p = a0.component_list().index_of(id);
        let before = a0.columns()[p];
        let after = a1.columns()[p];
        &&& a1.columns() == a0.columns().update(p, after)
        &&& r == before.events()
        &&& after.events() == Seq::<crate::monitor::Event>::empty()
        &&& after.values() == before.values()
        &&& after.tick_map() == before.tick_map()
        &&& after.archetype() == before.archetype()
    }
}

/// What `Archetype::remove_entity` does, from `a0` to `a1`: a live `local`
/// leaves the entity list and every store, and its deletion is emitted;
/// anything else changes nothing.
pub open spec fn remove_entity_outcome<V>(a0: Archetype<V>, a1: Archetype<V>, local: LocalVersion) -> bool {
    &&& a1.same_frame(&a0)
    &&& a1.pending_deletions() == a0.pending_deletions()
    &&& a1.entity_store().reserved_count() == 0
    &&& a0.entity_store().view().contains(local) ==> {
        &&& a1.entity_store().view() == crate::entity::swap_removed(a0.entity_store().view(),
            a0.entity_store().view().index_of(local))
        &&& a1.entity_store().events() == a0.entity_store().events().push(
            crate::monitor::delete_of(Entity { archetype_id: a0.view_id(), local }))
        &&& forall|p: int| 0 <= p < a1.columns().len() ==> {
            &&& (#[trigger] a1.columns()[p]).values() == a0.columns()[p].values().remove(local.raw())
            &&& a1.columns()[p].tick_map() == a0.columns()[p].tick_map()
            &&& a1.columns()[p].events() == a0.columns()[p].events()
        }
    }
    &&& !a0.entity_store().view().contains(local) ==> {
        &&& a1.entity_store().view() == a0.entity_store().view()
        &&& a1.entity_store().events() == a0.entity_store().events()
        &&& a1.columns() == a0.columns()
    }
}

/// What `Archetype::register_component_type` does, from `a0` to `a1`: type
/// `id` is added, with archetype component id `acid` and an empty store.
pub open spec fn register_outcome<V>(a0: Archetype<V>, a1: Archetype<V>, id: ComponentId, acid: ArchetypeComponentId) -> bool {
    &&& a1.view_id() == a0.view_id()
    &&& a1.entity_store() == a0.entity_store()
    &&& a1.component_list() == a0.component_list().push(id)
    &&& a1.archetype_component_list() == a0.archetype_component_list().push(acid)
    &&& a1.columns().len() == a0.columns().len() + 1
    &&& forall|p: int| 0 <= p < a0.columns().len() ==> a1.columns()[p] == a0.columns()[p]
    &&& a1.columns().last().values() == Map::<u64, V>::empty()
    &&& a1.columns().last().tick_map() == Map::<usize, crate::component::ComponentTicks>::empty()
    &&& a1.columns().last().events() == Seq::<crate::monitor::Event>::empty()
    &&& a1.entity_access_id() == a0.entity_access_id()
    &&& a1.entity_delete_access_id() == a0.entity_delete_access_id()
    &&& a1.pending_deletions() == a0.pending_deletions()
}

/// What `Archetype::flush_entities` does, from `a0` to `a1`, returning `r`:
/// the reserved keys become live in reservation order, with their creations
/// emitted; the stores are untouched.
pub open spec fn flush_entities_outcome<V>(a0: Archetype<V>, a1: Archetype<V>, r: Seq<LocalVersion>) -> bool {
    &&& a1.same_frame(&a0)
    &&& a1.columns() == a0.columns()
    &&& a1.pending_deletions() == a0.pending_deletions()
    &&& r.len() == a0.entity_store().reserved_count()
    &&& forall|n: int| 0 <= n < r.len() ==> #[trigger] r[n].raw() as nat == a0.entity_store().pending()[n]
    &&& a1.entity_store().view() == a0.entity_store().view() + r
    &&& a1.entity_store().reserved_count() == 0
    &&& a1.entity_store().events() == a0.entity_store().events()
        + r.map_values(|k: LocalVersion| crate::monitor::create_of(Entity { archetype_id: a0.view_id(), local: k }))
}

/// What `Archetype::remove_key` does, from `a0` to `a1`, returning `r`: a
/// live `local` leaves the entity list with its deletion emitted; the stores
/// keep its components.
pub open spec fn remove_key_outcome<V>(a0: Archetype<V>, a1: Archetype<V>, local: LocalVersion, r: Option<()>) -> bool {
    &&& a1.same_frame(&a0)
    &&& a1.columns() == a0.columns()
    &&& a1.pending_deletions() == a0.pending_deletions()
    &&& a1.entity_store().reserved_count() == 0
    &&& (r is Some <==> a0.entity_store().view().contains(local))
    &&& a0.entity_store().view().contains(local) ==> {
        &&& a1.entity_store().view() == crate::entity::swap_removed(a0.entity_store().view(),
            a0.entity_store().view().index_of(local))
        &&& a1.entity_store().events() == a0.entity_store().events().push(
            crate::monitor::delete_of(Entity { archetype_id: a0.view_id(), local }))
    }
    &&& !a0.entity_store().view().contains(local) ==> {
        &&& a1.entity_store().view() == a0.entity_store().view()
        &&& a1.entity_store().events() == a0.entity_store().events()
    }
}

/// What `Archetype::reserve_entity` does, from `a0` to `a1`, returning `r`:
/// the next key is reserved.
pub open spec fn reserve_outcome<V>(a0: Archetype<V>, a1: Archetype<V>, r: LocalVersion) -> bool {
    &&& r.raw() as nat == a0.entity_store().next_reservation()
    &&& a1.entity_store().pending() == a0.entity_store().pending().push(r.raw() as nat)
    &&& a1.entity_store().reserved_count() == a0.entity_store().reserved_count() + 1
    &&& a1.entity_store().view() == a0.entity_store().view()
    &&& a1.entity_store().events() == a0.entity_store().events()
    &&& a1.same_frame(&a0)
    &&& a1.columns() == a0.columns()
    &&& a1.pending_deletions() == a0.pending_deletions()
}

impl<V> Archetype<V> {
    pub closed spec fn wf(&self) -> bool {
        &&& self.entities.wf()
        &&& self.entities.archetype() == self.id
        &&& self.components@.len() == self.component_ids@.len()
        &&& self.archetype_component_ids@.len() == self.component_ids@.len()
        &&& self.component_ids@.no_duplicates()
        &&& forall|p: int| 0 <= p < self.components@.len() ==> (#[trigger] self.components@[p]).archetype() == self.id
        &&& forall|p: int| 0 <= p < self.components@.len() ==> (#[trigger] self.components@[p]).ticks_cover_values()
    }

    pub closed spec fn view_id(&self) -> ArchetypeId {
        self.id
    }

    /// The entity store.
    pub closed spec fn entity_store(&self) -> Entities {
        self.entities
    }

    /// The registered component types, in registration order.
    pub closed spec fn component_list(&self) -> Seq<ComponentId> {
        self.component_ids@
    }

    /// The component stores, in registration order.
    pub closed spec fn columns(&self) -> Seq<MultiCaseImpl<V>> {
        self.components@
    }

    /// The archetype component ids of the registered types, in registration
    /// order.
    pub closed spec fn archetype_component_list(&self) -> Seq<ArchetypeComponentId> {
        self.archetype_component_ids@
    }

    /// Removes entity `local` from the entity list only; see
    /// `Entities::remove`.
    pub fn remove_key(&mut self, local: LocalVersion) -> (r: Option<()>)
        requires
            old(self).wf(),
            old(self).entity_store().reserved_count() == 0,
        ensures
            final(self).wf(),
            remove_key_outcome(*old(self), *final(self), local, r),
    {
        self.entities.remove(local)
    }

    /// Makes the reserved entities live; see `Entities::flush`.
    pub fn flush_entities(&mut self) -> (r: Vec<LocalVersion>)
        requires
            old(self).wf(),
        ensures
            final(self).wf(),
            flush_entities_outcome(*old(self), *final(self), r@),
    {
        self.entities.flush()
    }

    /// The archetype component id of the entity list.
    pub closed spec fn entity_access_id(&self) -> ArchetypeComponentId {
        self.archetype_component_id
    }

    /// The archetype component id of entity deletion.
    pub closed spec fn entity_delete_access_id(&self) -> ArchetypeComponentId {
        self.archetype_component_delete_id
    }

    /// Entities to remove at the next flush.
    pub closed spec fn pending_deletions(&self) -> Seq<LocalVersion> {
        self.delete_list@
    }

    /// The store of component type `cid`; meaningful when it is registered.
    pub open spec fn column_of(&self, cid: ComponentId) -> MultiCaseImpl<V> {
        self.columns()[self.component_list().index_of(cid)]
    }

    /// Everything but the entity store and the stores of components.
    pub open spec fn same_frame(&self, other: &Self) -> bool {
        &&& self.view_id() == other.view_id()
        &&& self.component_list() == other.component_list()
        &&& self.archetype_component_list() == other.archetype_component_list()
        &&& self.entity_access_id() == other.entity_access_id()
        &&& self.entity_delete_access_id() == other.entity_delete_access_id()
        &&& self.columns().len() == other.columns().len()
    }

    /// A new archetype with no entities and no component types: register
    /// component types before use.
    pub fn new(id: ArchetypeId, archetype_component_id: ArchetypeComponentId, archetype_component_delete_id: ArchetypeComponentId) -> (r: Self)
        ensures
            r.wf(),
            r.view_id() == id,
            r.entity_access_id() == archetype_component_id,
            r.entity_delete_access_id() == archetype_component_delete_id,
            r.entity_store().view() == Seq::<LocalVersion>::empty(),
            r.entity_store().reserved_count() == 0,
            r.component_list() == Seq::<ComponentId>::empty(),
            r.pending_deletions() == Seq::<LocalVersion>::empty(),
    {
        Archetype {
            id,
            archetype_component_id,
            archetype_component_delete_id,
            entities: Entities::new(id),
            components: Vec::new(),
            component_ids: Vec::new(),
            archetype_component_ids: Vec::new(),
            delete_list: Vec::new(),
        }
    }

    fn find(&self, cid: ComponentId) -> (r: Option<usize>)
        requires
            self.wf(),
        ensures
            match r {
                Some(p) => p < self.component_list().len() && p as int == self.component_list().index_of(cid)
                    && self.component_list()[p as int] == cid,
                None => !self.component_list().contains(cid),
            },
    {
        let mut p: usize = 0;
        while p < self.component_ids.len()
            invariant
                p <= self.component_ids@.len(),
                self.component_ids@.no_duplicates(),
                forall|q: int| 0 <= q < p ==> self.component_ids@[q] != cid,
            decreases self.component_ids@.len() - p,
        {
            if self.component_ids[p] == cid {
                proof {
                    assert(self.component_ids@.contains(cid));
                    let q = self.component_ids@.index_of(cid);
                    assert(self.component_ids@[q] == cid);
                    assert(q == p as int);
                }
                return Some(p);
            }
            p = p + 1;
        }
        None
    }

    /// Reserves a key for an entity made live by the next flush.
    pub fn reserve_entity(&mut self) -> (r: LocalVersion)
        requires
            old(self).wf(),
            old(self).entity_store().can_reserve(),
        ensures
            final(self).wf(),
            reserve_outcome(*old(self), *final(self), r),
    {
        self.entities.reserve_entity()
    }

    /// The archetype component id of the entity list.
    pub fn entity_archetype_component_id(&self) -> (r: ArchetypeComponentId)
        ensures
            r == self.entity_access_id(),
    {
        self.archetype_component_id
    }

    /// The archetype component id of entity deletion.
    pub fn entity_archetype_component_delete_id(&self) -> (r: ArchetypeComponentId)
        ensures
            r == self.entity_delete_access_id(),
    {
        self.archetype_component_delete_id
    }

    /// Registers component type `id`, with archetype component id
    /// `archetype_component_id`, with an empty store.
    pub fn register_component_type(&mut self, id: ComponentId, archetype_component_id: ArchetypeComponentId)
        requires
            old(self).wf(),
            !old(self).component_list().contains(id),
        ensures
            final(self).wf(),
            register_outcome(*old(self), *final(self), id, archetype_component_id),
    {
        let container = MultiCaseImpl::<V>::with_capacity(0, self.id);
        self.components.push(container);
        self.component_ids.push(id);
        self.archetype_component_ids.push(archetype_component_id);
        proof {
            assert forall|p: int, q: int| 0 <= p < self.component_ids@.len() && 0 <= q < self.component_ids@.len() && p != q
                implies self.component_ids@[p] != self.component_ids@[q] by {
                if p < old(self).component_ids@.len() && q < old(self).component_ids@.len() {
                } else if p == old(self).component_ids@.len() {
                    assert(old(self).component_ids@[q] == self.component_ids@[q]);
                } else {
                    assert(old(self).component_ids@[p] == self.component_ids@[p]);
                }
            }
            assert forall|p: int| 0 <= p < self.components@.len() implies (#[trigger] self.components@[p]).archetype() == self.id
                && self.components@[p].ticks_cover_values() by {
                if p < old(self).components@.len() {
                    assert(self.components@[p] == old(self).components@[p]);
                }
            }
        }
    }

    /// Makes a new entity live; see `Entities::insert`.
    pub fn create_entity(&mut self) -> (r: Entity)
        requires
            old(self).wf(),
            old(self).entity_store().has_room(),
            old(self).entity_store().reserved_count() == 0,
        ensures
            final(self).wf(),
            r.archetype_id == old(self).view_id(),
            !old(self).entity_store().view().contains(r.local),
            final(self).entity_store().view() == old(self).entity_store().view().push(r.local),
            final(self).entity_store().reserved_count() == 0,
            final(self).entity_store().events() == old(self).entity_store().events().push(
                crate::monitor::create_of(r)),
            final(self).same_frame(old(self)),
            final(self).columns() == old(self).columns(),
            final(self).pending_deletions() == old(self).pending_deletions(),
    {
        let local = self.entities.insert();
        Entity::new(self.id, local)
    }

    /// Removes the entity `local` if it is live, together with all its
    /// components. Its deletion is emitted; the deletion of its components is
    /// not.
    pub fn remove_entity(&mut self, local: LocalVersion)
        requires
            old(self).wf(),
            old(self).entity_store().reserved_count() == 0,
        ensures
            final(self).wf(),
            remove_entity_outcome(*old(self), *final(self), local),
    {
        let removed = self.entities.remove(local);
        let ghost ents = self.entities;
        if removed.is_some() {
            let mut p: usize = 0;
            let n = self.component_ids.len();
            while p < n
                invariant
                    self.entities == ents,
                    n == self.components@.len(),
                    self.components@.len() == old(self).components@.len(),
                    self.component_ids == old(self).component_ids,
                    self.archetype_component_ids == old(self).archetype_component_ids,
                    self.id == old(self).id,
                    self.archetype_component_id == old(self).archetype_component_id,
                    self.archetype_component_delete_id == old(self).archetype_component_delete_id,
                    self.delete_list == old(self).delete_list,
                    0 <= p <= n,
                    forall|q: int| 0 <= q < p ==> {
                        &&& (#[trigger] self.components@[q]).values() == old(self).components@[q].values().remove(local.raw())
                        &&& self.components@[q].tick_map() == old(self).components@[q].tick_map()
                        &&& self.components@[q].events() == old(self).components@[q].events()
                        &&& self.components@[q].archetype() == old(self).components@[q].archetype()
                    },
                    forall|q: int| p <= q < n ==> self.components@[q] == old(self).components@[q],
                decreases n - p,
            {
                self.components[p].delete_silently(local);
                p = p + 1;
            }
        }
    }

    /// Schedules the removal of the entity `local` at the next flush.
    pub fn will_remove_entity(&mut self, local: LocalVersion)
        requires
            old(self).wf(),
        ensures
            final(self).wf(),
            final(self).pending_deletions() == old(self).pending_deletions().push(local),
            final(self).entity_store() == old(self).entity_store(),
            final(self).columns() == old(self).columns(),
            final(self).same_frame(old(self)),
    {
        self.delete_list.push(local);
    }

    /// Makes the reserved entities live, then removes every entity scheduled
    /// for removal, with its components. The list of scheduled removals is
    /// kept as it is.
    pub fn flush(&mut self)
        requires
            old(self).wf(),
        ensures
            final(self).wf(),
            final(self).same_frame(old(self)),
            final(self).pending_deletions() == old(self).pending_deletions(),
            final(self).entity_store().reserved_count() == 0,
            exists|flushed: Seq<LocalVersion>| {
                &&& flushed.len() == old(self).entity_store().reserved_count()
                &&& forall|n: int| 0 <= n < flushed.len() ==> #[trigger] flushed[n].raw() as nat == old(self).entity_store().pending()[n]
                &&& final(self).entity_store().view() == removed_in_order(old(self).entity_store().view() + flushed,
                    old(self).pending_deletions())
                &&& raw_keys(final(self).entity_store().view()) == raw_keys(old(self).entity_store().view() + flushed).difference(
                    raw_keys(old(self).pending_deletions()))
                &&& forall|p: int| 0 <= p < final(self).columns().len() ==> {
                    &&& (#[trigger] final(self).columns()[p]).values() == old(self).columns()[p].values().remove_keys(
                        raw_keys(old(self).pending_deletions()).intersect(raw_keys(old(self).entity_store().view() + flushed)))
                    &&& final(self).columns()[p].tick_map() == old(self).columns()[p].tick_map()
                    &&& final(self).columns()[p].events() == old(self).columns()[p].events()
                }
            },
    {
        let flushed = self.entities.flush();
        let ghost live0 = self.entities.view();
        let ghost cols0 = self.components@;
        let n = self.delete_list.len();
        let mut i: usize = 0;
        proof {
            assert(self.delete_list@.subrange(0, 0) =~= Seq::<LocalVersion>::empty());
            assert(raw_keys(self.delete_list@.subrange(0, 0)) =~= Set::<u64>::empty());
            assert(raw_keys(live0).difference(Set::<u64>::empty()) =~= raw_keys(live0));
            assert forall|p: int| 0 <= p < self.components@.len() implies
                (#[trigger] self.components@[p]).values() == cols0[p].values().remove_keys(
                    Set::<u64>::empty().intersect(raw_keys(live0))) by {
                assert(cols0[p].values().remove_keys(Set::<u64>::empty().intersect(raw_keys(live0))) =~= cols0[p].values());
            }
        }
        while i < n
            invariant
                self.wf(),
                n == self.delete_list@.len(),
                0 <= i <= n,
                self.delete_list@ == old(self).delete_list@,
                self.id == old(self).id,
                self.component_ids@ == old(self).component_ids@,
                self.archetype_component_ids@ == old(self).archetype_component_ids@,
                self.archetype_component_id == old(self).archetype_component_id,
                self.archetype_component_delete_id == old(self).archetype_component_delete_id,
                self.components@.len() == cols0.len(),
                self.entities.reserved_count() == 0,
                raw_keys(self.entities.view()) == raw_keys(live0).difference(raw_keys(self.delete_list@.subrange(0, i as int))),
                self.entities.view() == removed_in_order(live0, self.delete_list@.subrange(0, i as int)),
                forall|p: int| 0 <= p < self.components@.len() ==> {
                    &&& (#[trigger] self.components@[p]).values() == cols0[p].values().remove_keys(
                        raw_keys(self.delete_list@.subrange(0, i as int)).intersect(raw_keys(live0)))
                    &&& self.components@[p].tick_map() == cols0[p].tick_map()
                    &&& self.components@[p].events() == cols0[p].events()
                },
            decreases n - i,
        {
            let local = self.delete_list[i];
            let ghost before = *self;
            proof {
                self.entities.lemma_keys_distinct();
                assert(self.delete_list@.subrange(0, i as int + 1) =~= self.delete_list@.subrange(0, i as int).push(local));
                assert(raw_keys(self.delete_list@.subrange(0, i as int).push(local)) =~= raw_keys(self.delete_list@.subrange(0, i as int)).insert(local.raw())) by {
                    let a = self.delete_list@.subrange(0, i as int);
                    assert forall|r: u64| raw_keys(a.push(local)).contains(r) <==> raw_keys(a).insert(local.raw()).contains(r) by {
                        if raw_keys(a.push(local)).contains(r) {
                            let j = choose|j: int| 0 <= j < a.push(local).len() && a.push(local)[j].raw() == r;
                            if j < a.len() {
                                assert(a[j].raw() == r);
                            }
                        }
                        if raw_keys(a).contains(r) {
                            let j = choose|j: int| 0 <= j < a.len() && a[j].raw() == r;
                            assert(a.push(local)[j] == a[j]);
                        }
                        if r == local.raw() {
                            assert(a.push(local)[a.len() as int] == local);
                        }
                    }
                }
                assert(self.entities.view().contains(local) <==> raw_keys(self.entities.view()).contains(local.raw())) by {
                    if raw_keys(self.entities.view()).contains(local.raw()) {
                        let j = choose|j: int| 0 <= j < self.entities.view().len() && self.entities.view()[j].raw() == local.raw();
                        assert(self.entities.view()[j] == local);
                    }
                    if self.entities.view().contains(local) {
                        let j = choose|j: int| 0 <= j < self.entities.view().len() && self.entities.view()[j] == local;
                        assert(self.entities.view()[j].raw() == local.raw());
                    }
                }
            }
            self.remove_entity(local);
            proof {
                let sub1 = before.delete_list@.subrange(0, i as int + 1);
                assert(sub1.drop_last() =~= before.delete_list@.subrange(0, i as int));
                assert(sub1.last() == local);
                let prev = raw_keys(before.delete_list@.subrange(0, i as int));
                let next = raw_keys(before.delete_list@.subrange(0, i as int + 1));
                assert(next == prev.insert(local.raw()));
                if before.entities.view().contains(local) {
                    let j = before.entities.view().index_of(local);
                    lemma_swap_removed_keys(before.entities.view(), j);
                    assert(raw_keys(self.entities.view()) =~= raw_keys(live0).difference(next));
                    assert(raw_keys(live0).contains(local.raw()));
                    assert forall|p: int| 0 <= p < self.components@.len() implies
                        (#[trigger] self.components@[p]).values() == cols0[p].values().remove_keys(next.intersect(raw_keys(live0))) by {
                        assert(self.components@[p].values() == before.components@[p].values().remove(local.raw()));
                        assert(cols0[p].values().remove_keys(prev.intersect(raw_keys(live0))).remove(local.raw())
                            =~= cols0[p].values().remove_keys(next.intersect(raw_keys(live0))));
                    }
                } else {
                    assert(raw_keys(self.entities.view()) =~= raw_keys(live0).difference(next));
                    assert(!raw_keys(live0).contains(local.raw()) || prev.contains(local.raw()));
                    assert forall|p: int| 0 <= p < self.components@.len() implies
                        (#[trigger] self.components@[p]).values() == cols0[p].values().remove_keys(next.intersect(raw_keys(live0))) by {
                        assert(next.intersect(raw_keys(live0)) =~= prev.intersect(raw_keys(live0)));
                    }
                }
            }
            i = i + 1;
        }
        proof {
            assert(self.delete_list@.subrange(0, n as int) =~= self.delete_list@);
        }
    }


    /// Sets the component of type `id` of entity `local` (which need not be
    /// live); returns the replaced component. Does nothing and returns `None`
    /// if the type is not registered here.
    pub fn insert_component(&mut self, local: LocalVersion, value: V, id: ComponentId, tick: u32) -> (r: Option<V>)
        requires
            old(self).wf(),
        ensures
            final(self).wf(),
            insert_outcome(*old(self), *final(self), local, value, id, tick, r),
    {
        match self.find(id) {
            None => None,
            Some(p) => {
                proof {
                    assert(self.components@[p as int].ticks_cover_values());
                    if self.components@[p as int].values().contains_key(local.raw()) {
                        assert(self.components@[p as int].tick_map().contains_key(LocalVersion::index_of(local.raw()) as usize));
                    }
                }
                let r = self.components[p].insert(local, value, tick);
                proof {
                    assert forall|q: int| 0 <= q < self.components@.len() implies (#[trigger] self.components@[q]).archetype() == self.id
                        && self.components@[q].ticks_cover_values() by {
                        if q != p as int {
                            assert(self.components@[q] == old(self).components@[q]);
                        } else {
                            let c = self.components@[q];
                            assert forall|k: u64| #[trigger] c.values().contains_key(k) implies c.tick_map().contains_key(LocalVersion::index_of(k) as usize) by {
                                if k != local.raw() {
                                    assert(old(self).components@[q].values().contains_key(k));
                                }
                            }
                        }
                    }
                    assert(self.components@ == old(self).components@.update(p as int, self.components@[p as int]));
                }
                r
            },
        }
    }

    /// Drops the component of type `id` of entity `local`, emitting nothing.
    /// Does nothing if the type is not registered here.
    pub fn remove_component(&mut self, local: LocalVersion, id: ComponentId)
        requires
            old(self).wf(),
        ensures
            final(self).wf(),
            remove_component_outcome(*old(self), *final(self), local, id),
    {
        match self.find(id) {
            None => {},
            Some(p) => {
                self.components[p].delete_silently(local);
                proof {
                    assert forall|q: int| 0 <= q < self.components@.len() implies (#[trigger] self.components@[q]).archetype() == self.id
                        && self.components@[q].ticks_cover_values() by {
                        if q != p as int {
                            assert(self.components@[q] == old(self).components@[q]);
                        } else {
                            let c = self.components@[q];
                            assert forall|k: u64| #[trigger] c.values().contains_key(k) implies c.tick_map().contains_key(LocalVersion::index_of(k) as usize) by {
                                assert(old(self).components@[q].values().contains_key(k));
                            }
                        }
                    }
                    assert(self.components@ == old(self).components@.update(p as int, self.components@[p as int]));
                }
            },
        }
    }

    /// Removes the component of type `id` of entity `local`, emitting its
    /// deletion if it had one; returns it. Does nothing and returns `None` if
    /// the type is not registered here.
    pub fn delete_component(&mut self, local: LocalVersion, id: ComponentId) -> (r: Option<V>)
        requires
            old(self).wf(),
        ensures
            final(self).wf(),
            delete_component_outcome(*old(self), *final(self), local, id, r),
    {
        match self.find(id) {
            None => None,
            Some(p) => {
                let r = self.components[p].delete(local);
                proof {
                    assert forall|q: int| 0 <= q < self.components@.len() implies (#[trigger] self.components@[q]).archetype() == self.id
                        && self.components@[q].ticks_cover_values() by {
                        if q != p as int {
                            assert(self.components@[q] == old(self).components@[q]);
                        } else {
                            let c = self.components@[q];
                            assert forall|k: u64| #[trigger] c.values().contains_key(k) implies c.tick_map().contains_key(LocalVersion::index_of(k) as usize) by {
                                assert(old(self).components@[q].values().contains_key(k));
                            }
                        }
                    }
                    assert(self.components@ == old(self).components@.update(p as int, self.components@[p as int]));
                }
                r
            },
        }
    }

    /// Hands out the creation and deletion events of the entities, oldest
    /// first, and forgets them.
    pub fn take_entity_events(&mut self) -> (r: Vec<crate::monitor::Event>)
        requires
            old(self).wf(),
        ensures
            final(self).wf(),
            take_entity_events_outcome(*old(self), *final(self), r@),
    {
        self.entities.take_events()
    }

    /// Hands out the events of the store of component type `id`, oldest
    /// first, and forgets them; none if the type is not registered here.
    pub fn take_component_events(&mut self, id: ComponentId) -> (r: Vec<crate::monitor::Event>)
        requires
            old(self).wf(),
        ensures
            final(self).wf(),
            take_component_events_outcome(*old(self), *final(self), id, r@),
    {
        match self.find(id) {
            None => Vec::new(),
            Some(p) => {
                let r = self.components[p].take_events();
                proof {
                    assert forall|q: int| 0 <= q < self.components@.len() implies (#[trigger] self.components@[q]).archetype() == self.id
                        && self.components@[q].ticks_cover_values() by {
                        if q != p as int {
                            assert(self.components@[q] == old(self).components@[q]);
                        } else {
                            let c = self.components@[q];
                            assert forall|k: u64| #[trigger] c.values().contains_key(k) implies c.tick_map().contains_key(LocalVersion::index_of(k) as usize) by {
                                assert(old(self).components@[q].values().contains_key(k));
                            }
                        }
                    }
                    assert(self.components@ == old(self).components@.update(p as int, self.components@[p as int]));
                }
                r
            },
        }
    }

    /// The id of this archetype.
    pub fn id(&self) -> (r: ArchetypeId)
        ensures
            r == self.view_id(),
    {
        self.id
    }

    /// The number of live entities.
    pub fn len(&self) -> (r: usize)
        requires
            self.wf(),
        ensures
            r == self.entity_store().view().len(),
    {
        self.entities.len()
    }

    /// Whether no entity is live.
    pub fn is_empty(&self) -> (r: bool)
        requires
            self.wf(),
        ensures
            r == (self.entity_store().view().len() == 0),
    {
        self.entities.is_empty()
    }

    /// The entity store.
    pub fn entities(&self) -> (r: &Entities)
        ensures
            *r == self.entity_store(),
    {
        &self.entities
    }

    /// The registered component types, in registration order.
    pub fn component_ids(&self) -> (r: &Vec<ComponentId>)
        ensures
            r@ == self.component_list(),
    {
        &self.component_ids
    }

    /// Whether component type `component_id` is registered here.
    pub fn contains(&self, component_id: ComponentId) -> (r: bool)
        requires
            self.wf(),
        ensures
            r == self.component_list().contains(component_id),
    {
        self.find(component_id).is_some()
    }

    /// The archetype component id of the registered type `component_id`.
    pub fn archetype_component_id(&self, component_id: ComponentId) -> (r: ArchetypeComponentId)
        requires
            self.wf(),
            self.component_list().contains(component_id),
        ensures
            r == self.archetype_component_list()[self.component_list().index_of(component_id)],
    {
        let p = self.find(component_id).unwrap();
        self.archetype_component_ids[p]
    }

    /// The store of the registered type `id`.
    pub fn get_component(&self, id: ComponentId) -> (r: &MultiCaseImpl<V>)
        requires
            self.wf(),
            self.component_list().contains(id),
        ensures
            *r == self.column_of(id),
    {
        let p = self.find(id).unwrap();
        &self.components[p]
    }

}
} // verus!

verus! {

use std::collections::HashMap;

/// What an archetype component id stands for: the name of a type, and
/// whether it is the deletion of the entities of that archetype.
#[derive(Clone, Copy, Debug)]
pub struct ArchetypeComponentInfo {
    pub name: &'static str,
    pub is_delete: bool,
}

/// All archetypes, with the registry of archetype component ids.
/// Archetype `i` has id `i`; archetype component ids are handed out from 1,
/// in order.
pub struct Archetypes<V> {
    pub(crate) archetypes: Vec<Archetype<V>>,
    archetype_ids: HashMap<u64, ArchetypeId>,
    pub(crate) archetype_component_info: Vec<ArchetypeComponentInfo>,
    archetype_resource_indices: HashMap<u64, ArchetypeComponentId>,
}

/// What `Archetypes::get_or_create_archetype` does, from `a0` to `a1`,
/// returning `r`: the archetype of type key `type_key` is the one there was,
/// or a new one appended with the next id, two new archetype component ids
/// and no entity and no component type.
pub open spec fn get_or_create_outcome<V>(a0: Archetypes<V>, a1: Archetypes<V>, type_key: u64, name: &'static str, r: ArchetypeId) -> bool {
    &&& a1.ident_map().contains_key(type_key)
    &&& a1.ident_map()[type_key] == r
    &&& (r.0 as int) < a1.view().len()
    &&& a0.ident_map().contains_key(type_key) ==> {
        &&& r == a0.ident_map()[type_key]
        &&& a1.view() == a0.view()
        &&& a1.ident_map() == a0.ident_map()
        &&& a1.access_infos() == a0.access_infos()
    }
    &&& !a0.ident_map().contains_key(type_key) ==> {
        &&& r.0 == a0.view().len()
        &&& a1.view().len() == a0.view().len() + 1
        &&& forall|i: int| 0 <= i < a0.view().len() ==> a1.view()[i] == a0.view()[i]
        &&& a1.view()[r.0 as int].entity_store().view() == Seq::<LocalVersion>::empty()
        &&& a1.view()[r.0 as int].entity_store().reserved_count() == 0
        &&& a1.view()[r.0 as int].entity_access_id().0 == a0.access_infos().len() + 1
        &&& a1.view()[r.0 as int].entity_delete_access_id().0 == a0.access_infos().len() + 2
        &&& a1.view()[r.0 as int].component_list() == Seq::<ComponentId>::empty()
        &&& a1.ident_map() == a0.ident_map().insert(type_key, r)
        &&& a1.access_infos() == a0.access_infos()
            .push(ArchetypeComponentInfo { name, is_delete: false })
            .push(ArchetypeComponentInfo { name, is_delete: true })
    }
    &&& a1.resource_access_map() == a0.resource_access_map()
}

/// Getting or creating the archetype of a type key a second time gives the
/// same archetype and changes nothing.
pub proof fn law_get_or_create_again<V>(a0: Archetypes<V>, a1: Archetypes<V>, a2: Archetypes<V>, type_key: u64, name: &'static str,
    r1: ArchetypeId, r2: ArchetypeId)
    requires
        get_or_create_outcome(a0, a1, type_key, name, r1),
        get_or_create_outcome(a1, a2, type_key, name, r2),
    ensures
        r2 == r1,
        a2.view() == a1.view(),
        a2.ident_map() == a1.ident_map(),
        a2.access_infos() == a1.access_infos(),
{
}

impl<V> Archetypes<V> {
    /// The archetypes, by id.
    pub closed spec fn view(&self) -> Seq<Archetype<V>> {
        self.archetypes@
    }

    /// Archetype type keys and their ids.
    pub closed spec fn ident_map(&self) -> Map<u64, ArchetypeId> {
        self.archetype_ids@
    }

    /// Resource type keys and their archetype component ids.
    pub closed spec fn resource_access_map(&self) -> Map<u64, ArchetypeComponentId> {
        self.archetype_resource_indices@
    }

    /// What each archetype component id stands for; id `i` is at `i - 1`.
    pub closed spec fn access_infos(&self) -> Seq<ArchetypeComponentInfo> {
        self.archetype_component_info@
    }

    pub closed spec fn wf(&self) -> bool {
        &&& forall|i: int| 0 <= i < self.archetypes@.len() ==> (#[trigger] self.archetypes@[i]).wf()
        &&& forall|i: int| 0 <= i < self.archetypes@.len() ==> (#[trigger] self.archetypes@[i]).view_id().0 == i
        &&& forall|k: u64| #[trigger] self.archetype_ids@.contains_key(k) ==> (self.archetype_ids@[k].0 as int) < self.archetypes@.len()
        &&& forall|k1: u64, k2: u64| #[trigger] self.archetype_ids@.contains_key(k1) && #[trigger] self.archetype_ids@.contains_key(k2)
            && k1 != k2 ==> self.archetype_ids@[k1] != self.archetype_ids@[k2]
    }

    /// No archetype, no archetype component id.
    pub fn new() -> (r: Self)
        ensures
            r.wf(),
            r.view() == Seq::<Archetype<V>>::empty(),
            r.ident_map() == Map::<u64, ArchetypeId>::empty(),
            r.resource_access_map() == Map::<u64, ArchetypeComponentId>::empty(),
            r.access_infos() == Seq::<ArchetypeComponentInfo>::empty(),
    {
        Archetypes {
            archetypes: Vec::new(),
            archetype_ids: HashMap::new(),
            archetype_component_info: Vec::new(),
            archetype_resource_indices: HashMap::new(),
        }
    }

    /// Hands out the next archetype component id, recording what it stands
    /// for.
    pub fn archetype_component_grow(&mut self, info: ArchetypeComponentInfo) -> (r: usize)
        requires
            old(self).access_infos().len() < usize::MAX,
        ensures
            final(self).access_infos() == old(self).access_infos().push(info),
            r == final(self).access_infos().len(),
            final(self).view() == old(self).view(),
            final(self).ident_map() == old(self).ident_map(),
            final(self).resource_access_map() == old(self).resource_access_map(),
    {
        self.archetype_component_info.push(info);
        self.archetype_component_info.len()
    }

    /// Builds the archetype for type key `type_key` (named `name`) with the
    /// next archetype id and two fresh archetype component ids (its entity
    /// list, then entity deletion); it still has to be added.
    fn create_archetype_by_ident(&mut self, type_key: u64, name: &'static str) -> (r: Archetype<V>)
        requires
            old(self).wf(),
            !old(self).ident_map().contains_key(type_key),
            old(self).access_infos().len() + 2 < usize::MAX,
        ensures
            final(self).wf(),
            r.wf(),
            r.view_id().0 == old(self).view().len(),
            r.entity_access_id().0 == old(self).access_infos().len() + 1,
            r.entity_delete_access_id().0 == old(self).access_infos().len() + 2,
            r.entity_store().view() == Seq::<LocalVersion>::empty(),
            r.entity_store().reserved_count() == 0,
            r.component_list() == Seq::<ComponentId>::empty(),
            final(self).access_infos() == old(self).access_infos()
                .push(ArchetypeComponentInfo { name, is_delete: false })
                .push(ArchetypeComponentInfo { name, is_delete: true }),
            final(self).view() == old(self).view(),
            final(self).ident_map() == old(self).ident_map(),
            final(self).resource_access_map() == old(self).resource_access_map(),
    {
        let id = ArchetypeId::new(self.archetypes.len());
        let a = self.archetype_component_grow(ArchetypeComponentInfo { name, is_delete: false });
        let d = self.archetype_component_grow(ArchetypeComponentInfo { name, is_delete: true });
        Archetype::new(id, Local::new(a), Local::new(d))
    }

    /// Adds `archetype`, built for the type key `type_key`.
    pub(crate) fn add_archetype(&mut self, archetype: Archetype<V>, type_key: u64)
        requires
            old(self).wf(),
            archetype.wf(),
            archetype.view_id().0 == old(self).view().len(),
            !old(self).ident_map().contains_key(type_key),
        ensures
            final(self).wf(),
            final(self).view() == old(self).view().push(archetype),
            final(self).ident_map() == old(self).ident_map().insert(type_key, archetype.view_id()),
            final(self).access_infos() == old(self).access_infos(),
            final(self).resource_access_map() == old(self).resource_access_map(),
    {
        let id = archetype.id();
        self.archetype_ids.insert(type_key, id);
        self.archetypes.push(archetype);
        proof {
            assert forall|i: int| 0 <= i < self.archetypes@.len() implies (#[trigger] self.archetypes@[i]).wf()
                && self.archetypes@[i].view_id().0 == i by {
                if i < old(self).archetypes@.len() {
                    assert(self.archetypes@[i] == old(self).archetypes@[i]);
                }
            }
        }
    }

    /// Creates the archetype of type key `type_key`; see `create_archetype_by_ident`.
    pub fn create_archetype(&mut self, type_key: u64, name: &'static str) -> (r: ArchetypeId)
        requires
            old(self).wf(),
            !old(self).ident_map().contains_key(type_key),
            old(self).access_infos().len() + 2 < usize::MAX,
        ensures
            final(self).wf(),
            r.0 == old(self).view().len(),
            final(self).view().len() == old(self).view().len() + 1,
            forall|i: int| 0 <= i < old(self).view().len() ==> final(self).view()[i] == old(self).view()[i],
            final(self).view()[r.0 as int].entity_access_id().0 == old(self).access_infos().len() + 1,
            final(self).view()[r.0 as int].entity_delete_access_id().0 == old(self).access_infos().len() + 2,
            final(self).view()[r.0 as int].entity_store().view() == Seq::<LocalVersion>::empty(),
            final(self).view()[r.0 as int].entity_store().reserved_count() == 0,
            final(self).view()[r.0 as int].component_list() == Seq::<ComponentId>::empty(),
            final(self).ident_map() == old(self).ident_map().insert(type_key, r),
            final(self).access_infos() == old(self).access_infos()
                .push(ArchetypeComponentInfo { name, is_delete: false })
                .push(ArchetypeComponentInfo { name, is_delete: true }),
            final(self).resource_access_map() == old(self).resource_access_map(),
    {
        let archetype = self.create_archetype_by_ident(type_key, name);
        let id = archetype.id();
        self.add_archetype(archetype, type_key);
        id
    }

    /// The archetype of type key `type_key`, created as by `create_archetype`
    /// if there is none yet.
    pub fn get_or_create_archetype(&mut self, type_key: u64, name: &'static str) -> (r: ArchetypeId)
        requires
            old(self).wf(),
            !old(self).ident_map().contains_key(type_key) ==> old(self).access_infos().len() + 2 < usize::MAX,
        ensures
            final(self).wf(),
            get_or_create_outcome(*old(self), *final(self), type_key, name, r),
    {
        match self.archetype_ids.get(&type_key) {
            Some(id) => *id,
            None => self.create_archetype(type_key, name),
        }
    }

    /// Makes a new entity live in archetype `id`.
    pub fn spawn(&mut self, id: ArchetypeId) -> (r: Entity)
        requires
            old(self).wf(),
            (id.0 as int) < old(self).view().len(),
            old(self).view()[id.0 as int].entity_store().has_room(),
            old(self).view()[id.0 as int].entity_store().reserved_count() == 0,
        ensures
            final(self).wf(),
            r.archetype_id == id,
            !old(self).view()[id.0 as int].entity_store().view().contains(r.local),
            final(self).view()[id.0 as int].entity_store().view() == old(self).view()[id.0 as int].entity_store().view().push(r.local),
            final(self).view()[id.0 as int].entity_store().events() == old(self).view()[id.0 as int].entity_store().events().push(
                crate::monitor::create_of(r)),
            final(self).view()[id.0 as int].entity_store().reserved_count() == 0,
            final(self).view()[id.0 as int].same_frame(&old(self).view()[id.0 as int]),
            final(self).view()[id.0 as int].columns() == old(self).view()[id.0 as int].columns(),
            final(self).view().len() == old(self).view().len(),
            forall|i: int| 0 <= i < old(self).view().len() && i != id.0 ==> final(self).view()[i] == old(self).view()[i],
            final(self).ident_map() == old(self).ident_map(),
            final(self).access_infos() == old(self).access_infos(),
            final(self).resource_access_map() == old(self).resource_access_map(),
    {
        let i = id.0;
        let e = self.archetypes[i].create_entity();
        proof {
            assert forall|j: int| 0 <= j < self.archetypes@.len() implies (#[trigger] self.archetypes@[j]).wf()
                && self.archetypes@[j].view_id().0 == j by {
                if j != i as int {
                    assert(self.archetypes@[j] == old(self).archetypes@[j]);
                }
            }
        }
        e
    }

    /// Only archetype `i` may differ between `self` and `other`, and the
    /// registries are the same.
    pub open spec fn same_but(&self, other: &Self, i: int) -> bool {
        &&& self.view().len() == other.view().len()
        &&& forall|j: int| 0 <= j < self.view().len() && j != i ==> #[trigger] self.view()[j] == other.view()[j]
        &&& self.ident_map() == other.ident_map()
        &&& self.access_infos() == other.access_infos()
        &&& self.resource_access_map() == other.resource_access_map()
    }

    proof fn lemma_wf_after_change(&self, old_a: &Self, i: int)
        requires
            old_a.wf(),
            0 <= i < old_a.view().len(),
            self.same_but(old_a, i),
            self.view()[i].wf(),
            self.view()[i].view_id() == old_a.view()[i].view_id(),
        ensures
            self.wf(),
    {
        assert forall|j: int| 0 <= j < self.archetypes@.len() implies (#[trigger] self.archetypes@[j]).wf()
            && self.archetypes@[j].view_id().0 == j by {
            if j != i {
                assert(self.view()[j] == old_a.view()[j]);
            }
        }
    }

    /// A registered archetype type key names an existing archetype.
    pub proof fn lemma_ident_in_range(&self, type_key: u64)
        requires
            self.wf(),
            self.ident_map().contains_key(type_key),
        ensures
            (self.ident_map()[type_key].0 as int) < self.view().len(),
    {
    }

    /// Every archetype is well formed, and archetype `i` has id `i`.
    pub proof fn lemma_member_wf(&self, i: int)
        requires
            self.wf(),
            0 <= i < self.view().len(),
        ensures
            self.view()[i].wf(),
            self.view()[i].view_id().0 == i,
    {
    }

    /// Well-formedness rests on the archetypes and their type keys alone.
    pub proof fn lemma_wf_from_parts(&self, other: &Self)
        requires
            other.wf(),
            self.view() == other.view(),
            self.ident_map() == other.ident_map(),
        ensures
            self.wf(),
    {
    }

    /// Reserves a key in archetype `id`; see `Archetype::reserve_entity`.
    pub fn reserve_entity(&mut self, id: ArchetypeId) -> (r: LocalVersion)
        requires
            old(self).wf(),
            (id.0 as int) < old(self).view().len(),
            old(self).view()[id.0 as int].entity_store().can_reserve(),
        ensures
            final(self).wf(),
            final(self).same_but(old(self), id.0 as int),
            reserve_outcome(old(self).view()[id.0 as int], final(self).view()[id.0 as int], r),
    {
        let i = id.0;
        proof {
            self.lemma_member_wf(i as int);
        }
        let r = self.archetypes[i].reserve_entity();
        proof {
            self.lemma_wf_after_change(old(self), i as int);
        }
        r
    }

    /// Makes the reserved entities of archetype `id` live; see
    /// `Archetype::flush_entities`.
    pub fn flush_entities(&mut self, id: ArchetypeId) -> (r: Vec<LocalVersion>)
        requires
            old(self).wf(),
            (id.0 as int) < old(self).view().len(),
        ensures
            final(self).wf(),
            final(self).same_but(old(self), id.0 as int),
            flush_entities_outcome(old(self).view()[id.0 as int], final(self).view()[id.0 as int], r@),
    {
        let i = id.0;
        proof {
            self.lemma_member_wf(i as int);
        }
        let r = self.archetypes[i].flush_entities();
        proof {
            self.lemma_wf_after_change(old(self), i as int);
        }
        r
    }

    /// Removes entity `local` from the entity list of archetype `id`; see
    /// `Archetype::remove_key`.
    pub fn remove_key(&mut self, id: ArchetypeId, local: LocalVersion) -> (r: Option<()>)
        requires
            old(self).wf(),
            (id.0 as int) < old(self).view().len(),
            old(self).view()[id.0 as int].entity_store().reserved_count() == 0,
        ensures
            final(self).wf(),
            final(self).same_but(old(self), id.0 as int),
            remove_key_outcome(old(self).view()[id.0 as int], final(self).view()[id.0 as int], local, r),
    {
        let i = id.0;
        proof {
            self.lemma_member_wf(i as int);
        }
        let r = self.archetypes[i].remove_key(local);
        proof {
            self.lemma_wf_after_change(old(self), i as int);
        }
        r
    }

    /// Hands out the entity events of archetype `id`; see
    /// `Archetype::take_entity_events`.
    pub fn take_entity_events(&mut self, id: ArchetypeId) -> (r: Vec<crate::monitor::Event>)
        requires
            old(self).wf(),
            (id.0 as int) < old(self).view().len(),
        ensures
            final(self).wf(),
            final(self).same_but(old(self), id.0 as int),
            take_entity_events_outcome(old(self).view()[id.0 as int], final(self).view()[id.0 as int], r@),
    {
        let i = id.0;
        proof {
            self.lemma_member_wf(i as int);
        }
        let r = self.archetypes[i].take_entity_events();
        proof {
            self.lemma_wf_after_change(old(self), i as int);
        }
        r
    }

    /// Hands out the events of the store of component type `cid` of
    /// archetype `id`; see `Archetype::take_component_events`.
    pub fn take_component_events(&mut self, id: ArchetypeId, cid: ComponentId) -> (r: Vec<crate::monitor::Event>)
        requires
            old(self).wf(),
            (id.0 as int) < old(self).view().len(),
        ensures
            final(self).wf(),
            final(self).same_but(old(self), id.0 as int),
            take_component_events_outcome(old(self).view()[id.0 as int], final(self).view()[id.0 as int], cid, r@),
    {
        let i = id.0;
        proof {
            self.lemma_member_wf(i as int);
        }
        let r = self.archetypes[i].take_component_events(cid);
        proof {
            self.lemma_wf_after_change(old(self), i as int);
        }
        r
    }

    /// Removes entity `local` from archetype `id`; see `Archetype::remove_entity`.
    pub fn despawn(&mut self, id: ArchetypeId, local: LocalVersion)
        requires
            old(self).wf(),
            (id.0 as int) < old(self).view().len(),
            old(self).view()[id.0 as int].entity_store().reserved_count() == 0,
        ensures
            final(self).wf(),
            final(self).same_but(old(self), id.0 as int),
            remove_entity_outcome(old(self).view()[id.0 as int], final(self).view()[id.0 as int], local),
    {
        let i = id.0;
        self.archetypes[i].remove_entity(local);
        proof {
            self.lemma_wf_after_change(old(self), i as int);
        }
    }

    /// Sets a component of entity `local` of archetype `id`; see
    /// `Archetype::insert_component`.
    pub fn insert_component(&mut self, id: ArchetypeId, local: LocalVersion, value: V, cid: ComponentId, tick: u32) -> (r: Option<V>)
        requires
            old(self).wf(),
            (id.0 as int) < old(self).view().len(),
        ensures
            final(self).wf(),
            final(self).same_but(old(self), id.0 as int),
            insert_outcome(old(self).view()[id.0 as int], final(self).view()[id.0 as int], local, value, cid, tick, r),
    {
        let i = id.0;
        let r = self.archetypes[i].insert_component(local, value, cid, tick);
        proof {
            self.lemma_wf_after_change(old(self), i as int);
        }
        r
    }

    /// Drops a component of entity `local` of archetype `id`; see
    /// `Archetype::remove_component`.
    pub fn remove_component(&mut self, id: ArchetypeId, local: LocalVersion, cid: ComponentId)
        requires
            old(self).wf(),
            (id.0 as int) < old(self).view().len(),
        ensures
            final(self).wf(),
            final(self).same_but(old(self), id.0 as int),
            remove_component_outcome(old(self).view()[id.0 as int], final(self).view()[id.0 as int], local, cid),
    {
        let i = id.0;
        self.archetypes[i].remove_component(local, cid);
        proof {
            self.lemma_wf_after_change(old(self), i as int);
        }
    }

    /// Registers component type `cid` in archetype `id`; see
    /// `Archetype::register_component_type`.
    pub fn register_component_type(&mut self, id: ArchetypeId, cid: ComponentId, acid: ArchetypeComponentId)
        requires
            old(self).wf(),
            (id.0 as int) < old(self).view().len(),
            !old(self).view()[id.0 as int].component_list().contains(cid),
        ensures
            final(self).wf(),
            final(self).same_but(old(self), id.0 as int),
            register_outcome(old(self).view()[id.0 as int], final(self).view()[id.0 as int], cid, acid),
    {
        let i = id.0;
        self.archetypes[i].register_component_type(cid, acid);
        proof {
            self.lemma_wf_after_change(old(self), i as int);
        }
    }

    /// Records the archetype component id of the resource type `type_key`.
    pub fn register_resource(&mut self, type_key: u64, archetype_component_id: usize)
        ensures
            final(self).resource_access_map() == old(self).resource_access_map().insert(type_key, Local(archetype_component_id)),
            final(self).view() == old(self).view(),
            final(self).ident_map() == old(self).ident_map(),
            final(self).access_infos() == old(self).access_infos(),
    {
        self.archetype_resource_indices.insert(type_key, ArchetypeComponentId::new(archetype_component_id));
    }

    /// The archetype component id of the resource type `type_key`.
    pub fn get_archetype_resource_id(&self, type_key: u64) -> (r: Option<ArchetypeComponentId>)
        ensures
            match r {
                Some(a) => self.resource_access_map().contains_key(type_key) && a == self.resource_access_map()[type_key],
                None => !self.resource_access_map().contains_key(type_key),
            },
    {
        match self.archetype_resource_indices.get(&type_key) {
            Some(a) => Some(*a),
            None => None,
        }
    }

    /// The archetypes created so far, as a generation.
    pub fn generation(&self) -> (r: ArchetypeGeneration)
        ensures
            r.0 == self.view().len(),
    {
        ArchetypeGeneration(self.archetypes.len())
    }

    /// The number of archetypes.
    pub fn len(&self) -> (r: usize)
        ensures
            r == self.view().len(),
    {
        self.archetypes.len()
    }

    /// Whether there is no archetype.
    pub fn is_empty(&self) -> (r: bool)
        ensures
            r == (self.view().len() == 0),
    {
        self.archetypes.len() == 0
    }

    /// The archetype with id `id`, if any.
    pub fn get(&self, id: ArchetypeId) -> (r: Option<&Archetype<V>>)
        ensures
            r == (if (id.0 as int) < self.view().len() { Some(&self.view()[id.0 as int]) } else { None }),
    {
        if id.0 < self.archetypes.len() {
            Some(&self.archetypes[id.0])
        } else {
            None
        }
    }

    /// The archetype with id `id`.
    pub fn index(&self, id: ArchetypeId) -> (r: &Archetype<V>)
        requires
            (id.0 as int) < self.view().len(),
        ensures
            *r == self.view()[id.0 as int],
    {
        &self.archetypes[id.0]
    }

    /// The id of the archetype of type key `type_key`, if it exists.
    pub fn get_id_by_ident(&self, type_key: u64) -> (r: Option<ArchetypeId>)
        ensures
            match r {
                Some(a) => self.ident_map().contains_key(type_key) && a == self.ident_map()[type_key],
                None => !self.ident_map().contains_key(type_key),
            },
    {
        match self.archetype_ids.get(&type_key) {
            Some(a) => Some(*a),
            None => None,
        }
    }

    /// What each archetype component id stands for; id `i` is at `i - 1`.
    pub fn archetype_component_info(&self) -> (r: &Vec<ArchetypeComponentInfo>)
        ensures
            r@ == self.access_infos(),
    {
        &self.archetype_component_info
    }
}

} // verus!

verus! {

use crate::query::fetch::component_of;

/// A component set by `insert_component` reads back as set, and the
/// components of the other entities are untouched.
pub proof fn law_insert_then_read<V>(a0: Archetype<V>, a1: Archetype<V>, local: LocalVersion, value: V, id: ComponentId, tick: u32, r: Option<V>)
    requires
        insert_outcome(a0, a1, local, value, id, tick, r),
        a0.component_list().contains(id),
    ensures
        component_of(&a1, id, local) == Some(value),
        forall|other: LocalVersion| other.raw() != local.raw()
            ==> #[trigger] component_of(&a1, id, other) == component_of(&a0, id, other),
        r == component_of(&a0, id, local),
{
}

/// A component dropped by `remove_component` reads back as absent, and the
/// components of the other entities are untouched.
pub proof fn law_remove_then_read<V>(a0: Archetype<V>, a1: Archetype<V>, local: LocalVersion, id: ComponentId)
    requires
        remove_component_outcome(a0, a1, local, id),
    ensures
        component_of(&a1, id, local) is None,
        forall|other: LocalVersion| other.raw() != local.raw()
            ==> #[trigger] component_of(&a1, id, other) == component_of(&a0, id, other),
{
}

/// A live entity removed by `remove_entity` is no longer live and has no
/// component left, while every other live entity stays live.
pub proof fn law_despawn_removes_everything<V>(a0: Archetype<V>, a1: Archetype<V>, local: LocalVersion)
    requires
        a0.wf(),
        remove_entity_outcome(a0, a1, local),
        a0.entity_store().view().contains(local),
    ensures
        !a1.entity_store().view().contains(local),
        forall|other: LocalVersion| other != local && a0.entity_store().view().contains(other)
            ==> #[trigger] a1.entity_store().view().contains(other),
        forall|id: ComponentId| a0.component_list().contains(id) ==> #[trigger] component_of(&a1, id, local) is None,
{
    let s = a0.entity_store().view();
    a0.entity_store().lemma_keys_distinct();
    let j = s.index_of(local);
    lemma_swap_removed_keys(s, j);
    let t = a1.entity_store().view();
    assert(raw_keys(t) == raw_keys(s).remove(local.raw()));
    if t.contains(local) {
        let i = choose|i: int| 0 <= i < t.len() && t[i] == local;
        assert(raw_keys(t).contains(local.raw()));
    }
    assert forall|other: LocalVersion| other != local && s.contains(other) implies #[trigger] t.contains(other) by {
        let i = choose|i: int| 0 <= i < s.len() && s[i] == other;
        assert(raw_keys(s).contains(other.raw()));
        assert(other.raw() != local.raw());
        assert(raw_keys(t).contains(other.raw()));
        let k = choose|k: int| 0 <= k < t.len() && t[k].raw() == other.raw();
        assert(t[k] == other);
    }
    assert forall|id: ComponentId| a0.component_list().contains(id) implies #[trigger] component_of(&a1, id, local) is None by {
        let p = a0.component_list().index_of(id);
        assert(a1.columns()[p].values() == a0.columns()[p].values().remove(local.raw()));
    }
}

} // verus!
