//! The state of a query on one archetype.
use vstd::prelude::*;
use crate::archetype::{Archetype, ArchetypeId};
use crate::query::fetch::Fetch;
use crate::query::filter::FilterFetch;
use crate::query::iter::QueryIter;
use crate::query::fetch::{read_added, same_access};
use crate::dispatch::access::Access;
use crate::storage::LocalVersion;
use crate::world::{World, WorldId};

verus! {

/// A query on the entities of one archetype of one world: what it reads,
/// how it filters, and whether it applies to the archetype at all.
pub struct QueryState<Q, F> {
    pub world_id: WorldId,
    pub archetype_id: ArchetypeId,
    pub fetch_fetch: Q,
    pub filter_fetch: F,
    pub matchs: bool,
}

impl<Q, F> QueryState<Q, F> {
    /// The query reading with `fetch` and filtering with `filter` the
    /// entities of `archetype` in world `world_id`; it applies when both
    /// apply to the archetype.
    pub fn new<'a, V>(world_id: WorldId, archetype: &'a Archetype<V>, fetch: Q, filter: F) -> (r: Self)
        where Q: Fetch<'a, V>, F: FilterFetch<V>,
        requires
            archetype.wf(),
        ensures
            r.world_id == world_id,
            r.archetype_id == archetype.view_id(),
            r.fetch_fetch == fetch,
            r.filter_fetch == filter,
            r.matchs == (fetch.matched(archetype) && filter.matched(archetype)),
    {
        let matchs = fetch.matches_archetype(archetype) && filter.matches_archetype(archetype);
        QueryState { world_id, archetype_id: archetype.id(), fetch_fetch: fetch, filter_fetch: filter, matchs }
    }

    /// The query of the archetype of type key `type_key` (named `name`) in
    /// `world`, reading with `fetch` and filtering with `filter`: the
    /// archetype is created if the world has none of that key yet, and the
    /// world hands out one more query id. The query is bound to the world and
    /// applies when both the fetch and the filter apply to the archetype.
    pub fn from_world<'a, V: 'a, R>(world: &mut World<V, R>, type_key: u64, name: &'static str, fetch: Q, filter: F) -> (r: Self)
        where Q: Fetch<'a, V>, F: FilterFetch<V>,
        requires
            old(world).wf(),
            !old(world).archetype_table().ident_map().contains_key(type_key) ==> old(world).archetype_table().access_infos().len() + 2 < usize::MAX,
            old(world).queries_made() < usize::MAX,
        ensures
            final(world).wf(),
            final(world).archetype_table().ident_map().contains_key(type_key),
            r.archetype_id == final(world).archetype_table().ident_map()[type_key],
            (r.archetype_id.0 as int) < final(world).archetype_table().view().len(),
            old(world).archetype_table().ident_map().contains_key(type_key) ==> {
                &&& r.archetype_id == old(world).archetype_table().ident_map()[type_key]
                &&& final(world).archetype_table().view() == old(world).archetype_table().view()
            },
            !old(world).archetype_table().ident_map().contains_key(type_key) ==> {
                &&& r.archetype_id.0 == old(world).archetype_table().view().len()
                &&& final(world).archetype_table().view().len() == old(world).archetype_table().view().len() + 1
            },
            final(world).queries_made() == old(world).queries_made() + 1,
            final(world).registry() == old(world).registry(),
            final(world).resource_table() == old(world).resource_table(),
            r.world_id == old(world).world_id(),
            r.fetch_fetch == fetch,
            r.filter_fetch == filter,
            r.matchs == ({
                let a = final(world).archetype_table().view()[r.archetype_id.0 as int];
                fetch.matched(&a) && filter.matched(&a)
            }),
    {
        let archetype_id = world.new_archetype(type_key, name);
        let _query_id = world.gen_query_id();
        let world_id = world.id();
        let archetypes = world.archetypes();
        proof {
            world.lemma_parts_wf();
            archetypes.lemma_member_wf(archetype_id.0 as int);
        }
        let archetype = archetypes.index(archetype_id);
        let matchs = fetch.matches_archetype(archetype) && filter.matches_archetype(archetype);
        QueryState { world_id, archetype_id, fetch_fetch: fetch, filter_fetch: filter, matchs }
    }

    /// Checks the query against world `world_id` and its `archetype`:
    /// records in `access` that it reads the entity list, works out whether
    /// it applies to the archetype, and if it does records the access of its
    /// fetch, then of its filter.
    pub fn validate_world_and_update_archetypes<'a, V>(&mut self, world_id: WorldId, archetype: &'a Archetype<V>, access: &mut Access)
        where Q: Fetch<'a, V>, F: FilterFetch<V>,
        requires
            world_id == old(self).world_id,
            archetype.wf(),
            archetype.view_id() == old(self).archetype_id,
            old(access).wf(),
            archetype.entity_access_id().0 < usize::MAX,
            forall|a1: Access| #[trigger] read_added(*old(access), a1, archetype.entity_access_id().0 as int) && a1.wf()
                && old(self).fetch_fetch.matched(archetype) && old(self).filter_fetch.matched(archetype) ==> {
                &&& old(self).fetch_fetch.access_ok(archetype, a1)
                &&& forall|a2: Access| #[trigger] old(self).fetch_fetch.access_update(archetype, a1, a2) && a2.wf()
                    ==> old(self).filter_fetch.access_ok(archetype, a2)
            },
        ensures
            final(self).world_id == old(self).world_id,
            final(self).archetype_id == old(self).archetype_id,
            final(self).fetch_fetch == old(self).fetch_fetch,
            final(self).filter_fetch == old(self).filter_fetch,
            final(self).matchs == (old(self).fetch_fetch.matched(archetype) && old(self).filter_fetch.matched(archetype)),
            final(access).wf(),
            final(self).matchs ==> exists|a1: Access, a2: Access| {
                &&& #[trigger] read_added(*old(access), a1, archetype.entity_access_id().0 as int)
                &&& #[trigger] old(self).fetch_fetch.access_update(archetype, a1, a2)
                &&& old(self).filter_fetch.access_update(archetype, a2, *final(access))
            },
            !final(self).matchs ==> exists|a1: Access| {
                &&& #[trigger] read_added(*old(access), a1, archetype.entity_access_id().0 as int)
                &&& same_access(a1, *final(access))
            },
    {
        access.add_read(archetype.entity_archetype_component_id().0);
        let ghost a1 = *access;
        proof {
            assert(read_added(*old(access), a1, archetype.entity_access_id().0 as int));
        }
        self.matchs = self.fetch_fetch.matches_archetype(archetype) && self.filter_fetch.matches_archetype(archetype);
        if self.matchs {
            self.fetch_fetch.update_archetype_component_access(archetype, access);
            let ghost a2 = *access;
            proof {
                assert(old(self).fetch_fetch.access_update(archetype, a1, a2));
            }
            self.filter_fetch.update_archetype_component_access(archetype, access);
        }
    }

    /// The archetype the query is on.
    pub fn archetype_id(&self) -> (r: ArchetypeId)
        ensures
            r == self.archetype_id,
    {
        self.archetype_id
    }

    /// What the query reads of entity `local`: nothing if the query does not
    /// apply to the archetype or the entity does not pass the filter.
    pub fn get<'a, V>(&self, archetype: &'a Archetype<V>, local: LocalVersion) -> (r: Option<Q::Item>)
        where Q: Fetch<'a, V>, F: FilterFetch<V>,
        requires
            archetype.wf(),
        ensures
            r == (if self.matchs && self.filter_fetch.passes(archetype, local) {
                self.fetch_fetch.item(archetype, local)
            } else {
                None
            }),
    {
        if !self.matchs {
            return None;
        }
        if self.filter_fetch.archetype_filter_fetch(archetype, local) {
            self.fetch_fetch.archetype_fetch(archetype, local)
        } else {
            None
        }
    }

    /// Tells the fetch and the filter the ticks of a run: the tick at which
    /// the system last ran and the current one.
    pub fn setting<'a, V: 'a>(&mut self, last_change_tick: u32, change_tick: u32)
        where Q: Fetch<'a, V>, F: FilterFetch<V>,
        ensures
            final(self).world_id == old(self).world_id,
            final(self).archetype_id == old(self).archetype_id,
            final(self).matchs == old(self).matchs,
            final(self).fetch_fetch == old(self).fetch_fetch.ticked(last_change_tick, change_tick),
            final(self).filter_fetch == old(self).filter_fetch.ticked(last_change_tick, change_tick),
    {
        self.fetch_fetch.setting(last_change_tick, change_tick);
        self.filter_fetch.setting(last_change_tick, change_tick);
    }

    /// An iteration over the entities of `archetype`, which must be the
    /// archetype of the query in world `world_id`, the world of the query,
    /// for a run of a system that last ran at `last_change_tick`, at the
    /// current tick `change_tick`: the fetch and the filter are told these
    /// ticks first.
    pub fn iter<'s, 'a, V: 'a>(&'s mut self, world_id: WorldId, archetype: &Archetype<V>, last_change_tick: u32, change_tick: u32) -> (r: QueryIter<'s, Q, F>)
        where Q: Fetch<'a, V>, F: FilterFetch<V>,
        requires
            archetype.wf(),
            world_id == old(self).world_id,
        ensures
            r.archetype_id == archetype.view_id(),
            r.matchs == old(self).matchs,
            *r.fetch == old(self).fetch_fetch.ticked(last_change_tick, change_tick),
            *r.filter == old(self).filter_fetch.ticked(last_change_tick, change_tick),
            r.entity.wf(),
            r.entity.remaining() == archetype.entity_store().view(),
    {
        self.setting(last_change_tick, change_tick);
        let r = QueryIter::new(archetype, self.matchs, &self.fetch_fetch, &self.filter_fetch, None);
        proof {
            lemma_yielded_list(archetype.entity_store().view(), 0);
            assert(archetype.entity_store().view().subrange(0, archetype.entity_store().view().len() as int)
                =~= archetype.entity_store().view());
        }
        r
    }

    /// As `iter`, over the lists `main` that the filter names (see
    /// `ChangedFetch::main_fetch`) when it names some: the first list, then
    /// the others from the last; else over every entity of `archetype`.
    pub fn iter_main<'s, 'a, V: 'a>(&'s mut self, world_id: WorldId, archetype: &Archetype<V>, last_change_tick: u32,
        change_tick: u32, main: Option<(Vec<LocalVersion>, Vec<Vec<LocalVersion>>)>) -> (r: QueryIter<'s, Q, F>)
        where Q: Fetch<'a, V>, F: FilterFetch<V>,
        requires
            archetype.wf(),
            world_id == old(self).world_id,
        ensures
            r.archetype_id == archetype.view_id(),
            r.matchs == old(self).matchs,
            *r.fetch == old(self).fetch_fetch.ticked(last_change_tick, change_tick),
            *r.filter == old(self).filter_fetch.ticked(last_change_tick, change_tick),
            r.entity.wf(),
            r.entity.pos_view() == 0,
            match main {
                Some((first, others)) => r.entity.cur_view() == first@
                    && r.entity.rest_view() == others@.map_values(|v: Vec<LocalVersion>| v@),
                None => r.entity.cur_view() == archetype.entity_store().view()
                    && r.entity.rest_view() == Seq::<Seq<LocalVersion>>::empty(),
            },
    {
        self.setting(last_change_tick, change_tick);
        QueryIter::new(archetype, self.matchs, &self.fetch_fetch, &self.filter_fetch, main)
    }
}

/// Walking one list with nothing kept aside yields the list from the
/// position on.
pub proof fn lemma_yielded_list(cur: Seq<LocalVersion>, pos: int)
    requires
        0 <= pos <= cur.len(),
    ensures
        crate::query::iter::yielded(Seq::empty(), cur, pos) == cur.subrange(pos, cur.len() as int),
    decreases cur.len() - pos,
{
    if pos < cur.len() {
        lemma_yielded_list(cur, pos + 1);
        assert(cur.subrange(pos, cur.len() as int) =~= seq![cur[pos]] + cur.subrange(pos + 1, cur.len() as int));
    } else {
        assert(cur.subrange(pos, cur.len() as int) =~= Seq::<LocalVersion>::empty());
    }
}

/// Why a query gives nothing for an entity.
#[derive(Clone, Copy, Debug, PartialEq, Eq, Structural)]
pub enum QueryEntityError {
    /// The entity does not have what the query reads.
    QueryDoesNotMatch,
    /// The entity does not exist.
    NoSuchEntity,
}

} // verus!
