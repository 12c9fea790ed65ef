//! Iteration over the entities of a query.
use vstd::prelude::*;
use crate::archetype::{Archetype, ArchetypeId};
use crate::query::fetch::Fetch;
use crate::query::filter::FilterFetch;
use crate::storage::LocalVersion;

verus! {

/// What the entity iterator yields from the lists `rest` and the list `cur`,
/// read from position `pos`, before it first answers nothing: the rest of
/// `cur`, then the lists of `rest` from the last, until one of them is empty.
pub open spec fn yielded(rest: Seq<Seq<LocalVersion>>, cur: Seq<LocalVersion>, pos: int) -> Seq<LocalVersion>
    decreases rest.len(), cur.len() - pos,
{
    if 0 <= pos < cur.len() {
        seq![cur[pos]] + yielded(rest, cur, pos + 1)
    } else if rest.len() == 0 {
        Seq::empty()
    } else if rest.last().len() > 0 {
        seq![rest.last()[0]] + yielded(rest.drop_last(), rest.last(), 1)
    } else {
        Seq::empty()
    }
}

/// The lists `rest` one after the other, from the last to the first.
pub open spec fn flatten_from_last(rest: Seq<Seq<LocalVersion>>) -> Seq<LocalVersion>
    decreases rest.len(),
{
    if rest.len() == 0 {
        Seq::empty()
    } else {
        rest.last() + flatten_from_last(rest.drop_last())
    }
}

/// The number of keys in the lists `rest`.
pub open spec fn total_len(rest: Seq<Seq<LocalVersion>>) -> nat
    decreases rest.len(),
{
    if rest.len() == 0 {
        0
    } else {
        rest.last().len() + total_len(rest.drop_last())
    }
}

proof fn lemma_yielded_concat(rest: Seq<Seq<LocalVersion>>, cur: Seq<LocalVersion>, pos: int)
    requires
        0 <= pos <= cur.len(),
        forall|i: int| 0 <= i < rest.len() ==> #[trigger] rest[i].len() > 0,
    ensures
        yielded(rest, cur, pos) == cur.subrange(pos, cur.len() as int) + flatten_from_last(rest),
    decreases rest.len(), cur.len() - pos,
{
    if pos < cur.len() {
        lemma_yielded_concat(rest, cur, pos + 1);
        assert(seq![cur[pos]] + (cur.subrange(pos + 1, cur.len() as int) + flatten_from_last(rest))
            =~= cur.subrange(pos, cur.len() as int) + flatten_from_last(rest));
    } else if rest.len() == 0 {
        assert(cur.subrange(pos, cur.len() as int) + flatten_from_last(rest) =~= Seq::<LocalVersion>::empty());
    } else {
        let last = rest.last();
        assert(rest[rest.len() - 1].len() > 0);
        let dl = rest.drop_last();
        assert forall|i: int| 0 <= i < dl.len() implies #[trigger] dl[i].len() > 0 by {
            assert(dl[i] == rest[i]);
        }
        lemma_yielded_concat(dl, last, 1);
        assert(seq![last[0]] + (last.subrange(1, last.len() as int) + flatten_from_last(dl))
            =~= cur.subrange(pos, cur.len() as int) + flatten_from_last(rest));
    }
}

/// Walks a list of entity keys, then the lists kept aside, from the last.
pub struct EntityIter {
    rest: Vec<Vec<LocalVersion>>,
    cur: Vec<LocalVersion>,
    pos: usize,
}

/// What one call of `EntityIter::next` does, from `a` to `b`, answering
/// `r`.
pub open spec fn next_outcome(a: EntityIter, r: Option<LocalVersion>, b: EntityIter) -> bool {
    &&& a.pos_view() < a.cur_view().len() ==> {
        &&& r == Some(a.cur_view()[a.pos_view()])
        &&& b.rest_view() == a.rest_view()
        &&& b.cur_view() == a.cur_view()
        &&& b.pos_view() == a.pos_view() + 1
    }
    &&& a.pos_view() >= a.cur_view().len() && a.rest_view().len() == 0 ==> {
        &&& r is None
        &&& b.rest_view() == a.rest_view()
        &&& b.cur_view() == a.cur_view()
        &&& b.pos_view() == a.pos_view()
    }
    &&& a.pos_view() >= a.cur_view().len() && a.rest_view().len() > 0 ==> {
        let c = a.rest_view().last();
        &&& b.rest_view() == a.rest_view().drop_last()
        &&& b.cur_view() == c
        &&& c.len() > 0 ==> r == Some(c[0]) && b.pos_view() == 1
        &&& c.len() == 0 ==> r is None && b.pos_view() == 0
    }
}

impl EntityIter {
    /// The lists kept aside.
    pub closed spec fn rest_view(&self) -> Seq<Seq<LocalVersion>> {
        self.rest@.map_values(|v: Vec<LocalVersion>| v@)
    }

    /// The list being walked.
    pub closed spec fn cur_view(&self) -> Seq<LocalVersion> {
        self.cur@
    }

    /// The position in the list being walked.
    pub closed spec fn pos_view(&self) -> int {
        self.pos as int
    }

    pub closed spec fn wf(&self) -> bool {
        self.pos <= self.cur@.len()
    }

    /// The keys that the iterator yields before it first answers nothing.
    pub open spec fn remaining(&self) -> Seq<LocalVersion> {
        yielded(self.rest_view(), self.cur_view(), self.pos_view())
    }

    /// Walks `cur`, then the lists of `rest` from the last.
    pub fn new(rest: Vec<Vec<LocalVersion>>, cur: Vec<LocalVersion>) -> (r: Self)
        ensures
            r.wf(),
            r.rest_view() == rest@.map_values(|v: Vec<LocalVersion>| v@),
            r.cur_view() == cur@,
            r.pos_view() == 0,
    {
        EntityIter { rest, cur, pos: 0 }
    }

    /// The next key: the next of the list being walked; else, if a list is
    /// kept aside, the first of the last of them, which is walked from then
    /// on (nothing if it is empty); else nothing.
    pub fn next(&mut self) -> (r: Option<LocalVersion>)
        requires
            old(self).wf(),
        ensures
            final(self).wf(),
            next_outcome(*old(self), r, *final(self)),
    {
        if self.pos < self.cur.len() {
            let r = self.cur[self.pos];
            self.pos = self.pos + 1;
            return Some(r);
        }
        if self.rest.len() == 0 {
            return None;
        }
        let c = self.rest.pop().unwrap();
        proof {
            assert(self.rest@.map_values(|v: Vec<LocalVersion>| v@) =~= old(self).rest_view().drop_last());
        }
        self.cur = c;
        self.pos = 0;
        if self.cur.len() > 0 {
            self.pos = 1;
            Some(self.cur[0])
        } else {
            None
        }
    }

    /// What `next` answers is the head of what remains, and the rest of it
    /// remains; when it answers nothing, nothing remained.
    pub proof fn lemma_next_remaining(&self, r: Option<LocalVersion>, after: &Self)
        requires
            self.wf(),
            after.wf(),
            next_outcome(*self, r, *after),
        ensures
            match r {
                Some(x) => self.remaining() == seq![x] + after.remaining(),
                None => self.remaining() == Seq::<LocalVersion>::empty(),
            },
    {
    }
}

impl EntityIter {
    /// The keys not yet walked: the rest of the list being walked and the
    /// lists kept aside.
    pub open spec fn keys_left(&self) -> nat {
        ((self.cur_view().len() - self.pos_view()) as nat) + total_len(self.rest_view())
    }

    /// When no list kept aside is empty, the iterator yields every key left,
    /// in order: the rest of the list being walked, then the lists kept
    /// aside from the last.
    pub proof fn law_remaining_is_every_key_left(&self)
        requires
            self.wf(),
            forall|i: int| 0 <= i < self.rest_view().len() ==> #[trigger] self.rest_view()[i].len() > 0,
        ensures
            self.remaining() == self.cur_view().subrange(self.pos_view(), self.cur_view().len() as int)
                + flatten_from_last(self.rest_view()),
    {
        lemma_yielded_concat(self.rest_view(), self.cur_view(), self.pos_view());
    }

    /// Each call of `next` either yields one key left, or drops one list kept
    /// aside (an empty one) answering nothing, or, with nothing left to walk,
    /// answers nothing and changes nothing. So at most `keys_left` calls
    /// yield a key, and within `keys_left` plus the number of lists kept
    /// aside plus one calls, a call answers nothing with nothing left.
    pub proof fn law_next_progress(&self, r: Option<LocalVersion>, after: &Self)
        requires
            self.wf(),
            after.wf(),
            next_outcome(*self, r, *after),
        ensures
            r is Some ==> after.keys_left() + 1 == self.keys_left()
                && after.rest_view().len() <= self.rest_view().len(),
            r is None && self.rest_view().len() > 0 ==> after.keys_left() == self.keys_left()
                && after.rest_view().len() + 1 == self.rest_view().len(),
            r is None && self.rest_view().len() == 0 ==> self.keys_left() == 0
                && after.rest_view() == self.rest_view() && after.cur_view() == self.cur_view()
                && after.pos_view() == self.pos_view(),
    {
        if self.pos_view() >= self.cur_view().len() && self.rest_view().len() > 0 {
            let rv = self.rest_view();
            assert(total_len(rv) == rv.last().len() + total_len(rv.drop_last()));
        }
    }
}

/// Whether a query with `fetch` and `filter` takes entity `local` of
/// `archetype`: it passes the filter and the fetch gives something.
pub open spec fn takes<'a, V, Q: Fetch<'a, V>, F: FilterFetch<V>>(fetch: &Q, filter: &F, archetype: &'a Archetype<V>, local: LocalVersion) -> bool {
    filter.passes(archetype, local) && fetch.item(archetype, local) is Some
}

/// The items of a query on the entities of one archetype.
pub struct QueryIter<'s, Q, F> {
    pub archetype_id: ArchetypeId,
    pub matchs: bool,
    pub fetch: &'s Q,
    pub filter: &'s F,
    pub entity: EntityIter,
}

impl<'s, Q, F> QueryIter<'s, Q, F> {
    /// Iterates the entities of `archetype`, or, when the filter has named
    /// lists of entities to visit (`main`), those lists: the first, then the
    /// others from the last.
    pub fn new<V>(archetype: &Archetype<V>, matchs: bool, fetch: &'s Q, filter: &'s F,
        main: Option<(Vec<LocalVersion>, Vec<Vec<LocalVersion>>)>) -> (r: Self)
        requires
            archetype.wf(),
        ensures
            r.archetype_id == archetype.view_id(),
            r.matchs == matchs,
            r.fetch == fetch,
            r.filter == filter,
            r.entity.wf(),
            r.entity.pos_view() == 0,
            match main {
                Some((first, others)) => r.entity.cur_view() == first@
                    && r.entity.rest_view() == others@.map_values(|v: Vec<LocalVersion>| v@),
                None => r.entity.cur_view() == archetype.entity_store().view()
                    && r.entity.rest_view() == Seq::<Seq<LocalVersion>>::empty(),
            },
    {
        let entity = match main {
            Some((first, others)) => EntityIter::new(others, first),
            None => {
                let keys = archetype.entities().keys();
                let mut all: Vec<LocalVersion> = Vec::new();
                let mut i: usize = 0;
                while i < keys.len()
                    invariant
                        0 <= i <= keys@.len(),
                        all@ == keys@.subrange(0, i as int),
                    decreases keys@.len() - i,
                {
                    all.push(keys[i]);
                    i = i + 1;
                }
                proof {
                    assert(keys@.subrange(0, keys@.len() as int) =~= keys@);
                }
                let none: Vec<Vec<LocalVersion>> = Vec::new();
                let e = EntityIter::new(none, all);
                proof {
                    assert(e.rest_view() =~= Seq::<Seq<LocalVersion>>::empty());
                }
                e
            },
        };
        QueryIter { archetype_id: archetype.id(), matchs, fetch, filter, entity }
    }

    /// The next item: that of the first remaining entity that passes the
    /// filter and for which the fetch gives something; nothing when the
    /// query does not apply to the archetype or no remaining entity is taken.
    pub fn next<'a, V>(&mut self, archetype: &'a Archetype<V>) -> (r: Option<Q::Item>)
        where Q: Fetch<'a, V>, F: FilterFetch<V>,
        requires
            archetype.wf(),
            old(self).entity.wf(),
        ensures
            final(self).entity.wf(),
            final(self).archetype_id == old(self).archetype_id,
            final(self).matchs == old(self).matchs,
            final(self).fetch == old(self).fetch,
            final(self).filter == old(self).filter,
            !old(self).matchs ==> r is None && final(self).entity == old(self).entity,
            old(self).matchs ==> ({
                let ys = old(self).entity.remaining();
                match r {
                    Some(item) => exists|i: int| #![trigger ys[i]] 0 <= i < ys.len()
                        && takes(old(self).fetch, old(self).filter, archetype, ys[i])
                        && (forall|j: int| 0 <= j < i ==> !takes(old(self).fetch, old(self).filter, archetype, #[trigger] ys[j]))
                        && Some(item) == old(self).fetch.item(archetype, ys[i])
                        && final(self).entity.remaining() == ys.subrange(i + 1, ys.len() as int),
                    None => forall|i: int| 0 <= i < ys.len() ==> !takes(old(self).fetch, old(self).filter, archetype, #[trigger] ys[i]),
                }
            }),
    {
        if !self.matchs {
            return None;
        }
        let ghost ys = self.entity.remaining();
        let ghost mut seen: int = 0;
        loop
            invariant
                archetype.wf(),
                self.entity.wf(),
                self.archetype_id == old(self).archetype_id,
                self.matchs == old(self).matchs,
                self.fetch == old(self).fetch,
                self.filter == old(self).filter,
                ys == old(self).entity.remaining(),
                old(self).matchs,
                0 <= seen <= ys.len(),
                self.entity.remaining() == ys.subrange(seen, ys.len() as int),
                forall|j: int| 0 <= j < seen ==> !takes(self.fetch, self.filter, archetype, #[trigger] ys[j]),
            decreases ys.len() - seen,
        {
            let ghost before = self.entity;
            let e = self.entity.next();
            proof {
                before.lemma_next_remaining(e, &self.entity);
            }
            match e {
                None => {
                    proof {
                        assert forall|i: int| 0 <= i < ys.len() implies !takes(self.fetch, self.filter, archetype, #[trigger] ys[i]) by {
                            if i >= seen {
                                assert(ys.subrange(seen, ys.len() as int).len() == 0);
                            }
                        }
                    }
                    return None;
                },
                Some(local) => {
                    proof {
                        assert(before.remaining() == seq![local] + self.entity.remaining());
                        assert(ys.subrange(seen, ys.len() as int).len() > 0);
                        assert(ys.subrange(seen, ys.len() as int)[0] == local);
                        assert(ys[seen] == local);
                        let tail = ys.subrange(seen, ys.len() as int);
                        let rem = self.entity.remaining();
                        assert(rem.len() == ys.len() - seen - 1);
                        assert forall|k: int| 0 <= k < rem.len() implies rem[k] == ys[seen + 1 + k] by {
                            assert(tail[k + 1] == (seq![local] + rem)[k + 1]);
                        }
                        assert(rem =~= ys.subrange(seen + 1, ys.len() as int));
                    }
                    if self.filter.archetype_filter_fetch(archetype, local) {
                        let item = self.fetch.archetype_fetch(archetype, local);
                        if item.is_some() {
                            return item;
                        }
                    }
                    proof {
                        seen = seen + 1;
                    }
                },
            }
        }
    }
}


/// A query takes an entity exactly when the entity passes the query's filter
/// and the fetch reads something of it: an entity that fails the filter is
/// never yielded, whatever the fetch reads of it.
pub proof fn law_takes<'a, V, Q: Fetch<'a, V>, F: FilterFetch<V>>(fetch: &Q, filter: &F, archetype: &'a Archetype<V>, local: LocalVersion)
    ensures
        !filter.passes(archetype, local) ==> !takes(fetch, filter, archetype, local),
        fetch.item(archetype, local) is None ==> !takes(fetch, filter, archetype, local),
        filter.passes(archetype, local) && fetch.item(archetype, local) is Some ==> takes(fetch, filter, archetype, local),
{
}

} // verus!
