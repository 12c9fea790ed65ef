//! Resources: values of which a world holds at most one each, known by their
//! resource id. Resource values are all of one type `R` here, a sum of the
//! resource types the application uses.
use vstd::prelude::*;
use std::collections::HashMap;
use crate::component::ComponentTicks;
use crate::entity::Entity;
use crate::monitor::{NotifyImpl, Event, create_of, modify_of};
use crate::storage::Local;

verus! {

broadcast use vstd::std_specs::hash::group_hash_axioms;

/// Marks the types that can be resources.
pub trait Resource {}

/// The id of a resource.
pub type ResourceId = Local;

/// The slot of one resource: its value once inserted, its ticks and its
/// events.
pub struct SingleMeta<R> {
    pub value: Option<R>,
    pub notify: NotifyImpl,
    pub tick: ComponentTicks,
}

impl<R> SingleMeta<R> {
    /// An empty slot.
    pub fn new() -> (r: Self)
        ensures
            r.value is None,
            r.notify.emitted() == Seq::<Event>::empty(),
            r.tick == (ComponentTicks { added: 0, changed: 0 }),
    {
        SingleMeta { value: None, notify: NotifyImpl::new(), tick: ComponentTicks::new(0) }
    }
}

/// The resources of a world.
pub struct Singles<R> {
    metas: HashMap<usize, SingleMeta<R>>,
}

impl<R> Singles<R> {
    /// The slots, by resource id.
    pub closed spec fn slots(&self) -> Map<usize, SingleMeta<R>> {
        self.metas@
    }

    /// No slot.
    pub fn new() -> (r: Self)
        ensures
            r.slots() == Map::<usize, SingleMeta<R>>::empty(),
    {
        Singles { metas: HashMap::new() }
    }

    /// Makes an empty slot for `resource_id`, unless it has one.
    pub fn register(&mut self, resource_id: ResourceId)
        ensures
            old(self).slots().contains_key(resource_id.0) ==> final(self).slots() == old(self).slots(),
            !old(self).slots().contains_key(resource_id.0) ==> {
                &&& final(self).slots().dom() == old(self).slots().dom().insert(resource_id.0)
                &&& forall|k: usize| k != resource_id.0 && #[trigger] old(self).slots().contains_key(k)
                    ==> final(self).slots()[k] == old(self).slots()[k]
                &&& final(self).slots()[resource_id.0].value is None
                &&& final(self).slots()[resource_id.0].notify.emitted() == Seq::<Event>::empty()
                &&& final(self).slots()[resource_id.0].tick == (ComponentTicks { added: 0, changed: 0 })
            },
    {
        if !self.metas.contains_key(&resource_id.0) {
            self.metas.insert(resource_id.0, SingleMeta::new());
        }
    }

    /// Sets the resource `resource_id` to `value` at tick `tick`. The first
    /// value emits a creation (of the null entity) and sets both ticks; a
    /// later one emits a modification and sets the change tick.
    pub fn insert(&mut self, resource_id: ResourceId, value: R, tick: u32)
        requires
            old(self).slots().contains_key(resource_id.0),
        ensures
            final(self).slots().dom() == old(self).slots().dom(),
            forall|k: usize| k != resource_id.0 && #[trigger] old(self).slots().contains_key(k)
                ==> final(self).slots()[k] == old(self).slots()[k],
            ({
                let before = old(self).slots()[resource_id.0];
                let after = final(self).slots()[resource_id.0];
                &&& after.value == Some(value)
                &&& after.tick.changed == tick
                &&& before.value is None ==> {
                    &&& after.tick.added == tick
                    &&& after.notify.emitted() == before.notify.emitted().push(create_of(Entity::null_spec()))
                }
                &&& before.value is Some ==> {
                    &&& after.tick.added == before.tick.added
                    &&& after.notify.emitted() == before.notify.emitted().push(modify_of(Entity::null_spec(), "", 0))
                }
            }),
    {
        let mut meta = self.metas.remove(&resource_id.0).unwrap();
        let is_exsit = meta.value.is_some();
        meta.value = Some(value);
        meta.tick.changed = tick;
        if !is_exsit {
            meta.notify.create_event(Entity::null());
            meta.tick.added = tick;
        } else {
            meta.notify.modify_event(Entity::null(), "", 0);
        }
        self.metas.insert(resource_id.0, meta);
        proof {
            assert(self.metas@.dom() =~= old(self).metas@.dom());
        }
    }

    /// The value of resource `resource_id`, if it has one.
    pub fn get(&self, resource_id: ResourceId) -> (r: Option<&R>)
        ensures
            match r {
                Some(v) => self.slots().contains_key(resource_id.0) && self.slots()[resource_id.0].value == Some(*v),
                None => !self.slots().contains_key(resource_id.0) || self.slots()[resource_id.0].value is None,
            },
    {
        match self.metas.get(&resource_id.0) {
            Some(meta) => match &meta.value {
                Some(v) => Some(v),
                None => None,
            },
            None => None,
        }
    }

    /// The ticks of resource `resource_id`, which must have a value.
    pub fn get_tick(&self, resource_id: ResourceId) -> (r: &ComponentTicks)
        requires
            self.slots().contains_key(resource_id.0),
            self.slots()[resource_id.0].value is Some,
        ensures
            *r == self.slots()[resource_id.0].tick,
    {
        &self.metas.get(&resource_id.0).unwrap().tick
    }

    /// Hands out the events of resource `resource_id`, oldest first, and
    /// forgets them.
    pub fn take_events(&mut self, resource_id: ResourceId) -> (r: Vec<Event>)
        ensures
            final(self).slots().dom() == old(self).slots().dom(),
            forall|k: usize| k != resource_id.0 && #[trigger] old(self).slots().contains_key(k)
                ==> final(self).slots()[k] == old(self).slots()[k],
            old(self).slots().contains_key(resource_id.0) ==> {
                let before = old(self).slots()[resource_id.0];
                let after = final(self).slots()[resource_id.0];
                &&& r@ == before.notify.emitted()
                &&& after.notify.emitted() == Seq::<Event>::empty()
                &&& after.value == before.value
                &&& after.tick == before.tick
            },
            !old(self).slots().contains_key(resource_id.0) ==> r@ == Seq::<Event>::empty(),
    {
        match self.metas.remove(&resource_id.0) {
            Some(mut meta) => {
                let r = meta.notify.take_events();
                self.metas.insert(resource_id.0, meta);
                proof {
                    assert(self.metas@.dom() =~= old(self).metas@.dom());
                }
                r
            },
            None => {
                proof {
                    assert(self.metas@ =~= old(self).metas@);
                }
                Vec::new()
            },
        }
    }
}

} // verus!
