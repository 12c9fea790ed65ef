//! Entities: an archetype id together with a key of the archetype's entity
//! store.
use vstd::prelude::*;
use std::marker::PhantomData;
use crate::storage::{Local, LocalVersion, Offset, two_pow_32};

verus! {

/// An entity: the archetype it belongs to and its key there.
#[derive(Clone, Copy, Hash, Eq, Ord, PartialEq, PartialOrd, Debug, Structural)]
pub struct Entity {
    pub archetype_id: Local,
    pub local: LocalVersion,
}

impl Entity {
    pub fn new(archetype_id: Local, local: LocalVersion) -> (r: Self)
        ensures
            r.archetype_id == archetype_id,
            r.local == local,
    {
        Entity { archetype_id, local }
    }

    pub fn archetype_id(&self) -> (r: Local)
        ensures
            r == self.archetype_id,
    {
        self.archetype_id
    }

    pub fn local(&self) -> (r: LocalVersion)
        ensures
            r == self.local,
    {
        self.local
    }

    /// The null entity: archetype 0 and the null key.
    pub open spec fn null_spec() -> Self {
        Entity { archetype_id: Local(0), local: LocalVersion(u64::MAX) }
    }

    /// The null entity: archetype 0 and the null key.
    pub fn null() -> (r: Self)
        ensures
            r == Self::null_spec(),
    {
        Entity { archetype_id: Local::new(0), local: LocalVersion::null() }
    }

    /// Whether the key of this entity is the null key.
    pub fn is_null(&self) -> (r: bool)
        ensures
            r == (self.local.raw() == LocalVersion::null_raw()),
    {
        self.local.is_null()
    }
}

impl Default for Entity {
    /// Archetype 0, key 0.
    fn default() -> (r: Self)
        ensures
            r.archetype_id.value() == 0,
            r.local.raw() == 0,
    {
        Entity { archetype_id: Local::new(0), local: LocalVersion::from_ffi(0) }
    }
}

/// The key of an entity of archetype `T`.
pub struct Id<T>(pub LocalVersion, pub PhantomData<T>);

impl<T> Id<T> {
    /// The id of the entity of archetype `T` with key `local_version`.
    pub fn new(local_version: LocalVersion) -> (r: Self)
        ensures
            r.0 == local_version,
    {
        Id(local_version, PhantomData)
    }

    /// The key of the entity.
    pub fn local(&self) -> (r: LocalVersion)
        ensures
            r == self.0,
    {
        self.0
    }

    /// The id holding the null key.
    pub fn null() -> (r: Self)
        ensures
            r.0.raw() == LocalVersion::null_raw(),
    {
        Id(LocalVersion::null(), PhantomData)
    }

    /// Whether this id holds the null key.
    pub fn is_null(&self) -> (r: bool)
        ensures
            r == (self.0.raw() == LocalVersion::null_raw()),
    {
        self.0.is_null()
    }
}

impl<T> Clone for Id<T> {
    fn clone(&self) -> (r: Self)
        ensures
            r.0 == self.0,
    {
        Id(self.0, PhantomData)
    }
}

impl<T> Offset for Id<T> {
    open spec fn offset_of(&self) -> nat {
        self.0.offset_of()
    }

    fn offset(&self) -> (r: usize) {
        self.0.offset()
    }
}

} // verus!

verus! {

use crate::monitor::{NotifyImpl, create_of, delete_of, Event};
use std::collections::VecDeque;

/// A slot of the entity store: a version (odd while occupied) and, while
/// occupied, the position of its key in the dense list of keys.
#[derive(Clone, Copy, Debug)]
pub struct Slot {
    pub version: u32,
    pub idx: u32,
}

/// The raw key of slot `index` at `version`.
pub open spec fn key_raw(index: nat, version: nat) -> nat {
    version * two_pow_32() + index
}

/// The sequence `s` after its element at `j` was replaced by its last element
/// and the last element dropped.
pub open spec fn swap_removed<A>(s: Seq<A>, j: int) -> Seq<A> {
    s.update(j, s.last()).drop_last()
}

/// The entities of one archetype. Keys of live entities are kept densely, in
/// insertion order apart from removals, which move the last key into the hole.
/// Keys can also be reserved ahead of time; reserved keys become live
/// together, in reservation order, at the next `flush`.
pub struct Entities {
    arch_id: Local,
    slots: Vec<Slot>,
    keys: Vec<LocalVersion>,
    free: VecDeque<u32>,
    reserved: u32,
    /// The creation and deletion events of entities.
    pub entity_listners: NotifyImpl,
}

impl Entities {
    /// The keys of the live entities, in iteration order.
    pub closed spec fn view(&self) -> Seq<LocalVersion> {
        self.keys@
    }

    /// The archetype these entities belong to.
    pub closed spec fn archetype(&self) -> Local {
        self.arch_id
    }

    /// The creation and deletion events emitted so far, oldest first.
    pub closed spec fn events(&self) -> Seq<Event> {
        self.entity_listners.emitted()
    }

    /// How many keys are reserved and not yet made live.
    pub closed spec fn reserved_count(&self) -> nat {
        self.reserved as nat
    }

    /// The version a slot gets when it is next occupied.
    pub open spec fn occupied_version(v: u32) -> nat {
        v as nat + 1
    }

    /// The `n`-th reserved key: reservations take the free slots first, in
    /// the order they were freed, then fresh slots after the last one.
    pub closed spec fn pending_raw(&self, n: nat) -> nat {
        if n < self.free@.len() {
            key_raw(self.free@[n as int] as nat, Self::occupied_version(self.slots@[self.free@[n as int] as int].version))
        } else {
            key_raw((self.slots@.len() + (n - self.free@.len())) as nat, 1)
        }
    }

    /// The keys reserved and not yet made live, in reservation order.
    pub closed spec fn pending(&self) -> Seq<nat> {
        Seq::new(self.reserved as nat, |n: int| self.pending_raw(n as nat))
    }

    /// The `n`-th key to be handed out can be made: it takes a free slot, or
    /// a fresh slot whose index still fits in a key.
    pub closed spec fn producible(&self, n: nat) -> bool {
        n < self.free@.len() || self.slots@.len() + (n - self.free@.len()) < u32::MAX
    }

    /// The key that the next reservation returns.
    pub closed spec fn next_reservation(&self) -> nat {
        self.pending_raw(self.reserved as nat)
    }

    /// Whether a fresh key can still be made (the store holds at most
    /// `2^32 - 2` slots, as keys carry a 32-bit index).
    pub closed spec fn has_room(&self) -> bool {
        &&& self.keys@.len() + 1 < u32::MAX
        &&& (self.free@.len() == 0 ==> self.slots@.len() + 1 < u32::MAX)
    }

    /// Whether another key can be reserved.
    pub closed spec fn can_reserve(&self) -> bool {
        &&& self.keys@.len() + self.reserved + 1 < u32::MAX
        &&& self.slots@.len() + self.reserved + 1 < u32::MAX
        &&& self.reserved + 1 < u32::MAX
    }

    pub closed spec fn wf(&self) -> bool {
        &&& 1 <= self.slots@.len() < u32::MAX
        &&& self.slots@[0].version % 2 == 0
        &&& self.keys@.len() < u32::MAX
        &&& forall|j: int| 0 <= j < self.keys@.len() ==> {
            let raw = #[trigger] self.keys@[j].raw();
            let i = LocalVersion::index_of(raw);
            &&& 1 <= i < self.slots@.len()
            &&& self.slots@[i as int].version % 2 == 1
            &&& self.slots@[i as int].version == LocalVersion::version_of(raw)
            &&& self.slots@[i as int].idx == j
        }
        &&& forall|i: int| 1 <= i < self.slots@.len() && #[trigger] self.slots@[i].version % 2 == 1 ==> {
            &&& (self.slots@[i].idx as int) < self.keys@.len()
            &&& LocalVersion::index_of(self.keys@[self.slots@[i].idx as int].raw()) == i
        }
        &&& forall|p: int| 0 <= p < self.free@.len() ==> {
            &&& 1 <= #[trigger] self.free@[p] < self.slots@.len()
            &&& self.slots@[self.free@[p] as int].version % 2 == 0
        }
        &&& forall|p: int, q: int| 0 <= p < q < self.free@.len() ==> self.free@[p] != self.free@[q]
        &&& self.slots@.len() + self.reserved < u32::MAX
        &&& self.keys@.len() + self.reserved < u32::MAX
    }

    proof fn lemma_key_parts(index: nat, version: nat)
        requires
            index < two_pow_32(),
        ensures
            key_raw(index, version) % two_pow_32() == index,
            key_raw(index, version) / two_pow_32() == version,
    {
        vstd::arithmetic::div_mod::lemma_fundamental_div_mod_converse(
            key_raw(index, version) as int, two_pow_32() as int, version as int, index as int);
    }

    /// A key is live exactly when its slot is occupied at its version.
    proof fn lemma_contains(&self, k: LocalVersion)
        requires
            self.wf(),
        ensures
            self.keys@.contains(k) <==> {
                let i = LocalVersion::index_of(k.raw());
                &&& i < self.slots@.len()
                &&& self.slots@[i as int].version % 2 == 1
                &&& self.slots@[i as int].version == LocalVersion::version_of(k.raw())
            },
    {
        let i = LocalVersion::index_of(k.raw());
        if i < self.slots@.len() && self.slots@[i as int].version % 2 == 1
            && self.slots@[i as int].version == LocalVersion::version_of(k.raw()) {
            if i == 0 {
            } else {
                let j = self.slots@[i as int].idx as int;
                assert(self.slots@[i as int].version % 2 == 1);
                let k2 = self.keys@[j];
                assert(LocalVersion::index_of(k2.raw()) == i);
                vstd::arithmetic::div_mod::lemma_fundamental_div_mod(k.raw() as int, two_pow_32() as int);
                vstd::arithmetic::div_mod::lemma_fundamental_div_mod(k2.raw() as int, two_pow_32() as int);
                assert(k2.raw() == k.raw());
                assert(k2 == k);
                assert(self.keys@[j] == k);
            }
        }
        if self.keys@.contains(k) {
            let j = choose|j: int| 0 <= j < self.keys@.len() && self.keys@[j] == k;
            assert(self.keys@[j].raw() == k.raw());
        }
    }

    /// An empty entity store for archetype `arch_id`.
    pub fn new(arch_id: Local) -> (r: Self)
        ensures
            r.wf(),
            r.view() == Seq::<LocalVersion>::empty(),
            r.archetype() == arch_id,
            r.reserved_count() == 0,
            r.events() == Seq::<Event>::empty(),
    {
        let mut slots: Vec<Slot> = Vec::new();
        slots.push(Slot { version: 0, idx: 0 });
        Entities {
            arch_id,
            slots,
            keys: Vec::new(),
            free: VecDeque::new(),
            reserved: 0,
            entity_listners: NotifyImpl::new(),
        }
    }

    /// Hands out the creation and deletion events emitted so far, oldest
    /// first, and forgets them; the entities themselves are unchanged.
    pub fn take_events(&mut self) -> (r: Vec<Event>)
        ensures
            r@ == old(self).events(),
            final(self).events() == Seq::<Event>::empty(),
            final(self).wf() == old(self).wf(),
            final(self).view() == old(self).view(),
            final(self).archetype() == old(self).archetype(),
            final(self).reserved_count() == old(self).reserved_count(),
            final(self).pending() == old(self).pending(),
            final(self).next_reservation() == old(self).next_reservation(),
            final(self).has_room() == old(self).has_room(),
            final(self).can_reserve() == old(self).can_reserve(),
    {
        let r = self.entity_listners.take_events();
        proof {
            assert(self.slots@ == old(self).slots@);
            assert(self.keys@ == old(self).keys@);
            assert(self.free@ == old(self).free@);
            assert(self.wf() == old(self).wf());
        }
        r
    }

    /// The number of live entities.
    pub fn len(&self) -> (r: usize)
        requires
            self.wf(),
        ensures
            r == self.view().len(),
    {
        self.keys.len()
    }

    /// Whether no entity is live.
    pub fn is_empty(&self) -> (r: bool)
        requires
            self.wf(),
        ensures
            r == (self.view().len() == 0),
    {
        self.keys.len() == 0
    }

    /// The keys of the live entities, in iteration order.
    pub fn keys(&self) -> (r: &Vec<LocalVersion>)
        ensures
            r@ == self.view(),
    {
        &self.keys
    }

    /// Whether `local` is the key of a live entity.
    pub fn contains_key(&self, local: LocalVersion) -> (r: bool)
        requires
            self.wf(),
        ensures
            r == self.view().contains(local),
    {
        proof { self.lemma_contains(local); }
        let i = local.offset();
        let raw = local.as_ffi();
        let v: u64 = raw / 0x1_0000_0000u64;
        if i < self.slots.len() {
            let slot = self.slots[i];
            slot.version % 2 == 1 && slot.version as u64 == v
        } else {
            false
        }
    }

    proof fn lemma_set_low_bit(v: u32)
        requires
            v % 2 == 0,
        ensures
            v | 1 == v + 1,
    {
        assert(v % 2 == 0 ==> v | 1 == v + 1) by (bit_vector);
    }

    /// Live keys are distinct.
    pub proof fn lemma_keys_distinct(&self)
        requires
            self.wf(),
        ensures
            self.view().no_duplicates(),
    {
        assert forall|p: int, q: int| 0 <= p < self.keys@.len() && 0 <= q < self.keys@.len() && p != q
            implies self.keys@[p] != self.keys@[q] by {
            let rp = self.keys@[p].raw();
            let rq = self.keys@[q].raw();
            if self.keys@[p] == self.keys@[q] {
                assert(rp == rq);
            }
        }
    }

    /// Makes the next key live, taking the oldest free slot if there is one.
    fn insert_key(&mut self) -> (r: LocalVersion)
        requires
            old(self).wf(),
            old(self).has_room(),
            old(self).reserved == 0,
        ensures
            final(self).wf(),
            !old(self).view().contains(r),
            final(self).view() == old(self).view().push(r),
            r.raw() as nat == old(self).pending_raw(0),
            forall|m: nat| #[trigger] final(self).pending_raw(m) == old(self).pending_raw(m + 1),
            final(self).slots@.len() <= old(self).slots@.len() + 1,
            final(self).arch_id == old(self).arch_id,
            final(self).reserved == old(self).reserved,
            final(self).entity_listners == old(self).entity_listners,
    {
        proof {
            self.lemma_keys_distinct();
        }
        if self.free.len() > 0 {
            let idx = self.free[0];
            let v = self.slots[idx as usize].version;
            proof { Self::lemma_set_low_bit(v); }
            let occ = v | 1;
            let key = LocalVersion::new(idx, occ);
            proof {
                self.lemma_contains(key);
                Self::lemma_key_parts(idx as nat, occ as nat);
            }
            let ghost old_self = *self;
            self.keys.push(key);
            self.free.pop_front();
            let pos = (self.keys.len() - 1) as u32;
            self.slots.set(idx as usize, Slot { version: occ, idx: pos });
            proof {
                assert forall|p: int| 0 <= p < self.free@.len() implies {
                    &&& 1 <= #[trigger] self.free@[p] < self.slots@.len()
                    &&& self.slots@[self.free@[p] as int].version % 2 == 0
                } by {
                    assert(self.free@[p] == old_self.free@[p + 1]);
                    assert(old_self.free@[0] != old_self.free@[p + 1]);
                }
                assert forall|j: int| 0 <= j < self.keys@.len() implies {
                    let raw = #[trigger] self.keys@[j].raw();
                    let i = LocalVersion::index_of(raw);
                    &&& 1 <= i < self.slots@.len()
                    &&& self.slots@[i as int].version % 2 == 1
                    &&& self.slots@[i as int].version == LocalVersion::version_of(raw)
                    &&& self.slots@[i as int].idx == j
                } by {
                    if j < old_self.keys@.len() {
                        assert(self.keys@[j] == old_self.keys@[j]);
                        assert(old_self.keys@[j].raw() == self.keys@[j].raw());
                    }
                }
                assert forall|i: int| 1 <= i < self.slots@.len() && #[trigger] self.slots@[i].version % 2 == 1 implies {
                    &&& (self.slots@[i].idx as int) < self.keys@.len()
                    &&& LocalVersion::index_of(self.keys@[self.slots@[i].idx as int].raw()) == i
                } by {
                    if i != idx as int {
                        assert(old_self.slots@[i] == self.slots@[i]);
                        assert(self.keys@[self.slots@[i].idx as int] == old_self.keys@[old_self.slots@[i].idx as int]);
                    }
                }
                assert forall|p: int, q: int| 0 <= p < q < self.free@.len() implies self.free@[p] != self.free@[q] by {
                    assert(self.free@[p] == old_self.free@[p + 1]);
                    assert(self.free@[q] == old_self.free@[q + 1]);
                }
                assert(self.slots@[0] == old_self.slots@[0]);
                assert forall|m: nat| #[trigger] self.pending_raw(m) == old_self.pending_raw(m + 1) by {
                    if m < self.free@.len() {
                        assert(self.free@[m as int] == old_self.free@[m as int + 1]);
                        assert(old_self.free@[0] != old_self.free@[m as int + 1]);
                    }
                }
            }
            key
        } else {
            let n = self.slots.len() as u32;
            let key = LocalVersion::new(n, 1);
            proof {
                self.lemma_contains(key);
                Self::lemma_key_parts(n as nat, 1);
            }
            let ghost old_self = *self;
            self.keys.push(key);
            let pos = (self.keys.len() - 1) as u32;
            self.slots.push(Slot { version: 1, idx: pos });
            proof {
                assert forall|j: int| 0 <= j < self.keys@.len() implies {
                    let raw = #[trigger] self.keys@[j].raw();
                    let i = LocalVersion::index_of(raw);
                    &&& 1 <= i < self.slots@.len()
                    &&& self.slots@[i as int].version % 2 == 1
                    &&& self.slots@[i as int].version == LocalVersion::version_of(raw)
                    &&& self.slots@[i as int].idx == j
                } by {
                    if j < old_self.keys@.len() {
                        assert(self.keys@[j] == old_self.keys@[j]);
                        assert(old_self.keys@[j].raw() == self.keys@[j].raw());
                    }
                }
                assert forall|i: int| 1 <= i < self.slots@.len() && #[trigger] self.slots@[i].version % 2 == 1 implies {
                    &&& (self.slots@[i].idx as int) < self.keys@.len()
                    &&& LocalVersion::index_of(self.keys@[self.slots@[i].idx as int].raw()) == i
                } by {
                    if i < old_self.slots@.len() {
                        assert(old_self.slots@[i] == self.slots@[i]);
                        assert(self.keys@[self.slots@[i].idx as int] == old_self.keys@[old_self.slots@[i].idx as int]);
                    }
                }
                assert forall|p: int| 0 <= p < self.free@.len() implies {
                    &&& 1 <= #[trigger] self.free@[p] < self.slots@.len()
                    &&& self.slots@[self.free@[p] as int].version % 2 == 0
                } by {
                    assert(self.slots@[self.free@[p] as int] == old_self.slots@[old_self.free@[p] as int]);
                }
            }
            key
        }
    }

    /// Makes a new entity live and emits its creation. Needs every reserved
    /// key to have been made live first (see `flush`).
    pub fn insert(&mut self) -> (r: LocalVersion)
        requires
            old(self).wf(),
            old(self).has_room(),
            old(self).reserved_count() == 0,
        ensures
            final(self).wf(),
            !old(self).view().contains(r),
            final(self).view() == old(self).view().push(r),
            r.raw() as nat == old(self).next_reservation(),
            final(self).archetype() == old(self).archetype(),
            final(self).reserved_count() == 0,
            final(self).events() == old(self).events().push(create_of(Entity { archetype_id: old(self).archetype(), local: r })),
    {
        let local = self.insert_key();
        self.entity_listners.create_event(Entity::new(self.arch_id, local));
        local
    }

    /// Removes the entity `local` if it is live, emitting its deletion; the
    /// last key takes its place in the iteration order. Needs every reserved
    /// key to have been made live first (see `flush`).
    pub fn remove(&mut self, local: LocalVersion) -> (r: Option<()>)
        requires
            old(self).wf(),
            old(self).reserved_count() == 0,
        ensures
            final(self).wf(),
            final(self).archetype() == old(self).archetype(),
            final(self).reserved_count() == 0,
            r is Some <==> old(self).view().contains(local),
            old(self).view().contains(local) ==> {
                &&& final(self).view() == swap_removed(old(self).view(), old(self).view().index_of(local))
                &&& final(self).events() == old(self).events().push(delete_of(Entity { archetype_id: old(self).archetype(), local }))
                &&& final(self).producible(0)
                &&& final(self).next_reservation() != local.raw()
                &&& forall|n: nat| #[trigger] final(self).producible(n) ==> final(self).pending_raw(n) != local.raw()
            },
            !old(self).view().contains(local) ==> {
                &&& final(self).view() == old(self).view()
                &&& final(self).events() == old(self).events()
            },
    {
        proof {
            self.lemma_contains(local);
            self.lemma_keys_distinct();
        }
        if self.contains_key(local) {
            self.entity_listners.delete_event(Entity::new(self.arch_id, local));
            let i = local.offset();
            let slot = self.slots[i];
            let value_idx = slot.idx;
            let ghost old_self = *self;
            proof {
                assert(LocalVersion::index_of(self.keys@[value_idx as int].raw()) == i);
                vstd::arithmetic::div_mod::lemma_fundamental_div_mod(local.raw() as int, two_pow_32() as int);
                vstd::arithmetic::div_mod::lemma_fundamental_div_mod(self.keys@[value_idx as int].raw() as int, two_pow_32() as int);
                assert(self.keys@[value_idx as int].raw() == local.raw());
                assert(self.keys@[value_idx as int] == local);
                assert(self.keys@.index_of(local) == value_idx as int);
            }
            let freed = slot.version.wrapping_add(1);
            assert(freed % 2 == 0) by {
                if slot.version == u32::MAX {
                } else {
                }
            }
            #[verifier::truncate]
            let free_pos = self.free.len() as u32;
            self.slots.set(i, Slot { version: freed, idx: free_pos });
            self.free.push_back(i as u32);
            let ghost mid_slots = self.slots@;
            let last = self.keys.len() - 1;
            let moved = self.keys[last];
            self.keys.swap_remove(value_idx as usize);
            proof {
                assert(self.keys@ == swap_removed(old_self.keys@, value_idx as int));
            }
            let mi = moved.offset();
            proof {
                assert(old_self.keys@[last as int] == moved);
                assert(old_self.keys@[last as int].raw() == moved.raw());
            }
            if (value_idx as usize) < self.keys.len() {
                let ms = self.slots[mi];
                self.slots.set(mi, Slot { version: ms.version, idx: value_idx });
            }
            proof {
                let kl = old_self.keys@;
                assert(LocalVersion::index_of(kl[last as int].raw()) == mi);
                assert(old_self.slots@[mi as int].idx == last);
                assert forall|j: int| 0 <= j < self.keys@.len() implies {
                    let raw = #[trigger] self.keys@[j].raw();
                    let ii = LocalVersion::index_of(raw);
                    &&& 1 <= ii < self.slots@.len()
                    &&& self.slots@[ii as int].version % 2 == 1
                    &&& self.slots@[ii as int].version == LocalVersion::version_of(raw)
                    &&& self.slots@[ii as int].idx == j
                } by {
                    if j == value_idx as int {
                        assert(self.keys@[j] == kl[last as int]);
                        assert(kl[last as int].raw() == self.keys@[j].raw());
                        assert(mi != i) by {
                            assert(old_self.slots@[i as int].idx == value_idx);
                        }
                    } else {
                        assert(self.keys@[j] == kl[j]);
                        assert(kl[j].raw() == self.keys@[j].raw());
                        let ij = LocalVersion::index_of(kl[j].raw());
                        assert(old_self.slots@[ij as int].idx == j);
                        assert(ij != i);
                        assert(ij != mi);
                    }
                }
                assert forall|ii: int| 1 <= ii < self.slots@.len() && #[trigger] self.slots@[ii].version % 2 == 1 implies {
                    &&& (self.slots@[ii].idx as int) < self.keys@.len()
                    &&& LocalVersion::index_of(self.keys@[self.slots@[ii].idx as int].raw()) == ii
                } by {
                    assert(ii != i);
                    if ii == mi as int && (value_idx as usize) < self.keys@.len() {
                        assert(self.keys@[value_idx as int] == kl[last as int]);
                    } else {
                        assert(self.slots@[ii] == old_self.slots@[ii]);
                        let q = old_self.slots@[ii].idx as int;
                        assert(LocalVersion::index_of(kl[q].raw()) == ii);
                        assert(q != value_idx as int);
                        if q == last as int {
                            assert(ii == mi as int);
                        }
                        assert(self.keys@[q] == kl[q]);
                    }
                }
                assert forall|p: int| 0 <= p < self.free@.len() implies {
                    &&& 1 <= #[trigger] self.free@[p] < self.slots@.len()
                    &&& self.slots@[self.free@[p] as int].version % 2 == 0
                } by {
                    if p < old_self.free@.len() {
                        assert(self.free@[p] == old_self.free@[p]);
                        assert(self.free@[p] != i as u32);
                        assert(self.free@[p] as int != mi as int);
                    }
                }
                assert forall|p: int, q: int| 0 <= p < q < self.free@.len() implies self.free@[p] != self.free@[q] by {
                    if q == old_self.free@.len() {
                        assert(old_self.slots@[old_self.free@[p] as int].version % 2 == 0);
                    }
                }
                assert(self.slots@[0] == old_self.slots@[0]);
                self.lemma_removed_not_upcoming(old_self, local, i, slot.version, freed);
            }
            Some(())
        } else {
            None
        }
    }

    /// After the slot `i` of key `local` (at version `v`) was freed with
    /// version `freed` and queued last, no key the store can hand out next
    /// is `local`.
    proof fn lemma_removed_not_upcoming(&self, before: Entities, local: LocalVersion, i: usize, v: u32, freed: u32)
        requires
            before.wf(),
            self.reserved == 0,
            self.free@ == before.free@.push(i as u32),
            self.slots@.len() == before.slots@.len(),
            forall|j: int| 0 <= j < before.free@.len() ==> self.slots@[before.free@[j] as int] == #[trigger] before.slots@[before.free@[j] as int],
            self.slots@[i as int].version == freed,
            freed == v.wrapping_add(1),
            v % 2 == 1,
            before.slots@[i as int].version == v,
            1 <= i < before.slots@.len(),
            LocalVersion::index_of(local.raw()) == i,
            LocalVersion::version_of(local.raw()) == v,
        ensures
            self.producible(0),
            self.next_reservation() != local.raw(),
            forall|n: nat| #[trigger] self.producible(n) ==> self.pending_raw(n) != local.raw(),
    {
        vstd::arithmetic::div_mod::lemma_fundamental_div_mod(local.raw() as int, two_pow_32() as int);
        assert forall|n: nat| #[trigger] self.producible(n) implies self.pending_raw(n) != local.raw() by {
            if n < self.free@.len() {
                let j = self.free@[n as int];
                let ver = Self::occupied_version(self.slots@[j as int].version);
                Self::lemma_key_parts(j as nat, ver);
                if n < before.free@.len() {
                    assert(before.free@[n as int] == j);
                    assert(before.slots@[j as int].version % 2 == 0);
                    assert(j as int != i as int);
                } else {
                    assert(j == i as u32);
                    assert(ver != v as nat) by {
                        if v == u32::MAX {
                            assert(freed == 0);
                        } else {
                            assert(freed == v + 1);
                        }
                    }
                }
            } else {
                let index = (self.slots@.len() + (n - self.free@.len())) as nat;
                Self::lemma_key_parts(index, 1);
                assert(index != i as nat);
            }
        }
        assert(self.producible(0));
        assert(self.next_reservation() == self.pending_raw(0));
    }

    /// Reserves a key for an entity to be made live by the next `flush`.
    pub fn reserve_entity(&mut self) -> (r: LocalVersion)
        requires
            old(self).wf(),
            old(self).can_reserve(),
        ensures
            final(self).wf(),
            r.raw() as nat == old(self).next_reservation(),
            final(self).pending() == old(self).pending().push(r.raw() as nat),
            final(self).reserved_count() == old(self).reserved_count() + 1,
            final(self).view() == old(self).view(),
            final(self).archetype() == old(self).archetype(),
            final(self).events() == old(self).events(),
    {
        let n = self.reserved;
        let key = if (n as usize) < self.free.len() {
            let id = self.free[n as usize];
            let v = self.slots[id as usize].version;
            proof { Self::lemma_set_low_bit(v); }
            LocalVersion::new(id, v | 1)
        } else {
            let index = (self.slots.len() + (n as usize - self.free.len())) as u32;
            LocalVersion::new(index, 1)
        };
        self.reserved = n + 1;
        proof {
            assert(self.pending() =~= old(self).pending().push(key.raw() as nat));
        }
        key
    }

    /// Makes every reserved key live, in reservation order, emitting their
    /// creations; returns them.
    pub fn flush(&mut self) -> (r: Vec<LocalVersion>)
        requires
            old(self).wf(),
        ensures
            final(self).wf(),
            r@.len() == old(self).reserved_count(),
            forall|n: int| 0 <= n < r@.len() ==> #[trigger] r@[n].raw() as nat == old(self).pending()[n],
            final(self).view() == old(self).view() + r@,
            final(self).reserved_count() == 0,
            final(self).archetype() == old(self).archetype(),
            final(self).events() == old(self).events() + r@.map_values(|k: LocalVersion| create_of(Entity { archetype_id: old(self).archetype(), local: k })),
    {
        let total = self.reserved;
        let ghost start = *self;
        self.reserved = 0;
        let mut out: Vec<LocalVersion> = Vec::new();
        let mut n: u32 = 0;
        while n < total
            invariant
                self.wf(),
                0 <= n <= total,
                total == start.reserved,
                self.reserved == 0,
                self.arch_id == start.arch_id,
                out@.len() == n,
                forall|k: int| 0 <= k < n ==> #[trigger] out@[k].raw() as nat == start.pending_raw(k as nat),
                self.keys@ == start.keys@ + out@,
                forall|m: nat| #[trigger] self.pending_raw(m) == start.pending_raw(m + n as nat),
                self.slots@.len() + (total - n) < u32::MAX,
                self.keys@.len() + (total - n) < u32::MAX,
                self.slots@.len() <= start.slots@.len() + n,
                start.wf(),
                self.entity_listners.emitted() == start.entity_listners.emitted() + out@.map_values(|k: LocalVersion| create_of(Entity { archetype_id: start.arch_id, local: k })),
            decreases total - n,
        {
            proof {
                assert(self.pending_raw(0) == start.pending_raw(n as nat));
            }
            let ghost before = *self;
            let local = self.insert_key();
            let ghost mid = *self;
            self.entity_listners.create_event(Entity::new(self.arch_id, local));
            out.push(local);
            n = n + 1;
            proof {
                assert forall|m: nat| #[trigger] self.pending_raw(m) == start.pending_raw(m + n as nat) by {
                    assert(mid.pending_raw(m) == before.pending_raw(m + 1));
                    assert(self.pending_raw(m) == mid.pending_raw(m));
                    assert(before.pending_raw(m + 1) == start.pending_raw((m + 1) + (n - 1) as nat));
                }
            }
        }
        proof {
            assert(self.keys@ == start.keys@ + out@);
        }
        out
    }

}

} // verus!

verus! {

/// A key handed out by `reserve_entity` is live after the next `flush`, and
/// the entities live before stay live.
pub proof fn law_reserved_becomes_live(e0: Entities, e1: Entities, k: LocalVersion, e2: Entities, flushed: Seq<LocalVersion>)
    requires
        e1.pending() == e0.pending().push(k.raw() as nat),
        flushed.len() == e1.reserved_count(),
        forall|n: int| 0 <= n < flushed.len() ==> #[trigger] flushed[n].raw() as nat == e1.pending()[n],
        e2.view() == e1.view() + flushed,
        e1.view() == e0.view(),
    ensures
        e2.view().contains(k),
        forall|other: LocalVersion| #[trigger] e0.view().contains(other) ==> e2.view().contains(other),
{
    let n = e1.pending().len() - 1;
    assert(e1.pending().len() == e1.reserved_count());
    assert(flushed[n].raw() as nat == k.raw() as nat);
    assert(flushed[n] == k);
    assert(e2.view()[e1.view().len() + n] == k);
    assert forall|other: LocalVersion| #[trigger] e0.view().contains(other) implies e2.view().contains(other) by {
        let i = choose|i: int| 0 <= i < e0.view().len() && e0.view()[i] == other;
        assert(e2.view()[i] == other);
    }
}

} // verus!
