//! Command queues: changes to the world that a system records while it runs
//! and that are applied, in the order recorded, once its stage has run.
use vstd::prelude::*;
use std::marker::PhantomData;
use crate::archetype::{ArchetypeId, insert_outcome, remove_component_outcome, remove_entity_outcome, flush_entities_outcome};
use crate::component::ComponentId;
use crate::entity::{Entity, Id};
use crate::world::World;
use crate::storage::LocalVersion;

verus! {

/// The world is as before but for archetype `a`, and it keeps its registries,
/// resources and tick.
pub open spec fn only_archetype_changed<V, R>(w0: World<V, R>, w1: World<V, R>, a: ArchetypeId) -> bool {
    &&& w1.archetype_table().same_but(&w0.archetype_table(), a.0 as int)
    &&& w1.registry() == w0.registry()
    &&& w1.resource_table() == w0.resource_table()
    &&& w1.tick() == w0.tick()
}

/// From `w0` to `w1`, the reserved entities of archetype `a` were made live,
/// and nothing else changed.
pub open spec fn flushed_world<V, R>(w0: World<V, R>, w1: World<V, R>, a: ArchetypeId) -> bool {
    &&& only_archetype_changed(w0, w1, a)
    &&& exists|r: Seq<LocalVersion>| #[trigger] flush_entities_outcome(
        w0.archetype_table().view()[a.0 as int], w1.archetype_table().view()[a.0 as int], r)
}

/// Removing entity `local` of archetype `a`, from `w0` to `w1`.
pub open spec fn entity_deleted<V, R>(w0: World<V, R>, w1: World<V, R>, a: ArchetypeId, local: LocalVersion) -> bool {
    remove_entity_outcome(w0.archetype_table().view()[a.0 as int], w1.archetype_table().view()[a.0 as int], local)
}

/// Setting the component of type `t` of entity `local` of archetype `a` to
/// `value`, from `w0` to `w1`.
pub open spec fn component_inserted<V, R>(w0: World<V, R>, w1: World<V, R>, a: ArchetypeId, t: ComponentId, local: LocalVersion, value: V) -> bool {
    exists|r: Option<V>| #[trigger] insert_outcome(w0.archetype_table().view()[a.0 as int],
        w1.archetype_table().view()[a.0 as int], local, value, t, w0.tick(), r)
}

/// Dropping the component of type `t` of entity `local` of archetype `a`,
/// from `w0` to `w1`.
pub open spec fn component_deleted<V, R>(w0: World<V, R>, w1: World<V, R>, a: ArchetypeId, t: ComponentId, local: LocalVersion) -> bool {
    remove_component_outcome(w0.archetype_table().view()[a.0 as int], w1.archetype_table().view()[a.0 as int], local, t)
}

/// What a command does to an entity.
pub enum CommandKind<V> {
    /// Removes the entity, with its components.
    DeleteEntity(LocalVersion),
    /// Sets a component of the entity.
    InsertComponent(LocalVersion, V),
    /// Drops a component of the entity.
    DeleteComponent(LocalVersion),
}

/// What applying a command of kind `k` to archetype `a` and component type
/// `t` does, from `w0` to `w1`.
pub open spec fn command_effect<V, R>(k: CommandKind<V>, w0: World<V, R>, w1: World<V, R>, a: ArchetypeId, t: ComponentId) -> bool {
    match k {
        CommandKind::DeleteEntity(local) => entity_deleted(w0, w1, a, local),
        CommandKind::InsertComponent(local, value) => component_inserted(w0, w1, a, t, local, value),
        CommandKind::DeleteComponent(local) => component_deleted(w0, w1, a, t, local),
    }
}

/// Applies a command of kind `k` to archetype `arch_id` and component type
/// `type_id`.
pub fn apply_command<V, R>(world: &mut World<V, R>, k: CommandKind<V>, arch_id: ArchetypeId, type_id: ComponentId)
    requires
        old(world).wf(),
        (arch_id.0 as int) < old(world).archetype_table().view().len(),
        old(world).archetype_table().view()[arch_id.0 as int].entity_store().reserved_count() == 0,
    ensures
        final(world).wf(),
        only_archetype_changed(*old(world), *final(world), arch_id),
        final(world).archetype_table().view()[arch_id.0 as int].entity_store().reserved_count() == 0,
        command_effect(k, *old(world), *final(world), arch_id, type_id),
{
    match k {
        CommandKind::DeleteEntity(local) => {
            world.despawn(Entity::new(arch_id, local));
        },
        CommandKind::InsertComponent(local, value) => {
            let r = world.insert_component_by_id(arch_id, local, value, type_id);
            proof {
                assert(insert_outcome(old(world).archetype_table().view()[arch_id.0 as int],
                    world.archetype_table().view()[arch_id.0 as int], local, value, type_id, old(world).tick(), r));
            }
        },
        CommandKind::DeleteComponent(local) => {
            world.remove_component_by_id(arch_id, local, type_id);
        },
    }
}

/// The worlds `ws` are the successive states of applying `kinds` in order.
pub open spec fn applied_in_order<V, R>(kinds: Seq<CommandKind<V>>, ws: Seq<World<V, R>>, arch_id: ArchetypeId, type_id: ComponentId) -> bool {
    &&& ws.len() == kinds.len() + 1
    &&& forall|j: int| 0 <= j < kinds.len() ==> #[trigger] command_effect(kinds[j], ws[j], ws[j + 1], arch_id, type_id)
}

/// Applies `kinds` in order to archetype `arch_id` and component type
/// `type_id`.
pub fn apply_all<V, R>(world: &mut World<V, R>, kinds: Vec<CommandKind<V>>, arch_id: ArchetypeId, type_id: ComponentId)
    requires
        old(world).wf(),
        (arch_id.0 as int) < old(world).archetype_table().view().len(),
        old(world).archetype_table().view()[arch_id.0 as int].entity_store().reserved_count() == 0,
    ensures
        final(world).wf(),
        final(world).archetype_table().view().len() == old(world).archetype_table().view().len(),
        final(world).archetype_table().view()[arch_id.0 as int].entity_store().reserved_count() == 0,
        final(world).registry() == old(world).registry(),
        final(world).resource_table() == old(world).resource_table(),
        final(world).tick() == old(world).tick(),
        exists|ws: Seq<World<V, R>>| {
            &&& #[trigger] applied_in_order(kinds@, ws, arch_id, type_id)
            &&& ws[0] == *old(world)
            &&& ws.last() == *final(world)
        },
{
    let ghost cmds = kinds@;
    let ghost n = cmds.len() as int;
    let mut list = kinds;
    let mut rev: Vec<CommandKind<V>> = Vec::new();
    while list.len() > 0
        invariant
            n == cmds.len(),
            list@ == cmds.subrange(0, n - rev@.len()),
            rev@.len() <= n,
            forall|k: int| 0 <= k < rev@.len() ==> #[trigger] rev@[k] == cmds[n - 1 - k],
        decreases list@.len(),
    {
        let ghost l0 = list@;
        let ghost r0 = rev@;
        let c = list.pop().unwrap();
        rev.push(c);
        proof {
            assert(l0 == cmds.subrange(0, n - r0.len()));
            assert(c == l0[l0.len() - 1]);
            assert(rev@.len() == r0.len() + 1);
            assert(list@ == l0.subrange(0, l0.len() - 1));
            assert(list@ =~= cmds.subrange(0, n - rev@.len()));
            assert forall|k: int| 0 <= k < rev@.len() implies #[trigger] rev@[k] == cmds[n - 1 - k] by {
                if k < r0.len() {
                    assert(rev@[k] == r0[k]);
                }
            }
        }
    }
    let ghost mut ws: Seq<World<V, R>> = seq![*world];
    let ghost w0 = *world;
    while rev.len() > 0
        invariant
            world.wf(),
            (arch_id.0 as int) < world.archetype_table().view().len(),
            world.archetype_table().view().len() == w0.archetype_table().view().len(),
            world.archetype_table().view()[arch_id.0 as int].entity_store().reserved_count() == 0,
            world.registry() == w0.registry(),
            world.resource_table() == w0.resource_table(),
            world.tick() == w0.tick(),
            w0 == *old(world),
            n == cmds.len(),
            rev@.len() <= n,
            forall|k: int| 0 <= k < rev@.len() ==> #[trigger] rev@[k] == cmds[n - 1 - k],
            ws.len() == n - rev@.len() + 1,
            ws[0] == w0,
            ws.last() == *world,
            forall|j: int| 0 <= j < n - rev@.len() ==> #[trigger] command_effect(cmds[j], ws[j], ws[j + 1], arch_id, type_id),
        decreases rev@.len(),
    {
        let ghost i = n - rev@.len();
        let c = rev.pop().unwrap();
        proof {
            assert(c == cmds[i]);
        }
        let ghost before = *world;
        apply_command(world, c, arch_id, type_id);
        proof {
            ws = ws.push(*world);
            assert forall|j: int| 0 <= j < n - rev@.len() implies #[trigger] command_effect(cmds[j], ws[j], ws[j + 1], arch_id, type_id) by {
                if j < i {
                    assert(ws[j] == ws.drop_last()[j]);
                    assert(ws[j + 1] == ws.drop_last()[j + 1]);
                } else {
                    assert(ws[j] == before);
                }
            }
        }
    }
    proof {
        assert(applied_in_order(cmds, ws, arch_id, type_id));
    }
}

/// A recorded change to one entity.
pub trait Command<V>: Sized {
    /// What the command does.
    spec fn kind(&self) -> CommandKind<V>;

    /// What the command does.
    fn into_kind(self) -> (r: CommandKind<V>)
        ensures
            r == self.kind();
}

/// Removes an entity, with its components.
pub struct EntityDelete<A>(pub Id<A>);

impl<V, A> Command<V> for EntityDelete<A> {
    open spec fn kind(&self) -> CommandKind<V> {
        CommandKind::DeleteEntity(self.0.0)
    }

    fn into_kind(self) -> (r: CommandKind<V>) {
        CommandKind::DeleteEntity(self.0.0)
    }
}

/// Sets a component of an entity, at the tick of the world.
pub struct ComponentInsert<A, T>(pub Id<A>, pub T);

impl<A, V> Command<V> for ComponentInsert<A, V> {
    open spec fn kind(&self) -> CommandKind<V> {
        CommandKind::InsertComponent(self.0.0, self.1)
    }

    fn into_kind(self) -> (r: CommandKind<V>) {
        let ComponentInsert(id, value) = self;
        CommandKind::InsertComponent(id.0, value)
    }
}

/// Drops a component of an entity.
pub struct ComponentDelete<A, T>(pub Id<A>, pub PhantomData<T>);

impl<V, A, T> Command<V> for ComponentDelete<A, T> {
    open spec fn kind(&self) -> CommandKind<V> {
        CommandKind::DeleteComponent(self.0.0)
    }

    fn into_kind(self) -> (r: CommandKind<V>) {
        CommandKind::DeleteComponent(self.0.0)
    }
}

/// The kinds of the commands `cmds`, in order.
pub open spec fn kinds_of<V, T: Command<V>>(cmds: Seq<T>) -> Seq<CommandKind<V>> {
    cmds.map_values(|c: T| c.kind())
}

/// Commands recorded for one archetype and one component type.
pub struct CommandQueue<T> {
    list: Vec<T>,
    ty_id: ComponentId,
    arch_id: ArchetypeId,
}

impl<T> CommandQueue<T> {
    /// The recorded commands, oldest first.
    pub closed spec fn commands(&self) -> Seq<T> {
        self.list@
    }

    /// The archetype the commands apply to.
    pub closed spec fn archetype(&self) -> ArchetypeId {
        self.arch_id
    }

    /// The component type the commands apply to.
    pub closed spec fn component(&self) -> ComponentId {
        self.ty_id
    }

    /// An empty queue for archetype `arch_id` and component type
    /// `component_id`.
    pub fn new(arch_id: ArchetypeId, component_id: ComponentId) -> (r: Self)
        ensures
            r.commands() == Seq::<T>::empty(),
            r.archetype() == arch_id,
            r.component() == component_id,
    {
        CommandQueue { list: Vec::new(), ty_id: component_id, arch_id }
    }

    /// Records `value`.
    pub fn push(&mut self, value: T)
        ensures
            final(self).commands() == old(self).commands().push(value),
            final(self).archetype() == old(self).archetype(),
            final(self).component() == old(self).component(),
    {
        self.list.push(value);
    }

    /// Takes the recorded commands, oldest first, as their kinds.
    fn take_kinds<V>(&mut self) -> (r: Vec<CommandKind<V>>)
        where T: Command<V>,
        ensures
            r@ == kinds_of(old(self).commands()),
            final(self).commands() == Seq::<T>::empty(),
            final(self).archetype() == old(self).archetype(),
            final(self).component() == old(self).component(),
    {
        let ghost cmds = self.list@;
        let ghost n = cmds.len() as int;
        let mut list: Vec<T> = Vec::new();
        std::mem::swap(&mut list, &mut self.list);
        let mut rev: Vec<T> = Vec::new();
        while list.len() > 0
            invariant
                n == cmds.len(),
            list@ == cmds.subrange(0, n - rev@.len()),
                rev@.len() <= n,
                forall|k: int| 0 <= k < rev@.len() ==> #[trigger] rev@[k] == cmds[n - 1 - k],
            decreases list@.len(),
        {
            let ghost l0 = list@;
            let ghost r0 = rev@;
            let c = list.pop().unwrap();
            rev.push(c);
            proof {
                assert(l0 == cmds.subrange(0, n - r0.len()));
                assert(c == l0[l0.len() - 1]);
                assert(rev@.len() == r0.len() + 1);
                assert(list@ == l0.subrange(0, l0.len() - 1));
                assert(list@ =~= cmds.subrange(0, n - rev@.len()));
                assert forall|k: int| 0 <= k < rev@.len() implies #[trigger] rev@[k] == cmds[n - 1 - k] by {
                    if k < r0.len() {
                        assert(rev@[k] == r0[k]);
                    }
                }
            }
        }
        let mut out: Vec<CommandKind<V>> = Vec::new();
        while rev.len() > 0
            invariant
                n == cmds.len(),
                rev@.len() <= n,
                forall|k: int| 0 <= k < rev@.len() ==> #[trigger] rev@[k] == cmds[n - 1 - k],
                out@.len() == n - rev@.len(),
                forall|j: int| 0 <= j < out@.len() ==> #[trigger] out@[j] == cmds[j].kind(),
            decreases rev@.len(),
        {
            let ghost i = n - rev@.len();
            let c = rev.pop().unwrap();
            proof {
                assert(c == cmds[i]);
            }
            out.push(c.into_kind());
        }
        proof {
            assert(out@ =~= kinds_of(cmds));
        }
        out
    }

    /// Applies the recorded commands in the order recorded, and forgets
    /// them.
    pub fn apply<V, R>(&mut self, world: &mut World<V, R>)
        where T: Command<V>,
        requires
            old(world).wf(),
            (old(self).archetype().0 as int) < old(world).archetype_table().view().len(),
            old(world).archetype_table().view()[old(self).archetype().0 as int].entity_store().reserved_count() == 0,
        ensures
            final(world).wf(),
            final(world).archetype_table().view().len() == old(world).archetype_table().view().len(),
            final(world).archetype_table().view()[old(self).archetype().0 as int].entity_store().reserved_count() == 0,
            final(world).registry() == old(world).registry(),
            final(world).resource_table() == old(world).resource_table(),
            final(world).tick() == old(world).tick(),
            final(self).commands() == Seq::<T>::empty(),
            final(self).archetype() == old(self).archetype(),
            final(self).component() == old(self).component(),
            exists|ws: Seq<World<V, R>>| {
                &&& #[trigger] applied_in_order(kinds_of(old(self).commands()), ws, old(self).archetype(), old(self).component())
                &&& ws[0] == *old(world)
                &&& ws.last() == *final(world)
            },
    {
        let kinds = self.take_kinds();
        apply_all(world, kinds, self.arch_id, self.ty_id);
    }
}

impl<A> CommandQueue<EntityDelete<A>> {
    /// Makes the reserved entities of the archetype live, then removes the
    /// entities recorded for removal, in order.
    pub fn flush_and_apply<V, R>(&mut self, world: &mut World<V, R>)
        requires
            old(world).wf(),
            (old(self).archetype().0 as int) < old(world).archetype_table().view().len(),
        ensures
            final(world).wf(),
            final(self).commands() == Seq::<EntityDelete<A>>::empty(),
            exists|w_mid: World<V, R>, ws: Seq<World<V, R>>| {
                &&& #[trigger] flushed_world(*old(world), w_mid, old(self).archetype())
                &&& #[trigger] applied_in_order(kinds_of::<V, EntityDelete<A>>(old(self).commands()), ws, old(self).archetype(), old(self).component())
                &&& ws[0] == w_mid
                &&& ws.last() == *final(world)
            },
    {
        let arch_id = self.arch_id;
        let ghost w0 = *world;
        let flushed = world.flush_entities(arch_id);
        let ghost w_mid = *world;
        proof {
            assert(flush_entities_outcome(w0.archetype_table().view()[arch_id.0 as int],
                w_mid.archetype_table().view()[arch_id.0 as int], flushed@));
            assert(flushed_world(w0, w_mid, arch_id));
        }
        self.apply(world);
    }
}

/// The queues of component insertions and deletions of one system for one
/// archetype and component type.
pub struct CommandQueues<A, T> {
    pub create: CommandQueue<ComponentInsert<A, T>>,
    pub delete: CommandQueue<ComponentDelete<A, T>>,
}

impl<A, T> CommandQueues<A, T> {
    /// Empty queues for archetype `arch_id` and component type
    /// `component_id`.
    pub fn new(arch_id: ArchetypeId, component_id: ComponentId) -> (r: Self)
        ensures
            r.create.commands() == Seq::<ComponentInsert<A, T>>::empty(),
            r.delete.commands() == Seq::<ComponentDelete<A, T>>::empty(),
            r.create.archetype() == arch_id && r.delete.archetype() == arch_id,
            r.create.component() == component_id && r.delete.component() == component_id,
    {
        CommandQueues { create: CommandQueue::new(arch_id, component_id), delete: CommandQueue::new(arch_id, component_id) }
    }

    /// Records setting the component of `entity` to `value`.
    pub fn push_create(&mut self, entity: Id<A>, value: T)
        ensures
            final(self).create.commands() == old(self).create.commands().push(ComponentInsert(entity, value)),
            final(self).create.archetype() == old(self).create.archetype(),
            final(self).create.component() == old(self).create.component(),
            final(self).delete == old(self).delete,
    {
        self.create.push(ComponentInsert(entity, value));
    }

    /// Records dropping the component of `entity`.
    pub fn push_delete(&mut self, entity: Id<A>)
        ensures
            final(self).delete.commands() == old(self).delete.commands().push(ComponentDelete(entity, PhantomData)),
            final(self).delete.archetype() == old(self).delete.archetype(),
            final(self).delete.component() == old(self).delete.component(),
            final(self).create == old(self).create,
    {
        self.delete.push(ComponentDelete(entity, PhantomData));
    }

    /// Applies the insertions, then the deletions, each in the order
    /// recorded.
    pub fn apply<R>(&mut self, world: &mut World<T, R>)
        requires
            old(world).wf(),
            old(self).create.archetype() == old(self).delete.archetype(),
            (old(self).create.archetype().0 as int) < old(world).archetype_table().view().len(),
            old(world).archetype_table().view()[old(self).create.archetype().0 as int].entity_store().reserved_count() == 0,
        ensures
            final(world).wf(),
            final(self).create.commands() == Seq::<ComponentInsert<A, T>>::empty(),
            final(self).delete.commands() == Seq::<ComponentDelete<A, T>>::empty(),
            exists|ws1: Seq<World<T, R>>, ws2: Seq<World<T, R>>| {
                &&& #[trigger] applied_in_order(kinds_of::<T, ComponentInsert<A, T>>(old(self).create.commands()), ws1,
                    old(self).create.archetype(), old(self).create.component())
                &&& #[trigger] applied_in_order(kinds_of::<T, ComponentDelete<A, T>>(old(self).delete.commands()), ws2,
                    old(self).delete.archetype(), old(self).delete.component())
                &&& ws1[0] == *old(world)
                &&& ws2[0] == ws1.last()
                &&& ws2.last() == *final(world)
            },
    {
        self.create.apply(world);
        self.delete.apply(world);
    }
}

} // verus!
