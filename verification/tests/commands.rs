use pi_ecs::entity::Id;
use pi_ecs::storage::Local;
use pi_ecs::sys::param::command::{CommandQueue, CommandQueues, EntityDelete};
use pi_ecs::sys::param::entities::{EntityDeleteState, EntityInsertState};
use pi_ecs::sys::param::param_set::ParamSetState;
use pi_ecs::sys::param::tick::TickState;
use pi_ecs::sys::param::res::{ResMutState, ResState};
use pi_ecs::sys::system::SystemId;
use pi_ecs::dispatch::access::Access;
use pi_ecs::world::World;

const NODE: u64 = 1;
const HP: u64 = 2;

#[test]
fn component_commands_apply_in_order() {
    let mut w: World<i32, i32> = World::new();
    let a = w.new_archetype(NODE, "Node");
    let cid = w.get_or_register_component(a, HP, "Hp");
    let e = w.spawn(NODE);
    let mut q: CommandQueues<(), i32> = CommandQueues::new(a, cid);
    let id: Id<()> = Id::new(e.local());
    q.push_create(id.clone(), 1);
    q.push_create(id.clone(), 2);
    q.apply(&mut w);
    assert_eq!(w.archetypes().index(a).get_component(cid).get(e.local()), Some(&2));
    q.push_create(id.clone(), 3);
    q.push_delete(id);
    q.apply(&mut w);
    assert!(w.archetypes().index(a).get_component(cid).get(e.local()).is_none());
}

#[test]
fn entity_commands_flush_then_delete() {
    let mut w: World<i32, i32> = World::new();
    let a = w.new_archetype(NODE, "Node");
    let kept = w.spawn(NODE);
    let reserved = w.reserve_entity(a);
    let mut q: CommandQueue<EntityDelete<()>> = CommandQueue::new(a, Local::null());
    q.push(EntityDelete(Id::new(kept.local())));
    q.flush_and_apply(&mut w);
    let ents = w.archetypes().index(a).entities();
    assert!(ents.contains_key(reserved));
    assert!(!ents.contains_key(kept.local()));
}

#[test]
fn entity_params_claim_access_and_act() {
    let mut w: World<i32, i32> = World::new();
    let mut access = Access::new();
    let s = EntityInsertState::<()>::init(&mut w, &mut access, NODE, "Node");
    assert!(access.has_write(1));
    let mut ins = s.get_param();
    let id = ins.spawn(&mut w);
    assert!(w.archetypes().index(s.0).entities().contains_key(id.local()));
    let d = EntityDeleteState::<()>::init(&mut w, &mut access, NODE, "Node");
    assert!(access.has_write(2));
    let mut del = d.get_param();
    assert_eq!(del.despawn(&mut w, id.clone()), Some(()));
    assert!(!w.archetypes().index(s.0).entities().contains_key(id.local()));
}

#[test]
fn tick_param_reads_world_ticks() {
    let mut w: World<i32, i32> = World::new();
    w.clear_trackers();
    let t = TickState::init().get_param(&w, 9);
    assert_eq!(t.last_change_tick, 1);
    assert_eq!(t.change_tick, 9);
}

#[test]
fn param_set_access_is_the_union() {
    let mut before = Access::new();
    before.add_read(1);
    let mut p = Access::new();
    p.add_write(2);
    let mut q = Access::new();
    q.add_modify(3);
    let all = ParamSetState::<()>::combined_access(&before, &vec![p, q]);
    assert!(all.has_read(1) && all.has_write(2) && all.has_write(3));
    assert!(!all.has_write(1));
}

#[test]
fn system_ids() {
    assert_eq!(SystemId::new(4).id(), 4);
}

#[test]
fn resource_params() {
    let mut w: World<i32, i32> = World::new();
    w.insert_resource(7, "Score", 10);
    let mut access = Access::new();
    let r = ResState::<()>::init(&mut w, &mut access, 7, "Score");
    assert_eq!(*r.get_param(&w), 10);
    // The resource got archetype component id 1.
    assert!(access.has_read(1) && !access.has_write(1));
    let mut other = Access::new();
    let m = ResMutState::<()>::init(&mut w, &mut other, 7, "Score");
    assert!(other.has_write(1));
    m.write(&mut w, 11);
    assert_eq!(*m.get_param(&w), 11);
    assert_eq!(w.get_resource(7), Some(&11));
}
