use pi_ecs::monitor::EventType;
use pi_ecs::world::{World, WorldId};
use pi_ecs::query::fetch::ReadFetch;
use pi_ecs::query::state::QueryState;

#[derive(Clone, Copy, Debug, PartialEq)]
enum Comp {
    Velocity([f32; 3]),
    Position([f32; 3]),
    Rotation([f32; 3]),
    Transform([f32; 16]),
}

const NODE: u64 = 1;
const VELOCITY: u64 = 11;
const POSITION: u64 = 12;
const ROTATION: u64 = 13;
const TRANSFORM: u64 = 14;

#[test]
fn test() {
    let mut world: World<i32, i32> = World::new();
    world.new_archetype(NODE, "usize");
}

#[test]
fn new_world_ticks_and_id() {
    let mut w: World<i32, i32> = World::new();
    assert_eq!(w.id(), WorldId(0));
    assert_eq!(w.read_change_tick(), 1);
    assert_eq!(w.last_change_tick(), 0);
    assert_eq!(w.increment_change_tick(), 1);
    assert_eq!(w.read_change_tick(), 2);
    w.clear_trackers();
    assert_eq!(w.last_change_tick(), 2);
    assert_eq!(w.change_tick(), 3);
    assert_eq!(w.gen_query_id(), 0);
    assert_eq!(w.gen_query_id(), 1);
}

#[test]
fn resources_read_back() {
    let mut w: World<i32, String> = World::new();
    assert!(w.get_resource(5).is_none());
    let id = w.insert_resource(5, "Name", "a".to_string());
    assert_eq!(w.get_resource_id(5), Some(id));
    assert_eq!(w.get_resource(5), Some(&"a".to_string()));
    let id2 = w.insert_resource(5, "Name", "b".to_string());
    assert_eq!(id, id2);
    assert_eq!(w.get_resource(5), Some(&"b".to_string()));
    let other = w.get_or_insert_resource_id(6, "Other");
    assert_ne!(other, id);
    assert!(w.get_resource(6).is_none());
    assert_eq!(w.get_resource(5), Some(&"b".to_string()));
    // The resource has its own archetype component id.
    assert!(w.archetypes().get_archetype_resource_id(5).is_some());
}

#[test]
fn components_insert_remove_despawn() {
    let mut w: World<i32, i32> = World::new();
    let a = w.new_archetype(NODE, "Node");
    let cid = w.get_or_register_component(a, VELOCITY, "Velocity");
    assert_eq!(w.get_or_register_component(a, VELOCITY, "Velocity"), cid);
    let e = w.spawn(NODE);
    assert_eq!(e.archetype_id(), a);
    w.insert_component(e, VELOCITY, "Velocity", 3);
    assert_eq!(w.archetypes().index(a).get_component(cid).get(e.local()), Some(&3));
    let tick = w.archetypes().index(a).get_component(cid).tick(e.local()).unwrap().added;
    assert_eq!(tick, w.read_change_tick());
    w.remove_component(e, VELOCITY, "Velocity");
    assert!(w.archetypes().index(a).get_component(cid).get(e.local()).is_none());
    w.insert_component(e, VELOCITY, "Velocity", 4);
    w.despawn(e);
    assert!(!w.archetypes().index(a).entities().contains_key(e.local()));
    assert!(w.archetypes().index(a).get_component(cid).get(e.local()).is_none());
}

#[test]
fn events_are_handed_out_in_order_once() {
    let mut w: World<i32, i32> = World::new();
    let a = w.new_archetype(NODE, "Node");
    let cid = w.get_or_register_component(a, VELOCITY, "Velocity");
    let e = w.spawn(NODE);
    w.insert_component(e, VELOCITY, "Velocity", 3);
    w.insert_component(e, VELOCITY, "Velocity", 4);
    let kinds: Vec<EventType> = w.take_component_events(a, cid).iter().map(|ev| ev.ty).collect();
    assert_eq!(kinds, vec![EventType::Create, EventType::Modify]);
    assert!(w.take_component_events(a, cid).is_empty());
    assert_eq!(w.archetypes().index(a).get_component(cid).get(e.local()), Some(&4));
    let spawned = w.take_entity_events(a);
    assert_eq!(spawned.len(), 1);
    assert_eq!(spawned[0].ty, EventType::Create);
    assert_eq!(spawned[0].id, e);
    w.despawn(e);
    let gone: Vec<EventType> = w.take_entity_events(a).iter().map(|ev| ev.ty).collect();
    assert_eq!(gone, vec![EventType::Delete]);
    assert!(w.take_resource_events(9).is_empty());
    w.insert_resource(9, "Res", 1);
    w.insert_resource(9, "Res", 2);
    assert_eq!(w.take_resource_events(9).len(), 2);
    assert!(w.take_resource_events(9).is_empty());
    assert_eq!(w.get_resource(9), Some(&2));
}

#[test]
fn new_archetype_appends_with_the_next_id() {
    let mut world: World<i32, i32> = World::new();
    let a = world.new_archetype(NODE, "usize");
    assert_eq!(world.archetypes().len(), 1);
    assert_eq!(world.archetypes().get_id_by_ident(NODE), Some(a));
    assert_eq!(a, pi_ecs::storage::Local::new(0));
    assert_eq!(world.new_archetype(NODE, "usize"), a);
    assert_eq!(world.archetypes().len(), 1);
}

#[test]
fn query_state_from_world_gets_or_creates_its_archetype() {
    let mut w: World<i32, i32> = World::new();
    let q = QueryState::from_world(&mut w, NODE, "Node", ReadFetch::<()>::new(pi_ecs::storage::Local::new(0)), ());
    assert_eq!(w.archetypes().len(), 1);
    assert_eq!(w.archetypes().get_id_by_ident(NODE), Some(q.archetype_id()));
    assert!(!q.matchs);
    let q2 = QueryState::from_world(&mut w, NODE, "Node", ReadFetch::<()>::new(pi_ecs::storage::Local::new(0)), ());
    assert_eq!(q2.archetype_id(), q.archetype_id());
    assert_eq!(w.archetypes().len(), 1);
    assert_eq!(w.gen_query_id(), 2);
}

#[test]
fn components_of_unregistered_types_are_not_kept() {
    let mut w: World<i32, i32> = World::new();
    let a = w.new_archetype(NODE, "Node");
    let e = w.spawn(NODE);
    w.insert_component(e, POSITION, "Position", 1);
    let cid = w.components().get_id(POSITION).unwrap();
    assert!(!w.archetypes().index(a).contains(cid));
}

#[test]
fn reserved_entities_are_flushed() {
    let mut w: World<i32, i32> = World::new();
    let a = w.new_archetype(NODE, "Node");
    let k = w.reserve_entity(a);
    assert!(!w.archetypes().index(a).entities().contains_key(k));
    let flushed = w.flush_entities(a);
    assert_eq!(flushed, vec![k]);
    assert!(w.archetypes().index(a).entities().contains_key(k));
    assert_eq!(w.remove_key(a, k), Some(()));
    assert_eq!(w.remove_key(a, k), None);
    assert_eq!(w.archetype_component_grow("extra"), 3);
}

#[test]
fn arrange_gives_a_tick_node_with_a_fresh_id() {
    let mut w: World<i32, i32> = World::new();
    w.new_archetype(NODE, "Node");
    let n = w.arrange(7u8);
    assert_eq!(n.id, 3);
    assert_eq!(n.node, 7u8);
    assert_eq!(n.label, "increment_change_tick");
    assert!(!n.access.has_read(0));
    assert_eq!(w.arrange(8u8).id, 4);
}

struct Benchmark {
    world: World<Comp, i32>,
    dirtys: Vec<pi_ecs::entity::Entity>,
}

impl Benchmark {
    fn new() -> Self {
        let mut world: World<Comp, i32> = World::new();
        let a = world.new_archetype(NODE, "Node");
        world.get_or_register_component(a, VELOCITY, "Velocity");
        world.get_or_register_component(a, ROTATION, "Rotation");
        world.get_or_register_component(a, TRANSFORM, "Transform");
        world.get_or_register_component(a, POSITION, "Position");
        let mut dirtys = Vec::new();
        for _ in 0..10000 {
            let id = world.spawn(NODE);
            world.insert_component(id, VELOCITY, "Velocity", Comp::Velocity([1.0, 0.0, 0.0]));
            world.insert_component(id, POSITION, "Position", Comp::Position([1.0, 0.0, 0.0]));
            let mut m = [0.0f32; 16];
            m[0] = 1.0;
            m[5] = 1.0;
            m[10] = 1.0;
            m[15] = 1.0;
            world.insert_component(id, TRANSFORM, "Transform", Comp::Transform(m));
            world.insert_component(id, ROTATION, "Rotation", Comp::Rotation([1.0, 0.0, 0.0]));
            dirtys.push(id);
        }
        Benchmark { world, dirtys }
    }

    fn run(&mut self) -> f32 {
        let a = self.world.archetypes().get_id_by_ident(NODE).unwrap();
        let v = self.world.components().get_id(VELOCITY).unwrap();
        let p = self.world.components().get_id(POSITION).unwrap();
        let archetype = self.world.archetypes().index(a);
        let fetch: (ReadFetch<()>, ReadFetch<()>) = (ReadFetch::new(v), ReadFetch::new(p));
        let mut query = QueryState::new(self.world.id(), archetype, fetch, ());
        let mut iter = query.iter(self.world.id(), archetype, self.world.last_change_tick(), self.world.read_change_tick());
        let mut sum = 0.0f32;
        let mut n = 0;
        while let Some((velocity, _position)) = iter.next(archetype) {
            if let Comp::Velocity(x) = velocity {
                sum += x[0];
            }
            n += 1;
        }
        assert_eq!(n, self.dirtys.len());
        sum
    }
}

#[test]
fn simple_iter_tt() {
    let mut bb = Benchmark::new();
    assert_eq!(bb.run(), 10000.0);
}
