use pi_ecs::dispatch::access::Access;
use pi_ecs::monitor::{ComponentListen, Create, Delete, EntityListen, EventType, ListenType, Modify, ResourceListen};
use pi_ecs::world::World;
use std::marker::PhantomData;

#[test]
fn listen_types_hear_their_events() {
    assert!(Create::listens_to(EventType::Create));
    assert!(!Create::listens_to(EventType::Delete));
    assert!(Delete::listens_to(EventType::Delete));
    assert!(Modify::listens_to(EventType::Modify));
    assert!(<(Create, Delete)>::listens_to(EventType::Delete));
    assert!(!<(Create, Delete)>::listens_to(EventType::Modify));
}

#[test]
fn listeners_record_their_access() {
    let mut w: World<i32, i32> = World::new();
    let mut acc = Access::new();
    acc.add_write(40);
    let c = ComponentListen::<(), (), Modify> {
        archetype_key: 1,
        archetype_name: "Node",
        component_key: 2,
        component_name: "Hp",
        mark: PhantomData,
    };
    let id = c.add_access(&mut w, acc);
    assert_eq!(id, 3);
    assert_eq!(w.listener_access().get(3).unwrap().len(), 1);
    let e = EntityListen::<(), Create> { archetype_key: 1, archetype_name: "Node", mark: PhantomData };
    assert_eq!(e.add_access(&mut w, Access::new()), 1);
    w.insert_resource(9, "Res", 5);
    let r = ResourceListen::<(), Modify> { resource_key: 9, mark: PhantomData };
    let rid = r.add_access(&mut w, Access::new());
    assert_eq!(rid, 4);
    assert_eq!(w.listener_access().get(4).unwrap().len(), 1);
}
