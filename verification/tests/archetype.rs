use pi_ecs::archetype::{Archetype, ArchetypeGeneration, Archetypes, ArchetypeComponentInfo};
use pi_ecs::storage::Local;

#[test]
fn generation_wraps_a_count() {
    assert_eq!(ArchetypeGeneration::new(3).value(), 3);
}

#[test]
fn archetype_components_and_entities() {
    let mut a: Archetype<i32> = Archetype::new(Local::new(0), Local::new(1), Local::new(2));
    assert!(a.is_empty());
    a.register_component_type(Local::new(7), Local::new(3));
    assert!(a.contains(Local::new(7)));
    assert!(!a.contains(Local::new(8)));
    assert_eq!(a.archetype_component_id(Local::new(7)), Local::new(3));
    assert_eq!(a.entity_archetype_component_id(), Local::new(1));
    assert_eq!(a.entity_archetype_component_delete_id(), Local::new(2));
    let e = a.create_entity();
    assert_eq!(e.archetype_id(), Local::new(0));
    assert_eq!(a.insert_component(e.local(), 5, Local::new(7), 1), None);
    assert_eq!(a.insert_component(e.local(), 6, Local::new(7), 2), Some(5));
    // An unregistered type keeps nothing.
    assert_eq!(a.insert_component(e.local(), 9, Local::new(8), 2), None);
    assert_eq!(a.get_component(Local::new(7)).get(e.local()), Some(&6));
    a.remove_component(e.local(), Local::new(7));
    assert!(a.get_component(Local::new(7)).get(e.local()).is_none());
    assert_eq!(a.len(), 1);
    assert_eq!(a.component_ids().clone(), vec![Local::new(7)]);
}

#[test]
fn remove_entity_drops_its_components() {
    let mut a: Archetype<i32> = Archetype::new(Local::new(0), Local::new(1), Local::new(2));
    a.register_component_type(Local::new(0), Local::new(3));
    let e1 = a.create_entity();
    let e2 = a.create_entity();
    a.insert_component(e1.local(), 1, Local::new(0), 1);
    a.insert_component(e2.local(), 2, Local::new(0), 1);
    a.remove_entity(e1.local());
    assert!(!a.entities().contains_key(e1.local()));
    assert!(a.get_component(Local::new(0)).get(e1.local()).is_none());
    assert_eq!(a.get_component(Local::new(0)).get(e2.local()), Some(&2));
    assert_eq!(a.len(), 1);
}

#[test]
fn flush_makes_reserved_live_and_removes_scheduled() {
    let mut a: Archetype<i32> = Archetype::new(Local::new(0), Local::new(1), Local::new(2));
    a.register_component_type(Local::new(0), Local::new(3));
    let e1 = a.create_entity();
    a.insert_component(e1.local(), 1, Local::new(0), 1);
    let r = a.reserve_entity();
    a.will_remove_entity(e1.local());
    a.flush();
    assert!(a.entities().contains_key(r));
    assert!(!a.entities().contains_key(e1.local()));
    assert!(a.get_component(Local::new(0)).get(e1.local()).is_none());
    assert_eq!(a.len(), 1);
}

#[test]
fn archetypes_registry() {
    let mut t: Archetypes<i32> = Archetypes::new();
    assert!(t.is_empty());
    let n = t.archetype_component_grow(ArchetypeComponentInfo { name: "x", is_delete: false });
    assert_eq!(n, 1);
    let a = t.get_or_create_archetype(10, "A");
    assert_eq!(a, Local::new(0));
    assert_eq!(t.get_or_create_archetype(10, "A"), a);
    assert_eq!(t.get_id_by_ident(10), Some(a));
    assert_eq!(t.get_id_by_ident(11), None);
    assert_eq!(t.len(), 1);
    assert_eq!(t.generation().value(), 1);
    // The entity list and its deletion got the next two ids.
    assert_eq!(t.index(a).entity_archetype_component_id(), Local::new(2));
    assert_eq!(t.index(a).entity_archetype_component_delete_id(), Local::new(3));
    let infos = t.archetype_component_info().clone();
    assert_eq!(infos.len(), 3);
    assert!(infos[2].is_delete);
    let e = t.spawn(a);
    assert!(t.get(a).unwrap().entities().contains_key(e.local()));
    assert!(t.get(Local::new(5)).is_none());
    t.register_resource(99, 4);
    assert_eq!(t.get_archetype_resource_id(99), Some(Local::new(4)));
    assert_eq!(t.get_archetype_resource_id(98), None);
}
