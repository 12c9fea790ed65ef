use pi_ecs::component::{Components, ComponentTicks, MultiCaseImpl, StorageType};
use pi_ecs::monitor::EventType;
use pi_ecs::storage::{Local, LocalVersion};

#[test]
fn component_ids_are_handed_out_in_order() {
    let mut c = Components::new();
    assert!(c.is_empty());
    let a = c.get_or_insert_with(100, "A");
    let b = c.get_or_insert_with(200, "B");
    assert_eq!(a, Local::new(0));
    assert_eq!(b, Local::new(1));
    assert_eq!(c.get_or_insert_with(100, "A"), a);
    assert_eq!(c.len(), 2);
    assert_eq!(c.get_id(200), Some(b));
    assert_eq!(c.get_id(300), None);
    let info = c.get_info(b).unwrap();
    assert_eq!(info.id(), b);
    assert_eq!(info.name(), "B");
    assert!(info.storage_type() == StorageType::Table);
    assert!(c.get_info(Local::new(9)).is_none());
}

#[test]
fn resources_share_the_id_space() {
    let mut c = Components::new();
    let a = c.get_or_insert_with(1, "A");
    let r = c.get_or_insert_resource_id(1, "R");
    assert_eq!(a, Local::new(0));
    assert_eq!(r, Local::new(1));
    assert_eq!(c.get_resource_id(1), Some(r));
    assert_eq!(c.get_id(1), Some(a));
    assert_eq!(c.get_or_insert_resource_id(1, "R"), r);
    assert_eq!(c.len(), 2);
}

#[test]
fn storage_type_defaults_to_table() {
    assert!(StorageType::default() == StorageType::Table);
}

#[test]
fn multicase_insert_modify_delete() {
    let mut m: MultiCaseImpl<i32> = MultiCaseImpl::with_capacity(0, Local::new(3));
    let k = LocalVersion::new(1, 1);
    assert_eq!(m.insert(k, 10, 4), None);
    assert_eq!(m.get(k), Some(&10));
    assert!(m.contains_key(&k));
    let t = *m.tick(k).unwrap();
    assert_eq!((t.added, t.changed), (4, 4));
    assert_eq!(m.insert(k, 11, 6), Some(10));
    let t = *m.tick(k).unwrap();
    assert_eq!((t.added, t.changed), (4, 6));
    assert_eq!(m.delete(k), Some(11));
    assert_eq!(m.delete(k), None);
    assert!(m.get(k).is_none());
    // Ticks outlive the component.
    let t: ComponentTicks = *m.tick(k).unwrap();
    assert_eq!(t.changed, 6);
    let events = m.take_events();
    let kinds: Vec<EventType> = events.iter().map(|e| e.ty).collect();
    assert_eq!(kinds, vec![EventType::Create, EventType::Modify, EventType::Delete]);
    assert_eq!(events[0].id.archetype_id(), Local::new(3));
    assert!(m.take_events().is_empty());
}

#[test]
fn multicase_silent_operations() {
    let mut m: MultiCaseImpl<u8> = MultiCaseImpl::with_capacity(0, Local::new(0));
    let k = LocalVersion::new(2, 1);
    assert_eq!(m.insert_no_notify(k, 1), None);
    assert!(m.tick(k).is_none());
    m.delete_silently(k);
    assert!(!m.contains_key(&k));
    assert!(m.take_events().is_empty());
}
