use pi_ecs::entity::Entities;
use pi_ecs::storage::{Local, LocalVersion};
use pi_ecs::monitor::EventType;

#[test]
fn insert_hands_out_fresh_keys() {
    let mut e = Entities::new(Local::new(0));
    assert!(e.is_empty());
    let a = e.insert();
    let b = e.insert();
    assert_eq!(a, LocalVersion::new(1, 1));
    assert_eq!(b, LocalVersion::new(2, 1));
    assert_eq!(e.len(), 2);
    assert!(e.contains_key(a));
    assert!(e.contains_key(b));
    assert_eq!(e.keys().clone(), vec![a, b]);
}

#[test]
fn remove_moves_last_key_into_place() {
    let mut e = Entities::new(Local::new(0));
    let a = e.insert();
    let b = e.insert();
    let c = e.insert();
    assert_eq!(e.remove(a), Some(()));
    assert_eq!(e.keys().clone(), vec![c, b]);
    assert!(!e.contains_key(a));
    assert_eq!(e.remove(a), None);
    assert_eq!(e.len(), 2);
}

#[test]
fn removed_slot_is_reused_with_new_version() {
    let mut e = Entities::new(Local::new(0));
    let a = e.insert();
    e.remove(a);
    let b = e.insert();
    assert_eq!(b, LocalVersion::new(1, 3));
    assert!(!e.contains_key(a));
    assert!(e.contains_key(b));
}

#[test]
fn reserved_keys_become_live_at_flush() {
    let mut e = Entities::new(Local::new(2));
    let a = e.insert();
    let r1 = e.reserve_entity();
    let r2 = e.reserve_entity();
    assert_eq!(r1, LocalVersion::new(2, 1));
    assert_eq!(r2, LocalVersion::new(3, 1));
    assert!(!e.contains_key(r1));
    let flushed = e.flush();
    assert_eq!(flushed, vec![r1, r2]);
    assert!(e.contains_key(r1));
    assert!(e.contains_key(r2));
    assert_eq!(e.keys().clone(), vec![a, r1, r2]);
}

#[test]
fn reservation_takes_freed_slots_first() {
    let mut e = Entities::new(Local::new(0));
    let a = e.insert();
    let _b = e.insert();
    e.remove(a);
    let r = e.reserve_entity();
    assert_eq!(r, LocalVersion::new(1, 3));
    e.flush();
    assert!(e.contains_key(r));
}

#[test]
fn entity_events_are_recorded() {
    let mut e = Entities::new(Local::new(5));
    let a = e.insert();
    e.remove(a);
    let events = e.entity_listners.take_events();
    assert_eq!(events.len(), 2);
    assert!(events[0].ty == EventType::Create);
    assert!(events[1].ty == EventType::Delete);
    assert_eq!(events[0].id.local(), a);
    assert_eq!(events[1].id.archetype_id(), Local::new(5));
}

#[test]
fn removed_key_is_not_handed_out_again() {
    let mut e = Entities::new(Local::new(0));
    let a = e.insert();
    let b = e.insert();
    e.remove(a);
    e.remove(b);
    let r1 = e.reserve_entity();
    let r2 = e.reserve_entity();
    let r3 = e.reserve_entity();
    for r in [r1, r2, r3] {
        assert_ne!(r, a);
        assert_ne!(r, b);
    }
    assert_eq!(r1, LocalVersion::new(1, 3));
    assert_eq!(r2, LocalVersion::new(2, 3));
    assert_eq!(r3, LocalVersion::new(3, 1));
    let live = e.flush();
    assert_eq!(live, vec![r1, r2, r3]);
    assert!(!e.contains_key(a));
    assert!(!e.contains_key(b));
}
