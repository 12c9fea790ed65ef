use pi_ecs::storage::{Local, LocalVersion, Offset};
use pi_ecs::entity::{Entity, Id};

#[test]
fn local_version_packs_index_and_version() {
    let k = LocalVersion::new(1, 1);
    assert_eq!(k.as_ffi(), 4294967297);
    assert_eq!(k.offset(), 1);
    let k = LocalVersion::new(7, 3);
    assert_eq!(k.as_ffi(), 3 * 4294967296 + 7);
    assert_eq!(k.offset(), 7);
    assert_eq!(LocalVersion::from_ffi(12345).as_ffi(), 12345);
}

#[test]
fn null_keys() {
    assert!(LocalVersion::null().is_null());
    assert!(!LocalVersion::new(0, 0).is_null());
    assert!(Local::null().is_null());
    assert!(!Local::new(3).is_null());
    assert_eq!(Local::new(3).get(), 3);
    assert!(Entity::null().is_null());
    assert!(!Entity::default().is_null());
    assert_eq!(Entity::default().local(), LocalVersion::from_ffi(0));
    assert!(!Entity::new(Local::new(0), LocalVersion::new(1, 1)).is_null());
    let id: Id<u8> = Id::null();
    assert!(id.is_null());
    let id: Id<u8> = Id::new(LocalVersion::new(2, 1));
    assert_eq!(id.local(), LocalVersion::new(2, 1));
    assert_eq!(id.offset(), 2);
}

#[test]
fn entity_parts() {
    let e = Entity::new(Local::new(4), LocalVersion::new(9, 1));
    assert_eq!(e.archetype_id(), Local::new(4));
    assert_eq!(e.local(), LocalVersion::new(9, 1));
}
