use pi_ecs::component::ComponentTicks;

#[test]
fn fresh_ticks_are_added_and_changed() {
    let t = ComponentTicks::new(5);
    assert_eq!(t.added, 5);
    assert_eq!(t.changed, 5);
    assert!(t.is_added(4, 5));
    assert!(t.is_changed(4, 5));
    // A system that last ran at the same tick sees nothing new.
    assert!(!t.is_added(5, 5));
    assert!(!t.is_changed(5, 5));
}

#[test]
fn older_components_are_not_new() {
    let t = ComponentTicks::new(3);
    assert!(!t.is_added(4, 10));
    assert!(t.is_added(2, 10));
}

#[test]
fn set_changed_marks_changed_only() {
    let mut t = ComponentTicks::new(1);
    t.set_changed(8);
    assert_eq!(t.added, 1);
    assert_eq!(t.changed, 8);
    assert!(t.is_changed(7, 9));
    assert!(!t.is_added(7, 9));
}

#[test]
fn ticks_wrap_around() {
    // Added two ticks before the counter wrapped; the system ran just before.
    let t = ComponentTicks::new(u32::MAX - 1);
    assert!(t.is_added(u32::MAX - 2, 3));
    assert!(!t.is_added(u32::MAX, 3));
}

#[test]
fn check_ticks_keeps_ticks() {
    let mut t = ComponentTicks::new(6);
    t.check_ticks(1000);
    assert_eq!(t.added, 6);
    assert_eq!(t.changed, 6);
}
