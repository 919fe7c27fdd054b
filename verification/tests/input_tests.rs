use wireframe::input::{overlapping_bindings, unused_fields, InputField, InputSystem};

#[test]
fn fresh_field_is_cleared() {
    let f = InputField::new();
    assert_eq!(f.down, 0);
    assert_eq!(f.up, 0);
    assert!(!f.pressed);
}

#[test]
fn clear_resets_public_state() {
    let mut sys = InputSystem::new(1, &vec![(7u64, 0usize)]);
    sys.updateDownKey(7);
    sys.refreshFields();
    assert!(sys.fields[0].pressed);
    let mut f = sys.fields[0];
    f.clear();
    assert_eq!(f.down, 0);
    assert_eq!(f.up, 0);
    assert!(!f.pressed);
}

#[test]
fn down_key_sets_pressed_after_refresh() {
    let mut sys = InputSystem::new(2, &vec![(10u64, 0usize), (11u64, 1usize)]);
    sys.updateDownKey(10);
    sys.refreshFields();
    assert!(sys.fields[0].pressed);
    assert_eq!(sys.fields[0].down, 1);
    assert_eq!(sys.fields[0].up, 0);
    assert!(!sys.fields[1].pressed);
    assert_eq!(sys.fields[1].down, 0);
}

#[test]
fn held_key_stays_pressed_on_later_frames() {
    let mut sys = InputSystem::new(1, &vec![(3u64, 0usize)]);
    sys.updateDownKey(3);
    sys.refreshFields();
    assert!(sys.fields[0].pressed);
    // no events this frame: the key was last seen down, so it is held
    sys.refreshFields();
    assert!(sys.fields[0].pressed);
    assert_eq!(sys.fields[0].down, 0);
}

#[test]
fn up_key_releases_after_refresh() {
    let mut sys = InputSystem::new(1, &vec![(3u64, 0usize)]);
    sys.updateDownKey(3);
    sys.refreshFields();
    assert!(sys.fields[0].pressed);
    sys.updateUpKey(3);
    sys.refreshFields();
    assert!(!sys.fields[0].pressed);
    assert_eq!(sys.fields[0].up, 1);
    sys.refreshFields();
    assert!(!sys.fields[0].pressed);
}

#[test]
fn down_wins_over_up_in_one_frame() {
    let mut sys = InputSystem::new(1, &vec![(3u64, 0usize)]);
    sys.updateUpKey(3);
    sys.updateDownKey(3);
    sys.refreshFields();
    assert!(sys.fields[0].pressed);
    assert_eq!(sys.fields[0].down, 1);
    assert_eq!(sys.fields[0].up, 1);
}

#[test]
fn unbound_key_changes_nothing() {
    let mut sys = InputSystem::new(1, &vec![(3u64, 0usize)]);
    sys.updateDownKey(99);
    sys.refreshFields();
    assert!(!sys.fields[0].pressed);
    assert_eq!(sys.fields[0].down, 0);
}

#[test]
fn down_counter_saturates_at_255() {
    let mut sys = InputSystem::new(1, &vec![(3u64, 0usize)]);
    for _ in 0..300 {
        sys.updateDownKey(3);
    }
    sys.refreshFields();
    assert_eq!(sys.fields[0].down, 255);
}

#[test]
fn later_binding_overrides_earlier_for_same_key() {
    let mut sys = InputSystem::new(2, &vec![(3u64, 0usize), (3u64, 1usize)]);
    sys.updateDownKey(3);
    sys.refreshFields();
    assert!(!sys.fields[0].pressed);
    assert!(sys.fields[1].pressed);
}

#[test]
fn unused_fields_are_reported_in_order() {
    let binds = vec![(1u64, 0usize), (2u64, 2usize)];
    assert_eq!(unused_fields(4, &binds), vec![1usize, 3usize]);
    assert_eq!(unused_fields(0, &binds), Vec::<usize>::new());
    assert_eq!(unused_fields(1, &vec![]), vec![0usize]);
}

#[test]
fn overlapping_bindings_means_a_repeated_key() {
    assert!(overlapping_bindings(&vec![(1u64, 0usize), (1u64, 1usize)]));
    assert!(!overlapping_bindings(&vec![(1u64, 0usize), (2u64, 0usize)]));
    assert!(!overlapping_bindings(&vec![]));
}

#[test]
fn counters_reset_each_frame() {
    let mut sys = InputSystem::new(1, &vec![(3u64, 0usize)]);
    sys.updateDownKey(3);
    sys.updateDownKey(3);
    sys.refreshFields();
    assert_eq!(sys.fields[0].down, 2);
    sys.refreshFields();
    assert_eq!(sys.fields[0].down, 0);
}
