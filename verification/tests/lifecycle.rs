use trywin::world::World;
use trywin::{ChildType, Error};

#[test]
fn handle_present_between_creation_and_terminal() {
    let mut w = World::new();
    let m = w.new_main().unwrap();
    assert!(w.is_live(m));
    assert!(!w.is_torn(m));
    assert_ne!(w.handle_of(m), 0);
    w.destroy(m).unwrap();
    assert!(!w.is_live(m));
    assert!(w.is_torn(m));
}

#[test]
fn handles_are_unique_and_monotone() {
    let mut w = World::new();
    let a = w.new_main().unwrap();
    let b = w.new_main().unwrap();
    assert_ne!(w.handle_of(a), w.handle_of(b));
    assert!(w.handle_of(b) > w.handle_of(a));
}

#[test]
fn double_destroy_is_a_successful_no_op() {
    let mut w = World::new();
    let m = w.new_main().unwrap();
    w.destroy(m).unwrap();
    let fires = w.destroy_fire_count(m);
    let frees = w.free_count_of(m);
    assert_eq!(w.destroy(m), Ok(()));
    assert_eq!(w.destroy_fire_count(m), fires);
    assert_eq!(w.free_count_of(m), frees);
    assert_eq!(frees, 1);
}

#[test]
fn create_child_on_destroyed_parent_fails_destroyed() {
    let mut w = World::new();
    let m = w.new_main().unwrap();
    w.destroy(m).unwrap();
    let before = w.node_count();
    let r = w.create_child(m, &ChildType::Button);
    assert_eq!(r, Err(Error::Destroyed));
    assert_eq!(w.node_count(), before);
}

#[test]
fn create_child_appends_in_creation_order() {
    let mut w = World::new();
    let m = w.new_main().unwrap();
    let a = w.create_child(m, &ChildType::Custom).unwrap();
    let b = w.create_child(m, &ChildType::Button).unwrap();
    assert_eq!(w.child_count(m), 2);
    assert_eq!(w.child_at(m, 0), a);
    assert_eq!(w.child_at(m, 1), b);
    assert!(w.is_live(a) && w.is_live(b));
}

#[test]
fn operations_past_live_phase_fail_destroyed() {
    let mut w = World::new();
    let m = w.new_main().unwrap();
    w.destroy(m).unwrap();
    assert_eq!(w.text(m, "late"), Err(Error::Destroyed));
    assert_eq!(w.bounds(m, Some((1, 2)), None), Err(Error::Destroyed));
    assert_eq!(w.background(m, trywin::Color(1, 2, 3, 4)), Err(Error::Destroyed));
    assert_eq!(w.visible(m, true), Err(Error::Destroyed));
    assert_eq!(w.redraw(m), Err(Error::Destroyed));
    assert_eq!(w.move_offscreen(m), Err(Error::Destroyed));
    assert!(matches!(w.snapshot(m), Err(Error::Destroyed)));
}

#[test]
fn attribute_operations_store_their_values() {
    let mut w = World::new();
    let m = w.new_main().unwrap();
    w.text(m, "hello").unwrap();
    assert_eq!(w.text_at(m), "hello".to_string());
    w.bounds(m, Some((5, 6)), Some((70, 80))).unwrap();
    assert_eq!(w.bounds_at(m), (5, 6, 70, 80));
    w.bounds(m, None, Some((90, 100))).unwrap();
    assert_eq!(w.bounds_at(m), (5, 6, 90, 100));
    w.bounds(m, Some((7, 8)), None).unwrap();
    assert_eq!(w.bounds_at(m), (7, 8, 90, 100));
    w.background(m, trywin::Color(9, 8, 7, 6)).unwrap();
    assert_eq!(w.background_at(m), Some(trywin::Color(9, 8, 7, 6)));
    w.visible(m, true).unwrap();
    assert!(w.is_visible(m));
}

#[test]
fn injected_native_failure_surfaces_and_disarms() {
    let mut w = World::new();
    w.fail_next_create(5);
    let before = w.node_count();
    assert_eq!(w.new_main(), Err(Error::Windows(5)));
    assert_eq!(w.node_count(), before);
    // the failure is consumed; the next request succeeds
    let m = w.new_main().unwrap();
    assert!(w.is_live(m));
}

#[test]
fn registering_on_dead_node_is_harmless() {
    let mut w = World::new();
    let m = w.new_main().unwrap();
    w.destroy(m).unwrap();
    assert_eq!(w.on_close(m, vec![]), Ok(()));
    assert_eq!(w.on_destroy(m, vec![]), Ok(()));
    // nothing fires on a later close request either
    assert_eq!(w.close(m), Ok(0));
    assert_eq!(w.close_fire_count(m), 0);
}

#[test]
fn exit_loop_sets_the_quit_flag() {
    let mut w = World::new();
    assert!(!w.quit_requested());
    w.exit_loop().unwrap();
    assert!(w.quit_requested());
}

#[test]
fn describe_names_each_error() {
    assert_eq!(Error::Destroyed.describe(), "window has been destroyed");
    assert_eq!(Error::Windows(3).describe(), "native call failed");
    assert_eq!(Error::UnsupportedBitmapFormat.describe(), "unsupported bitmap format");
    assert_eq!(Error::Fatal.describe(), "fatal dispatch condition");
}
