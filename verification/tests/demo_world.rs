use trywin::demo::{make, _make2};
use trywin::world::World;
use trywin::Color;

#[test]
fn make_builds_the_demo_layout() {
    let mut w = World::new();
    let m = make(&mut w).unwrap();
    assert!(w.is_live(m));
    assert_eq!(w.child_count(m), 6);
    assert_eq!(w.text_at(m), "Hello, world!".to_string());
    assert_eq!(w.background_at(m), Some(Color(128, 128, 128, 0)));
    assert_eq!(w.bounds_at(m), (0, 0, 500, 300));
    // the main window is created hidden, as the backend creates it
    assert!(!w.is_visible(m));
    for k in 0..6 {
        let c = w.child_at(m, k);
        assert!(w.is_live(c));
    }
}

#[test]
fn closing_the_demo_window_destroys_it_and_exits_the_loop() {
    let mut w = World::new();
    let m = make(&mut w).unwrap();
    w.visible(m, true).unwrap();
    assert!(!w.quit_requested());
    let children: Vec<usize> = (0..6).map(|k| w.child_at(m, k)).collect();
    // the close handler destroys the window; its destroy handler asks the
    // event loop to exit
    w.close(m).unwrap();
    assert!(w.is_torn(m));
    assert!(w.quit_requested());
    assert_eq!(w.free_count_of(m), 1);
    // the children went down with their parent
    for c in children {
        assert!(w.is_torn(c));
        assert_eq!(w.free_count_of(c), 1);
    }
}

#[test]
fn make_propagates_an_armed_native_failure() {
    let mut w = World::new();
    w.fail_next_create(31);
    assert_eq!(make(&mut w), Err(trywin::Error::Windows(31)));
    assert_eq!(w.node_count(), 0);
}

#[test]
fn make2_accepts_any_cloneable_system() {
    _make2(42u32);
    _make2("system");
}
