use trywin::dispatch::Msg;
use trywin::world::{Action, World};

#[test]
fn close_fires_callback_once_and_reattaches() {
    let mut w = World::new();
    let m = w.new_main().unwrap();
    w.on_close(m, vec![]).unwrap();
    assert_eq!(w.close(m), Ok(0));
    assert_eq!(w.close_fire_count(m), 1);
    // the callback was reattached and fires again on the next request
    assert_eq!(w.close(m), Ok(0));
    assert_eq!(w.close_fire_count(m), 2);
    assert!(w.is_live(m));
}

#[test]
fn close_never_fires_after_terminal() {
    let mut w = World::new();
    let m = w.new_main().unwrap();
    w.on_close(m, vec![]).unwrap();
    w.close(m).unwrap();
    assert_eq!(w.close_fire_count(m), 1);
    w.destroy(m).unwrap();
    w.close(m).unwrap();
    w.close(m).unwrap();
    assert_eq!(w.close_fire_count(m), 1);
}

#[test]
fn ordering_close_predestroy_terminal() {
    // a close request fires on_close while keeping the node live; the
    // destroy request fires on_destroy before the terminal teardown
    let mut w = World::new();
    let m = w.new_main().unwrap();
    w.on_close(m, vec![]).unwrap();
    w.on_destroy(m, vec![Action::Probe(m)]).unwrap();
    w.close(m).unwrap();
    assert_eq!(w.close_fire_count(m), 1);
    assert_eq!(w.destroy_fire_count(m), 0);
    assert!(w.is_live(m));
    w.destroy(m).unwrap();
    assert_eq!(w.destroy_fire_count(m), 1);
    assert!(w.is_torn(m));
    // on_destroy observed the node still inside its dispatch frame
    assert_eq!(w.probe_count(), 1);
    assert!(w.probe_at(0) >= 1);
}

#[test]
fn reentrant_close_destroys_own_node_frees_exactly_once() {
    let mut w = World::new();
    let m = w.new_main().unwrap();
    w.on_close(m, vec![Action::Destroy(m)]).unwrap();
    assert_eq!(w.close(m), Ok(0));
    assert!(w.is_torn(m));
    assert_eq!(w.close_fire_count(m), 1);
    assert_eq!(w.free_count_of(m), 1);
    assert_eq!(w.entry_count_of(m), 0);
    // a second close request resolves nothing and changes nothing
    assert_eq!(w.close(m), Ok(0));
    assert_eq!(w.free_count_of(m), 1);
    assert_eq!(w.close_fire_count(m), 1);
}

#[test]
fn nested_close_on_own_node_does_not_reenter() {
    let mut w = World::new();
    let m = w.new_main().unwrap();
    // mid-execution the callback requests one more close of its own node
    w.on_close(m, vec![Action::Close(m), Action::Probe(m)]).unwrap();
    assert_eq!(w.close(m), Ok(0));
    // the nested request found the slot executing and fired nothing
    assert_eq!(w.close_fire_count(m), 1);
    assert!(w.is_live(m));
}

#[test]
fn scenario_close_handler_destroys_children() {
    let mut w = World::new();
    let m = w.new_main().unwrap();
    let a = w.create_child(m, &trywin::ChildType::Custom).unwrap();
    let b = w.create_child(m, &trywin::ChildType::Custom).unwrap();
    w.on_close(m, vec![Action::Destroy(a), Action::Destroy(b)]).unwrap();
    w.close(m).unwrap();
    assert!(w.is_torn(a));
    assert!(w.is_torn(b));
    assert_eq!(w.free_count_of(a), 1);
    assert_eq!(w.free_count_of(b), 1);
    // the parent stays live until its own terminal notification
    assert!(w.is_live(m));
    w.destroy(m).unwrap();
    assert!(w.is_torn(m));
}

#[test]
fn scenario_nested_dispatch_keeps_counter_positive() {
    let mut w = World::new();
    let m = w.new_main().unwrap();
    let a = w.create_child(m, &trywin::ChildType::Custom).unwrap();
    // a's close callback probes m's counter mid-nested-dispatch
    w.on_close(a, vec![Action::Probe(m), Action::Probe(a)]).unwrap();
    // m's close callback triggers one more nested dispatch cycle into a
    w.on_close(m, vec![Action::Probe(m), Action::Close(a), Action::Probe(m)]).unwrap();
    w.close(m).unwrap();
    assert_eq!(w.probe_count(), 4);
    // m's counter never returned to zero until the outermost call did
    assert!(w.probe_at(0) >= 1);
    assert!(w.probe_at(1) >= 1);
    assert!(w.probe_at(2) >= 1);
    assert!(w.probe_at(3) >= 1);
    assert_eq!(w.entry_count_of(m), 0);
    assert_eq!(w.entry_count_of(a), 0);
    // and teardown afterwards deallocates exactly once
    w.destroy(m).unwrap();
    assert_eq!(w.free_count_of(m), 1);
    assert_eq!(w.free_count_of(a), 1);
}

#[test]
fn fault_in_callback_is_contained_and_tears_down() {
    let mut w = World::new();
    let m = w.new_main().unwrap();
    w.on_close(m, vec![Action::Fault]).unwrap();
    // the dispatch call returns the default result instead of unwinding
    assert_eq!(w.close(m), Ok(0));
    assert!(w.is_torn(m));
    assert_eq!(w.fault_count_of(m), 1);
    assert_eq!(w.free_count_of(m), 1);
    assert_eq!(w.entry_count_of(m), 0);
}

#[test]
fn fault_in_destroy_callback_also_tears_down() {
    let mut w = World::new();
    let m = w.new_main().unwrap();
    w.on_destroy(m, vec![Action::Fault]).unwrap();
    w.destroy(m).unwrap();
    assert!(w.is_torn(m));
    assert_eq!(w.fault_count_of(m), 1);
    assert_eq!(w.free_count_of(m), 1);
}

#[test]
fn destroying_parent_cascades_to_children() {
    let mut w = World::new();
    let m = w.new_main().unwrap();
    let a = w.create_child(m, &trywin::ChildType::Custom).unwrap();
    let b = w.create_child(a, &trywin::ChildType::Button).unwrap();
    w.destroy(m).unwrap();
    assert!(w.is_torn(m) && w.is_torn(a) && w.is_torn(b));
    assert_eq!(w.free_count_of(a), 1);
    assert_eq!(w.free_count_of(b), 1);
}

#[test]
fn callback_creating_children_mid_dispatch() {
    let mut w = World::new();
    let m = w.new_main().unwrap();
    w.on_close(m, vec![Action::CreateChild(m, trywin::ChildType::Custom)]).unwrap();
    let before = w.node_count();
    w.close(m).unwrap();
    assert_eq!(w.node_count(), before + 1);
    assert_eq!(w.child_count(m), 1);
}

#[test]
fn unknown_identity_forwards_to_default() {
    let mut w = World::new();
    let m = w.new_main().unwrap();
    w.on_close(m, vec![]).unwrap();
    assert_eq!(w.send_message(0xdead, Msg::Close), Ok(0));
    assert_eq!(w.close_fire_count(m), 0);
    assert!(w.is_live(m));
}

#[test]
fn other_messages_pass_through_untouched() {
    let mut w = World::new();
    let m = w.new_main().unwrap();
    let h = w.handle_of(m);
    assert_eq!(w.send_message(h, Msg::Other(0x7f)), Ok(0));
    assert!(w.is_live(m));
    assert_eq!(w.close_fire_count(m), 0);
    assert_eq!(w.destroy_fire_count(m), 0);
}

#[test]
fn paint_repaints_primary_but_forwards_for_controls() {
    let mut w = World::new();
    let m = w.new_main().unwrap();
    w.redraw(m).unwrap();
    w.pump_paint(m).unwrap();
    assert_eq!(w.paint_count_of(m), 1);
    let b = w.create_child(m, &trywin::ChildType::Button).unwrap();
    w.pump_paint(b).unwrap();
    assert_eq!(w.paint_count_of(b), 0);
}

#[test]
fn exhausted_nesting_budget_is_fatal() {
    let mut w = World::new();
    w.set_nest_budget(1);
    let m = w.new_main().unwrap();
    w.on_close(m, vec![Action::Close(m)]).unwrap();
    // the single budget unit is spent entering m's frame; the nested
    // request cannot be served
    assert_eq!(w.close(m), Err(trywin::Error::Fatal));
}

#[test]
fn mutual_close_terminates_without_fatal() {
    let mut w = World::new();
    let m = w.new_main().unwrap();
    let a = w.create_child(m, &trywin::ChildType::Custom).unwrap();
    w.on_close(m, vec![Action::Close(a)]).unwrap();
    w.on_close(a, vec![Action::Close(m)]).unwrap();
    assert_eq!(w.close(m), Ok(0));
    // each slot fired once; the second-order requests found the slots
    // executing and stopped
    assert_eq!(w.close_fire_count(m), 1);
    assert_eq!(w.close_fire_count(a), 1);
}

#[test]
fn upward_destroy_from_child_teardown_callback() {
    let mut w = World::new();
    let m = w.new_main().unwrap();
    let a = w.create_child(m, &trywin::ChildType::Custom).unwrap();
    // while a is being torn down it asks for its parent's destruction,
    // which cascades right back into a
    w.on_destroy(a, vec![Action::Destroy(m)]).unwrap();
    assert_eq!(w.destroy(m), Ok(()));
    assert!(w.is_torn(m) && w.is_torn(a));
    assert_eq!(w.destroy_fire_count(a), 1);
    assert_eq!(w.free_count_of(m), 1);
    assert_eq!(w.free_count_of(a), 1);
    assert_eq!(w.entry_count_of(m), 0);
    assert_eq!(w.entry_count_of(a), 0);
}

#[test]
fn fault_after_nested_teardown_still_frees_once() {
    let mut w = World::new();
    let m = w.new_main().unwrap();
    let a = w.create_child(m, &trywin::ChildType::Custom).unwrap();
    w.on_close(m, vec![Action::Destroy(a), Action::Fault]).unwrap();
    assert_eq!(w.close(m), Ok(0));
    assert!(w.is_torn(a));
    assert!(w.is_torn(m));
    assert_eq!(w.fault_count_of(m), 1);
    assert_eq!(w.free_count_of(m), 1);
    assert_eq!(w.free_count_of(a), 1);
}

#[test]
fn self_destruction_inside_own_destroy_callback() {
    let mut w = World::new();
    let m = w.new_main().unwrap();
    // the destroy callback re-requests its own node's destruction while
    // the node is still live, pumping a full nested teardown
    w.on_destroy(m, vec![Action::Destroy(m), Action::Probe(m)]).unwrap();
    assert_eq!(w.destroy(m), Ok(()));
    assert!(w.is_torn(m));
    assert_eq!(w.destroy_fire_count(m), 1);
    assert_eq!(w.free_count_of(m), 1);
    assert_eq!(w.entry_count_of(m), 0);
    // the probe ran after the nested teardown, still inside the frame
    assert_eq!(w.probe_count(), 1);
    assert!(w.probe_at(0) >= 1);
}

#[test]
fn terminal_teardown_releases_children_and_slots() {
    let mut w = World::new();
    let m = w.new_main().unwrap();
    let _a = w.create_child(m, &trywin::ChildType::Custom).unwrap();
    let _b = w.create_child(m, &trywin::ChildType::Button).unwrap();
    w.on_close(m, vec![Action::Probe(m)]).unwrap();
    assert_eq!(w.child_count(m), 2);
    w.destroy(m).unwrap();
    // the terminal notification released the owned children and cleared
    // both callback slots, so nothing the node held survives it
    assert_eq!(w.child_count(m), 0);
    assert_eq!(w.close(m), Ok(0));
    assert_eq!(w.close_fire_count(m), 0);
}

#[test]
fn destroy_succeeds_on_callback_free_subtrees() {
    let mut w = World::new();
    let m = w.new_main().unwrap();
    let a = w.create_child(m, &trywin::ChildType::Custom).unwrap();
    let _b = w.create_child(a, &trywin::ChildType::Custom).unwrap();
    let _c = w.create_child(a, &trywin::ChildType::Button).unwrap();
    // close handlers may be registered; only destroy handlers make a
    // cascade run user code
    w.on_close(m, vec![Action::Probe(m)]).unwrap();
    assert_eq!(w.destroy(m), Ok(()));
    for id in 0..w.node_count() {
        assert!(w.is_torn(id));
        assert_eq!(w.free_count_of(id), 1);
    }
}
