use trywin::callback::CallbackSlot;
use trywin::dispatch::DispatchState;
use trywin::handle::HandleCell;

#[test]
fn handle_cell_lifecycle_is_one_way() {
    let mut c = HandleCell::new();
    assert_eq!(c.get(), 0);
    assert!(!c.present());
    c.set(7);
    assert!(c.present());
    assert_eq!(c.get(), 7);
    c.clear();
    assert!(!c.present());
    assert_eq!(c.get(), 0);
    // clearing again stays absent
    c.clear();
    assert!(!c.present());
}

#[test]
fn slot_detaches_executes_and_reattaches() {
    let mut s: CallbackSlot<i32> = CallbackSlot::new();
    // an empty slot yields nothing
    assert_eq!(s.begin_invoke(), None);
    s.set(Some(10));
    let cb = s.begin_invoke();
    assert_eq!(cb, Some(10));
    // a nested attempt while executing is a no-op
    assert_eq!(s.begin_invoke(), None);
    s.end_invoke(cb.unwrap());
    // the callback was reattached and is available again
    assert_eq!(s.begin_invoke(), Some(10));
}

#[test]
fn replacement_written_during_execution_wins() {
    let mut s: CallbackSlot<i32> = CallbackSlot::new();
    s.set(Some(1));
    let cb = s.begin_invoke().unwrap();
    // while the callback runs, a newer value is registered
    s.set(Some(2));
    s.end_invoke(cb);
    // the detached instance was discarded, the replacement survives
    assert_eq!(s.begin_invoke(), Some(2));
}

#[test]
fn clearing_during_execution_discards_the_instance() {
    let mut s: CallbackSlot<i32> = CallbackSlot::new();
    s.set(Some(5));
    let cb = s.begin_invoke().unwrap();
    s.set(None);
    s.end_invoke(cb);
    assert_eq!(s.begin_invoke(), None);
}

#[test]
fn dispatch_state_frees_exactly_when_last_frame_leaves() {
    let mut d = DispatchState::new();
    assert_eq!(d.current_count(), 0);
    assert!(d.try_enter());
    assert!(d.try_enter());
    assert_eq!(d.current_count(), 2);
    d.mark_teardown();
    // the inner frame leaves: still held, nothing freed
    assert!(!d.leave());
    assert_eq!(d.current_frees(), 0);
    // the outermost frame leaves: the one deallocation happens
    assert!(d.leave());
    assert_eq!(d.current_frees(), 1);
    assert_eq!(d.current_count(), 0);
}

#[test]
fn dispatch_state_without_teardown_is_not_freed() {
    let mut d = DispatchState::new();
    assert!(d.try_enter());
    assert!(!d.leave());
    assert_eq!(d.current_frees(), 0);
}
