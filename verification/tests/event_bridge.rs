use std::cell::RefCell;
use std::rc::Rc;

use linux_soundboard_ui::ui_event_bridge::{
    dispatch_snapshot, set_hotkey_handler, set_loudness_status_refresh_handler,
    set_snapshot_handler, HandlerSlot,
};

#[test]
fn a_posted_hotkey_reaches_the_installed_handler() {
    let seen: Rc<RefCell<Vec<String>>> = Rc::new(RefCell::new(Vec::new()));
    let sink = Rc::clone(&seen);
    let mut slot = HandlerSlot::new();
    set_hotkey_handler(&mut slot, move |id: String| sink.borrow_mut().push(id));

    assert!(slot.deliver("sound-7".to_string()));
    assert!(slot.deliver("sound-8".to_string()));

    assert_eq!(*seen.borrow(), vec!["sound-7".to_string(), "sound-8".to_string()]);
    assert!(slot.is_installed());
}

#[test]
fn a_delivery_without_a_handler_is_dropped() {
    let mut slot: HandlerSlot<fn(String)> = HandlerSlot::new();
    assert!(!slot.deliver("sound-1".to_string()));
    assert!(!slot.is_installed());
}

#[test]
fn later_snapshots_go_to_the_newest_handler_only() {
    let first: Rc<RefCell<Vec<u32>>> = Rc::new(RefCell::new(Vec::new()));
    let second: Rc<RefCell<Vec<u32>>> = Rc::new(RefCell::new(Vec::new()));
    let first_sink = Rc::clone(&first);
    let second_sink = Rc::clone(&second);

    let mut slot: HandlerSlot<Box<dyn FnMut(u32)>> = HandlerSlot::new();
    set_snapshot_handler(&mut slot, Box::new(move |s: u32| first_sink.borrow_mut().push(s)));
    assert!(dispatch_snapshot(&mut slot, 1));
    set_snapshot_handler(&mut slot, Box::new(move |s: u32| second_sink.borrow_mut().push(s)));
    assert!(dispatch_snapshot(&mut slot, 2));
    assert!(dispatch_snapshot(&mut slot, 3));

    assert_eq!(*first.borrow(), vec![1]);
    assert_eq!(*second.borrow(), vec![2, 3]);
}

#[test]
fn a_signal_calls_its_handler_once() {
    let calls: Rc<RefCell<u32>> = Rc::new(RefCell::new(0));
    let sink = Rc::clone(&calls);
    let mut slot = HandlerSlot::new();
    set_loudness_status_refresh_handler(&mut slot, move || *sink.borrow_mut() += 1);

    assert!(slot.deliver_signal());
    assert_eq!(*calls.borrow(), 1);

    slot.clear();
    assert!(!slot.deliver_signal());
    assert_eq!(*calls.borrow(), 1);
}
