use rshotkey::exception::Error;
use rshotkey::key::{BindKey, Event, Key, KeySet};
use rshotkey::listener::{Binding, Listener};

const KEY_C: u32 = 46;
const LEFT: u32 = 1;

fn down(code: u32, time: u64) -> Event {
    Event { kind: Key::KeyDown(code), time }
}

fn button_down(code: u32, time: u64) -> Event {
    Event { kind: Key::ButtonDown(code), time }
}

fn button_up(code: u32, time: u64) -> Event {
    Event { kind: Key::ButtonUp(code), time }
}

fn double_click_pattern() -> KeySet {
    KeySet::default()
        .bind(BindKey::new(vec![Key::ButtonDown(LEFT), Key::ButtonUp(LEFT)]).delay(200))
        .bind(BindKey::new(vec![Key::ButtonDown(LEFT)]))
}

#[test]
fn register_empty_pattern_fails() {
    let mut listener = Listener::default();
    let empty = KeySet::default();
    assert_eq!(listener.register(empty, 1), Err(Error::InvalidPattern));
    // No partial registration took place: nothing ever fires.
    let fired = listener.handle_event(down(KEY_C, 0));
    assert!(fired.is_empty());
    // A pattern of one empty step still has total length zero.
    let degenerate = KeySet::from(BindKey::new(Vec::new()));
    assert_eq!(listener.register(degenerate, 2), Err(Error::InvalidPattern));
    let fired = listener.handle_event(down(KEY_C, 10));
    assert!(fired.is_empty());
}

#[test]
fn register_and_fire_single_key() {
    let mut listener = Listener::default();
    let press_c = KeySet::from(BindKey::new(vec![Key::KeyDown(KEY_C)]));
    assert_eq!(listener.register(press_c, 7), Ok(()));
    let fired = listener.handle_event(down(KEY_C, 0));
    assert_eq!(fired, vec![7]);
    let fired = listener.handle_event(down(KEY_C + 1, 10));
    assert!(fired.is_empty());
}

#[test]
fn unregister_unknown_pattern_is_noop() {
    let mut listener = Listener::default();
    let press_c = KeySet::from(BindKey::new(vec![Key::KeyDown(KEY_C)]));
    assert_eq!(listener.register(press_c, 7), Ok(()));
    // Unregistering a pattern that was never registered changes nothing.
    let never_registered = KeySet::from(BindKey::new(vec![Key::KeyUp(KEY_C)]));
    listener.unregister(never_registered);
    let fired = listener.handle_event(down(KEY_C, 0));
    assert_eq!(fired, vec![7]);
}

#[test]
fn unregister_removes_all_equal_bindings() {
    let mut listener = Listener::default();
    let pattern = || KeySet::from(BindKey::new(vec![Key::KeyDown(KEY_C)]));
    assert_eq!(listener.register(pattern(), 1), Ok(()));
    assert_eq!(listener.register(pattern(), 2), Ok(()));
    let fired = listener.handle_event(down(KEY_C, 0));
    assert_eq!(fired, vec![1, 2]);
    listener.unregister(pattern());
    let fired = listener.handle_event(down(KEY_C, 10));
    assert!(fired.is_empty());
}

#[test]
fn double_click_fires_within_budget() {
    let mut listener = Listener::default();
    assert_eq!(listener.register(double_click_pattern(), 42), Ok(()));
    assert!(listener.handle_event(button_down(LEFT, 0)).is_empty());
    assert!(listener.handle_event(button_up(LEFT, 50)).is_empty());
    let fired = listener.handle_event(button_down(LEFT, 120));
    assert_eq!(fired, vec![42]);
}

#[test]
fn double_click_too_slow_does_not_fire() {
    let mut listener = Listener::default();
    assert_eq!(listener.register(double_click_pattern(), 42), Ok(()));
    assert!(listener.handle_event(button_down(LEFT, 0)).is_empty());
    assert!(listener.handle_event(button_up(LEFT, 50)).is_empty());
    let fired = listener.handle_event(button_down(LEFT, 400));
    assert!(fired.is_empty());
}

#[test]
fn bindings_fire_independently_in_order() {
    let mut listener = Listener::default();
    let press_c = KeySet::from(BindKey::new(vec![Key::KeyDown(KEY_C)]));
    let press_other = KeySet::from(BindKey::new(vec![Key::KeyDown(KEY_C + 1)]));
    assert_eq!(listener.register(press_other, 1), Ok(()));
    assert_eq!(listener.register(press_c.clone(), 2), Ok(()));
    assert_eq!(listener.register(press_c, 3), Ok(()));
    let fired = listener.handle_event(down(KEY_C, 0));
    assert_eq!(fired, vec![2, 3]);
}

#[test]
fn priorkey_reports_most_recent_event() {
    let mut listener = Listener::default();
    assert!(listener.priorkey().is_none());
    listener.handle_event(down(KEY_C, 5));
    listener.handle_event(down(KEY_C + 1, 9));
    assert_eq!(listener.priorkey(), Some(down(KEY_C + 1, 9)));
}

#[test]
fn listener_new_takes_prebuilt_bindings() {
    let bindings = vec![
        Binding { key_set: KeySet::from(BindKey::new(vec![Key::KeyDown(KEY_C)])), callback: 9 },
    ];
    let mut listener = Listener::new(16, bindings);
    let fired = listener.handle_event(down(KEY_C, 0));
    assert_eq!(fired, vec![9]);
}

#[test]
fn eviction_never_disturbs_matching_window() {
    // A tiny history still matches patterns that fit inside it.
    let mut listener = Listener::new(2, Vec::new());
    assert_eq!(listener.register(double_click_pattern(), 8), Ok(()));
    // The pattern needs three events but only two are ever retained, so
    // it can never complete.
    assert!(listener.handle_event(button_down(LEFT, 0)).is_empty());
    assert!(listener.handle_event(button_up(LEFT, 50)).is_empty());
    assert!(listener.handle_event(button_down(LEFT, 120)).is_empty());
    // A two-event pattern inside the retained window still fires.
    let click = KeySet::default()
        .bind(BindKey::new(vec![Key::ButtonDown(LEFT)]).delay(200))
        .bind(BindKey::new(vec![Key::ButtonUp(LEFT)]));
    assert_eq!(listener.register(click, 5), Ok(()));
    assert!(listener.handle_event(button_down(LEFT, 300)).is_empty());
    assert_eq!(listener.handle_event(button_up(LEFT, 350)), vec![5]);
}
