use rshotkey::history::History;
use rshotkey::key::{BindKey, Event, Key, KeySet};
use rshotkey::matcher;

const KEY_A: u32 = 30;
const KEY_B: u32 = 48;
const LEFT: u32 = 1;

fn down(code: u32, time: u64) -> Event {
    Event { kind: Key::KeyDown(code), time }
}

fn button_down(code: u32, time: u64) -> Event {
    Event { kind: Key::ButtonDown(code), time }
}

fn button_up(code: u32, time: u64) -> Event {
    Event { kind: Key::ButtonUp(code), time }
}

fn history_of(events: &[Event]) -> History {
    let mut history = History::new(1024);
    for e in events {
        history.push(*e);
    }
    history
}

fn single_step(keys: Vec<Key>) -> KeySet {
    KeySet::from(BindKey::new(keys))
}

#[test]
fn short_history_never_matches() {
    let pattern = single_step(vec![Key::KeyDown(KEY_A)]);
    let empty = History::new(1024);
    assert!(!matcher::matches(&pattern, &empty));

    let two_step = KeySet::default()
        .bind(BindKey::new(vec![Key::KeyDown(KEY_A)]))
        .bind(BindKey::new(vec![Key::KeyUp(KEY_A)]));
    let one_event = history_of(&[down(KEY_A, 0)]);
    assert!(!matcher::matches(&two_step, &one_event));
}

#[test]
fn exact_single_event_pattern() {
    let pattern = single_step(vec![Key::KeyDown(KEY_A)]);
    let matching = history_of(&[down(KEY_A, 0)]);
    assert!(matcher::matches(&pattern, &matching));
    let other = history_of(&[down(KEY_B, 0)]);
    assert!(!matcher::matches(&pattern, &other));
}

#[test]
fn order_within_step_is_irrelevant() {
    let pattern = single_step(vec![Key::KeyDown(KEY_A), Key::KeyDown(KEY_B)]);
    let reversed = history_of(&[down(KEY_B, 0), down(KEY_A, 5)]);
    assert!(matcher::matches(&pattern, &reversed));
    let in_order = history_of(&[down(KEY_A, 0), down(KEY_B, 5)]);
    assert!(matcher::matches(&pattern, &in_order));
}

#[test]
fn gap_budget_bounds_step_distance() {
    let pattern = KeySet::default()
        .bind(BindKey::new(vec![Key::ButtonDown(LEFT)]).delay(200))
        .bind(BindKey::new(vec![Key::ButtonUp(LEFT)]));
    let quick = history_of(&[button_down(LEFT, 1000), button_up(LEFT, 1100)]);
    assert!(matcher::matches(&pattern, &quick));
    let slow = history_of(&[button_down(LEFT, 1000), button_up(LEFT, 1300)]);
    assert!(!matcher::matches(&pattern, &slow));
}

#[test]
fn gap_exactly_at_budget_matches() {
    let pattern = KeySet::default()
        .bind(BindKey::new(vec![Key::ButtonDown(LEFT)]).delay(200))
        .bind(BindKey::new(vec![Key::ButtonUp(LEFT)]));
    let at_limit = history_of(&[button_down(LEFT, 1000), button_up(LEFT, 1200)]);
    assert!(matcher::matches(&pattern, &at_limit));
}

#[test]
fn matching_is_deterministic() {
    let pattern = single_step(vec![Key::KeyDown(KEY_A)]);
    let history = history_of(&[down(KEY_B, 0), down(KEY_A, 10)]);
    let first = matcher::matches(&pattern, &history);
    let second = matcher::matches(&pattern, &history);
    assert_eq!(first, second);
}

#[test]
fn duplicate_kinds_need_distinct_events() {
    let pattern = single_step(vec![Key::KeyDown(KEY_A), Key::KeyDown(KEY_A)]);
    // One down(A) cannot satisfy two requirement slots.
    let one_a = history_of(&[down(KEY_A, 0), down(KEY_B, 5)]);
    assert!(!matcher::matches(&pattern, &one_a));
    let two_a = history_of(&[down(KEY_A, 0), down(KEY_A, 5)]);
    assert!(matcher::matches(&pattern, &two_a));
}

#[test]
fn only_the_most_recent_window_counts() {
    let pattern = single_step(vec![Key::KeyDown(KEY_A)]);
    // The matching event is no longer inside the one-event window.
    let history = history_of(&[down(KEY_A, 0), down(KEY_B, 5)]);
    assert!(!matcher::matches(&pattern, &history));
}

#[test]
fn empty_step_is_degenerate_but_legal() {
    let pattern = KeySet::from(BindKey::new(Vec::new()));
    let empty = History::new(1024);
    assert!(matcher::matches(&pattern, &empty));
    let some = history_of(&[down(KEY_A, 0)]);
    assert!(matcher::matches(&pattern, &some));
}

#[test]
fn backwards_time_between_steps_is_no_match() {
    // A remainder that jumps backwards in time can never satisfy a gap
    // budget; the attempt is a mismatch, not a crash.
    let pattern = KeySet::default()
        .bind(BindKey::new(vec![Key::ButtonDown(LEFT)]).delay(200))
        .bind(BindKey::new(vec![Key::ButtonUp(LEFT)]));
    let backwards = history_of(&[button_down(LEFT, 1000), button_up(LEFT, 900)]);
    assert!(!matcher::matches(&pattern, &backwards));
}

#[test]
fn zero_delay_means_no_constraint() {
    let pattern = KeySet::default()
        .bind(BindKey::new(vec![Key::ButtonDown(LEFT)]))
        .bind(BindKey::new(vec![Key::ButtonUp(LEFT)]));
    let slow = history_of(&[button_down(LEFT, 0), button_up(LEFT, 1_000_000)]);
    assert!(matcher::matches(&pattern, &slow));
}

#[test]
fn unknown_events_satisfy_no_ordinary_requirement() {
    let pattern = single_step(vec![Key::KeyDown(KEY_A)]);
    let history = history_of(&[Event { kind: Key::Unknown, time: 0 }]);
    assert!(!matcher::matches(&pattern, &history));
}
