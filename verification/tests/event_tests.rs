use bevy_mortar_bond::events::MortarEventTracker;
use bevy_mortar_bond::number::MortarNumber;
use bevy_mortar_bond::runtime::MortarRuntime;
use bevy_mortar_bond::script::{Action, Event};
use bevy_mortar_bond::value::Lexeme;

fn num(x: f64) -> MortarNumber {
    MortarNumber::new(x.to_bits(), format!("{}", x))
}

fn lex(s: &str) -> Lexeme {
    Lexeme::new(s.to_string(), s.parse::<f64>().ok().map(num))
}

fn event(index: f64, action_type: &str, args: &[&str]) -> Event {
    Event {
        index: num(index),
        index_variable: None,
        actions: vec![Action { action_type: action_type.to_string(), args: args.iter().map(|a| lex(a)).collect() }],
    }
}

fn at(x: f32) -> MortarNumber {
    num(x as f64)
}

fn check_creation() {
    let tracker = MortarEventTracker::new(vec![event(5.0, "test_action", &[])]);
    assert_eq!(tracker.event_count(), 1);
    assert_eq!(tracker.fired_count(), 0);
}

fn check_trigger_at_index() {
    let events = vec![event(5.0, "play_sound", &["test.wav"]), event(10.0, "set_color", &["#FF0000"])];
    let mut tracker = MortarEventTracker::new(events);
    let runtime = MortarRuntime::default();

    let actions = tracker.trigger_at_index(&at(4.0), &runtime);
    assert_eq!(actions.len(), 0);
    assert_eq!(tracker.fired_count(), 0);

    let actions = tracker.trigger_at_index(&at(5.0), &runtime);
    assert_eq!(actions.len(), 1);
    assert_eq!(actions[0].action_name, "play_sound");
    assert_eq!(tracker.fired_count(), 1);

    let actions = tracker.trigger_at_index(&at(6.0), &runtime);
    assert_eq!(actions.len(), 0);
    assert_eq!(tracker.fired_count(), 1);

    let actions = tracker.trigger_at_index(&at(10.0), &runtime);
    assert_eq!(actions.len(), 1);
    assert_eq!(actions[0].action_name, "set_color");
    assert_eq!(tracker.fired_count(), 2);
}

fn check_reset() {
    let mut tracker = MortarEventTracker::new(vec![event(5.0, "test", &[])]);
    let runtime = MortarRuntime::default();
    let _ = tracker.trigger_at_index(&at(5.0), &runtime);
    assert_eq!(tracker.fired_count(), 1);
    tracker.reset();
    assert_eq!(tracker.fired_count(), 0);
    let actions = tracker.trigger_at_index(&at(5.0), &runtime);
    assert_eq!(actions.len(), 1);
    assert_eq!(tracker.fired_count(), 1);
}

fn check_index_variable() {
    let e = Event {
        index: num(0.0),
        index_variable: Some("custom_time".to_string()),
        actions: vec![Action { action_type: "play_sound".to_string(), args: vec![lex("test.wav")] }],
    };
    assert_eq!(e.index_variable, Some("custom_time".to_string()));
}

#[test]
fn tests_test_event_tracker_creation() {
    check_creation();
}

#[test]
fn event_tracker_tests_test_event_tracker_creation() {
    check_creation();
}

#[test]
fn tests_test_event_tracker_trigger_at_index() {
    check_trigger_at_index();
}

#[test]
fn event_tracker_tests_test_event_tracker_trigger_at_index() {
    check_trigger_at_index();
}

#[test]
fn tests_test_event_tracker_reset() {
    check_reset();
}

#[test]
fn event_tracker_tests_test_event_tracker_reset() {
    check_reset();
}

#[test]
fn tests_test_event_with_index_variable() {
    check_index_variable();
}

#[test]
fn event_tracker_tests_test_event_with_index_variable() {
    check_index_variable();
}
