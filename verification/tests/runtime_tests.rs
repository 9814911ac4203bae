use bevy_mortar_bond::dialogue_state::DialogueState;
use bevy_mortar_bond::events::MortarEvent;
use bevy::asset::Handle;
use bevy::text::Font;
use bevy_mortar_bond::runtime::{MortarRegistry, MortarRuntime};
use bevy_mortar_bond::script::{Choice, ContentItem, Node};

fn item(item_type: &str) -> ContentItem {
    ContentItem {
        item_type: Some(item_type.to_string()),
        value: None,
        interpolated_parts: None,
        condition: None,
        pre_statements: None,
        events: None,
        options: None,
        name: None,
        args: None,
        has_index_override: false,
        index_override: None,
        ignore_duration: None,
    }
}

fn text(value: &str) -> ContentItem {
    ContentItem { value: Some(value.to_string()), ..item("text") }
}

fn option(text: &str, next: Option<&str>, action: Option<&str>, nested: Option<Vec<Choice>>) -> Choice {
    Choice {
        text: text.to_string(),
        condition: None,
        next: next.map(|s| s.to_string()),
        action: action.map(|s| s.to_string()),
        choice: nested,
    }
}

fn node(name: &str, content: Vec<ContentItem>, next: Option<&str>) -> Node {
    Node { name: name.to_string(), content, variables: vec![], next: next.map(|s| s.to_string()) }
}

fn started(content: Vec<ContentItem>, next: Option<&str>) -> MortarRuntime {
    let mut rt = MortarRuntime::new();
    rt.begin_dialogue("story.mortar", "Start", Some(7), node("Start", content, next));
    rt
}

fn state(rt: &MortarRuntime) -> &DialogueState {
    rt.get_dialogue(7).expect("dialogue of entity 7")
}

#[test]
fn begin_dialogue_makes_it_primary() {
    let rt = started(vec![text("Hi")], None);
    assert!(rt.has_active_dialogues());
    assert_eq!(rt.active_dialogue_count(), 1);
    assert_eq!(rt.primary_dialogue, Some(7));
    assert_eq!(rt.primary_dialogue().map(|s| s.current_text()), Some(Some("Hi")));
}

#[test]
fn next_text_advances_then_finishes_without_next_node() {
    let mut rt = started(vec![text("One"), text("Two")], None);
    assert!(rt.handle_next_text(None).is_none());
    assert_eq!(state(&rt).current_text(), Some("Two"));
    assert_eq!(state(&rt).pending_run_position, Some(1));
    let finished = rt.handle_next_text(None).expect("dialogue finishes");
    assert_eq!(finished.entity, Some(7));
    assert_eq!(finished.mortar_path, "story.mortar");
    assert_eq!(finished.node, "Start");
    assert!(!rt.has_active_dialogues());
    assert_eq!(rt.primary_dialogue, None);
}

#[test]
fn next_text_at_end_jumps_to_next_node() {
    let mut rt = started(vec![text("Only")], Some("Second"));
    assert!(rt.handle_next_text(Some(7)).is_none());
    assert_eq!(rt.pending_jumps.get(&7), Some(&("story.mortar".to_string(), "Second".to_string())));
    assert!(rt.get_dialogue(7).is_some());
}

#[test]
fn next_text_with_return_finishes() {
    let mut rt = started(vec![text("Only")], Some("return"));
    assert!(rt.handle_next_text(None).is_some());
    assert!(rt.pending_jumps.is_empty());
}

#[test]
fn next_text_waits_for_choices() {
    let choice = ContentItem { options: Some(vec![option("Go", Some("Next"), None, None)]), ..item("choice") };
    let mut rt = started(vec![text("Ask"), choice], None);
    assert!(rt.handle_next_text(None).is_none());
    assert!(rt.get_dialogue(7).is_some());
    assert!(rt.pending_jumps.is_empty());
}

#[test]
fn next_text_for_unknown_entity_does_nothing() {
    let mut rt = started(vec![text("One"), text("Two")], None);
    assert!(rt.handle_next_text(Some(99)).is_none());
    assert_eq!(state(&rt).current_text(), Some("One"));
}

#[test]
fn select_and_confirm_choice_jumps() {
    let choice = ContentItem {
        options: Some(vec![option("Left", Some("LeftNode"), None, None), option("Right", Some("RightNode"), None, None)]),
        ..item("choice")
    };
    let mut rt = started(vec![text("Pick"), choice], None);
    rt.handle_select_choice(5, None);
    assert_eq!(state(&rt).selected_choice, None, "out-of-range index is ignored");
    rt.handle_select_choice(1, None);
    assert_eq!(state(&rt).selected_choice, Some(1));
    assert!(rt.handle_confirm_choice(None).is_none());
    assert_eq!(rt.pending_jumps.get(&7), Some(&("story.mortar".to_string(), "RightNode".to_string())));
}

#[test]
fn confirm_nested_choice_enters_it() {
    let nested = vec![option("Inner", Some("InnerNode"), None, None)];
    let choice = ContentItem { options: Some(vec![option("Outer", None, None, Some(nested))]), ..item("choice") };
    let mut rt = started(vec![text("Pick"), choice], None);
    rt.handle_select_choice(0, None);
    assert!(rt.handle_confirm_choice(None).is_none());
    assert_eq!(state(&rt).choice_stack, vec![0]);
    assert_eq!(state(&rt).get_choices().map(|c| c[0].text.clone()), Some("Inner".to_string()));
}

#[test]
fn confirm_break_action_leaves_choices_and_moves_on() {
    let choice = ContentItem { options: Some(vec![option("Stop asking", None, Some("break"), None)]), ..item("choice") };
    let mut rt = started(vec![text("Pick"), choice, text("After")], None);
    rt.handle_select_choice(0, None);
    assert!(rt.handle_confirm_choice(None).is_none());
    assert!(state(&rt).choices_broken);
    assert!(state(&rt).get_choices().is_none());
    assert_eq!(state(&rt).current_text(), Some("After"));
}

#[test]
fn confirm_return_action_finishes() {
    let choice = ContentItem { options: Some(vec![option("Leave", None, Some("return"), None)]), ..item("choice") };
    let mut rt = started(vec![text("Pick"), choice], None);
    rt.handle_select_choice(0, None);
    let finished = rt.handle_confirm_choice(None).expect("finished");
    assert_eq!(finished.node, "Start");
    assert!(rt.get_dialogue(7).is_none());
}

#[test]
fn confirm_without_selection_does_nothing() {
    let choice = ContentItem { options: Some(vec![option("Leave", None, Some("return"), None)]), ..item("choice") };
    let mut rt = started(vec![text("Pick"), choice], None);
    assert!(rt.handle_confirm_choice(None).is_none());
    assert!(rt.get_dialogue(7).is_some());
}

#[test]
fn stop_one_dialogue_keeps_others() {
    let mut rt = started(vec![text("A")], None);
    rt.begin_dialogue("other.mortar", "Start", Some(8), node("Start", vec![text("B")], None));
    rt.defer_start("late.mortar", "Start", Some(8));
    rt.handle_stop_dialogue(Some(8));
    assert!(rt.get_dialogue(8).is_none());
    assert!(rt.pending_starts.get(&8).is_none());
    assert!(rt.get_dialogue(7).is_some());
    assert_eq!(rt.primary_dialogue, None);
}

#[test]
fn stop_without_target_clears_everything() {
    let mut rt = started(vec![text("A")], None);
    rt.defer_start("late.mortar", "Start", None);
    rt.handle_stop_dialogue(None);
    assert!(!rt.has_active_dialogues());
    assert!(rt.pending_starts.is_empty());
    assert!(rt.pending_jumps.is_empty());
    assert_eq!(rt.primary_dialogue, None);
}

#[test]
fn untargeted_dialogue_finishes_without_entity() {
    let mut rt = MortarRuntime::new();
    rt.begin_dialogue("story.mortar", "Start", None, node("Start", vec![text("Hi")], None));
    let finished = rt.handle_next_text(None).expect("finished");
    assert_eq!(finished.entity, None);
}

#[test]
fn message_constructors_set_targets() {
    assert!(matches!(MortarEvent::next_text(), MortarEvent::NextText { target: None }));
    assert!(matches!(MortarEvent::next_text_for(3), MortarEvent::NextText { target: Some(3) }));
    assert!(matches!(MortarEvent::stop_dialogue_for(4), MortarEvent::StopDialogue { target: Some(4) }));
    match MortarEvent::start_node_for(5, "a.mortar", "N") {
        MortarEvent::StartNode { path, node, target } => {
            assert_eq!(path, "a.mortar");
            assert_eq!(node, "N");
            assert_eq!(target, Some(5));
        }
        _ => panic!("expected StartNode"),
    }
}

#[test]
fn dialogue_changed_in_place_stays_changed() {
    let mut rt = started(vec![text("One"), text("Two")], None);
    assert!(rt.get_dialogue_mut(8).is_none());
    rt.get_dialogue_mut(7).expect("dialogue of entity 7").next_text();
    assert_eq!(state(&rt).current_text(), Some("Two"));
    rt.primary_dialogue_mut().expect("primary dialogue").reset();
    assert_eq!(state(&rt).current_text(), Some("One"));
    rt.primary_dialogue_state_mut().expect("primary dialogue").next_text();
    assert_eq!(rt.primary_dialogue_state().map(|s| s.current_text()), Some(Some("Two")));
    rt.primary_dialogue = None;
    assert!(rt.primary_dialogue_mut().is_none());
    assert!(rt.primary_dialogue_state_mut().is_none());
}

fn registry_register_and_get() {
    let mut registry: MortarRegistry<Handle<Font>> = MortarRegistry::default();
    let handle: Handle<Font> = Handle::default();
    registry.register("test.mortar", handle.clone());
    assert!(registry.get("test.mortar").is_some());
    assert!(registry.get("nonexistent.mortar").is_none());
}

#[test]
fn tests_test_registry_register_and_get() {
    registry_register_and_get();
}

#[test]
fn function_and_registry_tests_test_registry_register_and_get() {
    registry_register_and_get();
}

#[test]
fn registering_a_path_again_replaces_its_handle() {
    let mut registry: MortarRegistry<u32> = MortarRegistry::new();
    registry.register("a.mortar", 1);
    registry.register("b.mortar", 2);
    registry.register("a.mortar", 3);
    assert_eq!(registry.get("a.mortar"), Some(&3));
    assert_eq!(registry.get("b.mortar"), Some(&2));
    assert_eq!(registry.get("c.mortar"), None);
}
