use bevy_mortar_bond::condition::IfCondition;
use bevy_mortar_bond::dialogue_state::DialogueState;
use bevy_mortar_bond::number::MortarNumber;
use bevy_mortar_bond::script::{Choice, ContentItem, Node};
use bevy_mortar_bond::value::Lexeme;

fn num(x: f64) -> MortarNumber {
    MortarNumber::new(x.to_bits(), format!("{}", x))
}

fn lex(s: &str) -> Lexeme {
    Lexeme::new(s.to_string(), s.parse::<f64>().ok().map(num))
}

fn item(item_type: &str) -> ContentItem {
    ContentItem {
        item_type: Some(item_type.to_string()),
        value: None,
        interpolated_parts: None,
        condition: None,
        pre_statements: None,
        events: None,
        options: None,
        name: None,
        args: None,
        has_index_override: false,
        index_override: None,
        ignore_duration: None,
    }
}

fn text(item_type: &str, value: &str) -> ContentItem {
    ContentItem { value: Some(value.to_string()), ..item(item_type) }
}

fn option(text: &str, next: &str) -> Choice {
    Choice { text: text.to_string(), condition: None, next: Some(next.to_string()), action: None, choice: None }
}

fn choice(options: Vec<Choice>) -> ContentItem {
    ContentItem { options: Some(options), ..item("choice") }
}

fn node(name: &str, content: Vec<ContentItem>, next: Option<&str>) -> Node {
    Node { name: name.to_string(), content, variables: vec![], next: next.map(|s| s.to_string()) }
}

fn create_test_node() -> Node {
    node("TestNode", vec![text("text", "First text"), text("text", "Second text")], Some("NextNode"))
}

fn new_state(n: Node) -> DialogueState {
    DialogueState::new("test.mortar".to_string(), n.name.clone(), n)
}

fn check_creation() {
    let state = DialogueState::new("test.mortar".to_string(), "TestNode".to_string(), create_test_node());
    assert_eq!(state.mortar_path, "test.mortar");
    assert_eq!(state.current_node, "TestNode");
    assert_eq!(state.text_index, 0);
    assert_eq!(state.selected_choice, None);
    assert_eq!(state.executed_content_indices.len(), 0);
}

fn check_text_navigation() {
    let mut state = new_state(create_test_node());
    assert_eq!(state.current_text(), Some("First text"));
    assert!(state.has_next_text());
    assert!(state.next_text());
    assert_eq!(state.current_text(), Some("Second text"));
    assert!(!state.has_next_text());
    assert!(!state.next_text());
    assert_eq!(state.text_index, 1);
}

fn check_reset() {
    let mut state = new_state(create_test_node());
    state.next_text();
    assert_eq!(state.text_index, 1);
    state.reset();
    assert_eq!(state.text_index, 0);
    assert_eq!(state.current_text(), Some("First text"));
}

fn check_choice_stack() {
    let mut state = new_state(create_test_node());
    assert_eq!(state.choice_stack.len(), 0);
    state.push_choice(0);
    assert_eq!(state.choice_stack.len(), 1);
    assert_eq!(state.selected_choice, None);
    state.push_choice(1);
    assert_eq!(state.choice_stack.len(), 2);
    assert_eq!(state.pop_choice(), Some(1));
    assert_eq!(state.choice_stack.len(), 1);
    state.clear_choice_stack();
    assert_eq!(state.choice_stack.len(), 0);
}

fn check_content_tracking() {
    let mut state = new_state(create_test_node());
    state.mark_content_executed(0);
    state.mark_content_executed(1);
    assert!(state.executed_content_indices.contains(&0));
    assert!(state.executed_content_indices.contains(&1));
    state.mark_content_executed(0);
    assert_eq!(state.executed_content_indices.iter().filter(|&&x| x == 0).count(), 1);
}

fn check_has_next_text_before_choice() {
    let n = node(
        "TestNode",
        vec![text("text", "First text"), choice(vec![option("Option 1", "Node1")]), text("text", "Third text")],
        Some("NextNode"),
    );
    let state = new_state(n);
    assert!(!state.has_next_text_before_choice());
}

fn check_get_next_node() {
    let state = new_state(create_test_node());
    assert_eq!(state.get_next_node(), Some("NextNode"));
}

fn check_current_text_data() {
    let state = new_state(create_test_node());
    let text_data = state.current_text_data();
    assert!(text_data.is_some());
    assert_eq!(text_data.unwrap().value, "First text");
}

fn check_choices_broken() {
    let n = node("TestNode", vec![text("text", "Text before choice"), choice(vec![option("Test", "Next")])], None);
    let mut state = new_state(n);
    assert!(!state.choices_broken);
    assert!(state.get_choices().is_some());
    state.choices_broken = true;
    assert!(state.get_choices().is_none());
}

fn create_line_group_node() -> Node {
    node("LineGroupNode", vec![text("line", "Line A"), text("line", "Line B"), text("line", "Line C")], None)
}

fn check_line_is_line_flag() {
    let state = new_state(create_line_group_node());
    let td = state.current_text_data().unwrap();
    assert!(td.is_line, "First entry should be is_line=true");
}

fn check_line_group_end_covers_consecutive_lines() {
    let state = new_state(create_line_group_node());
    let group = state.current_line_group().unwrap();
    assert_eq!(group.len(), 3, "All 3 consecutive lines should form one group");
    assert_eq!(group[0].value, "Line A");
    assert_eq!(group[1].value, "Line B");
    assert_eq!(group[2].value, "Line C");
}

fn check_line_group_next_text_skips_entire_group() {
    let mut state = new_state(create_line_group_node());
    assert!(!state.has_next_text(), "3-line group should be the only step");
    assert!(!state.next_text(), "next_text should return false when no text after group");
}

fn check_mixed_text_and_line_group() {
    let n = node(
        "MixedNode",
        vec![text("text", "Step 1"), text("line", "Line A"), text("line", "Line B"), text("text", "Step 2")],
        None,
    );
    let mut state = new_state(n);
    assert_eq!(state.current_text(), Some("Step 1"));
    assert!(!state.current_text_data().unwrap().is_line);
    assert!(state.has_next_text());
    assert!(state.next_text());
    let td = state.current_text_data().unwrap();
    assert!(td.is_line);
    let group = state.current_line_group().unwrap();
    assert_eq!(group.len(), 2);
    assert_eq!(group[0].value, "Line A");
    assert_eq!(group[1].value, "Line B");
    assert!(state.has_next_text());
    assert!(state.next_text());
    assert_eq!(state.current_text(), Some("Step 2"));
    assert!(!state.current_text_data().unwrap().is_line);
    assert!(!state.has_next_text());
}

fn identifier(name: &str) -> IfCondition {
    IfCondition {
        cond_type: "identifier".to_string(),
        operator: None,
        left: None,
        right: None,
        operand: None,
        value: Some(lex(name)),
        value_words: vec![lex(name)],
    }
}

fn check_line_group_with_conditions() {
    let conditional = ContentItem { condition: Some(identifier("some_flag")), ..text("line", "Conditional line") };
    let n = node("CondNode", vec![text("line", "Always shown"), conditional], None);
    let state = new_state(n);
    let group = state.current_line_group().unwrap();
    assert_eq!(group.len(), 2, "Conditional line is still part of the group");
    assert!(group[0].condition.is_none());
    assert!(group[1].condition.is_some());
    assert!(!state.has_next_text(), "Conditional line group should be one step");
}

fn check_line_group_last_content_index() {
    let run = ContentItem { name: Some("sfx".to_string()), ..item("run_event") };
    let n = node(
        "RunAfterLine",
        vec![text("line", "Line A"), text("line", "Line B"), text("line", "Line C"), run, text("text", "After group")],
        None,
    );
    let state = new_state(n);
    assert_eq!(state.line_group_last_content_index(), Some(2), "Last line in group should have content index 2");
    assert_eq!(state.current_text_content_index(), Some(0), "First line in group should have content index 0");
}

fn check_single_text_last_content_index() {
    let state = new_state(node("SingleText", vec![text("text", "Hello")], None));
    assert_eq!(state.current_text_content_index(), Some(0));
    assert_eq!(state.line_group_last_content_index(), Some(0));
}

#[test]
fn tests_test_dialogue_state_creation() {
    check_creation();
}

#[test]
fn dialogue_state_tests_test_dialogue_state_creation() {
    check_creation();
}

#[test]
fn tests_test_dialogue_state_text_navigation() {
    check_text_navigation();
}

#[test]
fn dialogue_state_tests_test_dialogue_state_text_navigation() {
    check_text_navigation();
}

#[test]
fn tests_test_dialogue_state_reset() {
    check_reset();
}

#[test]
fn dialogue_state_tests_test_dialogue_state_reset() {
    check_reset();
}

#[test]
fn tests_test_dialogue_state_choice_stack() {
    check_choice_stack();
}

#[test]
fn dialogue_state_tests_test_dialogue_state_choice_stack() {
    check_choice_stack();
}

#[test]
fn tests_test_dialogue_state_content_tracking() {
    check_content_tracking();
}

#[test]
fn dialogue_state_tests_test_dialogue_state_content_tracking() {
    check_content_tracking();
}

#[test]
fn tests_test_dialogue_state_has_next_text_before_choice() {
    check_has_next_text_before_choice();
}

#[test]
fn dialogue_state_tests_test_dialogue_state_has_next_text_before_choice() {
    check_has_next_text_before_choice();
}

#[test]
fn tests_test_dialogue_state_get_next_node() {
    check_get_next_node();
}

#[test]
fn dialogue_state_tests_test_dialogue_state_get_next_node() {
    check_get_next_node();
}

#[test]
fn tests_test_dialogue_state_current_text_data() {
    check_current_text_data();
}

#[test]
fn dialogue_state_tests_test_dialogue_state_current_text_data() {
    check_current_text_data();
}

#[test]
fn tests_test_dialogue_state_choices_broken() {
    check_choices_broken();
}

#[test]
fn dialogue_state_tests_test_dialogue_state_choices_broken() {
    check_choices_broken();
}

#[test]
fn tests_test_line_group_is_line_flag() {
    check_line_is_line_flag();
}

#[test]
fn line_group_tests_test_line_group_is_line_flag() {
    check_line_is_line_flag();
}

#[test]
fn tests_test_line_group_end_covers_consecutive_lines() {
    check_line_group_end_covers_consecutive_lines();
}

#[test]
fn line_group_tests_test_line_group_end_covers_consecutive_lines() {
    check_line_group_end_covers_consecutive_lines();
}

#[test]
fn tests_test_line_group_next_text_skips_entire_group() {
    check_line_group_next_text_skips_entire_group();
}

#[test]
fn line_group_tests_test_line_group_next_text_skips_entire_group() {
    check_line_group_next_text_skips_entire_group();
}

#[test]
fn tests_test_mixed_text_and_line_group() {
    check_mixed_text_and_line_group();
}

#[test]
fn line_group_tests_test_mixed_text_and_line_group() {
    check_mixed_text_and_line_group();
}

#[test]
fn tests_test_line_group_with_conditions() {
    check_line_group_with_conditions();
}

#[test]
fn line_group_tests_test_line_group_with_conditions() {
    check_line_group_with_conditions();
}

#[test]
fn tests_test_line_group_last_content_index() {
    check_line_group_last_content_index();
}

#[test]
fn line_group_tests_test_line_group_last_content_index() {
    check_line_group_last_content_index();
}

#[test]
fn tests_test_line_group_single_text_last_content_index() {
    check_single_text_last_content_index();
}

#[test]
fn line_group_tests_test_line_group_single_text_last_content_index() {
    check_single_text_last_content_index();
}
