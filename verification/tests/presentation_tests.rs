use bevy_mortar_bond::condition::IfCondition;
use bevy_mortar_bond::condition_cache::CachedCondition;
use bevy_mortar_bond::dialogue::{dialogue_header, present_current_text, TextOutcome};
use bevy_mortar_bond::dialogue_state::DialogueState;
use bevy_mortar_bond::number::MortarNumber;
use bevy_mortar_bond::registry::MortarFunctionRegistry;
use bevy_mortar_bond::script::{ContentItem, Node, Statement};
use bevy_mortar_bond::value::{Lexeme, MortarVariableValue};
use bevy_mortar_bond::variable_state::MortarVariableState;

fn num(x: f64) -> MortarNumber {
    MortarNumber::new(x.to_bits(), format!("{}", x))
}

fn lex(s: &str) -> Lexeme {
    Lexeme::new(s.to_string(), s.parse::<f64>().ok().map(num))
}

fn identifier(name: &str) -> IfCondition {
    IfCondition {
        cond_type: "identifier".to_string(),
        operator: None,
        left: None,
        right: None,
        operand: None,
        value: Some(lex(name)),
        value_words: vec![lex(name)],
    }
}

fn negated(c: IfCondition) -> IfCondition {
    IfCondition {
        cond_type: "unary".to_string(),
        operator: Some("!".to_string()),
        left: None,
        right: None,
        operand: Some(Box::new(c)),
        value: None,
        value_words: vec![],
    }
}

fn item(item_type: &str, value: &str) -> ContentItem {
    ContentItem {
        item_type: Some(item_type.to_string()),
        value: Some(value.to_string()),
        interpolated_parts: None,
        condition: None,
        pre_statements: None,
        events: None,
        options: None,
        name: None,
        args: None,
        has_index_override: false,
        index_override: None,
        ignore_duration: None,
    }
}

fn run_event(name: &str) -> ContentItem {
    ContentItem { name: Some(name.to_string()), value: None, ..item("run_event", "") }
}

fn state_of(content: Vec<ContentItem>) -> DialogueState {
    DialogueState::new("s.mortar".to_string(), "N".to_string(), Node { name: "N".to_string(), content, variables: vec![], next: None })
}

fn shown(o: &TextOutcome) -> Option<String> {
    match o {
        TextOutcome::Show(s) => Some(s.clone()),
        _ => None,
    }
}

#[test]
fn presents_text_line_groups_and_conditions() {
    let set_flag = Statement { stmt_type: "assignment".to_string(), var_name: Some("flag".to_string()), value: Some(lex("true")) };
    let guarded = ContentItem { condition: Some(identifier("flag")), ..item("text", "Flag is set") };
    let otherwise = ContentItem { condition: Some(negated(identifier("flag"))), ..item("text", "Flag is not set") };
    let setter = ContentItem { pre_statements: Some(vec![set_flag]), ..item("text", "Setting") };
    let mut st = state_of(vec![item("line", "A"), item("line", "B"), setter, guarded, otherwise]);
    let reg = MortarFunctionRegistry::new();
    let mut vs = MortarVariableState::new();
    let mut cache: Option<CachedCondition> = None;
    let mut skip = false;

    let o = present_current_text(&st, &reg, &vec![], &mut vs, &mut cache, &mut skip);
    assert_eq!(shown(&o), Some("A\nB".to_string()));
    assert!(st.next_text());

    let o = present_current_text(&st, &reg, &vec![], &mut vs, &mut cache, &mut skip);
    assert_eq!(shown(&o), Some("Setting".to_string()));
    assert_eq!(vs.get("flag"), Some(&MortarVariableValue::Boolean(true)));
    assert!(st.next_text());

    let o = present_current_text(&st, &reg, &vec![], &mut vs, &mut cache, &mut skip);
    assert_eq!(shown(&o), Some("Flag is set".to_string()));
    assert!(st.next_text());

    let o = present_current_text(&st, &reg, &vec![], &mut vs, &mut cache, &mut skip);
    assert!(matches!(o, TextOutcome::Advance), "the else branch of a shown if is skipped");
    assert!(!st.next_text());
    st.text_index = 10;
    assert!(matches!(present_current_text(&st, &reg, &vec![], &mut vs, &mut cache, &mut skip), TextOutcome::Nothing));
}

#[test]
fn empty_conditional_text_with_statements_skips_next_conditional() {
    let set = Statement { stmt_type: "assignment".to_string(), var_name: Some("n".to_string()), value: Some(lex("1")) };
    let hidden = ContentItem { condition: Some(identifier("go")), pre_statements: Some(vec![set]), ..item("text", "") };
    let next = ContentItem { condition: Some(identifier("go")), ..item("text", "Conditional") };
    let mut st = state_of(vec![hidden, next]);
    let reg = MortarFunctionRegistry::new();
    let mut vs = MortarVariableState::new();
    vs.set("go", MortarVariableValue::Boolean(true));
    let mut cache: Option<CachedCondition> = None;
    let mut skip = false;
    let o = present_current_text(&st, &reg, &vec![], &mut vs, &mut cache, &mut skip);
    assert!(matches!(o, TextOutcome::Advance));
    assert!(skip);
    assert_eq!(vs.get("n"), Some(&MortarVariableValue::Number(num(1.0))));
    assert!(st.next_text());
    let o = present_current_text(&st, &reg, &vec![], &mut vs, &mut cache, &mut skip);
    assert!(matches!(o, TextOutcome::Advance));
    assert!(!skip);
}

#[test]
fn pending_runs_are_played_once() {
    let mut st = state_of(vec![item("text", "Hi"), run_event("sfx"), run_event("music"), item("text", "Bye")]);
    assert!(st.pending_runs().is_empty(), "no position, no runs");
    st.pending_run_position = Some(1);
    let runs = st.pending_runs();
    assert_eq!(runs.iter().map(|r| r.name.as_str()).collect::<Vec<_>>(), vec!["sfx", "music"]);
    st.finish_runs(&runs);
    assert_eq!(st.pending_run_position, None);
    assert_eq!(st.executed_content_indices, vec![1, 2]);
    st.pending_run_position = Some(1);
    assert!(st.pending_runs().is_empty());
    assert_eq!(st.pending_run_position, None, "a position with no runs is cleared");
    st.pending_run_position = Some(50);
    assert!(st.pending_runs().is_empty());
    assert_eq!(st.pending_run_position, None);
}

#[test]
fn header_names_script_and_node() {
    assert_eq!(dialogue_header("story.mortar", "Start"), "[story.mortar / Start]\n\n");
    assert_eq!(dialogue_header("", ""), "[ / ]\n\n");
}
