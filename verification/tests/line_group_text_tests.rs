use bevy_mortar_bond::condition::IfCondition;
use bevy_mortar_bond::dialogue::{process_line_group, run_statements, MortarDialogueText};
use bevy_mortar_bond::dialogue_state::TextData;
use bevy_mortar_bond::number::MortarNumber;
use bevy_mortar_bond::registry::MortarFunctionRegistry;
use bevy_mortar_bond::script::Statement;
use bevy_mortar_bond::value::{Lexeme, MortarVariableValue};
use bevy_mortar_bond::variable_state::MortarVariableState;

fn num(x: f64) -> MortarNumber {
    MortarNumber::new(x.to_bits(), format!("{}", x))
}

fn lex(s: &str) -> Lexeme {
    Lexeme::new(s.to_string(), s.parse::<f64>().ok().map(num))
}

fn make_line(value: &str) -> TextData {
    TextData {
        value: value.to_string(),
        interpolated_parts: None,
        condition: None,
        pre_statements: vec![],
        events: None,
        is_line: true,
    }
}

fn make_conditional_line(value: &str, cond: IfCondition) -> TextData {
    TextData { condition: Some(cond), ..make_line(value) }
}

fn identifier(name: &str) -> IfCondition {
    IfCondition {
        cond_type: "identifier".to_string(),
        operator: None,
        left: None,
        right: None,
        operand: None,
        value: Some(lex(name)),
        value_words: vec![lex(name)],
    }
}

fn true_condition() -> IfCondition {
    identifier("truthy_var")
}

fn false_condition() -> IfCondition {
    identifier("unset_var")
}

#[test]
fn test_process_line_group_basic() {
    let group = vec![make_line("Line A"), make_line("Line B")];
    let functions = MortarFunctionRegistry::new();
    let mut vs = MortarVariableState::default();
    let result = process_line_group(&group, &functions, &vec![], &mut vs);
    assert_eq!(result, Some("Line A\nLine B".to_string()));
}

#[test]
fn test_process_line_group_single_line() {
    let group = vec![make_line("Only line")];
    let functions = MortarFunctionRegistry::new();
    let mut vs = MortarVariableState::default();
    let result = process_line_group(&group, &functions, &vec![], &mut vs);
    assert_eq!(result, Some("Only line".to_string()));
}

#[test]
fn test_process_line_group_all_conditions_false() {
    let group = vec![make_conditional_line("Line A", false_condition()), make_conditional_line("Line B", false_condition())];
    let functions = MortarFunctionRegistry::new();
    let mut vs = MortarVariableState::default();
    let result = process_line_group(&group, &functions, &vec![], &mut vs);
    assert_eq!(result, None, "All conditions false → None");
}

#[test]
fn test_process_line_group_mixed_conditions() {
    let group = vec![
        make_line("Always shown"),
        make_conditional_line("True line", true_condition()),
        make_conditional_line("False line", false_condition()),
    ];
    let functions = MortarFunctionRegistry::new();
    let mut vs = MortarVariableState::default();
    vs.set("truthy_var", MortarVariableValue::Boolean(true));
    let result = process_line_group(&group, &functions, &vec![], &mut vs);
    assert_eq!(result, Some("Always shown\nTrue line".to_string()), "False line should be excluded");
}

#[test]
fn test_process_line_group_empty_lines_skipped() {
    let group = vec![make_line(""), make_line("Non-empty")];
    let functions = MortarFunctionRegistry::new();
    let mut vs = MortarVariableState::default();
    let result = process_line_group(&group, &functions, &vec![], &mut vs);
    assert_eq!(result, Some("Non-empty".to_string()), "Empty lines should be excluded from join");
}

fn assignment(name: &str, value: &str) -> Statement {
    Statement { stmt_type: "assignment".to_string(), var_name: Some(name.to_string()), value: Some(lex(value)) }
}

#[test]
fn line_group_statements_run_only_for_shown_lines() {
    let shown = TextData { pre_statements: vec![assignment("seen", "true")], ..make_line("Shown") };
    let hidden = TextData { pre_statements: vec![assignment("hidden", "1")], ..make_conditional_line("Hidden", false_condition()) };
    let functions = MortarFunctionRegistry::new();
    let mut vs = MortarVariableState::default();
    let result = process_line_group(&[shown, hidden], &functions, &vec![], &mut vs);
    assert_eq!(result, Some("Shown".to_string()));
    assert_eq!(vs.get("seen"), Some(&MortarVariableValue::Boolean(true)));
    assert_eq!(vs.get("hidden"), None);
}

#[test]
fn statements_assign_in_order_and_skip_other_kinds() {
    let mut vs = MortarVariableState::default();
    let other = Statement { stmt_type: "call".to_string(), var_name: Some("x".to_string()), value: Some(lex("1")) };
    run_statements(&mut vs, &vec![assignment("x", "1"), assignment("x", "Mood.happy"), other]);
    assert_eq!(vs.get("x"), Some(&MortarVariableValue::String("Mood.happy".to_string())));
}

#[test]
fn dialogue_text_full_text_joins_header_and_body() {
    let t = MortarDialogueText { header: "[a.mortar / Start]\n\n".to_string(), body: "Hello".to_string() };
    assert_eq!(t.full_text(), "[a.mortar / Start]\n\nHello");
}
