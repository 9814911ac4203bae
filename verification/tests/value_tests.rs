use bevy_mortar_bond::condition::IfCondition;
use bevy_mortar_bond::number::MortarNumber;
use bevy_mortar_bond::value::{
    JsonValue, Lexeme, MortarBoolean, MortarString, MortarValue, MortarVariableValue,
};
use bevy_mortar_bond::variable_state::{MortarVariableState, Variable};

fn num(x: f64) -> MortarNumber {
    MortarNumber::new(x.to_bits(), format!("{}", x))
}

fn lex(s: &str) -> Lexeme {
    Lexeme::new(s.to_string(), s.parse::<f64>().ok().map(num))
}

fn ifc(
    cond_type: &str,
    operator: Option<&str>,
    left: Option<IfCondition>,
    right: Option<IfCondition>,
    operand: Option<IfCondition>,
    value: Option<&str>,
) -> IfCondition {
    IfCondition {
        cond_type: cond_type.to_string(),
        operator: operator.map(|s| s.to_string()),
        left: left.map(Box::new),
        right: right.map(Box::new),
        operand: operand.map(Box::new),
        value: value.map(lex),
        value_words: value.map(|v| v.split_whitespace().map(lex).collect()).unwrap_or_default(),
    }
}

fn var(name: &str, var_type: &str, value: Option<JsonValue>) -> Variable {
    Variable { name: name.to_string(), var_type: var_type.to_string(), value }
}

fn number_of(v: &MortarValue) -> f64 {
    match v {
        MortarValue::Number(n) => f64::from_bits(n.to_bits()),
        _ => panic!("Expected Number"),
    }
}

fn string_of(v: &MortarValue) -> String {
    match v {
        MortarValue::String(s) => s.0.clone(),
        _ => panic!("Expected String"),
    }
}

fn check_parse_string() {
    let val = MortarValue::parse(&lex("\"hello\""));
    assert_eq!(string_of(&val), "hello");
}

fn check_parse_number() {
    let val = MortarValue::parse(&lex("42.5"));
    assert_eq!(number_of(&val), 42.5);
}

fn check_parse_boolean() {
    match MortarValue::parse(&lex("true")) {
        MortarValue::Boolean(b) => assert!(b.0),
        _ => panic!("Expected Boolean"),
    }
    match MortarValue::parse(&lex("false")) {
        MortarValue::Boolean(b) => assert!(!b.0),
        _ => panic!("Expected Boolean"),
    }
}

fn check_value_display() {
    assert_eq!(MortarValue::String(MortarString("test".to_string())).to_display_string(), "test");
    assert_eq!(MortarValue::Number(num(3.42)).to_display_string(), "3.42");
    assert_eq!(MortarValue::Boolean(MortarBoolean(true)).to_display_string(), "true");
}

fn check_from_variables() {
    let variables = vec![
        var("health", "Number", Some(JsonValue::Number(num(100.0)))),
        var("player_name", "String", Some(JsonValue::String("Alice".to_string()))),
    ];
    let state = MortarVariableState::from_variables(&variables, &vec![], &vec![]);
    assert_eq!(state.get("health"), Some(&MortarVariableValue::Number(num(100.0))));
    assert_eq!(state.get("player_name"), Some(&MortarVariableValue::String("Alice".to_string())));
}

fn check_execute_assignment() {
    let variables = vec![var("count", "Number", Some(JsonValue::Number(num(0.0))))];
    let mut state = MortarVariableState::from_variables(&variables, &vec![], &vec![]);
    state.execute_assignment("count", &lex("42"));
    assert_eq!(state.get("count"), Some(&MortarVariableValue::Number(num(42.0))));
    state.execute_assignment("count", &lex("\"text\""));
    assert_eq!(state.get("count"), Some(&MortarVariableValue::String("\"text\"".to_string())));
}

fn check_evaluate_condition() {
    let variables = vec![
        var("has_key", "Boolean", Some(JsonValue::Bool(true))),
        var("is_locked", "Boolean", Some(JsonValue::Bool(false))),
    ];
    let state = MortarVariableState::from_variables(&variables, &vec![], &vec![]);
    assert!(state.evaluate_condition(&ifc("identifier", None, None, None, None, Some("has_key"))));
    assert!(!state.evaluate_condition(&ifc("identifier", None, None, None, None, Some("is_locked"))));
}

fn check_variable_display() {
    assert_eq!(MortarVariableValue::Number(num(3.42)).to_display_string(), "3.42");
    assert_eq!(MortarVariableValue::String("test".to_string()).to_display_string(), "test");
    assert_eq!(MortarVariableValue::Boolean(true).to_display_string(), "true");
}

fn check_branch_text() {
    let mut state = MortarVariableState::default();
    state.set_branch_text("branch1".to_string(), "Option A".to_string());
    state.set_branch_text("branch2".to_string(), "Option B".to_string());
    assert_eq!(state.get_branch_text("branch1"), Some("Option A".to_string()));
    assert_eq!(state.get_branch_text("branch2"), Some("Option B".to_string()));
    assert_eq!(state.get_branch_text("nonexistent"), None);
}

fn check_parse_value() {
    let variables = vec![var("test", "Number", Some(JsonValue::Number(num(42.0))))];
    let mut state = MortarVariableState::from_variables(&variables, &vec![], &vec![]);
    state.execute_assignment("test", &lex("100"));
    assert_eq!(state.get("test"), Some(&MortarVariableValue::Number(num(100.0))));
    state.execute_assignment("test", &lex("true"));
    assert_eq!(state.get("test"), Some(&MortarVariableValue::Boolean(true)));
    state.execute_assignment("test", &lex("false"));
    assert_eq!(state.get("test"), Some(&MortarVariableValue::Boolean(false)));
}

fn check_parse_edge_cases() {
    assert_eq!(string_of(&MortarValue::parse(&lex(""))), "");
    assert_eq!(string_of(&MortarValue::parse(&lex("\"\""))), "");
    assert_eq!(number_of(&MortarValue::parse(&lex("-42.5"))), -42.5);
    assert_eq!(number_of(&MortarValue::parse(&lex("0"))), 0.0);
}

#[test]
fn tests_test_mortar_value_parse_string() {
    check_parse_string();
}

#[test]
fn value_and_variable_tests_test_mortar_value_parse_string() {
    check_parse_string();
}

#[test]
fn tests_test_mortar_value_parse_number() {
    check_parse_number();
}

#[test]
fn value_and_variable_tests_test_mortar_value_parse_number() {
    check_parse_number();
}

#[test]
fn tests_test_mortar_value_parse_boolean() {
    check_parse_boolean();
}

#[test]
fn value_and_variable_tests_test_mortar_value_parse_boolean() {
    check_parse_boolean();
}

#[test]
fn tests_test_mortar_value_to_display_string() {
    check_value_display();
}

#[test]
fn value_and_variable_tests_test_mortar_value_to_display_string() {
    check_value_display();
}

#[test]
fn tests_test_variable_state_from_variables() {
    check_from_variables();
}

#[test]
fn value_and_variable_tests_test_variable_state_from_variables() {
    check_from_variables();
}

#[test]
fn tests_test_variable_state_execute_assignment() {
    check_execute_assignment();
}

#[test]
fn value_and_variable_tests_test_variable_state_execute_assignment() {
    check_execute_assignment();
}

#[test]
fn tests_test_variable_state_evaluate_condition() {
    check_evaluate_condition();
}

#[test]
fn value_and_variable_tests_test_variable_state_evaluate_condition() {
    check_evaluate_condition();
}

#[test]
fn tests_test_variable_value_to_display_string() {
    check_variable_display();
}

#[test]
fn value_and_variable_tests_test_variable_value_to_display_string() {
    check_variable_display();
}

#[test]
fn tests_test_variable_state_branch_text() {
    check_branch_text();
}

#[test]
fn value_and_variable_tests_test_variable_state_branch_text() {
    check_branch_text();
}

#[test]
fn tests_test_variable_state_parse_value() {
    check_parse_value();
}

#[test]
fn value_and_variable_tests_test_variable_state_parse_value() {
    check_parse_value();
}

#[test]
fn tests_test_mortar_value_parse_edge_cases() {
    check_parse_edge_cases();
}

#[test]
fn value_and_variable_tests_test_mortar_value_parse_edge_cases() {
    check_parse_edge_cases();
}

#[test]
fn test_variable_state_basic() {
    let mut state = MortarVariableState::new();
    state.set("score", MortarVariableValue::Number(num(100.0)));
    state.set("name", MortarVariableValue::String("Player".to_string()));
    state.set("is_active", MortarVariableValue::Boolean(true));
    assert_eq!(state.get("score"), Some(&MortarVariableValue::Number(num(100.0))));
    assert_eq!(state.get("name"), Some(&MortarVariableValue::String("Player".to_string())));
    assert_eq!(state.get("is_active"), Some(&MortarVariableValue::Boolean(true)));
}

#[test]
fn test_evaluate_simple_condition() {
    let mut state = MortarVariableState::new();
    state.set("is_winner", MortarVariableValue::Boolean(true));
    let condition = ifc("identifier", None, None, None, None, Some("is_winner"));
    assert!(state.evaluate_condition(&condition));
}

#[test]
fn test_evaluate_comparison() {
    let mut state = MortarVariableState::new();
    state.set("score", MortarVariableValue::Number(num(150.0)));
    let condition = ifc(
        "binary",
        Some(">"),
        Some(ifc("identifier", None, None, None, None, Some("score"))),
        Some(ifc("literal", None, None, None, None, Some("100"))),
        None,
        None,
    );
    assert!(state.evaluate_condition(&condition));
}

fn obj(entries: Vec<(&str, JsonValue)>) -> JsonValue {
    JsonValue::Object(entries.into_iter().map(|(k, v)| (k.to_string(), v)).collect())
}

fn text_json(s: &str) -> JsonValue {
    JsonValue::String(s.to_string())
}

fn case(condition: &str, event_name: &str) -> JsonValue {
    obj(vec![
        ("condition", text_json(condition)),
        ("text", text_json(event_name)),
        ("events", JsonValue::Array(vec![obj(vec![("index", JsonValue::Number(num(0.0))), ("name", text_json(event_name))])])),
    ])
}

fn event_name(events: &Vec<JsonValue>) -> String {
    match &events[0] {
        JsonValue::Object(entries) => match &entries[1].1 {
            JsonValue::String(s) => s.clone(),
            _ => panic!("Expected a name"),
        },
        _ => panic!("Expected an object"),
    }
}

#[test]
fn branch_events_follow_enum_member() {
    let branch = obj(vec![
        ("enum_type", text_json("mood")),
        ("cases", JsonValue::Array(vec![case("happy", "smile"), case("sad", "frown")])),
    ]);
    let variables = vec![
        var("mood", "String", Some(text_json("Mood.sad"))),
        var("face", "Branch", Some(branch)),
    ];
    let state = MortarVariableState::from_variables(&variables, &vec![], &vec![]);
    let events = state.get_branch_events("face", &variables).expect("events of the sad case");
    assert_eq!(event_name(events), "frown");
    assert!(state.get_branch_events("mood", &variables).is_none());
    assert!(state.get_branch_events("missing", &variables).is_none());
}

#[test]
fn branch_events_follow_first_true_condition() {
    let branch = obj(vec![(
        "cases",
        JsonValue::Array(vec![case("is_day", "sun"), case("is_night", "moon"), case("always", "star")]),
    )]);
    let mut variables = vec![
        var("is_day", "Boolean", Some(JsonValue::Bool(false))),
        var("is_night", "Boolean", Some(JsonValue::Bool(true))),
        var("always", "Boolean", Some(JsonValue::Bool(true))),
        var("sky", "Branch", Some(branch)),
    ];
    let state = MortarVariableState::from_variables(&variables, &vec![], &vec![]);
    assert_eq!(event_name(state.get_branch_events("sky", &variables).expect("moon case")), "moon");
    variables[3].value = Some(obj(vec![("cases", JsonValue::Array(vec![case("is_day", "sun")]))]));
    assert!(state.get_branch_events("sky", &variables).is_none());
    variables[3].value = Some(obj(vec![("cases", JsonValue::Array(vec![obj(vec![("condition", text_json("is_night"))])]))]));
    assert!(state.get_branch_events("sky", &variables).is_none());
}

#[test]
fn parse_of_a_lone_quote_is_that_text() {
    assert_eq!(string_of(&MortarValue::parse(&lex("\""))), "\"");
    assert_eq!(string_of(&MortarValue::parse(&lex("'"))), "'");
    assert_eq!(string_of(&MortarValue::parse(&lex("\"\""))), "");
}
