use bevy_mortar_bond::condition::{Condition, IfCondition};
use bevy_mortar_bond::condition_cache::{evaluate_condition_cached, CachedCondition};
use bevy_mortar_bond::dialogue_state::TextData;
use bevy_mortar_bond::eval::{evaluate_condition, evaluate_if_condition, process_interpolated_text};
use bevy_mortar_bond::number::MortarNumber;
use bevy_mortar_bond::registry::MortarFunctionRegistry;
use bevy_mortar_bond::script::StringPart;
use bevy_mortar_bond::value::{JsonValue, Lexeme, MortarBoolean, MortarString, MortarValue};
use bevy_mortar_bond::variable_state::{MortarVariableState, Variable};

fn num(x: f64) -> MortarNumber {
    MortarNumber::new(x.to_bits(), format!("{}", x))
}

fn lex(s: &str) -> Lexeme {
    Lexeme::new(s.to_string(), s.parse::<f64>().ok().map(num))
}

fn ifc(
    cond_type: &str,
    operator: Option<&str>,
    left: Option<IfCondition>,
    right: Option<IfCondition>,
    operand: Option<IfCondition>,
    value: Option<&str>,
) -> IfCondition {
    IfCondition {
        cond_type: cond_type.to_string(),
        operator: operator.map(|s| s.to_string()),
        left: left.map(Box::new),
        right: right.map(Box::new),
        operand: operand.map(Box::new),
        value: value.map(lex),
        value_words: value.map(|v| v.split_whitespace().map(lex).collect()).unwrap_or_default(),
    }
}

fn make_func_call(name: &str) -> IfCondition {
    ifc("func_call", None, None, None, Some(ifc("", None, None, None, None, Some(name))), None)
}

fn make_binary_ge_func_call(left_fn: &str, right_fn: &str) -> IfCondition {
    ifc("binary", Some(">="), Some(make_func_call(left_fn)), Some(make_func_call(right_fn)), None, None)
}

fn make_unary_not(inner: IfCondition) -> IfCondition {
    ifc("unary", Some("!"), None, None, Some(inner), None)
}

fn copy(c: &IfCondition) -> IfCondition {
    bevy_mortar_bond::condition_cache::copy_condition(c)
}

fn make_empty_registry() -> MortarFunctionRegistry {
    MortarFunctionRegistry::new()
}

fn make_registry_with_funcs() -> MortarFunctionRegistry {
    let mut reg = MortarFunctionRegistry::new();
    reg.register("returns_true", |_: &[MortarValue]| MortarValue::Boolean(MortarBoolean(true)));
    reg.register("returns_false", |_: &[MortarValue]| MortarValue::Boolean(MortarBoolean(false)));
    reg.register("returns_42", |_: &[MortarValue]| MortarValue::Number(num(42.0)));
    reg.register("returns_zero", |_: &[MortarValue]| MortarValue::Number(num(0.0)));
    reg.register("returns_hello", |_: &[MortarValue]| MortarValue::String(MortarString("hello".to_string())));
    reg.register("identity", |args: &[MortarValue]| match args.first() {
        Some(v) => v.duplicate(),
        None => MortarValue::Void,
    });
    reg
}

fn part(part_type: &str, content: &str) -> StringPart {
    StringPart { part_type: part_type.to_string(), content: content.to_string(), function_name: None, args: vec![] }
}

fn check_function_registry_register_and_call() {
    let mut registry = MortarFunctionRegistry::new();
    registry.register("test_func", |args: &[MortarValue]| {
        if let Some(MortarValue::String(s)) = args.first() {
            MortarValue::String(MortarString(format!("Result: {}", s.0)))
        } else {
            MortarValue::Void
        }
    });
    let result = registry.call("test_func", &[MortarValue::String(MortarString("hello".to_string()))]);
    assert!(result.is_some());
    match result.unwrap() {
        MortarValue::String(s) => assert_eq!(s.0, "Result: hello"),
        _ => panic!("Expected String result"),
    }
    let result = registry.call("non_existent", &[]);
    assert!(result.is_none());
}

fn check_evaluate_condition_with_function() {
    let functions = MortarFunctionRegistry::new();
    let function_decls = vec![];
    let condition = Condition { condition_type: "has_key".to_string(), args: vec![] };
    assert!(!evaluate_condition(&condition, &functions, &function_decls));
}

fn check_evaluate_condition_with_registered_function() {
    let mut functions = MortarFunctionRegistry::new();
    functions.register("has_key", |_args: &[MortarValue]| MortarValue::Boolean(MortarBoolean(true)));
    let function_decls = vec![];
    let condition = Condition { condition_type: "has_key".to_string(), args: vec![] };
    assert!(evaluate_condition(&condition, &functions, &function_decls));
}

fn check_interpolated_text_no_interpolation() {
    let text_data = TextData {
        value: "Plain text".to_string(),
        interpolated_parts: None,
        condition: None,
        events: None,
        pre_statements: vec![],
        is_line: false,
    };
    let functions = MortarFunctionRegistry::new();
    let var_state = MortarVariableState::default();
    assert_eq!(process_interpolated_text(&text_data, &functions, &vec![], &var_state), "Plain text");
}

fn check_interpolated_text_with_variables() {
    let text_data = TextData {
        is_line: false,
        value: "Hello {name}!".to_string(),
        interpolated_parts: Some(vec![part("text", "Hello "), part("placeholder", "{name}"), part("text", "!")]),
        condition: None,
        events: None,
        pre_statements: vec![],
    };
    let functions = MortarFunctionRegistry::new();
    let variables = vec![Variable {
        name: "name".to_string(),
        var_type: "String".to_string(),
        value: Some(JsonValue::String("Alice".to_string())),
    }];
    let var_state = MortarVariableState::from_variables(&variables, &vec![], &vec![]);
    assert_eq!(process_interpolated_text(&text_data, &functions, &vec![], &var_state), "Hello Alice!");
}

#[test]
fn tests_test_function_registry_register_and_call() {
    check_function_registry_register_and_call();
}

#[test]
fn function_and_registry_tests_test_function_registry_register_and_call() {
    check_function_registry_register_and_call();
}

#[test]
fn tests_test_evaluate_condition_with_function() {
    check_evaluate_condition_with_function();
}

#[test]
fn function_and_registry_tests_test_evaluate_condition_with_function() {
    check_evaluate_condition_with_function();
}

#[test]
fn tests_test_evaluate_condition_with_registered_function() {
    check_evaluate_condition_with_registered_function();
}

#[test]
fn function_and_registry_tests_test_evaluate_condition_with_registered_function() {
    check_evaluate_condition_with_registered_function();
}

#[test]
fn tests_test_process_interpolated_text_no_interpolation() {
    check_interpolated_text_no_interpolation();
}

#[test]
fn text_processing_tests_test_process_interpolated_text_no_interpolation() {
    check_interpolated_text_no_interpolation();
}

#[test]
fn tests_test_process_interpolated_text_with_variables() {
    check_interpolated_text_with_variables();
}

#[test]
fn text_processing_tests_test_process_interpolated_text_with_variables() {
    check_interpolated_text_with_variables();
}

#[test]
fn evaluate_empty_cond_type_no_panic() {
    let cond = ifc("", None, None, None, None, None);
    let reg = make_empty_registry();
    let state = MortarVariableState::new();
    let _ = evaluate_if_condition(&cond, &reg, &state);
}

#[test]
fn evaluate_unknown_cond_type_no_panic() {
    let cond = ifc("nonexistent_type", None, None, None, None, None);
    let reg = make_empty_registry();
    let state = MortarVariableState::new();
    let _ = evaluate_if_condition(&cond, &reg, &state);
}

#[test]
fn func_call_with_missing_operand_no_panic() {
    let cond = ifc("func_call", None, None, None, None, None);
    let reg = make_registry_with_funcs();
    let state = MortarVariableState::new();
    assert!(!evaluate_if_condition(&cond, &reg, &state));
}

#[test]
fn func_call_with_unbound_function() {
    let cond = make_func_call("unbound_func");
    let reg = make_empty_registry();
    let state = MortarVariableState::new();
    assert!(!evaluate_if_condition(&cond, &reg, &state));
}

#[test]
fn func_call_comparison_with_registered_func() {
    let reg = make_registry_with_funcs();
    let state = MortarVariableState::new();
    let cond = ifc(
        "binary",
        Some(">"),
        Some(make_func_call("returns_42")),
        Some(ifc("literal", None, None, None, None, Some("10"))),
        None,
        None,
    );
    assert!(evaluate_if_condition(&cond, &reg, &state));
}

#[test]
fn func_call_comparison_both_sides() {
    let reg = make_registry_with_funcs();
    let state = MortarVariableState::new();
    let cond = ifc("binary", Some(">"), Some(make_func_call("returns_42")), Some(make_func_call("returns_zero")), None, None);
    assert!(evaluate_if_condition(&cond, &reg, &state));
}

#[test]
fn binary_missing_left_right_no_panic() {
    let cond = ifc("binary", Some("&&"), None, None, None, None);
    let reg = make_empty_registry();
    let state = MortarVariableState::new();
    let _ = evaluate_if_condition(&cond, &reg, &state);
}

#[test]
fn unary_missing_operand_no_panic() {
    let cond = ifc("unary", Some("!"), None, None, None, None);
    let reg = make_empty_registry();
    let state = MortarVariableState::new();
    let _ = evaluate_if_condition(&cond, &reg, &state);
}

#[test]
fn mortar_value_parse_edge_cases() {
    assert!(matches!(MortarValue::parse(&lex("")), MortarValue::String(_)));
    match MortarValue::parse(&lex("\"\"")) {
        MortarValue::String(s) => assert_eq!(s.as_str(), ""),
        _ => panic!("Expected empty string"),
    }
    assert!(matches!(MortarValue::parse(&lex("   ")), MortarValue::String(_)));
    assert!(matches!(MortarValue::parse(&lex("0")), MortarValue::Number(_)));
    assert!(matches!(MortarValue::parse(&lex("-1")), MortarValue::Number(_)));
    assert!(matches!(MortarValue::parse(&lex("NaN")), MortarValue::Number(_)));
    assert!(matches!(MortarValue::parse(&lex("inf")), MortarValue::Number(_)));
}

#[test]
fn mortar_value_truthiness() {
    assert!(!MortarValue::Void.is_truthy());
    assert!(!MortarValue::Boolean(MortarBoolean(false)).is_truthy());
    assert!(MortarValue::Boolean(MortarBoolean(true)).is_truthy());
    assert!(!MortarValue::Number(num(0.0)).is_truthy());
    assert!(MortarValue::Number(num(1.0)).is_truthy());
    assert!(MortarValue::Number(num(-1.0)).is_truthy());
    assert!(MortarValue::String(MortarString("x".to_string())).is_truthy());
    assert!(!MortarValue::String(MortarString(String::new())).is_truthy());
}

#[test]
fn logical_and_or_with_func_calls() {
    let reg = make_registry_with_funcs();
    let state = MortarVariableState::new();
    let cond = ifc("binary", Some("&&"), Some(make_func_call("returns_true")), Some(make_func_call("returns_false")), None, None);
    assert!(!evaluate_if_condition(&cond, &reg, &state));
    let cond_or = ifc("binary", Some("||"), Some(make_func_call("returns_true")), Some(make_func_call("returns_false")), None, None);
    assert!(evaluate_if_condition(&cond_or, &reg, &state));
}

#[test]
fn negation_of_func_call() {
    let reg = make_registry_with_funcs();
    let state = MortarVariableState::new();
    let cond = make_unary_not(make_func_call("returns_true"));
    assert!(!evaluate_if_condition(&cond, &reg, &state));
    let cond2 = make_unary_not(make_func_call("returns_false"));
    assert!(evaluate_if_condition(&cond2, &reg, &state));
}

#[test]
fn void_ge_void_returns_false() {
    let reg = make_empty_registry();
    let state = MortarVariableState::new();
    let cond = make_binary_ge_func_call("unregistered_a", "unregistered_b");
    assert!(!evaluate_if_condition(&cond, &reg, &state));
}

#[test]
fn not_void_ge_void_returns_true() {
    let reg = make_empty_registry();
    let state = MortarVariableState::new();
    let cond = make_unary_not(make_binary_ge_func_call("unregistered_a", "unregistered_b"));
    assert!(evaluate_if_condition(&cond, &reg, &state));
}

#[test]
fn if_else_mutual_exclusivity_via_evaluate() {
    let reg = make_empty_registry();
    let state = MortarVariableState::new();
    let if_cond = make_binary_ge_func_call("get_hp", "get_max_hp");
    let else_cond = make_unary_not(copy(&if_cond));
    let if_result = evaluate_if_condition(&if_cond, &reg, &state);
    let else_result = evaluate_if_condition(&else_cond, &reg, &state);
    assert_ne!(if_result, else_result, "if and else must be mutually exclusive");
}

#[test]
fn cached_condition_ensures_if_else_exclusivity() {
    let reg = make_empty_registry();
    let state = MortarVariableState::new();
    let mut cache: Option<CachedCondition> = None;
    let if_cond = make_binary_ge_func_call("get_hp", "get_max_hp");
    let else_cond = make_unary_not(copy(&if_cond));
    let if_result = evaluate_condition_cached(&if_cond, &reg, &state, &mut cache);
    let else_result = evaluate_condition_cached(&else_cond, &reg, &state, &mut cache);
    assert_ne!(if_result, else_result, "cached evaluation must guarantee mutual exclusivity");
}

fn hp_registry(hp: f64, max_hp: f64) -> MortarFunctionRegistry {
    let mut reg = MortarFunctionRegistry::new();
    reg.register("get_hp", move |_: &[MortarValue]| MortarValue::Number(num(hp)));
    reg.register("get_max_hp", move |_: &[MortarValue]| MortarValue::Number(num(max_hp)));
    reg
}

#[test]
fn cached_condition_with_registered_funcs_hp_full() {
    let reg = hp_registry(20.0, 20.0);
    let state = MortarVariableState::new();
    let mut cache: Option<CachedCondition> = None;
    let if_cond = make_binary_ge_func_call("get_hp", "get_max_hp");
    let else_cond = make_unary_not(copy(&if_cond));
    assert!(evaluate_condition_cached(&if_cond, &reg, &state, &mut cache), "HP full: if-branch should be true");
    assert!(!evaluate_condition_cached(&else_cond, &reg, &state, &mut cache), "HP full: else-branch should be false");
}

#[test]
fn cached_condition_with_registered_funcs_hp_not_full() {
    let reg = hp_registry(15.0, 20.0);
    let state = MortarVariableState::new();
    let mut cache: Option<CachedCondition> = None;
    let if_cond = make_binary_ge_func_call("get_hp", "get_max_hp");
    let else_cond = make_unary_not(copy(&if_cond));
    assert!(!evaluate_condition_cached(&if_cond, &reg, &state, &mut cache), "HP not full: if-branch should be false");
    assert!(evaluate_condition_cached(&else_cond, &reg, &state, &mut cache), "HP not full: else-branch should be true");
}

#[test]
fn cached_condition_multi_text_if_else_branches() {
    let reg = make_empty_registry();
    let state = MortarVariableState::new();
    let mut cache: Option<CachedCondition> = None;
    let if_cond = make_binary_ge_func_call("get_hp", "get_max_hp");
    let else_cond = make_unary_not(copy(&if_cond));
    let r0 = evaluate_condition_cached(&if_cond, &reg, &state, &mut cache);
    let r1 = evaluate_condition_cached(&if_cond, &reg, &state, &mut cache);
    let r2 = evaluate_condition_cached(&else_cond, &reg, &state, &mut cache);
    let r3 = evaluate_condition_cached(&else_cond, &reg, &state, &mut cache);
    assert!(!r0, "if text 0 should be false");
    assert!(!r1, "if text 1 should be false");
    assert!(r2, "else text 0 should be true");
    assert!(r3, "else text 1 should be true");
}

#[test]
fn cached_condition_reset_between_dialogues() {
    let reg = hp_registry(20.0, 20.0);
    let state = MortarVariableState::new();
    let mut cache: Option<CachedCondition> = None;
    let if_cond = make_binary_ge_func_call("get_hp", "get_max_hp");
    let else_cond = make_unary_not(copy(&if_cond));
    let r1 = evaluate_condition_cached(&if_cond, &reg, &state, &mut cache);
    let r2 = evaluate_condition_cached(&else_cond, &reg, &state, &mut cache);
    assert!(r1 && !r2, "first dialogue: if=true, else=false");
    cache = None;
    let reg2 = hp_registry(10.0, 20.0);
    let r3 = evaluate_condition_cached(&if_cond, &reg2, &state, &mut cache);
    let r4 = evaluate_condition_cached(&else_cond, &reg2, &state, &mut cache);
    assert!(!r3 && r4, "second dialogue: if=false, else=true");
}
