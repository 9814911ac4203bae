use bevy_mortar_bond::condition::{Condition, IfCondition};
use std::sync::atomic::{AtomicU64, Ordering};
use std::sync::Arc;
use bevy_mortar_bond::condition_cache::{copy_condition, evaluate_condition_cached, same_condition, CachedCondition};
use bevy_mortar_bond::dialogue_state::{DialogueRunKind, DialogueState, TextData};
use bevy_mortar_bond::eval::{compare_mortar_values, evaluate_condition, evaluate_if_condition, process_interpolated_text};
use bevy_mortar_bond::events::MortarEventTracker;
use bevy_mortar_bond::number::MortarNumber;
use bevy_mortar_bond::registry::MortarFunctionRegistry;
use bevy_mortar_bond::runtime::MortarRuntime;
use bevy_mortar_bond::script::{Action, ContentItem, Event, Function, IndexOverride, Node, StringPart};
use bevy_mortar_bond::value::{JsonValue, Lexeme, MortarBoolean, MortarString, MortarValue, MortarVariableValue};
use bevy_mortar_bond::variable_state::{Constant, Enum, MortarVariableState, Variable};

fn num(x: f64) -> MortarNumber {
    MortarNumber::new(x.to_bits(), format!("{}", x))
}

fn lex(s: &str) -> Lexeme {
    Lexeme::new(s.to_string(), s.parse::<f64>().ok().map(num))
}

fn ifc(
    cond_type: &str,
    operator: Option<&str>,
    left: Option<IfCondition>,
    right: Option<IfCondition>,
    operand: Option<IfCondition>,
    value: Option<&str>,
) -> IfCondition {
    IfCondition {
        cond_type: cond_type.to_string(),
        operator: operator.map(|s| s.to_string()),
        left: left.map(Box::new),
        right: right.map(Box::new),
        operand: operand.map(Box::new),
        value: value.map(lex),
        value_words: value.map(|v| v.split_whitespace().map(lex).collect()).unwrap_or_default(),
    }
}

fn leaf(cond_type: &str, value: &str) -> IfCondition {
    ifc(cond_type, None, None, None, None, Some(value))
}

fn binary(op: &str, l: IfCondition, r: IfCondition) -> IfCondition {
    ifc("binary", Some(op), Some(l), Some(r), None, None)
}

fn not(c: IfCondition) -> IfCondition {
    ifc("unary", Some("!"), None, None, Some(c), None)
}

fn item(item_type: &str) -> ContentItem {
    ContentItem {
        item_type: Some(item_type.to_string()),
        value: None,
        interpolated_parts: None,
        condition: None,
        pre_statements: None,
        events: None,
        options: None,
        name: None,
        args: None,
        has_index_override: false,
        index_override: None,
        ignore_duration: None,
    }
}

fn run(item_type: &str, name: &str) -> ContentItem {
    ContentItem { name: Some(name.to_string()), ..item(item_type) }
}

fn text(value: &str) -> ContentItem {
    ContentItem { value: Some(value.to_string()), ..item("text") }
}

fn state_of(content: Vec<ContentItem>) -> DialogueState {
    DialogueState::new("s.mortar".to_string(), "N".to_string(), Node { name: "N".to_string(), content, variables: vec![], next: None })
}

#[test]
fn numbers_equal_within_epsilon() {
    let a = num(0.1 + 0.2);
    let b = num(0.3);
    assert!(a.nearly_equal(&b));
    let one = num(1.0);
    let next = num(1.0 + f64::EPSILON);
    assert!(!one.nearly_equal(&next), "a difference of exactly EPSILON is not below it");
    assert!(!num(f64::NAN).nearly_equal(&num(f64::NAN)));
    assert!(!num(f64::INFINITY).nearly_equal(&num(f64::INFINITY)));
    assert!(num(-0.0).nearly_equal(&num(0.0)));
}

#[test]
fn number_ordering_follows_ieee() {
    assert!(num(-1.0).less_than(&num(2.0)));
    assert!(!num(2.0).less_than(&num(2.0)));
    assert!(num(2.0).less_equal(&num(2.0)));
    assert!(num(-0.0).less_equal(&num(0.0)) && num(0.0).less_equal(&num(-0.0)));
    assert!(!num(f64::NAN).less_equal(&num(1.0)));
    assert!(num(f64::NEG_INFINITY).less_than(&num(-1e300)));
    assert!(num(5.0).greater_than(&num(4.5)));
    assert!(num(5.0).greater_equal(&num(5.0)));
    assert!(num(f64::NAN).is_nan() && !num(1.0).is_nan());
}

#[test]
fn compare_values_by_operator() {
    let op = |s: &str| Some(s.to_string());
    assert!(compare_mortar_values(&MortarValue::Number(num(3.0)), &MortarValue::Number(num(2.0)), &op(">")));
    assert!(!compare_mortar_values(&MortarValue::String(MortarString("a".into())), &MortarValue::Number(num(2.0)), &op(">")));
    assert!(compare_mortar_values(&MortarValue::String(MortarString("a".into())), &MortarValue::String(MortarString("a".into())), &op("==")));
    assert!(compare_mortar_values(&MortarValue::Boolean(MortarBoolean(true)), &MortarValue::Void, &op("!=")));
    assert!(!compare_mortar_values(&MortarValue::Void, &MortarValue::Void, &op("==")));
    assert!(!compare_mortar_values(&MortarValue::Number(num(1.0)), &MortarValue::Number(num(1.0)), &None));
}

#[test]
fn negation_is_exclusive_over_variables() {
    let mut vs = MortarVariableState::new();
    vs.set("hp", MortarVariableValue::Number(num(10.0)));
    vs.set("mood", MortarVariableValue::String("Mood.happy".into()));
    let reg = MortarFunctionRegistry::new();
    let conds = vec![
        binary(">=", leaf("identifier", "hp"), leaf("literal", "10")),
        binary("<", leaf("identifier", "hp"), leaf("literal", "3")),
        binary("==", leaf("identifier", "mood"), leaf("enum_member", "Mood.happy")),
        binary("!=", leaf("identifier", "hp"), leaf("identifier", "10")),
        binary("&&", leaf("literal", "true"), leaf("identifier", "missing")),
        leaf("identifier", "mood"),
    ];
    for c in &conds {
        let a = evaluate_if_condition(c, &reg, &vs);
        let b = evaluate_if_condition(&not(copy_condition(c)), &reg, &vs);
        assert_ne!(a, b);
    }
    assert!(evaluate_if_condition(&conds[0], &reg, &vs));
    assert!(!evaluate_if_condition(&conds[1], &reg, &vs));
    assert!(evaluate_if_condition(&conds[2], &reg, &vs));
    assert!(!evaluate_if_condition(&conds[3], &reg, &vs));
    assert!(!evaluate_if_condition(&conds[4], &reg, &vs));
    assert!(!evaluate_if_condition(&conds[5], &reg, &vs), "a non-boolean variable is false as a condition");
}

#[test]
fn cached_repeat_and_negation_ignore_changing_functions() {
    let counter = Arc::new(AtomicU64::new(0));
    let seen = counter.clone();
    let mut reg = MortarFunctionRegistry::new();
    reg.register("flip", move |_: &[MortarValue]| {
        let n = seen.fetch_add(1, Ordering::SeqCst);
        MortarValue::Boolean(MortarBoolean(n % 2 == 0))
    });
    let vs = MortarVariableState::new();
    let call = ifc("func_call", None, None, None, Some(leaf("", "flip")), None);
    let mut cache: Option<CachedCondition> = None;
    let first = evaluate_condition_cached(&call, &reg, &vs, &mut cache);
    let again = evaluate_condition_cached(&copy_condition(&call), &reg, &vs, &mut cache);
    let negated = evaluate_condition_cached(&not(copy_condition(&call)), &reg, &vs, &mut cache);
    assert_eq!(first, again);
    assert_eq!(negated, !first);
    assert_eq!(counter.load(Ordering::SeqCst), 1, "the function is called once");
}

#[test]
fn same_condition_compares_shape() {
    let a = binary("==", leaf("identifier", "x"), leaf("literal", "1"));
    assert!(same_condition(&a, &copy_condition(&a)));
    assert!(!same_condition(&a, &binary("!=", leaf("identifier", "x"), leaf("literal", "1"))));
    assert!(!same_condition(&a, &binary("==", leaf("identifier", "y"), leaf("literal", "1"))));
}

#[test]
fn set_then_get_and_other_keys_unchanged() {
    let mut vs = MortarVariableState::new();
    vs.set("a", MortarVariableValue::Boolean(true));
    vs.set("b", MortarVariableValue::Number(num(2.5)));
    vs.set("a", MortarVariableValue::String("x".into()));
    assert_eq!(vs.get("a"), Some(&MortarVariableValue::String("x".into())));
    assert_eq!(vs.get("b"), Some(&MortarVariableValue::Number(num(2.5))));
    assert_eq!(vs.get("c"), None);
}

#[test]
fn declarations_give_defaults_branches_and_constants() {
    let branch = JsonValue::Object(vec![
        ("enum_type".to_string(), JsonValue::String("mood".to_string())),
        (
            "cases".to_string(),
            JsonValue::Array(vec![
                JsonValue::Object(vec![
                    ("condition".to_string(), JsonValue::String("happy".to_string())),
                    ("text".to_string(), JsonValue::String("smiles".to_string())),
                ]),
                JsonValue::Object(vec![
                    ("condition".to_string(), JsonValue::String("sad".to_string())),
                    ("text".to_string(), JsonValue::String("frowns".to_string())),
                ]),
            ]),
        ),
    ]);
    let var = |n: &str, t: &str, v: Option<JsonValue>| Variable { name: n.to_string(), var_type: t.to_string(), value: v };
    let variables = vec![
        var("name", "String", None),
        var("score", "Number", None),
        var("flag", "Bool", None),
        var("mood", "Mood", None),
        var("mystery", "Unknown", None),
        var("face", "Branch", Some(branch)),
        var("list", "Number", Some(JsonValue::Array(vec![]))),
    ];
    let constants = vec![Constant { name: "MAX".to_string(), const_type: "Number".to_string(), value: JsonValue::Number(num(99.0)), public: true }];
    let enums = vec![Enum { name: "Mood".to_string(), variants: vec!["happy".to_string(), "sad".to_string()] }];
    let mut vs = MortarVariableState::from_variables(&variables, &constants, &enums);
    assert_eq!(vs.get("name"), Some(&MortarVariableValue::String(String::new())));
    assert_eq!(vs.get("score"), Some(&MortarVariableValue::Number(num(0.0))));
    assert_eq!(vs.get("flag"), Some(&MortarVariableValue::Boolean(false)));
    assert_eq!(vs.get("mood"), Some(&MortarVariableValue::String("Mood.happy".to_string())));
    assert_eq!(vs.get("mystery"), None);
    assert_eq!(vs.get("list"), None);
    assert_eq!(vs.get("MAX"), Some(&MortarVariableValue::Number(num(99.0))));
    assert_eq!(vs.get_branch_text("face"), Some("smiles".to_string()));
    vs.execute_assignment("mood", &lex("Mood.sad"));
    assert_eq!(vs.get_branch_text("face"), Some("frowns".to_string()));
}

#[test]
fn interpolation_calls_functions_and_falls_back_to_declared_defaults() {
    let mut reg = MortarFunctionRegistry::new();
    reg.register("greet", |args: &[MortarValue]| match args.first() {
        Some(MortarValue::String(s)) => MortarValue::String(MortarString(format!("hi {}", s.0))),
        _ => MortarValue::Void,
    });
    let expr = |f: &str, args: &[&str]| StringPart {
        part_type: "expression".to_string(),
        content: format!("{{{}}}", f),
        function_name: Some(f.to_string()),
        args: args.iter().map(|a| lex(a)).collect(),
    };
    let plain = |c: &str| StringPart { part_type: "text".to_string(), content: c.to_string(), function_name: None, args: vec![] };
    let text_data = TextData {
        value: String::new(),
        interpolated_parts: Some(vec![
            expr("greet", &["\"Bo\""]),
            plain(" / "),
            expr("count", &[]),
            plain(" / "),
            expr("ready", &[]),
            plain(" / "),
            StringPart { part_type: "placeholder".to_string(), content: "{nobody}".to_string(), function_name: None, args: vec![] },
        ]),
        condition: None,
        pre_statements: vec![],
        events: None,
        is_line: false,
    };
    let decls = vec![
        Function { name: "count".to_string(), params: vec![], return_type: Some("Number".to_string()) },
        Function { name: "ready".to_string(), params: vec![], return_type: Some("Bool".to_string()) },
    ];
    let vs = MortarVariableState::new();
    assert_eq!(process_interpolated_text(&text_data, &reg, &decls, &vs), "hi Bo / 0 / false / {nobody}");
}

#[test]
fn choice_condition_passes_parsed_arguments() {
    let mut reg = MortarFunctionRegistry::new();
    reg.register("at_least", |args: &[MortarValue]| match (args.first(), args.get(1)) {
        (Some(MortarValue::Number(a)), Some(MortarValue::Number(b))) => MortarValue::Boolean(MortarBoolean(!a.less_than(b))),
        _ => MortarValue::Void,
    });
    let c = |a: &str, b: &str| Condition { condition_type: "at_least".to_string(), args: vec![lex(a), lex(b)] };
    assert!(evaluate_condition(&c("5", "3"), &reg, &vec![]));
    assert!(!evaluate_condition(&c("2", "3"), &reg, &vec![]));
    assert!(!evaluate_condition(&c("x", "3"), &reg, &vec![]), "a Void result is false");
}

#[test]
fn runs_are_collected_until_other_content() {
    let with_override = ContentItem {
        has_index_override: true,
        index_override: Some(IndexOverride { override_type: "value".to_string(), value: "3".to_string() }),
        ..run("run_event", "fires_with_text")
    };
    let timed = ContentItem { ignore_duration: Some(true), ..run("run_event", "boom") };
    let mut st = state_of(vec![text("Hi"), timed, run("run_timeline", "intro"), with_override, item("run_event"), text("Bye"), run("run_event", "late")]);
    let items = st.collect_run_items_from(1);
    assert_eq!(items.len(), 2);
    assert_eq!((items[0].content_index, items[0].name.as_str(), items[0].kind, items[0].ignore_duration), (1, "boom", DialogueRunKind::Event, true));
    assert_eq!((items[1].content_index, items[1].name.as_str(), items[1].kind), (2, "intro", DialogueRunKind::Timeline));
    st.mark_content_executed(1);
    let items = st.collect_run_items_from(1);
    assert_eq!(items.len(), 1);
    assert_eq!(items[0].name, "intro");
    assert!(st.collect_run_items_from(100).is_empty());
    let at = st.get_runs_at_content_position(3);
    assert_eq!(at.len(), 1);
    assert_eq!(at[0].1, "fires_with_text");
    assert_eq!(at[0].3.as_ref().map(|o| o.value.clone()), Some("3".to_string()));
    assert!(st.get_runs_at_content_position(1).is_empty(), "executed runs are not offered again");
    assert!(st.get_runs_at_content_position(0).is_empty());
}

#[test]
fn text_before_choice_is_detected() {
    let choice = ContentItem { options: Some(vec![]), ..item("choice") };
    let st = state_of(vec![text("A"), text("B"), choice, text("C")]);
    assert!(st.has_next_text_before_choice());
    assert_eq!(st.text_to_content_indices(), &[0, 1, 3]);
    assert!(st.has_choices());
}

#[test]
fn tracker_fires_each_event_once_until_reset() {
    let e = |i: f64, a: &str| Event { index: num(i), index_variable: None, actions: vec![Action { action_type: a.to_string(), args: vec![lex("\"x\"")] }] };
    let mut tracker = MortarEventTracker::new(vec![e(2.0, "b"), e(1.0, "a"), e(f64::NAN, "nan"), e(50.0, "later")]);
    let rt = MortarRuntime::new();
    let actions = tracker.trigger_at_index(&num(3.0), &rt);
    assert_eq!(
        actions.iter().map(|a| a.action_name.as_str()).collect::<Vec<_>>(),
        vec!["b", "a", "nan"],
        "an index that is not below the playback index (NaN included) is due"
    );
    assert_eq!(actions[0].args, vec!["\"x\"".to_string()]);
    assert_eq!(tracker.fired_count(), 3);
    let actions = tracker.trigger_at_index(&num(100.0), &rt);
    assert_eq!(actions.len(), 1);
    assert_eq!(actions[0].action_name, "later");
    assert!(tracker.trigger_at_index(&num(100.0), &rt).is_empty(), "each event fires once");
    tracker.reset();
    assert_eq!(tracker.trigger_at_index(&num(1.0), &rt).len(), 2);
}

fn call_with_args(name: &str, args: &str, words: Vec<Lexeme>) -> IfCondition {
    let mut right = leaf("literal", args);
    right.value_words = words;
    ifc("func_call", None, None, Some(right), Some(leaf("identifier", name)), None)
}

#[test]
fn call_arguments_are_the_words_of_the_argument_text() {
    let mut functions = MortarFunctionRegistry::new();
    functions.register("second_is_number", |args: &[MortarValue]| {
        MortarValue::Boolean(MortarBoolean(matches!(args.get(1), Some(MortarValue::Number(_))) && args.len() == 2))
    });
    let state = MortarVariableState::new();
    let words = vec![lex("a"), lex("5")];
    assert!(evaluate_if_condition(&call_with_args("second_is_number", "  a \t 5 ", words), &functions, &state));
    // A word whose reading is not given counts as text.
    assert!(!evaluate_if_condition(&call_with_args("second_is_number", "a 5", vec![]), &functions, &state));
    // A reading given for another word does not count.
    assert!(!evaluate_if_condition(&call_with_args("second_is_number", "a 5", vec![lex("a"), lex("6")]), &functions, &state));
}

#[test]
fn deterministic_functions_give_one_value_cached_or_not() {
    let mut functions = MortarFunctionRegistry::new();
    functions.register("always", |_args: &[MortarValue]| MortarValue::Boolean(MortarBoolean(true)));
    let state = MortarVariableState::new();
    let c = call_with_args("always", "", vec![]);
    let direct = evaluate_if_condition(&c, &functions, &state);
    let again = evaluate_if_condition(&c, &functions, &state);
    let mut cache: Option<CachedCondition> = None;
    let cached = evaluate_condition_cached(&c, &functions, &state, &mut cache);
    assert!(direct && again && cached);
    assert!(!evaluate_condition_cached(&not(copy_condition(&c)), &functions, &state, &mut cache));
}

#[test]
fn interpolating_two_runs_of_parts_concatenates_their_texts() {
    let mut functions = MortarFunctionRegistry::new();
    functions.register("name", |_args: &[MortarValue]| MortarValue::String(MortarString("Ada".to_string())));
    let state = MortarVariableState::new();
    let mk = |parts: Vec<StringPart>| TextData {
        value: String::new(),
        interpolated_parts: Some(parts),
        condition: None,
        pre_statements: vec![],
        events: None,
        is_line: false,
    };
    let expr = || StringPart { part_type: "expression".to_string(), content: "{name()}".to_string(), function_name: Some("name".to_string()), args: vec![] };
    let text = |t: &str| StringPart { part_type: "text".to_string(), content: t.to_string(), function_name: None, args: vec![] };
    let t1 = mk(vec![text("Hi "), expr()]);
    let t2 = mk(vec![text("!")]);
    let t12 = mk(vec![text("Hi "), expr(), text("!")]);
    let r1 = process_interpolated_text(&t1, &functions, &vec![], &state);
    let r2 = process_interpolated_text(&t2, &functions, &vec![], &state);
    assert_eq!(process_interpolated_text(&t12, &functions, &vec![], &state), r1 + &r2);
    assert_eq!(process_interpolated_text(&mk(vec![]), &functions, &vec![], &state), "");
}

#[test]
fn events_fire_once_over_many_calls() {
    let e = |i: f64, a: &str| Event { index: num(i), index_variable: None, actions: vec![Action { action_type: a.to_string(), args: vec![] }] };
    let mut tracker = MortarEventTracker::new(vec![e(1.0, "one"), e(3.0, "three"), e(2.0, "two"), e(5.0, "five")]);
    let rt = MortarRuntime::new();
    let names = |acts: Vec<bevy_mortar_bond::events::MortarEventAction>| acts.into_iter().map(|a| a.action_name).collect::<Vec<_>>();
    assert_eq!(names(tracker.trigger_at_index(&num(1.0), &rt)), vec!["one"]);
    assert_eq!(names(tracker.trigger_at_index(&num(3.0), &rt)), vec!["three", "two"]);
    assert_eq!(tracker.fired_count(), 3);
    assert!(tracker.trigger_at_index(&num(2.0), &rt).is_empty());
    assert!(tracker.trigger_at_index(&num(4.0), &rt).is_empty());
    assert_eq!(names(tracker.trigger_at_index(&num(9.0), &rt)), vec!["five"]);
    assert!(tracker.trigger_at_index(&num(9.0), &rt).is_empty());
    assert_eq!(tracker.fired_count(), tracker.event_count());
}

#[test]
fn a_cached_evaluation_from_an_empty_cache_matches_a_direct_one() {
    let mut functions = MortarFunctionRegistry::new();
    functions.register("yes", |_args: &[MortarValue]| MortarValue::Boolean(MortarBoolean(true)));
    let state = MortarVariableState::new();
    let c = call_with_args("yes", "", vec![]);
    let mut cache: Option<CachedCondition> = None;
    assert_eq!(evaluate_condition_cached(&c, &functions, &state, &mut cache), evaluate_if_condition(&c, &functions, &state));
    assert!(cache.is_some(), "the condition is remembered");
    assert!(!evaluate_condition_cached(&not(copy_condition(&c)), &functions, &state, &mut cache), "and answers its negation");
    let mut empty: Option<CachedCondition> = None;
    let negated = not(copy_condition(&c));
    assert_eq!(evaluate_condition_cached(&negated, &functions, &state, &mut empty), evaluate_if_condition(&negated, &functions, &state));
    assert!(empty.is_none(), "a negation is not remembered");
}

#[test]
fn a_lone_quote_parses_as_itself() {
    for q in ["\"", "'"] {
        match MortarValue::parse(&Lexeme::new(q.to_string(), None)) {
            MortarValue::String(s) => assert_eq!(s.0, q),
            _ => panic!("a lone quote is a string"),
        }
    }
}

#[test]
fn conditions_call_each_function_node_once_and_only_where_evaluated() {
    let counter = Arc::new(AtomicU64::new(0));
    let mut functions = MortarFunctionRegistry::new();
    let seen = counter.clone();
    functions.register("tick", move |_args: &[MortarValue]| {
        seen.fetch_add(1, Ordering::SeqCst);
        MortarValue::Boolean(MortarBoolean(true))
    });
    let state = MortarVariableState::new();
    assert!(evaluate_if_condition(&call_with_args("tick", "", vec![]), &functions, &state));
    assert_eq!(counter.load(Ordering::SeqCst), 1, "a call node calls once");
    assert!(evaluate_if_condition(&leaf("literal", "true"), &functions, &state));
    assert!(!evaluate_if_condition(&binary(">", leaf("literal", "1"), leaf("literal", "2")), &functions, &state));
    assert_eq!(counter.load(Ordering::SeqCst), 1, "no call without a call node");
    let short = binary("&&", leaf("literal", "false"), call_with_args("tick", "", vec![]));
    assert!(!evaluate_if_condition(&short, &functions, &state));
    assert_eq!(counter.load(Ordering::SeqCst), 1, "the right side of a decided && is not evaluated");
    let both = binary("||", leaf("literal", "false"), call_with_args("tick", "", vec![]));
    assert!(evaluate_if_condition(&both, &functions, &state));
    assert_eq!(counter.load(Ordering::SeqCst), 2);
    let mut cache: Option<CachedCondition> = None;
    let c = call_with_args("tick", "", vec![]);
    assert!(evaluate_condition_cached(&c, &functions, &state, &mut cache));
    assert!(evaluate_condition_cached(&c, &functions, &state, &mut cache));
    assert_eq!(counter.load(Ordering::SeqCst), 3, "a cache hit makes no call");
}
