use bevy_mortar_bond::number::MortarNumber;
use bevy_mortar_bond::script::{ContentItem, IndexOverride, Node, StringPart};
use bevy_mortar_bond::text_events::{index_override_before, interpolation_layout, text_event_order, TextEventSource};
use bevy_mortar_bond::value::JsonValue;
use bevy_mortar_bond::variable_state::{MortarVariableState, Variable};

fn num(x: f64) -> MortarNumber {
    MortarNumber::new(x.to_bits(), format!("{}", x))
}

fn part(part_type: &str, content: &str) -> StringPart {
    StringPart { part_type: part_type.to_string(), content: content.to_string(), function_name: None, args: vec![] }
}

fn var(name: &str, var_type: &str, value: Option<JsonValue>) -> Variable {
    Variable { name: name.to_string(), var_type: var_type.to_string(), value }
}

fn state() -> MortarVariableState {
    let cases = JsonValue::Array(vec![JsonValue::Object(vec![
        ("condition".to_string(), JsonValue::String("happy".to_string())),
        ("text".to_string(), JsonValue::String("grins".to_string())),
    ])]);
    let variables = vec![
        var("name", "String", Some(JsonValue::String("Alice".to_string()))),
        var("score", "Number", Some(JsonValue::Number(num(42.0)))),
        var("happy", "Boolean", Some(JsonValue::Bool(true))),
        var("face", "Branch", Some(JsonValue::Object(vec![("cases".to_string(), cases)]))),
    ];
    MortarVariableState::from_variables(&variables, &vec![], &vec![])
}

#[test]
fn placeholder_takes_the_room_of_its_value() {
    let parts = vec![part("text", "Hi "), part("placeholder", "{name}"), part("text", "!")];
    let layout = interpolation_layout(&parts, &state()).expect("layout");
    assert_eq!(layout.rendered, vec![0, 1, 2, 8, 9]);
    assert_eq!(layout.placeholders, vec![("name".to_string(), 3)]);
}

#[test]
fn branch_placeholder_takes_the_room_of_its_branch_text() {
    let parts = vec![part("placeholder", "{face}"), part("text", "ab"), part("placeholder", "{score}"), part("placeholder", "{missing}")];
    let layout = interpolation_layout(&parts, &state()).expect("layout");
    assert_eq!(layout.rendered, vec![5, 6, 9]);
    assert_eq!(
        layout.placeholders,
        vec![("face".to_string(), 0), ("score".to_string(), 7), ("missing".to_string(), 9)]
    );
}

#[test]
fn other_parts_take_no_room() {
    let parts = vec![part("text", "é!"), part("expression", "{get_name()}"), part("text", "x")];
    let layout = interpolation_layout(&parts, &state()).expect("layout");
    assert_eq!(layout.rendered, vec![0, 1, 2, 3]);
    assert!(layout.placeholders.is_empty());
    let empty = interpolation_layout(&vec![], &state()).expect("layout");
    assert_eq!(empty.rendered, vec![0]);
}

fn item(item_type: &str, name: Option<&str>, index_override: Option<(&str, &str)>) -> ContentItem {
    ContentItem {
        item_type: Some(item_type.to_string()),
        value: None,
        interpolated_parts: None,
        condition: None,
        pre_statements: None,
        events: None,
        options: None,
        name: name.map(|s| s.to_string()),
        args: None,
        has_index_override: index_override.is_some(),
        index_override: index_override
            .map(|(t, v)| IndexOverride { override_type: t.to_string(), value: v.to_string() }),
        ignore_duration: None,
    }
}

#[test]
fn index_override_comes_from_the_run_event_before_the_text() {
    let node = Node {
        name: "Start".to_string(),
        content: vec![
            item("run_event", Some("flash"), Some(("value", "3"))),
            item("text", None, None),
            item("run_event", Some("shake"), None),
            item("text", None, None),
        ],
        variables: vec![],
        next: None,
    };
    let (name, o) = index_override_before(&node, 1).expect("override before the first text");
    assert_eq!(name, "flash");
    assert_eq!(o.override_type, "value");
    assert_eq!(o.value, "3");
    assert!(index_override_before(&node, 0).is_none());
    assert!(index_override_before(&node, 3).is_none());
    assert!(index_override_before(&node, 2).is_none());
    assert!(index_override_before(&node, 9).is_none());
}

#[test]
fn interpolation_keeps_authored_characters_in_order() {
    let parts = vec![
        part("placeholder", "{name}"),
        part("text", "ab"),
        part("expression", "f()"),
        part("placeholder", "{missing}"),
        part("text", "cd"),
        part("placeholder", "{face}"),
    ];
    let layout = interpolation_layout(&parts, &state()).expect("layout");
    let total = *layout.rendered.last().expect("end position");
    assert_eq!(total, 14);
    for (k, w) in layout.rendered.windows(2).enumerate() {
        assert!(w[0] < w[1]);
        assert!(k <= w[0]);
    }
}

#[test]
fn words_are_split_on_whitespace() {
    use_split();
}

fn use_split() {
    let words = bevy_mortar_bond::text::split_whitespace_words("  a\tbb \n c  ");
    assert_eq!(words, vec!["a".to_string(), "bb".to_string(), "c".to_string()]);
    assert!(bevy_mortar_bond::text::split_whitespace_words("   ").is_empty());
    assert_eq!(bevy_mortar_bond::text::split_whitespace_words("x\u{3000}y"), vec!["x".to_string(), "y".to_string()]);
}

#[test]
fn event_index_comes_from_its_number_variable() {
    use_event_index(bevy_mortar_bond::script::Event { index: num(2.0), index_variable: Some("score".to_string()), actions: vec![] }, 42.0);
    use_event_index(bevy_mortar_bond::script::Event { index: num(2.0), index_variable: Some("name".to_string()), actions: vec![] }, 2.0);
    use_event_index(bevy_mortar_bond::script::Event { index: num(2.0), index_variable: Some("nothing".to_string()), actions: vec![] }, 2.0);
    use_event_index(bevy_mortar_bond::script::Event { index: num(3.5), index_variable: None, actions: vec![] }, 3.5);
}

fn use_event_index(e: bevy_mortar_bond::script::Event, expected: f64) {
    let n = bevy_mortar_bond::text_events::event_index(&e, &state());
    assert_eq!(f64::from_bits(n.to_bits()), expected);
}

#[test]
fn text_events_fire_branch_events_then_text_events_then_the_override() {
    let order = text_event_order(true, true, &vec![2, 0, 1], 2, true);
    assert_eq!(
        order,
        vec![
            TextEventSource::Branch { placeholder: 0, event: 0 },
            TextEventSource::Branch { placeholder: 0, event: 1 },
            TextEventSource::Branch { placeholder: 2, event: 0 },
            TextEventSource::Text { event: 0 },
            TextEventSource::Text { event: 1 },
            TextEventSource::Override,
        ]
    );
    assert_eq!(
        text_event_order(false, false, &vec![], 2, false),
        vec![TextEventSource::Text { event: 0 }, TextEventSource::Text { event: 1 }]
    );
    // An interpolated text that could not be laid out fires only the override.
    assert_eq!(text_event_order(true, false, &vec![3], 2, true), vec![TextEventSource::Override]);
    assert!(text_event_order(true, false, &vec![3], 2, false).is_empty());
}
