//! A compiled Mortar script (the `.mortared` JSON) as the library holds it,
//! and how it is read: `mortar_compiler`'s deserializer parses the text,
//! and its data is carried over field by field into the library's types.
//!
//! The words of a script (function arguments, assigned values, condition
//! operands) come over as text: the number each reads as is a
//! floating-point reading, which the host makes and sets.

use vstd::prelude::*;
use crate::condition::{Condition, IfCondition};
use crate::number::MortarNumber;
use crate::run_execution::{EventDef, TimelineDef, TimelineStatement};
use crate::script::{
    Action, Choice, ContentItem, Event, Function, IndexOverride, Node, Param, Statement, StringPart,
};
use crate::text::split_whitespace_words;
use crate::value::{JsonValue, Lexeme};
use crate::variable_state::{Constant, Enum, Variable};

verus! {

/// The parts of a compiled script that the runtime reads.
#[derive(Debug, Clone)]
pub struct CompiledScript {
    pub nodes: Vec<Node>,
    pub functions: Vec<Function>,
    pub variables: Vec<Variable>,
    pub constants: Vec<Constant>,
    pub enums: Vec<Enum>,
    pub events: Vec<EventDef>,
    pub timelines: Vec<TimelineDef>,
}

/// The script that `mortar_compiler::Deserializer::from_json` reads from a
/// text, carried over into the library's types (with the words' numbers
/// unread); none when the deserializer refuses the text.
pub uninterp spec fn compiled_script(json: Seq<char>) -> Option<CompiledScript>;

/// Words as a compiled script holds them: their text, no number read yet.
pub fn unread_words(words: &Vec<String>) -> (r: Vec<Lexeme>)
    ensures
        r.len() == words.len(),
        forall|i: int| 0 <= i < r.len() ==> {
            &&& #[trigger] r[i].text@ == words[i]@
            &&& r[i].number is None
        },
{
    let mut r: Vec<Lexeme> = Vec::new();
    let mut i: usize = 0;
    while i < words.len()
        invariant
            i <= words.len(),
            r.len() == i,
            forall|j: int| 0 <= j < i ==> {
                &&& #[trigger] r[j].text@ == words[j]@
                &&& r[j].number is None
            },
        decreases words.len() - i,
    {
        r.push(Lexeme::new(words[i].clone(), None));
        i = i + 1;
    }
    r
}

/// `mortar_compiler::Deserializer::from_json` (serde_json into its typed
/// `MortaredData`); the typed data is written back as a JSON value
/// (`serde_json::to_value`, so absent optional fields are absent keys and
/// defaults are filled in) and carried over into the library's types key
/// by key. The outcome is a function of the text alone, named
/// [`compiled_script`]: it succeeds exactly when that is some script, and
/// gives that script. The error message is not described.
#[verifier::external_body]
pub(crate) fn deserialize_script(json: &str) -> (r: Result<CompiledScript, String>)
    ensures
        r is Ok <==> compiled_script(json@) is Some,
        r matches Ok(s) ==> compiled_script(json@) == Some(s),
{
    let data = mortar_compiler::Deserializer::from_json(json)?;
    match serde_json::to_value(&data) {
        Ok(value) => Ok(script_of(&value)),
        Err(e) => Err(e.to_string()),
    }
}

/// The string under `key` of a JSON object, when there is one.
#[verifier::external_body]
fn text_at(v: &serde_json::Value, key: &str) -> Option<String> {
    v.get(key).and_then(|x| x.as_str()).map(|s| s.to_string())
}

/// The list of strings under `key`, when there is one.
#[verifier::external_body]
fn strings_at(v: &serde_json::Value, key: &str) -> Option<Vec<String>> {
    v.get(key).and_then(|x| serde_json::from_value::<Vec<String>>(x.clone()).ok())
}

/// The elements of the array under `key`, none when there is none.
#[verifier::external_body]
fn list_at(v: &serde_json::Value, key: &str) -> Vec<serde_json::Value> {
    v.get(key).and_then(|x| x.as_array()).cloned().unwrap_or_default()
}

/// The value under `key`, when there is one.
#[verifier::external_body]
fn field_at(v: &serde_json::Value, key: &str) -> Option<serde_json::Value> {
    v.get(key).cloned()
}

/// Whether a JSON object has the key `key`.
#[verifier::external_body]
fn has_key(v: &serde_json::Value, key: &str) -> bool {
    v.get(key).is_some()
}

/// The number under `key`, as its bit pattern and display text.
#[verifier::external_body]
fn number_at(v: &serde_json::Value, key: &str) -> Option<MortarNumber> {
    v.get(key).and_then(|x| x.as_f64()).map(|x| MortarNumber::new(x.to_bits(), x.to_string()))
}

/// The boolean under `key`, when there is one.
#[verifier::external_body]
fn flag_at(v: &serde_json::Value, key: &str) -> Option<bool> {
    v.get(key).and_then(|x| x.as_bool())
}

/// The string under `key`, empty when there is none.
fn name_at(v: &serde_json::Value, key: &str) -> String {
    match text_at(v, key) {
        Some(s) => s,
        None => String::new(),
    }
}

/// The list of strings under `key`, empty when there is none.
fn words_at(v: &serde_json::Value, key: &str) -> Vec<String> {
    match strings_at(v, key) {
        Some(w) => w,
        None => Vec::new(),
    }
}

/// Each element of `items`, carried over by `f`.
fn map_values<T, F: Fn(&serde_json::Value) -> T>(items: &Vec<serde_json::Value>, f: F) -> (r: Vec<T>)
    requires
        forall|v: &serde_json::Value| #[trigger] f.requires((v,)),
    ensures
        r.len() == items.len(),
{
    let mut out: Vec<T> = Vec::new();
    let mut i: usize = 0;
    while i < items.len()
        invariant
            i <= items.len(),
            out.len() == i,
            forall|v: &serde_json::Value| #[trigger] f.requires((v,)),
        decreases items.len() - i,
    {
        out.push(f(&items[i]));
        i = i + 1;
    }
    out
}

/// Carries the typed data of a script over, part by part (its metadata is
/// not read).
fn script_of(d: &serde_json::Value) -> CompiledScript {
    CompiledScript {
        nodes: map_values(&list_at(d, "nodes"), node_of),
        functions: map_values(&list_at(d, "functions"), function_of),
        variables: map_values(&list_at(d, "variables"), variable_of),
        constants: map_values(&list_at(d, "constants"), constant_of),
        enums: map_values(&list_at(d, "enums"), enum_of),
        events: map_values(&list_at(d, "events"), event_def_of),
        timelines: map_values(&list_at(d, "timelines"), timeline_of),
    }
}

fn node_of(n: &serde_json::Value) -> Node {
    Node {
        name: name_at(n, "name"),
        content: map_values(&list_at(n, "content"), content_item_of),
        variables: map_values(&list_at(n, "variables"), variable_of),
        next: text_at(n, "next"),
    }
}

/// Reads a content item from its JSON object, key by key; a key whose
/// value is not of the compiler's type for it reads as absent.
fn content_item_of(item: &serde_json::Value) -> ContentItem {
    ContentItem {
        item_type: text_at(item, "type"),
        value: text_at(item, "value"),
        interpolated_parts: item_parts(item),
        condition: item_condition(item),
        pre_statements: item_statements(item),
        events: item_events(item),
        options: item_options(item),
        name: text_at(item, "name"),
        args: strings_at(item, "args"),
        has_index_override: has_key(item, "index_override"),
        index_override: item_index_override(item),
        ignore_duration: flag_at(item, "ignore_duration"),
    }
}

/// The `interpolated_parts` of a content item, when well formed.
#[verifier::external_body]
fn item_parts(item: &serde_json::Value) -> Option<Vec<StringPart>> {
    let typed = serde_json::from_value::<Vec<mortar_compiler::StringPart>>(item.get("interpolated_parts")?.clone());
    let value = serde_json::to_value(typed.ok()?).ok()?;
    Some(value.as_array()?.iter().map(string_part_of).collect())
}

/// The `condition` of a content item, when well formed.
#[verifier::external_body]
fn item_condition(item: &serde_json::Value) -> Option<IfCondition> {
    let typed = serde_json::from_value::<mortar_compiler::IfCondition>(item.get("condition")?.clone());
    Some(if_condition_of(&serde_json::to_value(typed.ok()?).ok()?))
}

/// The `pre_statements` of a content item, when well formed.
#[verifier::external_body]
fn item_statements(item: &serde_json::Value) -> Option<Vec<Statement>> {
    let typed = serde_json::from_value::<Vec<mortar_compiler::Statement>>(item.get("pre_statements")?.clone());
    let value = serde_json::to_value(typed.ok()?).ok()?;
    Some(value.as_array()?.iter().map(statement_of).collect())
}

/// The `events` of a content item, when well formed.
#[verifier::external_body]
fn item_events(item: &serde_json::Value) -> Option<Vec<Event>> {
    let typed = serde_json::from_value::<Vec<mortar_compiler::Event>>(item.get("events")?.clone());
    let value = serde_json::to_value(typed.ok()?).ok()?;
    Some(value.as_array()?.iter().map(event_of).collect())
}

/// The `options` of a choice item, when well formed.
#[verifier::external_body]
fn item_options(item: &serde_json::Value) -> Option<Vec<Choice>> {
    let typed = serde_json::from_value::<Vec<mortar_compiler::Choice>>(item.get("options")?.clone());
    let value = serde_json::to_value(typed.ok()?).ok()?;
    Some(value.as_array()?.iter().map(choice_of).collect())
}

/// The `index_override` of a run item, when well formed.
#[verifier::external_body]
fn item_index_override(item: &serde_json::Value) -> Option<IndexOverride> {
    let o = serde_json::from_value::<mortar_compiler::IndexOverride>(item.get("index_override")?.clone()).ok()?;
    Some(IndexOverride { override_type: o.override_type, value: o.value })
}

fn string_part_of(p: &serde_json::Value) -> StringPart {
    StringPart {
        part_type: name_at(p, "type"),
        content: name_at(p, "content"),
        function_name: text_at(p, "function_name"),
        args: unread_words(&words_at(p, "args")),
    }
}

fn statement_of(s: &serde_json::Value) -> Statement {
    let value = match text_at(s, "value") {
        Some(v) => Some(Lexeme::new(v, None)),
        None => None,
    };
    Statement { stmt_type: name_at(s, "type"), var_name: text_at(s, "var_name"), value }
}

/// Carries a condition tree over; a node's text is also split into its
/// whitespace-separated words.
#[verifier::external_body]
fn if_condition_of(c: &serde_json::Value) -> IfCondition {
    let value = text_at(c, "value");
    IfCondition {
        cond_type: name_at(c, "type"),
        operator: text_at(c, "operator"),
        left: c.get("left").map(|l| Box::new(if_condition_of(l))),
        right: c.get("right").map(|r| Box::new(if_condition_of(r))),
        operand: c.get("operand").map(|o| Box::new(if_condition_of(o))),
        value_words: unread_words(&value.as_deref().map(split_whitespace_words).unwrap_or_default()),
        value: value.map(|v| Lexeme::new(v, None)),
    }
}

fn condition_of(c: &serde_json::Value) -> Condition {
    Condition { condition_type: name_at(c, "type"), args: unread_words(&words_at(c, "args")) }
}

/// Carries a choice option over, with the options nested under it.
#[verifier::external_body]
fn choice_of(c: &serde_json::Value) -> Choice {
    Choice {
        text: name_at(c, "text"),
        condition: c.get("condition").map(condition_of),
        next: text_at(c, "next"),
        action: text_at(c, "action"),
        choice: c.get("choice").map(|_| list_at(c, "choice").iter().map(choice_of).collect()),
    }
}

fn action_of(a: &serde_json::Value) -> Action {
    Action { action_type: name_at(a, "type"), args: unread_words(&words_at(a, "args")) }
}

fn event_of(e: &serde_json::Value) -> Event {
    let index = match number_at(e, "index") {
        Some(n) => n,
        None => MortarNumber::new(0, "0".to_string()),
    };
    Event { index, index_variable: text_at(e, "index_variable"), actions: map_values(&list_at(e, "actions"), action_of) }
}

fn event_def_of(e: &serde_json::Value) -> EventDef {
    let action = match field_at(e, "action") {
        Some(a) => action_of(&a),
        None => Action { action_type: String::new(), args: Vec::new() },
    };
    EventDef { name: name_at(e, "name"), action, duration: number_at(e, "duration") }
}

fn timeline_statement_of(s: &serde_json::Value) -> TimelineStatement {
    let ignore_duration = match flag_at(s, "ignore_duration") {
        Some(b) => b,
        None => false,
    };
    TimelineStatement {
        stmt_type: name_at(s, "type"),
        event_name: text_at(s, "event_name"),
        duration: number_at(s, "duration"),
        ignore_duration,
    }
}

fn timeline_of(t: &serde_json::Value) -> TimelineDef {
    TimelineDef { name: name_at(t, "name"), statements: map_values(&list_at(t, "statements"), timeline_statement_of) }
}

fn param_of(p: &serde_json::Value) -> Param {
    Param { name: name_at(p, "name"), param_type: name_at(p, "type") }
}

fn function_of(f: &serde_json::Value) -> Function {
    Function {
        name: name_at(f, "name"),
        params: map_values(&list_at(f, "params"), param_of),
        return_type: text_at(f, "return"),
    }
}

fn variable_of(v: &serde_json::Value) -> Variable {
    let value = match field_at(v, "value") {
        Some(x) => Some(json_of(&x)),
        None => None,
    };
    Variable { name: name_at(v, "name"), var_type: name_at(v, "type"), value }
}

fn constant_of(c: &serde_json::Value) -> Constant {
    let value = match field_at(c, "value") {
        Some(x) => json_of(&x),
        None => JsonValue::Null,
    };
    let public = match flag_at(c, "public") {
        Some(b) => b,
        None => false,
    };
    Constant { name: name_at(c, "name"), const_type: name_at(c, "type"), value, public }
}

fn enum_of(e: &serde_json::Value) -> Enum {
    Enum { name: name_at(e, "name"), variants: words_at(e, "variants") }
}

/// Carries a JSON value over; a number as its bit pattern and display text.
#[verifier::external_body]
fn json_of(v: &serde_json::Value) -> JsonValue {
    match v {
        serde_json::Value::Null => JsonValue::Null,
        serde_json::Value::Bool(b) => JsonValue::Bool(*b),
        serde_json::Value::Number(n) => match n.as_f64() {
            Some(x) => JsonValue::Number(MortarNumber::new(x.to_bits(), x.to_string())),
            None => JsonValue::Null,
        },
        serde_json::Value::String(s) => JsonValue::String(s.clone()),
        serde_json::Value::Array(items) => JsonValue::Array(items.iter().map(json_of).collect()),
        serde_json::Value::Object(m) => JsonValue::Object(m.iter().map(|(k, x)| (k.clone(), json_of(x))).collect()),
    }
}

} // verus!
