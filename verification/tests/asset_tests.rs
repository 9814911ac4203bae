use bevy_mortar_bond::asset::{compile_source, is_chinese_locale, MortarAssetLoader, MortarSourceKind};

#[test]
fn chinese_locales_are_recognised() {
    assert!(is_chinese_locale("zh_CN.UTF-8"));
    assert!(is_chinese_locale("ZH_tw"));
    assert!(is_chinese_locale("zH"));
    assert!(!is_chinese_locale("en_US.UTF-8"));
    assert!(!is_chinese_locale("z"));
    assert!(!is_chinese_locale(""));
    assert!(!is_chinese_locale(" zh"));
}

#[test]
fn source_compiles_to_script_json() {
    let source = "node Start {\n    text: \"Hello there\"\n}\n";
    let json = compile_source(source, "start.mortar", false).expect("the source compiles");
    assert!(json.contains("Start"));
    assert!(json.contains("Hello there"));
}

#[test]
fn broken_source_is_refused() {
    assert!(compile_source("node {", "broken.mortar", false).is_err());
    assert!(compile_source("node {", "broken.mortar", true).is_err());
}

#[test]
fn extensions_choose_how_a_file_is_read() {
    assert_eq!(MortarAssetLoader::source_kind(Some("mortar")), Some(MortarSourceKind::Source));
    assert_eq!(MortarAssetLoader::source_kind(Some("mortared")), Some(MortarSourceKind::Compiled));
    assert_eq!(MortarAssetLoader::source_kind(Some("txt")), None);
    assert_eq!(MortarAssetLoader::source_kind(None), None);
}

const COMPILED: &str = r#"{
  "metadata": {"version": "0.4.0", "generated_at": "2025-11-20T00:00:00Z"},
  "variables": [{"name": "gold", "type": "Number", "value": 10}],
  "constants": [{"name": "title", "type": "String", "value": "Hero", "public": true}],
  "enums": [{"name": "Mood", "variants": ["happy", "sad"]}],
  "nodes": [{
    "name": "Start",
    "content": [
      {"type": "text", "value": "Hello", "events": [{"index": 2.5, "actions": [{"type": "play", "args": ["beep", "1.5"]}]}]},
      {"type": "text", "value": "Rich", "condition": {"type": "func_call", "operand": {"type": "identifier", "value": "has_gold"}, "right": {"type": "literal", "value": "5 coins"}}},
      {"type": "run_event", "name": "Boom", "args": ["x"], "index_override": {"type": "value", "value": "3"}, "ignore_duration": true},
      {"type": "choice", "options": [{"text": "Go", "next": "End", "choice": [{"text": "Inner"}]}]}
    ],
    "next": "End"
  }],
  "functions": [{"name": "has_gold", "params": [{"name": "n", "type": "Number"}], "return": "Boolean"}],
  "events": [{"name": "Boom", "action": {"type": "shake", "args": ["2"]}, "duration": 0.5}],
  "timelines": [{"name": "Intro", "statements": [{"type": "run", "event_name": "Boom"}, {"type": "wait", "duration": 1.0}]}]
}"#;

#[test]
fn compiled_script_is_read_into_library_types() {
    let script = MortarAssetLoader::load_compiled(COMPILED).expect("the script reads");
    assert_eq!(script.nodes.len(), 1);
    let node = &script.nodes[0];
    assert_eq!(node.name, "Start");
    assert_eq!(node.next.as_deref(), Some("End"));
    assert_eq!(node.content.len(), 4);
    let text = &node.content[0];
    assert_eq!(text.item_type.as_deref(), Some("text"));
    assert_eq!(text.value.as_deref(), Some("Hello"));
    let events = text.events.as_ref().expect("events");
    assert_eq!(f64::from_bits(events[0].index.bits), 2.5);
    assert_eq!(events[0].actions[0].action_type, "play");
    let words: Vec<&str> = events[0].actions[0].args.iter().map(|w| w.text.as_str()).collect();
    assert_eq!(words, vec!["beep", "1.5"]);
    assert!(events[0].actions[0].args.iter().all(|w| w.number.is_none()));
    let condition = node.content[1].condition.as_ref().expect("condition");
    assert_eq!(condition.cond_type, "func_call");
    let right = condition.right.as_ref().expect("right");
    let call_words: Vec<&str> = right.value_words.iter().map(|w| w.text.as_str()).collect();
    assert_eq!(call_words, vec!["5", "coins"]);
    let run = &node.content[2];
    assert_eq!(run.name.as_deref(), Some("Boom"));
    assert_eq!(run.args, Some(vec!["x".to_string()]));
    assert!(run.has_index_override);
    assert_eq!(run.index_override.as_ref().map(|o| o.value.as_str()), Some("3"));
    assert_eq!(run.ignore_duration, Some(true));
    let options = node.content[3].options.as_ref().expect("options");
    assert_eq!(options[0].text, "Go");
    assert_eq!(options[0].choice.as_ref().map(|c| c[0].text.clone()), Some("Inner".to_string()));
    assert_eq!(script.functions[0].name, "has_gold");
    assert_eq!(script.functions[0].params[0].param_type, "Number");
    assert_eq!(script.functions[0].return_type.as_deref(), Some("Boolean"));
    assert_eq!(script.variables[0].name, "gold");
    assert_eq!(script.constants[0].name, "title");
    assert!(script.constants[0].public);
    assert_eq!(script.enums[0].variants, vec!["happy".to_string(), "sad".to_string()]);
    assert_eq!(script.events[0].name, "Boom");
    assert_eq!(script.events[0].action.action_type, "shake");
    assert_eq!(script.events[0].duration.as_ref().map(|d| f64::from_bits(d.bits)), Some(0.5));
    assert_eq!(script.timelines[0].statements.len(), 2);
    assert_eq!(script.timelines[0].statements[0].event_name.as_deref(), Some("Boom"));
}

#[test]
fn malformed_compiled_script_is_refused() {
    assert!(MortarAssetLoader::load_compiled("{}").is_err());
    assert!(MortarAssetLoader::load_compiled("not json").is_err());
}

#[test]
fn files_load_by_extension() {
    let source = "node Start {\n    text: \"Hello there\"\n}\n";
    let script = MortarAssetLoader::load(Some("mortar"), source, "start.mortar", false).expect("compiles");
    assert_eq!(script.nodes[0].name, "Start");
    assert_eq!(script.nodes[0].content[0].value.as_deref(), Some("Hello there"));
    let compiled = MortarAssetLoader::load(Some("mortared"), COMPILED, "start.mortared", false).expect("reads");
    assert_eq!(compiled.nodes[0].name, "Start");
    assert!(MortarAssetLoader::load(Some("mortar"), "node {", "broken.mortar", false).is_err());
    assert_eq!(
        MortarAssetLoader::load(Some("txt"), COMPILED, "start.txt", false).err(),
        Some("Unsupported file extension".to_string())
    );
    assert!(MortarAssetLoader::load(None, COMPILED, "start", false).is_err());
}
