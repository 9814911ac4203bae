use bevy_mortar_bond::dialogue_state::{DialogueRunItem, DialogueRunKind};
use bevy_mortar_bond::number::MortarNumber;
use bevy_mortar_bond::script::Action;
use bevy_mortar_bond::run_execution::{plan_runs, RunPlan};
use bevy_mortar_bond::run_execution::{
    event_duration, game_event_args, resolve_run, run_sequence, run_step, timeline_steps, EventDef, RunStep,
    RunTarget, StepOutcome, TimelineDef, TimelineStatement,
};

fn num(x: f64) -> MortarNumber {
    MortarNumber::new(x.to_bits(), format!("{}", x))
}

fn value(n: &MortarNumber) -> f64 {
    f64::from_bits(n.to_bits())
}

fn step(name: &str, duration: Option<f64>, ignore_duration: bool) -> RunStep {
    RunStep { name: name.to_string(), duration: duration.map(num), ignore_duration }
}

fn def(name: &str, duration: Option<f64>) -> EventDef {
    let action = Action { action_type: format!("play_{}", name), args: vec![] };
    EventDef { name: name.to_string(), action, duration: duration.map(num) }
}

fn names(steps: &[RunStep]) -> Vec<String> {
    steps.iter().map(|s| s.name.clone()).collect()
}

fn stmt(stmt_type: &str, event_name: Option<&str>, duration: Option<f64>, ignore_duration: bool) -> TimelineStatement {
    TimelineStatement {
        stmt_type: stmt_type.to_string(),
        event_name: event_name.map(|s| s.to_string()),
        duration: duration.map(num),
        ignore_duration,
    }
}

#[test]
fn empty_sequence_is_finished() {
    let r = run_step(vec![], &vec![def("door", Some(1.0))]);
    assert_eq!(r.dispatch, None);
    assert!(matches!(r.outcome, StepOutcome::Finished));
}

#[test]
fn event_with_duration_pauses_before_the_rest() {
    let defs = vec![def("door", Some(2.0)), def("bell", None)];
    let r = run_step(vec![step("door", None, false), step("bell", None, false)], &defs);
    assert_eq!(r.dispatch, Some(0));
    match r.outcome {
        StepOutcome::Wait { seconds, rest } => {
            assert_eq!(value(&seconds), 2.0);
            assert_eq!(names(&rest), vec!["bell".to_string()]);
        }
        _ => panic!("Expected a pause"),
    }
}

#[test]
fn ignored_duration_goes_on_at_once() {
    let defs = vec![def("door", Some(2.0)), def("bell", None)];
    let r = run_step(vec![step("door", None, true), step("bell", None, false)], &defs);
    assert_eq!(r.dispatch, Some(0));
    match r.outcome {
        StepOutcome::Continue { rest } => assert_eq!(names(&rest), vec!["bell".to_string()]),
        _ => panic!("Expected to go on"),
    }
}

#[test]
fn wait_step_dispatches_nothing_and_pauses_its_own_duration() {
    let defs = vec![def("__WAIT__", Some(9.0)), def("bell", None)];
    let r = run_step(vec![step("__WAIT__", Some(1.5), false), step("bell", None, false)], &defs);
    assert_eq!(r.dispatch, None);
    match r.outcome {
        StepOutcome::Wait { seconds, rest } => {
            assert_eq!(value(&seconds), 1.5);
            assert_eq!(rest.len(), 1);
        }
        _ => panic!("Expected a pause"),
    }
    let r = run_step(vec![step("__WAIT__", Some(0.0), false), step("bell", None, false)], &defs);
    assert!(matches!(r.outcome, StepOutcome::Continue { .. }));
}

#[test]
fn pauses_not_above_zero_are_skipped() {
    for d in [-1.0, 0.0, -0.0, f64::NAN] {
        let defs = vec![def("door", Some(d))];
        let r = run_step(vec![step("door", None, false), step("door", None, false)], &defs);
        assert_eq!(r.dispatch, Some(0));
        assert!(matches!(r.outcome, StepOutcome::Continue { .. }));
    }
}

#[test]
fn last_step_dispatches_then_finishes() {
    let defs = vec![def("door", Some(5.0))];
    let r = run_step(vec![step("door", None, false)], &defs);
    assert_eq!(r.dispatch, Some(0));
    assert!(matches!(r.outcome, StepOutcome::Finished));
}

#[test]
fn first_definition_of_a_name_wins() {
    let defs = vec![def("other", Some(1.0)), def("door", Some(3.0)), def("door", Some(7.0))];
    let r = run_step(vec![step("door", None, false), step("other", None, false)], &defs);
    assert_eq!(r.dispatch, Some(1));
    match r.outcome {
        StepOutcome::Wait { seconds, .. } => assert_eq!(value(&seconds), 3.0),
        _ => panic!("Expected a pause"),
    }
    assert_eq!(event_duration(&defs, "door").map(|n| value(&n)), Some(3.0));
    assert!(event_duration(&defs, "missing").is_none());
}

#[test]
fn unknown_step_dispatches_nothing() {
    let defs = vec![def("door", Some(3.0))];
    let r = run_step(vec![step("cutscene", None, false), step("door", None, false)], &defs);
    assert_eq!(r.dispatch, None);
    assert!(matches!(r.outcome, StepOutcome::Continue { .. }));
}

#[test]
fn timeline_statements_become_steps() {
    let timeline = TimelineDef {
        name: "intro".to_string(),
        statements: vec![
            stmt("run", Some("door"), Some(2.0), false),
            stmt("run", Some("bell"), Some(4.0), true),
            stmt("wait", None, Some(1.0), false),
            stmt("wait", None, None, false),
            stmt("run", None, Some(1.0), false),
            stmt("say", Some("x"), None, false),
        ],
    };
    let steps = timeline_steps(&timeline);
    assert_eq!(names(&steps), vec!["door".to_string(), "bell".to_string(), "__WAIT__".to_string()]);
    assert_eq!(steps[0].duration.as_ref().map(value), Some(2.0));
    assert!(steps[1].duration.is_none());
    assert!(steps[1].ignore_duration);
    assert_eq!(steps[2].duration.as_ref().map(value), Some(1.0));
    assert!(!steps[2].ignore_duration);
}

#[test]
fn run_by_name_prefers_events_then_timelines() {
    let defs = vec![def("door", None)];
    let timelines = vec![
        TimelineDef { name: "door".to_string(), statements: vec![stmt("wait", None, Some(1.0), false)] },
        TimelineDef { name: "intro".to_string(), statements: vec![stmt("run", Some("door"), None, false)] },
    ];
    assert!(matches!(resolve_run("door", &defs, &timelines), RunTarget::Event(0)));
    match resolve_run("intro", &defs, &timelines) {
        RunTarget::Timeline(steps) => assert_eq!(names(&steps), vec!["door".to_string()]),
        _ => panic!("Expected a timeline"),
    }
    assert!(matches!(resolve_run("nothing", &defs, &timelines), RunTarget::Missing));
}

#[test]
fn run_items_take_their_event_durations() {
    let defs = vec![def("door", Some(2.5))];
    let items = vec![
        DialogueRunItem { content_index: 3, name: "door".to_string(), kind: DialogueRunKind::Event, ignore_duration: false },
        DialogueRunItem { content_index: 4, name: "intro".to_string(), kind: DialogueRunKind::Timeline, ignore_duration: true },
    ];
    let seq = run_sequence(&items, &defs);
    assert_eq!(names(&seq), vec!["door".to_string(), "intro".to_string()]);
    assert_eq!(seq[0].duration.as_ref().map(value), Some(2.5));
    assert!(seq[1].duration.is_none());
    assert!(seq[1].ignore_duration);
}

#[test]
fn dispatched_arguments_lose_their_quotes() {
    let args = vec!["\"hello\"".to_string(), "plain".to_string(), "\"\"".to_string(), "a\"b".to_string()];
    assert_eq!(game_event_args(&args), vec!["hello".to_string(), "plain".to_string(), String::new(), "a\"b".to_string()]);
}

#[test]
fn sequence_plays_out_in_as_many_steps_as_it_has() {
    let defs = vec![def("a", Some(1.0)), def("b", None)];
    let mut seq = vec![step("a", None, false), step("__WAIT__", Some(0.5), false), step("b", None, false)];
    let mut calls = 0;
    let mut dispatched = Vec::new();
    let mut pauses = Vec::new();
    loop {
        calls += 1;
        let r = run_step(seq, &defs);
        if let Some(i) = r.dispatch {
            dispatched.push(i);
        }
        match r.outcome {
            StepOutcome::Finished => break,
            StepOutcome::Wait { seconds, rest } => {
                pauses.push(value(&seconds));
                seq = rest;
            }
            StepOutcome::Continue { rest } => seq = rest,
        }
    }
    assert_eq!(calls, 3);
    assert_eq!(dispatched, vec![0, 1]);
    assert_eq!(pauses, vec![1.0, 0.5]);
}

#[test]
fn runs_after_a_text_are_planned_by_their_count() {
    let defs = vec![def("door", Some(2.0))];
    let timelines = vec![TimelineDef { name: "intro".to_string(), statements: vec![stmt("wait", None, Some(1.0), false)] }];
    let item = |name: &str| DialogueRunItem { content_index: 0, name: name.to_string(), kind: DialogueRunKind::Event, ignore_duration: false };
    assert!(matches!(plan_runs(&vec![], &defs, &timelines), RunPlan::Nothing));
    assert!(matches!(plan_runs(&vec![item("door")], &defs, &timelines), RunPlan::Single(RunTarget::Event(0))));
    match plan_runs(&vec![item("intro")], &defs, &timelines) {
        RunPlan::Single(RunTarget::Timeline(steps)) => assert_eq!(names(&steps), vec!["__WAIT__".to_string()]),
        _ => panic!("Expected the timeline"),
    }
    match plan_runs(&vec![item("door"), item("intro")], &defs, &timelines) {
        RunPlan::Sequence(steps) => {
            assert_eq!(names(&steps), vec!["door".to_string(), "intro".to_string()]);
            assert_eq!(steps[0].duration.as_ref().map(value), Some(2.0));
        }
        _ => panic!("Expected a sequence"),
    }
}
