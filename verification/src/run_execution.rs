//! Playing the `run_event` and `run_timeline` statements of a node: the
//! sequence of steps they make, which event each step dispatches, and how
//! long the player pauses before the next step.
//!
//! The host keeps the timers: it asks [`run_step`] what the first step of a
//! sequence does, dispatches the event it names, and then either stops,
//! waits the given number of seconds before asking again with the rest, or
//! asks again at once.

use vstd::prelude::*;
use crate::dialogue_state::DialogueRunItem;
use crate::number::{less_than_bits, MortarNumber, NumberView};
use crate::script::Action;
use crate::text::{text_eq, trim_class, trim_spec, TrimClass};
use crate::value::copy_number;

verus! {

/// One step of a run sequence: the event or timeline it runs (or the wait
/// marker `__WAIT__`), the duration the script gives it, and whether the
/// event's own duration is ignored.
pub struct RunStep {
    pub name: String,
    pub duration: Option<MortarNumber>,
    pub ignore_duration: bool,
}

/// The abstract content of a run step.
pub struct StepView {
    pub name: Seq<char>,
    pub duration: Option<NumberView>,
    pub ignore_duration: bool,
}

pub open spec fn opt_number(o: Option<MortarNumber>) -> Option<NumberView> {
    match o {
        Some(n) => Some(n@),
        None => None,
    }
}

impl View for RunStep {
    type V = StepView;

    open spec fn view(&self) -> StepView {
        StepView { name: self.name@, duration: opt_number(self.duration), ignore_duration: self.ignore_duration }
    }
}

pub open spec fn steps_view(s: Seq<RunStep>) -> Seq<StepView> {
    s.map_values(|x: RunStep| x@)
}

/// An event definition of a script: its name, the action it runs and its
/// duration in seconds.
#[derive(Debug, Clone)]
pub struct EventDef {
    pub name: String,
    pub action: Action,
    pub duration: Option<MortarNumber>,
}

/// A statement of a timeline: `run` of an event, or `wait`.
#[derive(Debug, Clone)]
pub struct TimelineStatement {
    pub stmt_type: String,
    pub event_name: Option<String>,
    pub duration: Option<MortarNumber>,
    pub ignore_duration: bool,
}

/// A timeline definition of a script.
#[derive(Debug, Clone)]
pub struct TimelineDef {
    pub name: String,
    pub statements: Vec<TimelineStatement>,
}

/// The position of the first event definition named `name`, or the number
/// of definitions when none is.
pub open spec fn first_event_named(defs: Seq<EventDef>, name: Seq<char>) -> int
    decreases defs.len(),
{
    if defs.len() == 0 {
        0
    } else if defs[0].name@ == name {
        0
    } else {
        1 + first_event_named(defs.drop_first(), name)
    }
}

/// What [`first_event_named`] is: the definition there bears the name,
/// and none before it does.
pub proof fn lemma_first_event_named(defs: Seq<EventDef>, name: Seq<char>)
    ensures
        0 <= first_event_named(defs, name) <= defs.len(),
        first_event_named(defs, name) < defs.len() ==> defs[first_event_named(defs, name)].name@ == name,
        forall|j: int| 0 <= j < first_event_named(defs, name) ==> #[trigger] defs[j].name@ != name,
    decreases defs.len(),
{
    if defs.len() > 0 && defs[0].name@ != name {
        let tail = defs.drop_first();
        lemma_first_event_named(tail, name);
        assert forall|j: int| 0 <= j < first_event_named(defs, name) implies #[trigger] defs[j].name@ != name by {
            if j > 0 {
                assert(defs[j] == tail[j - 1]);
            }
        }
        if first_event_named(defs, name) < defs.len() {
            assert(defs[first_event_named(defs, name)] == tail[first_event_named(tail, name)]);
        }
    }
}

/// The duration of the first event definition named `name`.
pub open spec fn event_duration_spec(defs: Seq<EventDef>, name: Seq<char>) -> Option<NumberView> {
    let i = first_event_named(defs, name);
    if i < defs.len() {
        opt_number(defs[i].duration)
    } else {
        None
    }
}

/// The wait marker.
pub open spec fn is_wait(name: Seq<char>) -> bool {
    name == "__WAIT__"@
}

/// The event a step dispatches: the first definition named after it,
/// unless it is a wait.
pub open spec fn dispatch_spec(step: StepView, defs: Seq<EventDef>) -> Option<int> {
    let i = first_event_named(defs, step.name);
    if !is_wait(step.name) && i < defs.len() {
        Some(i)
    } else {
        None
    }
}

/// How long the player pauses after a step: a wait's own duration, none
/// for a step that ignores durations, else the duration of its event.
pub open spec fn pause_spec(step: StepView, defs: Seq<EventDef>) -> Option<NumberView> {
    if is_wait(step.name) {
        step.duration
    } else if step.ignore_duration {
        None
    } else {
        event_duration_spec(defs, step.name)
    }
}

/// A pause is waited out only when it is above zero seconds.
pub open spec fn pause_positive(p: Option<NumberView>) -> bool {
    match p {
        Some(n) => less_than_bits(0u64, n.bits),
        None => false,
    }
}

/// What happens after the first step of a sequence.
pub enum StepOutcome {
    /// Nothing is left to run.
    Finished,
    /// Pause `seconds`, then go on with `rest`.
    Wait { seconds: MortarNumber, rest: Vec<RunStep> },
    /// Go on with `rest` at once.
    Continue { rest: Vec<RunStep> },
}

pub enum OutcomeView {
    Finished,
    Wait(NumberView, Seq<StepView>),
    Continue(Seq<StepView>),
}

pub open spec fn outcome_view(o: StepOutcome) -> OutcomeView {
    match o {
        StepOutcome::Finished => OutcomeView::Finished,
        StepOutcome::Wait { seconds, rest } => OutcomeView::Wait(seconds@, steps_view(rest@)),
        StepOutcome::Continue { rest } => OutcomeView::Continue(steps_view(rest@)),
    }
}

/// What the first step of `seq` leads to: nothing more when it is the only
/// one (or there is none); else the rest, after its pause when the pause
/// is above zero.
pub open spec fn outcome_spec(seq: Seq<StepView>, defs: Seq<EventDef>) -> OutcomeView {
    if seq.len() <= 1 {
        OutcomeView::Finished
    } else {
        let p = pause_spec(seq[0], defs);
        let rest = seq.subrange(1, seq.len() as int);
        if pause_positive(p) {
            OutcomeView::Wait(p->0, rest)
        } else {
            OutcomeView::Continue(rest)
        }
    }
}

/// Each step plays the first entry of a sequence and hands on the rest
/// without it, so a sequence of `n` entries is played out in `n` steps; a
/// pause is only waited out when it is above zero seconds.
pub proof fn lemma_step_progress(seq: Seq<StepView>, defs: Seq<EventDef>)
    ensures
        match outcome_spec(seq, defs) {
            OutcomeView::Finished => seq.len() <= 1,
            OutcomeView::Wait(seconds, rest) => {
                &&& rest == seq.subrange(1, seq.len() as int)
                &&& rest.len() == seq.len() - 1
                &&& less_than_bits(0u64, seconds.bits)
            },
            OutcomeView::Continue(rest) => {
                &&& rest == seq.subrange(1, seq.len() as int)
                &&& rest.len() == seq.len() - 1
                &&& !pause_positive(pause_spec(seq[0], defs))
            },
        },
{
}

/// The result of one step: the event definition to dispatch, by position,
/// and what follows.
pub struct RunStepResult {
    pub dispatch: Option<usize>,
    pub outcome: StepOutcome,
}

/// What running a name does: dispatch an event, play a timeline's steps,
/// or nothing when neither is defined.
pub enum RunTarget {
    Event(usize),
    Timeline(Vec<RunStep>),
    Missing,
}

/// The steps of a timeline: each `run` of a named event (its duration kept
/// only when it is not ignored), and each `wait` with a duration.
pub open spec fn timeline_steps_spec(stmts: Seq<TimelineStatement>) -> Seq<StepView>
    decreases stmts.len(),
{
    if stmts.len() == 0 {
        Seq::empty()
    } else {
        let rest = timeline_steps_spec(stmts.drop_last());
        let s = stmts.last();
        if s.stmt_type@ == "run"@ {
            match s.event_name {
                Some(n) => rest.push(
                    StepView {
                        name: n@,
                        duration: if s.ignore_duration {
                            None
                        } else {
                            opt_number(s.duration)
                        },
                        ignore_duration: s.ignore_duration,
                    },
                ),
                None => rest,
            }
        } else if s.stmt_type@ == "wait"@ {
            match s.duration {
                Some(d) => rest.push(StepView { name: "__WAIT__"@, duration: Some(d@), ignore_duration: false }),
                None => rest,
            }
        } else {
            rest
        }
    }
}

/// The position of the first timeline definition named `name`, or the
/// number of definitions when none is.
pub open spec fn first_timeline_named(defs: Seq<TimelineDef>, name: Seq<char>) -> int
    decreases defs.len(),
{
    if defs.len() == 0 {
        0
    } else if defs[0].name@ == name {
        0
    } else {
        1 + first_timeline_named(defs.drop_first(), name)
    }
}

/// The first event definition named `name`, by position.
pub fn find_event_def(defs: &Vec<EventDef>, name: &str) -> (r: Option<usize>)
    ensures
        match r {
            Some(i) => i == first_event_named(defs@, name@) && i < defs@.len(),
            None => first_event_named(defs@, name@) == defs@.len(),
        },
{
    let mut i: usize = 0;
    assert(defs@.subrange(0, defs@.len() as int) =~= defs@);
    while i < defs.len()
        invariant
            i <= defs@.len(),
            first_event_named(defs@, name@) == i + first_event_named(
                defs@.subrange(i as int, defs@.len() as int),
                name@,
            ),
        decreases defs@.len() - i,
    {
        let ghost rest = defs@.subrange(i as int, defs@.len() as int);
        assert(rest[0] == defs@[i as int]);
        assert(rest.drop_first() =~= defs@.subrange(i + 1, defs@.len() as int));
        if text_eq(defs[i].name.as_str(), name) {
            return Some(i);
        }
        i = i + 1;
    }
    None
}

fn find_timeline_def(defs: &Vec<TimelineDef>, name: &str) -> (r: Option<usize>)
    ensures
        match r {
            Some(i) => i == first_timeline_named(defs@, name@) && i < defs@.len(),
            None => first_timeline_named(defs@, name@) == defs@.len(),
        },
{
    let mut i: usize = 0;
    assert(defs@.subrange(0, defs@.len() as int) =~= defs@);
    while i < defs.len()
        invariant
            i <= defs@.len(),
            first_timeline_named(defs@, name@) == i + first_timeline_named(
                defs@.subrange(i as int, defs@.len() as int),
                name@,
            ),
        decreases defs@.len() - i,
    {
        let ghost rest = defs@.subrange(i as int, defs@.len() as int);
        assert(rest[0] == defs@[i as int]);
        assert(rest.drop_first() =~= defs@.subrange(i + 1, defs@.len() as int));
        if text_eq(defs[i].name.as_str(), name) {
            return Some(i);
        }
        i = i + 1;
    }
    None
}

/// The duration of the first event definition named `name`.
pub fn event_duration(defs: &Vec<EventDef>, name: &str) -> (r: Option<MortarNumber>)
    ensures
        opt_number(r) == event_duration_spec(defs@, name@),
{
    match find_event_def(defs, name) {
        Some(i) => match &defs[i].duration {
            Some(d) => Some(copy_number(d)),
            None => None,
        },
        None => None,
    }
}

fn copy_opt_number(o: &Option<MortarNumber>) -> (r: Option<MortarNumber>)
    ensures
        r == *o,
{
    match o {
        Some(n) => Some(copy_number(n)),
        None => None,
    }
}

/// The steps of a timeline (see [`timeline_steps_spec`]).
pub fn timeline_steps(def: &TimelineDef) -> (r: Vec<RunStep>)
    ensures
        steps_view(r@) == timeline_steps_spec(def.statements@),
{
    let stmts = &def.statements;
    let mut out: Vec<RunStep> = Vec::new();
    let mut i: usize = 0;
    while i < stmts.len()
        invariant
            i <= stmts@.len(),
            stmts == &def.statements,
            steps_view(out@) == timeline_steps_spec(stmts@.subrange(0, i as int)),
        decreases stmts@.len() - i,
    {
        let ghost pre = stmts@.subrange(0, i as int);
        assert(stmts@.subrange(0, i + 1).drop_last() =~= pre);
        assert(stmts@.subrange(0, i + 1).last() == stmts@[i as int]);
        let s = &stmts[i];
        if text_eq(s.stmt_type.as_str(), "run") {
            if let Some(n) = &s.event_name {
                let duration = if s.ignore_duration {
                    None
                } else {
                    copy_opt_number(&s.duration)
                };
                out.push(RunStep { name: n.clone(), duration, ignore_duration: s.ignore_duration });
            }
        } else if text_eq(s.stmt_type.as_str(), "wait") {
            if let Some(d) = &s.duration {
                out.push(RunStep { name: "__WAIT__".to_string(), duration: Some(copy_number(d)), ignore_duration: false });
            }
        }
        proof {
            reveal_strlit("__WAIT__");
            assert(steps_view(out@) =~= timeline_steps_spec(stmts@.subrange(0, i + 1)));
        }
        i = i + 1;
    }
    assert(stmts@.subrange(0, stmts@.len() as int) =~= stmts@);
    out
}

/// The sequence the run statements of a node make: each run by name, with
/// the duration of the event of that name.
pub fn run_sequence(items: &Vec<DialogueRunItem>, defs: &Vec<EventDef>) -> (r: Vec<RunStep>)
    ensures
        r@.len() == items@.len(),
        forall|k: int|
            0 <= k < items@.len() ==> #[trigger] r@[k]@ == (StepView {
                name: items@[k].name@,
                duration: event_duration_spec(defs@, items@[k].name@),
                ignore_duration: items@[k].ignore_duration,
            }),
{
    let mut out: Vec<RunStep> = Vec::new();
    let mut i: usize = 0;
    while i < items.len()
        invariant
            i <= items@.len(),
            out@.len() == i,
            forall|k: int|
                0 <= k < i ==> #[trigger] out@[k]@ == (StepView {
                    name: items@[k].name@,
                    duration: event_duration_spec(defs@, items@[k].name@),
                    ignore_duration: items@[k].ignore_duration,
                }),
        decreases items@.len() - i,
    {
        let item = &items[i];
        let duration = event_duration(defs, item.name.as_str());
        out.push(RunStep { name: item.name.clone(), duration, ignore_duration: item.ignore_duration });
        i = i + 1;
    }
    out
}

/// `r` is what running `name` on its own does: the first event of that
/// name; else the steps of the first timeline of that name; else nothing.
pub open spec fn resolves_to(name: Seq<char>, event_defs: Seq<EventDef>, timeline_defs: Seq<TimelineDef>, r: RunTarget) -> bool {
    &&& first_event_named(event_defs, name) < event_defs.len() ==> r == RunTarget::Event(
        first_event_named(event_defs, name) as usize,
    )
    &&& first_event_named(event_defs, name) == event_defs.len() ==> {
        let t = first_timeline_named(timeline_defs, name);
        if t < timeline_defs.len() {
            r matches RunTarget::Timeline(steps) && steps_view(steps@) == timeline_steps_spec(
                timeline_defs[t].statements@,
            )
        } else {
            r is Missing
        }
    }
}

/// How the runs found after a text start: none; several, played as one
/// sequence of steps; or one, which runs the event or timeline it names.
pub enum RunPlan {
    Nothing,
    Sequence(Vec<RunStep>),
    Single(RunTarget),
}

/// How the runs `items` start (see [`RunPlan`]).
pub fn plan_runs(items: &Vec<DialogueRunItem>, event_defs: &Vec<EventDef>, timeline_defs: &Vec<TimelineDef>) -> (r: RunPlan)
    ensures
        items@.len() == 0 ==> r is Nothing,
        items@.len() == 1 ==> (r matches RunPlan::Single(t) && resolves_to(
            items@[0].name@,
            event_defs@,
            timeline_defs@,
            t,
        )),
        items@.len() > 1 ==> (r matches RunPlan::Sequence(steps) && steps@.len() == items@.len() && forall|k: int|
            0 <= k < items@.len() ==> #[trigger] steps@[k]@ == (StepView {
                name: items@[k].name@,
                duration: event_duration_spec(event_defs@, items@[k].name@),
                ignore_duration: items@[k].ignore_duration,
            })),
{
    if items.len() == 0 {
        RunPlan::Nothing
    } else if items.len() == 1 {
        RunPlan::Single(resolve_run(items[0].name.as_str(), event_defs, timeline_defs))
    } else {
        RunPlan::Sequence(run_sequence(items, event_defs))
    }
}

/// What running `name` on its own does: dispatch the first event of that
/// name; else play the steps of the first timeline of that name; else
/// nothing.
pub fn resolve_run(name: &str, event_defs: &Vec<EventDef>, timeline_defs: &Vec<TimelineDef>) -> (r: RunTarget)
    ensures
        resolves_to(name@, event_defs@, timeline_defs@, r),
{
    if let Some(i) = find_event_def(event_defs, name) {
        return RunTarget::Event(i);
    }
    match find_timeline_def(timeline_defs, name) {
        Some(t) => RunTarget::Timeline(timeline_steps(&timeline_defs[t])),
        None => RunTarget::Missing,
    }
}

/// The arguments a dispatched event carries: its action's arguments with
/// surrounding double quotes removed.
pub fn game_event_args(args: &Vec<String>) -> (r: Vec<String>)
    ensures
        r@.len() == args@.len(),
        forall|k: int| 0 <= k < args@.len() ==> #[trigger] r@[k]@ == trim_spec(TrimClass::Quotes, args@[k]@),
{
    let mut out: Vec<String> = Vec::new();
    let mut i: usize = 0;
    while i < args.len()
        invariant
            i <= args@.len(),
            out@.len() == i,
            forall|k: int| 0 <= k < i ==> #[trigger] out@[k]@ == trim_spec(TrimClass::Quotes, args@[k]@),
        decreases args@.len() - i,
    {
        out.push(trim_class(TrimClass::Quotes, args[i].as_str()));
        i = i + 1;
    }
    out
}

fn is_wait_name(name: &String) -> (r: bool)
    ensures
        r == is_wait(name@),
{
    text_eq(name.as_str(), "__WAIT__")
}

/// Runs the first step of `seq`: the event it dispatches (see
/// [`dispatch_spec`]) and what follows (see [`outcome_spec`]).
pub fn run_step(seq: Vec<RunStep>, defs: &Vec<EventDef>) -> (r: RunStepResult)
    ensures
        seq@.len() == 0 ==> r.dispatch is None,
        seq@.len() > 0 ==> match dispatch_spec(seq@[0]@, defs@) {
            Some(i) => r.dispatch == Some(i as usize),
            None => r.dispatch is None,
        },
        outcome_view(r.outcome) == outcome_spec(steps_view(seq@), defs@),
{
    if seq.len() == 0 {
        return RunStepResult { dispatch: None, outcome: StepOutcome::Finished };
    }
    let mut rest = seq;
    let first = rest.remove(0);
    proof {
        assert(steps_view(seq@)[0] == first@);
        assert(steps_view(rest@) =~= steps_view(seq@).subrange(1, seq@.len() as int));
    }
    let wait = is_wait_name(&first.name);
    let dispatch = if wait {
        None
    } else {
        find_event_def(defs, first.name.as_str())
    };
    if rest.len() == 0 {
        return RunStepResult { dispatch, outcome: StepOutcome::Finished };
    }
    let pause = if wait {
        first.duration
    } else if first.ignore_duration {
        None
    } else {
        event_duration(defs, first.name.as_str())
    };
    let zero = MortarNumber::new(0, "0".to_string());
    let outcome = match pause {
        Some(p) => if p.greater_than(&zero) {
            StepOutcome::Wait { seconds: p, rest }
        } else {
            StepOutcome::Continue { rest }
        },
        None => StepOutcome::Continue { rest },
    };
    RunStepResult { dispatch, outcome }
}

} // verus!
