//! The messages that drive and observe Mortar dialogue playback, and the
//! tracker that fires the events bound to positions in a text.

use vstd::prelude::*;
use crate::condition::Replies;
use crate::eval::{parse_args, parsed_args};
use crate::registry::{args_view, host_replies, registered_names};
use crate::value::ValueView;
use crate::number::{less_than_bits, MortarNumber};
use crate::runtime::MortarRuntime;
use crate::script::{Action, Event};
use crate::value::Lexeme;

verus! {

/// The messages that drive Mortar dialogues. Messages without a target
/// entity operate on the primary dialogue.
pub enum MortarEvent {
    StartNode { path: String, node: String, target: Option<u64> },
    NextText { target: Option<u64> },
    SelectChoice { index: usize, target: Option<u64> },
    ConfirmChoice { target: Option<u64> },
    StopDialogue { target: Option<u64> },
}

impl MortarEvent {
    /// Starts node `node` of the script at `path` on the primary dialogue.
    pub fn start_node(path: &str, node: &str) -> (r: Self)
        ensures
            r matches MortarEvent::StartNode { path: p, node: n, target: t } && p@ == path@ && n@ == node@
                && t is None,
    {
        MortarEvent::StartNode { path: path.to_string(), node: node.to_string(), target: None }
    }

    /// Starts node `node` of the script at `path` on the dialogue of `entity`.
    pub fn start_node_for(entity: u64, path: &str, node: &str) -> (r: Self)
        ensures
            r matches MortarEvent::StartNode { path: p, node: n, target: t } && p@ == path@ && n@ == node@
                && t == Some(entity),
    {
        MortarEvent::StartNode { path: path.to_string(), node: node.to_string(), target: Some(entity) }
    }

    /// Advances the primary dialogue.
    pub fn next_text() -> (r: Self)
        ensures
            r matches MortarEvent::NextText { target: t } && t is None,
    {
        MortarEvent::NextText { target: None }
    }

    /// Advances the dialogue of `entity`.
    pub fn next_text_for(entity: u64) -> (r: Self)
        ensures
            r matches MortarEvent::NextText { target: t } && t == Some(entity),
    {
        MortarEvent::NextText { target: Some(entity) }
    }

    /// Stops every dialogue.
    pub fn stop_dialogue() -> (r: Self)
        ensures
            r matches MortarEvent::StopDialogue { target: t } && t is None,
    {
        MortarEvent::StopDialogue { target: None }
    }

    /// Stops the dialogue of `entity`.
    pub fn stop_dialogue_for(entity: u64) -> (r: Self)
        ensures
            r matches MortarEvent::StopDialogue { target: t } && t == Some(entity),
    {
        MortarEvent::StopDialogue { target: Some(entity) }
    }
}

/// Notification that a Mortar dialogue finished naturally (not by a stop
/// message).
pub struct MortarDialogueFinished {
    pub entity: Option<u64>,
    pub mortar_path: String,
    pub node: String,
}

/// An action triggered by a Mortar event.
pub struct MortarEventAction {
    pub action_name: String,
    pub args: Vec<String>,
}

/// An action as its name and argument texts.
pub open spec fn action_view(a: MortarEventAction) -> (Seq<char>, Seq<Seq<char>>) {
    (a.action_name@, a.args@.map_values(|s: String| s@))
}

/// The actions an event triggers, as names and argument texts.
pub open spec fn event_actions(e: Event) -> Seq<(Seq<char>, Seq<Seq<char>>)> {
    e.actions@.map_values(|a: Action| (a.action_type@, a.args@.map_values(|l: Lexeme| l.text@)))
}

/// An event is due once the playback index has reached its index.
pub open spec fn is_due(e: Event, current: u64) -> bool {
    !less_than_bits(current, e.index.bits)
}

/// Firing the events due at `current`, in order: each due event that has
/// not fired yet is recorded as fired and contributes its actions.
pub open spec fn fire_spec(events: Seq<Event>, fired: Seq<usize>, current: u64) -> (
    Seq<usize>,
    Seq<(Seq<char>, Seq<Seq<char>>)>,
)
    decreases events.len(),
{
    if events.len() == 0 {
        (fired, Seq::empty())
    } else {
        let (f, a) = fire_spec(events.drop_last(), fired, current);
        let i = (events.len() - 1) as usize;
        if is_due(events.last(), current) && !f.contains(i) {
            (f.push(i), a + event_actions(events.last()))
        } else {
            (f, a)
        }
    }
}

/// The calls the actions of an event make: each bound function by name,
/// with the action's parsed arguments.
pub open spec fn event_calls(e: Event) -> Seq<(Seq<char>, Seq<ValueView>)> {
    e.actions@.map_values(|a: Action| (a.action_type@, parsed_args(a.args@)))
}

/// The calls that firing the events due at `current` makes, in the order
/// of the actions [`fire_spec`] gives.
pub open spec fn fire_calls(events: Seq<Event>, fired: Seq<usize>, current: u64) -> Seq<(Seq<char>, Seq<ValueView>)>
    decreases events.len(),
{
    if events.len() == 0 {
        Seq::empty()
    } else {
        let prev = fire_calls(events.drop_last(), fired, current);
        let f = fire_spec(events.drop_last(), fired, current).0;
        let i = (events.len() - 1) as usize;
        if is_due(events.last(), current) && !f.contains(i) {
            prev + event_calls(events.last())
        } else {
            prev
        }
    }
}

/// The replies each call got: one for each call of a bound function, a
/// reply it can give to those arguments.
pub open spec fn calls_answered(
    calls: Seq<(Seq<char>, Seq<ValueView>)>,
    replies: Seq<Option<ValueView>>,
    names: Set<Seq<char>>,
    host: Replies,
) -> bool {
    &&& replies.len() == calls.len()
    &&& forall|k: int|
        0 <= k < calls.len() ==> (#[trigger] replies[k] is Some <==> names.contains(calls[k].0)) && (replies[k] matches Some(
            v,
        ) ==> host.contains((calls[k].0, calls[k].1, v)))
}

/// What a tracker holds: its events and the indices of those that fired.
pub struct TrackerView {
    pub events: Seq<Event>,
    pub fired: Seq<usize>,
}

/// Tracks the events bound to a text and which of them have fired.
pub struct MortarEventTracker {
    events: Vec<Event>,
    fired_events: Vec<usize>,
}

impl View for MortarEventTracker {
    type V = TrackerView;

    closed spec fn view(&self) -> TrackerView {
        TrackerView { events: self.events@, fired: self.fired_events@ }
    }
}

/// Each event fires at most once: the fired indices are events of the
/// tracker, without repeats.
pub open spec fn fired_well_formed(v: TrackerView) -> bool {
    &&& v.fired.no_duplicates()
    &&& forall|k: int| 0 <= k < v.fired.len() ==> #[trigger] v.fired[k] < v.events.len()
}

/// The actions of the events due at `current` that had not fired, in
/// event order.
pub open spec fn due_actions(events: Seq<Event>, fired: Seq<usize>, current: u64) -> Seq<(Seq<char>, Seq<Seq<char>>)>
    decreases events.len(),
{
    if events.len() == 0 {
        Seq::empty()
    } else {
        let i = (events.len() - 1) as usize;
        let prev = due_actions(events.drop_last(), fired, current);
        if is_due(events.last(), current) && !fired.contains(i) {
            prev + event_actions(events.last())
        } else {
            prev
        }
    }
}

/// Firing only adds indices of the events it looks at.
proof fn lemma_fire_adds_below(events: Seq<Event>, fired: Seq<usize>, current: u64)
    ensures
        forall|x: usize| #[trigger] fire_spec(events, fired, current).0.contains(x) ==> fired.contains(x) || x < events.len(),
    decreases events.len(),
{
    if events.len() > 0 {
        lemma_fire_adds_below(events.drop_last(), fired, current);
        let f = fire_spec(events.drop_last(), fired, current).0;
        let i = (events.len() - 1) as usize;
        assert forall|x: usize| #[trigger] fire_spec(events, fired, current).0.contains(x) implies fired.contains(x) || x
            < events.len() by {
            if is_due(events.last(), current) && !f.contains(i) {
                if x != i {
                    let k = choose|k: int| 0 <= k < f.push(i).len() && f.push(i)[k] == x;
                    assert(f[k] == x);
                    assert(f.contains(x));
                }
            }
        }
    }
}

/// A call gives the actions of exactly the events that are due and had
/// not fired, in event order.
pub proof fn lemma_fire_actions(events: Seq<Event>, fired: Seq<usize>, current: u64)
    requires
        events.len() <= usize::MAX,
    ensures
        fire_spec(events, fired, current).1 == due_actions(events, fired, current),
    decreases events.len(),
{
    if events.len() > 0 {
        let pre = events.drop_last();
        lemma_fire_actions(pre, fired, current);
        lemma_fire_adds_below(pre, fired, current);
        let f = fire_spec(pre, fired, current).0;
        let i = (events.len() - 1) as usize;
        assert(f.contains(i) <==> fired.contains(i)) by {
            lemma_fire_spec_keeps(pre, fired, current);
        }
    }
}

/// Firing keeps every index that had fired.
proof fn lemma_fire_spec_keeps(events: Seq<Event>, fired: Seq<usize>, current: u64)
    ensures
        forall|x: usize| fired.contains(x) ==> #[trigger] fire_spec(events, fired, current).0.contains(x),
    decreases events.len(),
{
    if events.len() > 0 {
        lemma_fire_spec_keeps(events.drop_last(), fired, current);
        let f = fire_spec(events.drop_last(), fired, current).0;
        let i = (events.len() - 1) as usize;
        assert forall|x: usize| fired.contains(x) implies #[trigger] fire_spec(events, fired, current).0.contains(x) by {
            assert(f.contains(x));
            if is_due(events.last(), current) && !f.contains(i) {
                let k = choose|k: int| 0 <= k < f.len() && f[k] == x;
                assert(f.push(i)[k] == x);
            }
        }
    }
}

/// Each event fires at most once, over any number of calls: a call gives
/// the actions of the events due and not fired before, and afterwards
/// every event due at that call counts as fired, so a later call (at any
/// index) never gives its actions again.
pub proof fn lemma_fire_once(events: Seq<Event>, fired: Seq<usize>, first: u64, later: u64)
    requires
        events.len() <= usize::MAX,
        fired_well_formed(TrackerView { events, fired }),
    ensures
        fire_spec(events, fired, first).1 == due_actions(events, fired, first),
        ({
            let f1 = fire_spec(events, fired, first).0;
            &&& fired_well_formed(TrackerView { events, fired: f1 })
            &&& fire_spec(events, f1, later).1 == due_actions(events, f1, later)
            &&& forall|i: int|
                0 <= i < events.len() && (is_due(events[i], first) || fired.contains(i as usize)) ==> #[trigger] f1.contains(
                    i as usize,
                )
        }),
{
    lemma_fire_spec(events, fired, first);
    lemma_fire_actions(events, fired, first);
    let f1 = fire_spec(events, fired, first).0;
    lemma_fire_actions(events, f1, later);
}

/// The fired indices after firing at each index of `xs` in turn, with no
/// reset between.
pub open spec fn fired_after(events: Seq<Event>, fired: Seq<usize>, xs: Seq<u64>) -> Seq<usize>
    decreases xs.len(),
{
    if xs.len() == 0 {
        fired
    } else {
        fire_spec(events, fired_after(events, fired, xs.drop_last()), xs.last()).0
    }
}

/// Each event fires at most once over any number of calls: after calls at
/// the indices `xs` (no reset between) the fired indices stay well formed
/// and are exactly the events fired at the start or due at one of the
/// calls; and call `j` gives the actions of exactly the events due at
/// `xs[j]` that had neither fired at the start nor been due at an earlier
/// call.
pub proof fn lemma_fire_sequence(events: Seq<Event>, fired: Seq<usize>, xs: Seq<u64>)
    requires
        events.len() <= usize::MAX,
        fired_well_formed(TrackerView { events, fired }),
    ensures
        fired_well_formed(TrackerView { events, fired: fired_after(events, fired, xs) }),
        forall|i: int|
            0 <= i < events.len() ==> (#[trigger] fired_after(events, fired, xs).contains(i as usize) <==> (
            fired.contains(i as usize) || exists|k: int| 0 <= k < xs.len() && is_due(events[i], #[trigger] xs[k]))),
        forall|j: int|
            0 <= j < xs.len() ==> #[trigger] fire_spec(events, fired_after(events, fired, xs.take(j)), xs[j]).1
                == due_actions(events, fired_after(events, fired, xs.take(j)), xs[j]),
    decreases xs.len(),
{
    if xs.len() > 0 {
        let pre = xs.drop_last();
        lemma_fire_sequence(events, fired, pre);
        let f = fired_after(events, fired, pre);
        lemma_fire_spec(events, f, xs.last());
        assert forall|i: int| 0 <= i < events.len() implies (#[trigger] fired_after(events, fired, xs).contains(
            i as usize,
        ) <==> (fired.contains(i as usize) || exists|k: int| 0 <= k < xs.len() && is_due(events[i], #[trigger] xs[k]))) by {
            assert(fired_after(events, fired, xs) == fire_spec(events, f, xs.last()).0);
            if fired_after(events, fired, xs).contains(i as usize) {
                if f.contains(i as usize) {
                    if !fired.contains(i as usize) {
                        let k = choose|k: int| 0 <= k < pre.len() && is_due(events[i], #[trigger] pre[k]);
                        assert(xs[k] == pre[k]);
                    }
                } else {
                    assert(is_due(events[i as int], xs.last()));
                    assert(xs[xs.len() - 1] == xs.last());
                }
            } else {
                assert(!f.contains(i as usize));
                assert(!is_due(events[i], xs.last()));
                assert forall|k: int| 0 <= k < xs.len() implies !is_due(events[i], #[trigger] xs[k]) by {
                    if k < xs.len() - 1 {
                        assert(xs[k] == pre[k]);
                    }
                }
            }
        }
        assert forall|j: int| 0 <= j < xs.len() implies #[trigger] fire_spec(
            events,
            fired_after(events, fired, xs.take(j)),
            xs[j],
        ).1 == due_actions(events, fired_after(events, fired, xs.take(j)), xs[j]) by {
            lemma_fire_actions(events, fired_after(events, fired, xs.take(j)), xs[j]);
        }
    }
}

/// Firing keeps the fired indices well formed (each event fires at most
/// once), records every due event, keeps what had fired, and records
/// nothing else.
pub proof fn lemma_fire_spec(events: Seq<Event>, fired: Seq<usize>, current: u64)
    requires
        events.len() <= usize::MAX,
        fired_well_formed(TrackerView { events, fired }),
    ensures
        fired_well_formed(TrackerView { events, fired: fire_spec(events, fired, current).0 }),
        forall|i: int|
            0 <= i < events.len() && is_due(events[i], current) ==> #[trigger] fire_spec(
                events,
                fired,
                current,
            ).0.contains(i as usize),
        forall|x: usize| fired.contains(x) ==> #[trigger] fire_spec(events, fired, current).0.contains(x),
        forall|x: usize|
            #[trigger] fire_spec(events, fired, current).0.contains(x) ==> fired.contains(x) || is_due(
                events[x as int],
                current,
            ),
{
    assert forall|x: usize| fired.contains(x) implies x < events.len() by {
        let k = choose|k: int| 0 <= k < fired.len() && fired[k] == x;
    }
    lemma_fire_steps(events, fired, current, events.len() as int);
    let r = fire_spec(events, fired, current).0;
    assert forall|k: int| 0 <= k < r.len() implies #[trigger] r[k] < events.len() by {
        let x = r[k];
        assert(r.contains(x));
        if fired.contains(x) {
        } else {
            assert(x < events.len());
        }
    }
}

/// [`lemma_fire_spec`] by induction over the events, with indices below
/// `bound`.
proof fn lemma_fire_steps(events: Seq<Event>, fired: Seq<usize>, current: u64, bound: int)
    requires
        events.len() <= bound <= usize::MAX + 1,
        fired.no_duplicates(),
        forall|x: usize| fired.contains(x) ==> x < bound,
    ensures
        fire_spec(events, fired, current).0.no_duplicates(),
        forall|i: int|
            0 <= i < events.len() && is_due(events[i], current) ==> #[trigger] fire_spec(
                events,
                fired,
                current,
            ).0.contains(i as usize),
        forall|x: usize|
            fire_spec(events, fired, current).0.contains(x) ==> fired.contains(x) || (x < events.len()
                && is_due(events[x as int], current)),
        forall|x: usize| fired.contains(x) ==> fire_spec(events, fired, current).0.contains(x),
    decreases events.len(),
{
    if events.len() > 0 {
        let prefix = events.drop_last();
        let n = events.len() - 1;
        lemma_fire_steps(prefix, fired, current, bound);
        let f = fire_spec(prefix, fired, current).0;
        let r = fire_spec(events, fired, current).0;
        assert forall|i: int| 0 <= i < events.len() && is_due(events[i], current) implies #[trigger] r.contains(
            i as usize,
        ) by {
            if i < n {
                assert(events[i] == prefix[i]);
                assert(f.contains(i as usize));
                if r != f {
                    let k = choose|k: int| 0 <= k < f.len() && f[k] == i as usize;
                    assert(r[k] == i as usize);
                }
            } else {
                if r != f {
                    assert(r[f.len() as int] == n as usize);
                }
            }
        }
        assert forall|x: usize| r.contains(x) implies fired.contains(x) || (x < events.len() && is_due(
            events[x as int],
            current,
        )) by {
            if f.contains(x) {
                if !fired.contains(x) {
                    assert(prefix[x as int] == events[x as int]);
                }
            } else {
                let k = choose|k: int| 0 <= k < r.len() && r[k] == x;
                assert(k == f.len());
            }
        }
        assert forall|x: usize| fired.contains(x) implies r.contains(x) by {
            assert(f.contains(x));
            if r != f {
                let k = choose|k: int| 0 <= k < f.len() && f[k] == x;
                assert(r[k] == x);
            }
        }
        if r != f {
            assert forall|a: int, b: int| 0 <= a < r.len() && 0 <= b < r.len() && a != b implies r[a]
                != r[b] by {
                if a < f.len() && b < f.len() {
                } else if a == f.len() {
                    assert(f.contains(r[b]));
                } else {
                    assert(f.contains(r[a]));
                }
            }
        }
    }
}

impl MortarEventTracker {
    #[verifier::type_invariant]
    spec fn well_formed(&self) -> bool {
        fired_well_formed(self@)
    }

    /// A tracker of `events`, none of them fired.
    pub fn new(events: Vec<Event>) -> (r: Self)
        ensures
            r@.events == events@,
            r@.fired == Seq::<usize>::empty(),
    {
        MortarEventTracker { events, fired_events: Vec::new() }
    }

    /// Fires the events due at playback index `current_index` that have
    /// not fired yet (see [`fire_spec`]), calling the bound function of each
    /// of their actions, and gives those actions in order.
    pub fn trigger_at_index(&mut self, current_index: &MortarNumber, runtime: &MortarRuntime) -> (r: Vec<
        MortarEventAction,
    >)
        ensures
            final(self)@.events == old(self)@.events,
            final(self)@.fired == fire_spec(old(self)@.events, old(self)@.fired, current_index.bits).0,
            r@.map_values(|a: MortarEventAction| action_view(a)) == fire_spec(
                old(self)@.events,
                old(self)@.fired,
                current_index.bits,
            ).1,
            exists|replies: Seq<Option<ValueView>>|
                #[trigger] calls_answered(
                    fire_calls(old(self)@.events, old(self)@.fired, current_index.bits),
                    replies,
                    registered_names(runtime.functions),
                    host_replies(runtime.functions),
                ),
    {
        proof {
            use_type_invariant(&*self);
        }
        let ghost events0 = self.events@;
        let ghost fired0 = self.fired_events@;
        let mut fired = Vec::new();
        std::mem::swap(&mut fired, &mut self.fired_events);
        let mut actions: Vec<MortarEventAction> = Vec::new();
        let ghost names = registered_names(runtime.functions);
        let ghost host = host_replies(runtime.functions);
        let ghost mut replies: Seq<Option<ValueView>> = Seq::empty();
        let mut i: usize = 0;
        while i < self.events.len()
            invariant
                events0 == self.events@,
                i <= events0.len(),
                (fired@, actions@.map_values(|a: MortarEventAction| action_view(a))) == fire_spec(
                    events0.subrange(0, i as int),
                    fired0,
                    current_index.bits,
                ),
                names == registered_names(runtime.functions),
                host == host_replies(runtime.functions),
                calls_answered(fire_calls(events0.subrange(0, i as int), fired0, current_index.bits), replies, names, host),
            decreases events0.len() - i,
        {
            let ghost pre = events0.subrange(0, i as int);
            let ghost next = events0.subrange(0, i + 1);
            assert(next.drop_last() =~= pre);
            assert(next.last() == events0[i as int]);
            let event = &self.events[i];
            if !current_index.less_than(&event.index) && !contains_usize(&fired, i) {
                fired.push(i);
                let ghost before = actions@.map_values(|a: MortarEventAction| action_view(a));
                let ghost calls_before = fire_calls(pre, fired0, current_index.bits);
                let ghost replies_before = replies;
                let mut k: usize = 0;
                while k < event.actions.len()
                    invariant
                        k <= event.actions@.len(),
                        actions@.map_values(|a: MortarEventAction| action_view(a)) == before + event_actions(
                            *event,
                        ).subrange(0, k as int),
                        names == registered_names(runtime.functions),
                        host == host_replies(runtime.functions),
                        calls_answered(calls_before + event_calls(*event).subrange(0, k as int), replies, names, host),
                    decreases event.actions@.len() - k,
                {
                    let action = &event.actions[k];
                    let args = parse_args(&action.args);
                    proof {
                        assert(args_view(args@) =~= parsed_args(action.args@));
                    }
                    let reply = runtime.functions.call(action.action_type.as_str(), args.as_slice());
                    proof {
                        let rv = match reply {
                            Some(v) => Some(v@),
                            None => None::<ValueView>,
                        };
                        let old_calls = calls_before + event_calls(*event).subrange(0, k as int);
                        let new_calls = calls_before + event_calls(*event).subrange(0, k + 1);
                        assert(event_calls(*event)[k as int] == (action.action_type@, parsed_args(action.args@)));
                        assert(new_calls =~= old_calls.push(event_calls(*event)[k as int]));
                        let nr = replies.push(rv);
                        assert forall|j: int| 0 <= j < new_calls.len() implies (#[trigger] nr[j] is Some
                            <==> names.contains(new_calls[j].0)) && (nr[j] matches Some(v) ==> host.contains(
                            (new_calls[j].0, new_calls[j].1, v),
                        )) by {
                            if j < old_calls.len() {
                                assert(nr[j] == replies[j]);
                                assert(new_calls[j] == old_calls[j]);
                            }
                        }
                        replies = nr;
                    }
                    let arg_texts = lexeme_texts(&action.args);
                    let ghost prev = actions@;
                    let item = MortarEventAction { action_name: action.action_type.clone(), args: arg_texts };
                    assert(action_view(item) == event_actions(*event)[k as int]);
                    actions.push(item);
                    proof {
                        let lhs = actions@.map_values(|a: MortarEventAction| action_view(a));
                        let rhs = before + event_actions(*event).subrange(0, k + 1);
                        assert(prev.map_values(|a: MortarEventAction| action_view(a)) == before + event_actions(
                            *event,
                        ).subrange(0, k as int));
                        assert(lhs.len() == prev.len() + 1);
                        assert(event_actions(*event).subrange(0, k as int).len() == k);
                        assert(prev.map_values(|a: MortarEventAction| action_view(a)).len() == prev.len());
                        assert(prev.len() == before.len() + k);
                        assert(rhs.len() == before.len() + k + 1);
                        assert forall|j: int| 0 <= j < lhs.len() implies lhs[j] == rhs[j] by {
                            if j < prev.len() {
                                assert(actions@[j] == prev[j]);
                                assert(prev.map_values(|a: MortarEventAction| action_view(a))[j] == lhs[j]);
                            } else {
                                assert(actions@[j] == item);
                                assert(rhs[j] == event_actions(*event)[k as int]);
                            }
                        }
                        assert(lhs =~= rhs);
                    }
                    k = k + 1;
                }
                assert(event_actions(*event).subrange(0, event.actions@.len() as int) =~= event_actions(*event));
                assert(event_calls(*event).subrange(0, event.actions@.len() as int) =~= event_calls(*event));
                assert(fire_calls(next, fired0, current_index.bits) == calls_before + event_calls(*event));
            } else {
                assert(fire_calls(next, fired0, current_index.bits) == fire_calls(pre, fired0, current_index.bits));
            }
            i = i + 1;
        }
        assert(events0.subrange(0, events0.len() as int) =~= events0);
        proof {
            lemma_fire_spec(events0, fired0, current_index.bits);
            assert(calls_answered(fire_calls(events0, fired0, current_index.bits), replies, names, host));
            assert(events0 == old(self)@.events && fired0 == old(self)@.fired);
            assert(calls_answered(
                fire_calls(old(self)@.events, old(self)@.fired, current_index.bits),
                replies,
                registered_names(runtime.functions),
                host_replies(runtime.functions),
            ));
        }
        self.fired_events = fired;
        actions
    }

    /// Forgets which events fired.
    pub fn reset(&mut self)
        ensures
            final(self)@.events == old(self)@.events,
            final(self)@.fired == Seq::<usize>::empty(),
    {
        self.fired_events = Vec::new();
    }

    /// The number of events.
    pub fn event_count(&self) -> (r: usize)
        ensures
            r == self@.events.len(),
    {
        self.events.len()
    }

    /// The number of events that fired.
    pub fn fired_count(&self) -> (r: usize)
        ensures
            r == self@.fired.len(),
            r <= self@.events.len(),
    {
        proof {
            use_type_invariant(self);
            lemma_fired_count_bound(self@.fired, self@.events.len() as int);
        }
        self.fired_events.len()
    }
}

/// Indices without repeats, all below `bound`, are at most `bound` many.
proof fn lemma_fired_count_bound(fired: Seq<usize>, bound: int)
    requires
        0 <= bound,
        fired.no_duplicates(),
        forall|k: int| 0 <= k < fired.len() ==> #[trigger] fired[k] < bound,
    ensures
        fired.len() <= bound,
{
    let ints = fired.map_values(|x: usize| x as int);
    assert(ints.no_duplicates()) by {
        assert forall|a: int, b: int| 0 <= a < ints.len() && 0 <= b < ints.len() && a != b implies ints[a] != ints[b] by {
            assert(fired[a] != fired[b]);
        }
    }
    ints.unique_seq_to_set();
    let range = vstd::set_lib::set_int_range(0, bound);
    vstd::set_lib::lemma_int_range(0, bound);
    assert forall|x: int| ints.to_set().contains(x) implies range.contains(x) by {
        let k = choose|k: int| 0 <= k < ints.len() && ints[k] == x;
        assert(fired[k] < bound);
    }
    vstd::set_lib::lemma_len_subset(ints.to_set(), range);
}

fn contains_usize(v: &Vec<usize>, x: usize) -> (r: bool)
    ensures
        r == v@.contains(x),
{
    let mut i: usize = 0;
    while i < v.len()
        invariant
            i <= v@.len(),
            forall|j: int| 0 <= j < i ==> v@[j] != x,
        decreases v@.len() - i,
    {
        if v[i] == x {
            assert(v@[i as int] == x);
            return true;
        }
        i = i + 1;
    }
    false
}

fn lexeme_texts(words: &Vec<Lexeme>) -> (r: Vec<String>)
    ensures
        r@.map_values(|s: String| s@) == words@.map_values(|l: Lexeme| l.text@),
{
    let mut out: Vec<String> = Vec::new();
    let mut i: usize = 0;
    while i < words.len()
        invariant
            i <= words@.len(),
            out@.len() == i,
            out@.map_values(|s: String| s@) == words@.subrange(0, i as int).map_values(|l: Lexeme| l.text@),
        decreases words@.len() - i,
    {
        let ghost before = out@;
        out.push(words[i].text.clone());
        proof {
            let next = words@.subrange(0, i + 1);
            assert forall|j: int| 0 <= j < i + 1 implies out@[j]@ == next[j].text@ by {
                if j < i {
                    assert(before.map_values(|s: String| s@)[j] == words@.subrange(0, i as int).map_values(|l: Lexeme| l.text@)[j]);
                    assert(out@[j] == before[j]);
                }
            }
            assert(out@.map_values(|s: String| s@) =~= next.map_values(|l: Lexeme| l.text@));
        }
        i = i + 1;
    }
    assert(words@.subrange(0, words@.len() as int) =~= words@);
    out
}

} // verus!
