//! The runtime that drives Mortar dialogues: the dialogues in progress,
//! keyed by the entity that controls each, the primary dialogue that
//! untargeted messages go to, the node starts and jumps waiting to happen,
//! and the bound functions.
//!
//! Each message handler here decides what a message does to the runtime;
//! the host performs what needs the game engine (loading assets, writing
//! messages) and hands over the results.

use vstd::prelude::*;
use crate::dialogue_state::{
    current_choices_spec, group_end, started_view, text_positions, DialogueState, DialogueView,
};
use crate::events::MortarDialogueFinished;
use crate::registry::MortarFunctionRegistry;
use crate::script::{Choice, Node};
use crate::assoc::{assoc_index, keys_distinct};
use crate::text::text_eq;
use std::collections::HashMap;

verus! {

broadcast use vstd::std_specs::hash::group_hash_axioms;

/// The runtime state for the Mortar system, with any number of concurrent
/// dialogue controllers (entities, by their id).
pub struct MortarRuntime {
    /// Active dialogue states keyed by controller entity.
    pub active_dialogues: HashMap<u64, DialogueState>,
    /// The primary dialogue entity, which receives untargeted input.
    pub primary_dialogue: Option<u64>,
    /// Pending start requests keyed by controller entity (path, node).
    pub pending_starts: HashMap<u64, (String, String)>,
    /// Pending jump requests keyed by controller entity (path, node).
    pub pending_jumps: HashMap<u64, (String, String)>,
    /// The function registry for calling Mortar functions.
    pub functions: MortarFunctionRegistry,
    /// The entity id that dialogues started without a target are kept
    /// under (the id of the engine's placeholder entity).
    pub untargeted: u64,
}

/// The abstract content of a runtime.
pub struct RuntimeView {
    pub active: Map<u64, DialogueView>,
    pub primary: Option<u64>,
    pub pending_starts: Map<u64, (Seq<char>, Seq<char>)>,
    pub pending_jumps: Map<u64, (Seq<char>, Seq<char>)>,
    pub untargeted: u64,
}

pub open spec fn request_view(r: (String, String)) -> (Seq<char>, Seq<char>) {
    (r.0@, r.1@)
}

/// The views of the dialogues in a map.
pub open spec fn dialogues_view(m: Map<u64, DialogueState>) -> Map<u64, DialogueView> {
    m.map_values(|d: DialogueState| d@)
}

impl View for MortarRuntime {
    type V = RuntimeView;

    open spec fn view(&self) -> RuntimeView {
        RuntimeView {
            active: dialogues_view(self.active_dialogues@),
            primary: self.primary_dialogue,
            pending_starts: self.pending_starts@.map_values(|r: (String, String)| request_view(r)),
            pending_jumps: self.pending_jumps@.map_values(|r: (String, String)| request_view(r)),
            untargeted: self.untargeted,
        }
    }
}

/// The abstract content of a finish notification.
pub struct FinishedView {
    pub entity: Option<u64>,
    pub mortar_path: Seq<char>,
    pub node: Seq<char>,
}

pub open spec fn finished_view(f: Option<MortarDialogueFinished>) -> Option<FinishedView> {
    match f {
        Some(x) => Some(FinishedView { entity: x.entity, mortar_path: x.mortar_path@, node: x.node@ }),
        None => None,
    }
}

/// The runtime without the dialogue of `e`; it is no longer primary.
pub open spec fn without_dialogue(rt: RuntimeView, e: u64) -> RuntimeView {
    RuntimeView {
        active: rt.active.remove(e),
        primary: if rt.primary == Some(e) {
            None
        } else {
            rt.primary
        },
        ..rt
    }
}

/// The dialogue of `e`, which was at `s`, finishes: it is removed and a
/// finish notification names it (no entity for the untargeted one).
pub open spec fn finish_spec(rt: RuntimeView, e: u64, s: DialogueView) -> (RuntimeView, Option<FinishedView>) {
    (
        without_dialogue(rt, e),
        Some(
            FinishedView {
                entity: if e == rt.untargeted {
                    None
                } else {
                    Some(e)
                },
                mortar_path: s.mortar_path,
                node: s.current_node,
            },
        ),
    )
}

/// The entity a message is for: its target, else the primary dialogue.
pub open spec fn addressed(rt: RuntimeView, target: Option<u64>) -> Option<u64> {
    match target {
        Some(e) => Some(e),
        None => rt.primary,
    }
}

/// What `NextText` does. The dialogue records the content position after
/// its current text as where pending runs continue, then moves past the
/// display unit at its cursor. At the end of its node it waits for a
/// choice when it has unbroken choices; else it jumps to the next node,
/// or finishes when there is none or the next node is `return`.
pub open spec fn next_text_spec(rt: RuntimeView, target: Option<u64>) -> (RuntimeView, Option<FinishedView>) {
    match addressed(rt, target) {
        None => (rt, None),
        Some(e) => if !rt.active.contains_key(e) {
            (rt, None)
        } else {
            let s0 = rt.active[e];
            let s1 = DialogueView {
                pending_run_position: if s0.text_index < s0.content_indices.len() {
                    Some((s0.content_indices[s0.text_index as int] + 1) as usize)
                } else {
                    None
                },
                ..s0
            };
            let end = group_end(s1.texts, s1.text_index as int);
            if end < s1.texts.len() {
                (RuntimeView { active: rt.active.insert(e, DialogueView { text_index: end as usize, ..s1 }), ..rt }, None)
            } else {
                let rt1 = RuntimeView { active: rt.active.insert(e, s1), ..rt };
                if s1.choices is Some && !s1.choices_broken {
                    (rt1, None)
                } else {
                    match s1.node.next {
                        None => finish_spec(rt1, e, s1),
                        Some(n) => if n@ == "return"@ {
                            finish_spec(rt1, e, s1)
                        } else {
                            (
                                RuntimeView {
                                    pending_jumps: rt1.pending_jumps.insert(e, (s1.mortar_path, n@)),
                                    ..rt1
                                },
                                None,
                            )
                        },
                    }
                }
            }
        },
    }
}

/// What `SelectChoice` does: marks option `index` of the choices on offer
/// as selected, when there is such an option.
pub open spec fn select_choice_spec(rt: RuntimeView, index: usize, target: Option<u64>) -> RuntimeView {
    match addressed(rt, target) {
        None => rt,
        Some(e) => if !rt.active.contains_key(e) {
            rt
        } else {
            let s = rt.active[e];
            let offered = if s.choices_broken {
                None
            } else {
                current_choices_spec(s.choices, s.choice_stack)
            };
            match offered {
                Some(c) => if index < c@.len() {
                    RuntimeView { active: rt.active.insert(e, DialogueView { selected_choice: Some(index), ..s }), ..rt }
                } else {
                    rt
                },
                None => rt,
            }
        },
    }
}

/// What confirming option `c` of dialogue `e` (at `s`) does: its action
/// (`break` leaves the choices and moves on, anything else finishes), else
/// entering its nested options, else jumping to its next node (finishing
/// when it has none or it is `return`).
pub open spec fn confirm_spec(rt: RuntimeView, e: u64, s: DialogueView, index: usize, c: Choice) -> (
    RuntimeView,
    Option<FinishedView>,
) {
    match c.action {
        Some(a) => if a@ == "break"@ {
            let cleared = DialogueView { choice_stack: Seq::empty(), selected_choice: None, choices_broken: true, ..s };
            let end = group_end(cleared.texts, cleared.text_index as int);
            let moved = if end < cleared.texts.len() {
                DialogueView { text_index: end as usize, ..cleared }
            } else {
                cleared
            };
            (RuntimeView { active: rt.active.insert(e, moved), ..rt }, None)
        } else {
            finish_spec(rt, e, s)
        },
        None => if c.choice is Some {
            (
                RuntimeView {
                    active: rt.active.insert(
                        e,
                        DialogueView { choice_stack: s.choice_stack.push(index), selected_choice: None, ..s },
                    ),
                    ..rt
                },
                None,
            )
        } else {
            match c.next {
                None => finish_spec(rt, e, s),
                Some(n) => if n@ == "return"@ {
                    finish_spec(rt, e, s)
                } else {
                    (RuntimeView { pending_jumps: rt.pending_jumps.insert(e, (s.mortar_path, n@)), ..rt }, None)
                },
            }
        },
    }
}

/// Confirming, on the addressed dialogue, a selected option that has no
/// action and no nested options: when its next node is `return` (or it has
/// none) the dialogue is removed, no longer primary, and reported finished
/// (by its entity, unless it is the untargeted one, with its script and
/// current node), and no jump is recorded; when its next node is another
/// one, the dialogue stays as it was and a jump to that node of the same
/// script is recorded for its entity. Nothing else changes either way.
pub proof fn lemma_confirm_next(rt: RuntimeView, target: Option<u64>, e: u64, i: usize, c: Vec<Choice>)
    requires
        addressed(rt, target) == Some(e),
        rt.active.contains_key(e),
        !rt.active[e].choices_broken,
        rt.active[e].selected_choice == Some(i),
        current_choices_spec(rt.active[e].choices, rt.active[e].choice_stack) == Some(c),
        i < c@.len(),
        c@[i as int].action is None,
        c@[i as int].choice is None,
    ensures
        ({
            let s = rt.active[e];
            let (after, finished) = confirm_choice_spec(rt, target);
            let next = c@[i as int].next;
            (next is None || next->0@ == "return"@) ==> {
                &&& !after.active.contains_key(e)
                &&& after.active == rt.active.remove(e)
                &&& after.primary == (if rt.primary == Some(e) { None } else { rt.primary })
                &&& after.pending_jumps == rt.pending_jumps
                &&& after.pending_starts == rt.pending_starts
                &&& finished == Some(FinishedView {
                    entity: if e == rt.untargeted { None } else { Some(e) },
                    mortar_path: s.mortar_path,
                    node: s.current_node,
                })
            }
        }),
        ({
            let s = rt.active[e];
            let (after, finished) = confirm_choice_spec(rt, target);
            let next = c@[i as int].next;
            (next is Some && next->0@ != "return"@) ==> {
                &&& after.active == rt.active
                &&& after.primary == rt.primary
                &&& after.pending_jumps == rt.pending_jumps.insert(e, (s.mortar_path, next->0@))
                &&& after.pending_starts == rt.pending_starts
                &&& finished is None
            }
        }),
{
}

/// What `ConfirmChoice` does: confirms the selected option of the choices
/// on offer (see [`confirm_spec`]); nothing without a selection, choices
/// or such an option.
pub open spec fn confirm_choice_spec(rt: RuntimeView, target: Option<u64>) -> (RuntimeView, Option<FinishedView>) {
    match addressed(rt, target) {
        None => (rt, None),
        Some(e) => if !rt.active.contains_key(e) {
            (rt, None)
        } else {
            let s = rt.active[e];
            let offered = if s.choices_broken {
                None
            } else {
                current_choices_spec(s.choices, s.choice_stack)
            };
            match (s.selected_choice, offered) {
                (Some(i), Some(c)) => if i < c@.len() {
                    confirm_spec(rt, e, s, i, c@[i as int])
                } else {
                    (rt, None)
                },
                _ => (rt, None),
            }
        },
    }
}

/// What `StopDialogue` does: without a target every dialogue and request
/// goes; with one, that entity's dialogue and requests go.
pub open spec fn stop_spec(rt: RuntimeView, target: Option<u64>) -> RuntimeView {
    match target {
        None => RuntimeView {
            active: Map::empty(),
            pending_starts: Map::empty(),
            pending_jumps: Map::empty(),
            primary: None,
            ..rt
        },
        Some(e) => RuntimeView {
            active: rt.active.remove(e),
            pending_starts: rt.pending_starts.remove(e),
            pending_jumps: rt.pending_jumps.remove(e),
            primary: if rt.primary == Some(e) {
                None
            } else {
                rt.primary
            },
            ..rt
        },
    }
}

/// The entity id of the engine's placeholder entity
/// (`bevy::ecs::entity::Entity::PLACEHOLDER.to_bits()`). Nothing is
/// claimed of its value.
#[verifier::external_body]
fn placeholder_entity() -> (r: u64) {
    bevy::ecs::entity::Entity::PLACEHOLDER.to_bits()
}

/// `HashMap::get_mut` on the dialogues in progress: a handle to the
/// dialogue kept under `entity`, when there is one. What the handle holds
/// when it is let go is what the map then holds under `entity`; without
/// one the map is unchanged.
#[verifier::external_body]
fn dialogue_entry<'a>(m: &'a mut HashMap<u64, DialogueState>, entity: u64) -> (r: Option<&'a mut DialogueState>)
    ensures
        r is Some <==> old(m)@.contains_key(entity),
        match r {
            Some(d) => *d == old(m)@[entity] && final(m)@ == old(m)@.insert(entity, *final(d)),
            None => final(m)@ == old(m)@,
        },
{
    m.get_mut(&entity)
}

fn is_return(s: &String) -> (r: bool)
    ensures
        r == (s@ == "return"@),
{
    text_eq(s.as_str(), "return")
}

/// Putting a dialogue into the map puts its view into the map's view.
proof fn lemma_insert_view(m: Map<u64, DialogueState>, entity: u64)
    ensures
        forall|d: DialogueState|
            #[trigger] dialogues_view(m.insert(entity, d)) == dialogues_view(m).insert(entity, d@),
{
    assert forall|d: DialogueState|
        #[trigger] dialogues_view(m.insert(entity, d)) == dialogues_view(m).insert(entity, d@) by {
        assert(dialogues_view(m.insert(entity, d)) =~= dialogues_view(m).insert(entity, d@));
    }
}

impl MortarRuntime {
    /// A runtime with no dialogues, no requests and no bound functions.
    pub fn new() -> (r: Self)
        ensures
            r@.active == Map::<u64, DialogueView>::empty(),
            r@.primary is None,
            r@.pending_starts == Map::<u64, (Seq<char>, Seq<char>)>::empty(),
            r@.pending_jumps == Map::<u64, (Seq<char>, Seq<char>)>::empty(),
            crate::registry::registered_names(r.functions) == Set::<Seq<char>>::empty(),
    {
        let r = MortarRuntime {
            active_dialogues: HashMap::new(),
            primary_dialogue: None,
            pending_starts: HashMap::new(),
            pending_jumps: HashMap::new(),
            functions: MortarFunctionRegistry::new(),
            untargeted: placeholder_entity(),
        };
        assert(r@.active =~= Map::empty());
        assert(r@.pending_starts =~= Map::empty());
        assert(r@.pending_jumps =~= Map::empty());
        r
    }

    /// The dialogue of `entity`.
    pub fn get_dialogue(&self, entity: u64) -> (r: Option<&DialogueState>)
        ensures
            r is Some <==> self@.active.contains_key(entity),
            r matches Some(d) ==> d@ == self@.active[entity],
    {
        self.active_dialogues.get(&entity)
    }

    /// The dialogue of `entity`, to change in place.
    pub fn get_dialogue_mut(&mut self, entity: u64) -> (r: Option<&mut DialogueState>)
        ensures
            r is Some <==> old(self)@.active.contains_key(entity),
            match r {
                Some(d) => {
                    &&& d@ == old(self)@.active[entity]
                    &&& final(self)@ == (RuntimeView { active: old(self)@.active.insert(entity, final(d)@), ..old(self)@ })
                },
                None => final(self)@ == old(self)@,
            },
    {
        proof {
            lemma_insert_view(self.active_dialogues@, entity);
        }
        dialogue_entry(&mut self.active_dialogues, entity)
    }

    /// The primary dialogue.
    pub fn primary_dialogue_state(&self) -> (r: Option<&DialogueState>)
        ensures
            r is Some <==> (self@.primary matches Some(e) && self@.active.contains_key(e)),
            r matches Some(d) ==> d@ == self@.active[self@.primary->0],
    {
        match self.primary_dialogue {
            Some(e) => self.active_dialogues.get(&e),
            None => None,
        }
    }

    /// The primary dialogue.
    pub fn primary_dialogue(&self) -> (r: Option<&DialogueState>)
        ensures
            r is Some <==> (self@.primary matches Some(e) && self@.active.contains_key(e)),
            r matches Some(d) ==> d@ == self@.active[self@.primary->0],
    {
        self.primary_dialogue_state()
    }

    /// The primary dialogue, to change in place.
    pub fn primary_dialogue_state_mut(&mut self) -> (r: Option<&mut DialogueState>)
        ensures
            r is Some <==> (old(self)@.primary matches Some(e) && old(self)@.active.contains_key(e)),
            match r {
                Some(d) => {
                    &&& d@ == old(self)@.active[old(self)@.primary->0]
                    &&& final(self)@ == (RuntimeView {
                        active: old(self)@.active.insert(old(self)@.primary->0, final(d)@),
                        ..old(self)@
                    })
                },
                None => final(self)@ == old(self)@,
            },
    {
        match self.primary_dialogue {
            Some(e) => self.get_dialogue_mut(e),
            None => None,
        }
    }

    /// The primary dialogue, to change in place.
    pub fn primary_dialogue_mut(&mut self) -> (r: Option<&mut DialogueState>)
        ensures
            r is Some <==> (old(self)@.primary matches Some(e) && old(self)@.active.contains_key(e)),
            match r {
                Some(d) => {
                    &&& d@ == old(self)@.active[old(self)@.primary->0]
                    &&& final(self)@ == (RuntimeView {
                        active: old(self)@.active.insert(old(self)@.primary->0, final(d)@),
                        ..old(self)@
                    })
                },
                None => final(self)@ == old(self)@,
            },
    {
        self.primary_dialogue_state_mut()
    }

    /// Whether any dialogue is in progress.
    pub fn has_active_dialogues(&self) -> (r: bool)
        ensures
            r == (self@.active.dom().len() > 0),
    {
        proof {
            assert(self@.active.dom() =~= self.active_dialogues@.dom());
        }
        !self.active_dialogues.is_empty()
    }

    /// The number of dialogues in progress.
    pub fn active_dialogue_count(&self) -> (r: usize)
        ensures
            r == self@.active.dom().len(),
    {
        proof {
            assert(self@.active.dom() =~= self.active_dialogues@.dom());
        }
        self.active_dialogues.len()
    }

    fn key_of(&self, target: Option<u64>) -> (r: u64)
        ensures
            r == match target {
                Some(e) => e,
                None => self.untargeted,
            },
    {
        match target {
            Some(e) => e,
            None => self.untargeted,
        }
    }

    /// Records a start of node `node` of the script at `path` that waits
    /// for the script to load.
    pub fn defer_start(&mut self, path: &str, node: &str, target: Option<u64>)
        ensures
            final(self)@ == (RuntimeView {
                pending_starts: old(self)@.pending_starts.insert(
                    match target {
                        Some(e) => e,
                        None => old(self)@.untargeted,
                    },
                    (path@, node@),
                ),
                ..old(self)@
            }),
    {
        let key = self.key_of(target);
        self.pending_starts.insert(key, (path.to_string(), node.to_string()));
        assert(self@.pending_starts =~= old(self)@.pending_starts.insert(key, (path@, node@)));
    }

    /// Starts node `node` (its data `node_data`) of the script at `path`
    /// for `target` (the untargeted entity when none): the new dialogue
    /// becomes primary, and a start waiting for that entity is dropped.
    pub fn begin_dialogue(&mut self, path: &str, node: &str, target: Option<u64>, node_data: Node)
        ensures
            ({
                let e = match target {
                    Some(x) => x,
                    None => old(self)@.untargeted,
                };
                &&& final(self)@.active.dom() == old(self)@.active.dom().insert(e)
                &&& forall|x: u64| x != e && #[trigger] old(self)@.active.contains_key(x) ==> final(self)@.active[x] == old(self)@.active[x]
                &&& final(self)@.active[e].mortar_path == path@
                &&& final(self)@.active[e].current_node == node@
                &&& final(self)@.active[e].text_index == 0
                &&& final(self)@.active[e].content_indices == text_positions(node_data.content@)
                &&& started_view(final(self)@.active[e], path@, node@, node_data)
                &&& final(self)@.primary == Some(e)
                &&& final(self)@.pending_starts == old(self)@.pending_starts.remove(e)
                &&& final(self)@.pending_jumps == old(self)@.pending_jumps
                &&& final(self)@.untargeted == old(self)@.untargeted
            }),
    {
        let e = self.key_of(target);
        let state = DialogueState::new(path.to_string(), node.to_string(), node_data);
        self.active_dialogues.insert(e, state);
        self.primary_dialogue = Some(e);
        self.pending_starts.remove(&e);
        proof {
            assert(self@.active.dom() =~= old(self)@.active.dom().insert(e));
            assert(self@.pending_starts =~= old(self)@.pending_starts.remove(e));
            assert(self@.pending_jumps =~= old(self)@.pending_jumps);
            assert(self@.active[e] == state@);
        }
    }

    /// Removes the dialogue of `entity`; it is no longer primary.
    fn remove_entity_dialogue(&mut self, entity: u64)
        ensures
            final(self)@ == without_dialogue(old(self)@, entity),
            final(self).functions == old(self).functions,
    {
        self.active_dialogues.remove(&entity);
        if self.primary_dialogue == Some(entity) {
            self.primary_dialogue = None;
        }
        assert(self@.active =~= old(self)@.active.remove(entity));
    }

    /// Handles `NextText` (see [`next_text_spec`]); gives the notification
    /// when the dialogue finishes.
    pub fn handle_next_text(&mut self, target: Option<u64>) -> (r: Option<MortarDialogueFinished>)
        ensures
            (final(self)@, finished_view(r)) == next_text_spec(old(self)@, target),
            final(self).functions == old(self).functions,
    {
        let entity = match target {
            Some(e) => e,
            None => match self.primary_dialogue {
                Some(e) => e,
                None => {
                    return None;
                },
            },
        };
        let mut state = match self.active_dialogues.remove(&entity) {
            Some(s) => s,
            None => {
                assert(self@.active =~= old(self)@.active);
                return None;
            },
        };
        let ghost s0 = state@;
        proof {
            assert(old(self)@.active.contains_key(entity));
        }
        let position = match state.current_text_content_index() {
            Some(i) => Some(i + 1),
            None => None,
        };
        state.set_pending_run_position(position);
        let ghost s1 = state@;
        if state.next_text() {
            self.active_dialogues.insert(entity, state);
            proof {
                assert(self@.active =~= old(self)@.active.insert(entity, state@));
            }
            return None;
        }
        let has_choices = state.has_choices();
        let choices_broken = state.are_choices_broken();
        let next_node = match state.get_next_node() {
            Some(n) => Some(n.to_string()),
            None => None,
        };
        let path = state.path().to_string();
        let node = state.node_name().to_string();
        self.active_dialogues.insert(entity, state);
        proof {
            assert(self@.active =~= old(self)@.active.insert(entity, s1));
        }
        if has_choices && !choices_broken {
            return None;
        }
        match next_node {
            None => {
                self.remove_entity_dialogue(entity);
                Some(self.finished(entity, path, node))
            },
            Some(n) => {
                if is_return(&n) {
                    self.remove_entity_dialogue(entity);
                    Some(self.finished(entity, path, node))
                } else {
                    self.pending_jumps.insert(entity, (path, n));
                    proof {
                        assert(self@.pending_jumps =~= old(self)@.pending_jumps.insert(entity, (s1.mortar_path, s1.node.next->0@)));
                    }
                    None
                }
            },
        }
    }

    /// The notification that the dialogue of `entity` finished.
    fn finished(&self, entity: u64, mortar_path: String, node: String) -> (r: MortarDialogueFinished)
        ensures
            r.entity == (if entity == self.untargeted {
                None
            } else {
                Some(entity)
            }),
            r.mortar_path == mortar_path,
            r.node == node,
    {
        MortarDialogueFinished {
            entity: if entity == self.untargeted {
                None
            } else {
                Some(entity)
            },
            mortar_path,
            node,
        }
    }

    /// Handles `SelectChoice` (see [`select_choice_spec`]).
    pub fn handle_select_choice(&mut self, index: usize, target: Option<u64>)
        ensures
            final(self)@ == select_choice_spec(old(self)@, index, target),
            final(self).functions == old(self).functions,
    {
        let entity = match target {
            Some(e) => e,
            None => match self.primary_dialogue {
                Some(e) => e,
                None => {
                    return;
                },
            },
        };
        let valid = match self.active_dialogues.get(&entity) {
            Some(state) => match state.get_choices() {
                Some(choices) => index < choices.len(),
                None => false,
            },
            None => false,
        };
        if !valid {
            return;
        }
        let mut state = match self.active_dialogues.remove(&entity) {
            Some(s) => s,
            None => {
                return;
            },
        };
        state.select_choice(index);
        self.active_dialogues.insert(entity, state);
        proof {
            assert(self@.active =~= old(self)@.active.insert(entity, state@));
        }
    }

    /// Handles `ConfirmChoice` (see [`confirm_choice_spec`]); gives the
    /// notification when the dialogue finishes.
    pub fn handle_confirm_choice(&mut self, target: Option<u64>) -> (r: Option<MortarDialogueFinished>)
        ensures
            (final(self)@, finished_view(r)) == confirm_choice_spec(old(self)@, target),
            final(self).functions == old(self).functions,
    {
        let entity = match target {
            Some(e) => e,
            None => match self.primary_dialogue {
                Some(e) => e,
                None => {
                    return None;
                },
            },
        };
        let (choice_index, action, nested, next, path, node) = match self.active_dialogues.get(&entity) {
            Some(state) => {
                let choice_index = match state.selection() {
                    Some(i) => i,
                    None => {
                        return None;
                    },
                };
                let choices = match state.get_choices() {
                    Some(c) => c,
                    None => {
                        return None;
                    },
                };
                if choice_index >= choices.len() {
                    return None;
                }
                let choice = &choices[choice_index];
                (
                    choice_index,
                    copy_opt(&choice.action),
                    choice.choice.is_some(),
                    copy_opt(&choice.next),
                    state.path().to_string(),
                    state.node_name().to_string(),
                )
            },
            None => {
                return None;
            },
        };
        if let Some(a) = action {
            return self.handle_choice_action(a.as_str(), entity, path, node);
        }
        if nested {
            let mut state = match self.active_dialogues.remove(&entity) {
                Some(s) => s,
                None => {
                    return None;
                },
            };
            state.push_choice(choice_index);
            self.active_dialogues.insert(entity, state);
            proof {
                assert(self@.active =~= old(self)@.active.insert(entity, state@));
            }
            return None;
        }
        match next {
            None => {
                self.remove_entity_dialogue(entity);
                Some(self.finished(entity, path, node))
            },
            Some(n) => {
                if is_return(&n) {
                    self.remove_entity_dialogue(entity);
                    Some(self.finished(entity, path, node))
                } else {
                    let ghost jump = (path@, n@);
                    self.pending_jumps.insert(entity, (path, n));
                    proof {
                        assert(self@.pending_jumps =~= old(self)@.pending_jumps.insert(entity, jump));
                    }
                    None
                }
            },
        }
    }

    /// The action of a confirmed option: `return` and unknown actions
    /// finish the dialogue; `break` leaves the choices and moves on.
    fn handle_choice_action(&mut self, action: &str, entity: u64, mortar_path: String, current_node: String) -> (r:
        Option<MortarDialogueFinished>)
        requires
            old(self)@.active.contains_key(entity),
            old(self)@.active[entity].mortar_path == mortar_path@,
            old(self)@.active[entity].current_node == current_node@,
        ensures
            ({
                let s = old(self)@.active[entity];
                if action@ == "break"@ {
                    let cleared = DialogueView {
                        choice_stack: Seq::empty(),
                        selected_choice: None,
                        choices_broken: true,
                        ..s
                    };
                    let end = group_end(cleared.texts, cleared.text_index as int);
                    let moved = if end < cleared.texts.len() {
                        DialogueView { text_index: end as usize, ..cleared }
                    } else {
                        cleared
                    };
                    final(self)@ == (RuntimeView { active: old(self)@.active.insert(entity, moved), ..old(self)@ })
                        && r is None
                } else {
                    (final(self)@, finished_view(r)) == finish_spec(old(self)@, entity, s)
                }
            }),
            final(self).functions == old(self).functions,
    {
        if text_eq(action, "break") {
            let mut state = match self.active_dialogues.remove(&entity) {
                Some(s) => s,
                None => {
                    return None;
                },
            };
            state.clear_choice_stack();
            state.break_choices();
            state.next_text();
            self.active_dialogues.insert(entity, state);
            proof {
                assert(self@.active =~= old(self)@.active.insert(entity, state@));
            }
            None
        } else {
            self.remove_entity_dialogue(entity);
            Some(self.finished(entity, mortar_path, current_node))
        }
    }

    /// Handles `StopDialogue` (see [`stop_spec`]).
    pub fn handle_stop_dialogue(&mut self, target: Option<u64>)
        ensures
            final(self)@ == stop_spec(old(self)@, target),
            final(self).functions == old(self).functions,
    {
        match target {
            None => {
                self.active_dialogues.clear();
                self.pending_starts.clear();
                self.pending_jumps.clear();
                self.primary_dialogue = None;
                proof {
                    assert(self@.active =~= Map::empty());
                    assert(self@.pending_starts =~= Map::empty());
                    assert(self@.pending_jumps =~= Map::empty());
                }
            },
            Some(e) => {
                self.active_dialogues.remove(&e);
                self.pending_starts.remove(&e);
                self.pending_jumps.remove(&e);
                if self.primary_dialogue == Some(e) {
                    self.primary_dialogue = None;
                }
                proof {
                    assert(self@.active =~= old(self)@.active.remove(e));
                    assert(self@.pending_starts =~= old(self)@.pending_starts.remove(e));
                    assert(self@.pending_jumps =~= old(self)@.pending_jumps.remove(e));
                }
            },
        }
    }
}

impl Default for MortarRuntime {
    /// A runtime with no dialogues, no requests and no bound functions.
    fn default() -> (r: Self)
        ensures
            r@.active == Map::<u64, DialogueView>::empty(),
            r@.primary is None,
            r@.pending_starts == Map::<u64, (Seq<char>, Seq<char>)>::empty(),
            r@.pending_jumps == Map::<u64, (Seq<char>, Seq<char>)>::empty(),
            crate::registry::registered_names(r.functions) == Set::<Seq<char>>::empty(),
    {
        Self::new()
    }
}

fn copy_opt(o: &Option<String>) -> (r: Option<String>)
    ensures
        r == *o,
{
    match o {
        Some(s) => Some(s.clone()),
        None => None,
    }
}

/// The handles of the loaded scripts, by path (the last handle registered
/// under a path is the one it gives).
pub open spec fn handles_view<H>(s: Seq<(String, H)>) -> Map<Seq<char>, H>
    decreases s.len(),
{
    if s.len() == 0 {
        Map::empty()
    } else {
        handles_view(s.drop_last()).insert(s.last().0@, s.last().1)
    }
}

/// A global registry of Mortar assets, keyed by path: each path stands for
/// the handle it was last registered with.
pub struct MortarRegistry<H> {
    assets: Vec<(String, H)>,
}

/// Under distinct paths, the registry's map holds each entry's handle
/// under its path, and nothing under other paths.
proof fn lemma_handles_lookup<H>(s: Seq<(String, H)>)
    requires
        keys_distinct(s),
    ensures
        forall|i: int| 0 <= i < s.len() ==> #[trigger] handles_view(s).contains_key(s[i].0@) && handles_view(s)[s[i].0@] == s[i].1,
        forall|k: Seq<char>| #[trigger] handles_view(s).contains_key(k) ==> exists|i: int| 0 <= i < s.len() && s[i].0@ == k,
    decreases s.len(),
{
    if s.len() > 0 {
        let pre = s.drop_last();
        assert(keys_distinct(pre)) by {
            assert forall|a: int, b: int| 0 <= a < b < pre.len() implies pre[a].0@ != pre[b].0@ by {
                assert(pre[a] == s[a] && pre[b] == s[b]);
            }
        }
        lemma_handles_lookup(pre);
        assert forall|i: int| 0 <= i < s.len() implies #[trigger] handles_view(s).contains_key(s[i].0@) && handles_view(s)[s[i].0@] == s[i].1 by {
            if i < s.len() - 1 {
                assert(pre[i] == s[i]);
                assert(s[i].0@ != s[s.len() - 1].0@);
                assert(handles_view(pre).contains_key(pre[i].0@));
            }
        }
        assert forall|k: Seq<char>| #[trigger] handles_view(s).contains_key(k) implies exists|i: int| 0 <= i < s.len() && s[i].0@ == k by {
            if k != s.last().0@ {
                assert(handles_view(pre).contains_key(k));
                let i = choose|i: int| 0 <= i < pre.len() && pre[i].0@ == k;
                assert(s[i] == pre[i]);
            } else {
                assert(s[s.len() - 1].0@ == k);
            }
        }
    }
}

/// Replacing the entry of a path gives the map with the path's new handle.
proof fn lemma_handles_update<H>(s: Seq<(String, H)>, i: int, e: (String, H))
    requires
        keys_distinct(s),
        0 <= i < s.len(),
        s[i].0@ == e.0@,
    ensures
        handles_view(s.update(i, e)) == handles_view(s).insert(e.0@, e.1),
        keys_distinct(s.update(i, e)),
    decreases s.len(),
{
    let u = s.update(i, e);
    let pre = s.drop_last();
    assert(keys_distinct(u)) by {
        assert forall|a: int, b: int| 0 <= a < b < u.len() implies u[a].0@ != u[b].0@ by {
            assert(s[a].0@ != s[b].0@);
        }
    }
    if i == s.len() - 1 {
        assert(u.drop_last() =~= pre);
        assert(handles_view(u) =~= handles_view(s).insert(e.0@, e.1));
    } else {
        assert(u.drop_last() =~= pre.update(i, e));
        assert(keys_distinct(pre));
        lemma_handles_update(pre, i, e);
        assert(s.last().0@ != e.0@) by {
            assert(s[i].0@ != s[s.len() - 1].0@);
        }
        assert(handles_view(u) =~= handles_view(s).insert(e.0@, e.1));
    }
}

impl<H> Default for MortarRegistry<H> {
    /// An empty registry.
    fn default() -> (r: Self)
        ensures
            r.handles() == Map::<Seq<char>, H>::empty(),
    {
        Self::new()
    }
}

impl<H> MortarRegistry<H> {
    #[verifier::type_invariant]
    spec fn paths_distinct(self) -> bool {
        keys_distinct(self.assets@)
    }

    /// The handle registered under each path.
    pub closed spec fn handles(&self) -> Map<Seq<char>, H> {
        handles_view(self.assets@)
    }

    /// An empty registry.
    pub fn new() -> (r: Self)
        ensures
            r.handles() == Map::<Seq<char>, H>::empty(),
    {
        MortarRegistry { assets: Vec::new() }
    }

    /// Registers a Mortar asset under its path (replacing what the path
    /// held).
    pub fn register(&mut self, path: &str, handle: H)
        ensures
            final(self).handles() == old(self).handles().insert(path@, handle),
    {
        proof {
            use_type_invariant(&*self);
        }
        let key = path.to_string();
        match assoc_index(&self.assets, path) {
            Some(i) => {
                proof {
                    lemma_handles_update(self.assets@, i as int, (key, handle));
                }
                let mut assets: Vec<(String, H)> = Vec::new();
                std::mem::swap(&mut assets, &mut self.assets);
                assets.set(i, (key, handle));
                self.assets = assets;
            },
            None => {
                let mut assets: Vec<(String, H)> = Vec::new();
                std::mem::swap(&mut assets, &mut self.assets);
                assets.push((key, handle));
                proof {
                    assert(assets@.drop_last() =~= old(self).assets@);
                }
                self.assets = assets;
            },
        }
    }

    /// The handle registered under `path`.
    pub fn get(&self, path: &str) -> (r: Option<&H>)
        ensures
            r matches Some(h) ==> self.handles().contains_key(path@) && self.handles()[path@] == *h,
            r is None ==> !self.handles().contains_key(path@),
    {
        proof {
            use_type_invariant(self);
            lemma_handles_lookup(self.assets@);
        }
        match assoc_index(&self.assets, path) {
            Some(i) => {
                assert(handles_view(self.assets@).contains_key(self.assets@[i as int].0@));
                Some(&self.assets[i].1)
            },
            None => None,
        }
    }
}

} // verus!
