//! The dialogue state machine: the texts, choices and run statements of
//! the current node, and the cursor that moves through them.
//!
//! A state is built from a node: its `text` and `line` items become the
//! texts the cursor walks (their text data moves out of the node into the
//! state), the options of its last `choice` item become the choices, and
//! its `run_event` / `run_timeline` items stay in the node, where the run
//! queries read them.

use vstd::prelude::*;
use crate::condition::{calls_unbound, condition_eval, decided_by, no_calls, opt_text, replies_fit, Answers, IfCondition};
use crate::eval::evaluate_if_condition;
use crate::registry::{host_replies, registered_names, MortarFunctionRegistry};
use crate::script::{Choice, ContentItem, Event, IndexOverride, Node, Statement, StringPart};
use crate::text::text_eq;
use crate::variable_state::{str_or_empty, MortarVariableState};

verus! {

/// Text data extracted from a content item.
pub struct TextData {
    pub value: String,
    pub interpolated_parts: Option<Vec<StringPart>>,
    pub condition: Option<IfCondition>,
    pub pre_statements: Vec<Statement>,
    pub events: Option<Vec<Event>>,
    /// When true, consecutive lines are joined with `\n` into a single
    /// display unit.
    pub is_line: bool,
}

/// Type of run content embedded in a node.
#[derive(Debug, Clone, Copy, PartialEq, Eq, Structural)]
pub enum DialogueRunKind {
    Event,
    Timeline,
}

/// Metadata describing run_event / run_timeline entries in node content.
pub struct DialogueRunItem {
    pub content_index: usize,
    pub name: String,
    pub kind: DialogueRunKind,
    pub ignore_duration: bool,
}

/// Descriptor for run statements found at a specific content position:
/// content index, name, arguments, index override and whether the run
/// ignores its duration.
pub type DialogueRunDescriptor = (usize, String, Vec<String>, Option<IndexOverride>, bool);

/// The state of a dialogue.
pub struct DialogueState {
    pub mortar_path: String,
    pub current_node: String,
    pub text_index: usize,
    pub selected_choice: Option<usize>,
    pub choice_stack: Vec<usize>,
    pub choices_broken: bool,
    pub executed_content_indices: Vec<usize>,
    pub pending_run_position: Option<usize>,
    /// The node played, fixed when the dialogue starts.
    pub script: NodeScript,
}

/// The node a dialogue plays, with its texts and its choice taken out of
/// the content; fixed when the dialogue starts. Each text knows the
/// position of its item in the node's content.
pub struct NodeScript {
    node_data: Node,
    text_items: Vec<TextData>,
    text_to_content_index: Vec<usize>,
    choice_content_index: Option<usize>,
    choices: Option<Vec<Choice>>,
}

impl NodeScript {
    #[verifier::type_invariant]
    spec fn positions_fit(self) -> bool {
        &&& self.text_to_content_index@.len() == self.text_items@.len()
        &&& forall|k: int|
            0 <= k < self.text_to_content_index@.len() ==> #[trigger] self.text_to_content_index@[k]
                < self.node_data.content@.len()
    }
}

/// The `type` of a content item is `t`.
pub open spec fn item_type_is(item: ContentItem, t: Seq<char>) -> bool {
    opt_text(item.item_type) == Some(t)
}

/// A `text` or `line` item.
pub open spec fn is_text_item(item: ContentItem) -> bool {
    item_type_is(item, "text"@) || item_type_is(item, "line"@)
}

/// A `choice` item with well-formed options.
pub open spec fn has_options(item: ContentItem) -> bool {
    item_type_is(item, "choice"@) && item.options is Some
}

/// The positions of the text items of a node's content, in order.
pub open spec fn text_positions(content: Seq<ContentItem>) -> Seq<usize>
    decreases content.len(),
{
    if content.len() == 0 {
        Seq::empty()
    } else {
        let p = text_positions(content.drop_last());
        if is_text_item(content.last()) {
            p.push((content.len() - 1) as usize)
        } else {
            p
        }
    }
}

/// The position of the last `choice` item with options.
pub open spec fn last_choice_position(content: Seq<ContentItem>) -> Option<usize>
    decreases content.len(),
{
    if content.len() == 0 {
        None
    } else if has_options(content.last()) {
        Some((content.len() - 1) as usize)
    } else {
        last_choice_position(content.drop_last())
    }
}

/// `t` is the text data of item `item`.
pub open spec fn text_matches(t: TextData, item: ContentItem) -> bool {
    &&& t.value@ == str_or_empty(opt_text(item.value))
    &&& t.interpolated_parts == item.interpolated_parts
    &&& t.condition == item.condition
    &&& t.pre_statements@ == match item.pre_statements {
        Some(v) => v@,
        None => Seq::empty(),
    }
    &&& t.events == item.events
    &&& t.is_line == item_type_is(item, "line"@)
}

/// A content item as the node keeps it once its text and choice data have
/// moved into the state.
pub open spec fn stripped(item: ContentItem) -> ContentItem {
    ContentItem {
        interpolated_parts: None,
        condition: None,
        pre_statements: None,
        events: None,
        options: None,
        ..item
    }
}

/// The end (exclusive) of the run of `line` texts starting at `j`.
pub open spec fn line_run_end(items: Seq<TextData>, j: int) -> int
    decreases items.len() - j,
{
    if 0 <= j < items.len() && items[j].is_line {
        line_run_end(items, j + 1)
    } else {
        j
    }
}

/// The end (exclusive) of the display unit that starts at text `i`: the
/// whole run of consecutive `line` texts when text `i` is a line, else
/// just text `i`.
pub open spec fn group_end(items: Seq<TextData>, i: int) -> int {
    if 0 <= i < items.len() && items[i].is_line {
        line_run_end(items, i + 1)
    } else {
        i + 1
    }
}

/// The choices reached by following `path` (indices of options) from
/// `opts` through nested options.
pub open spec fn choices_along(opts: Vec<Choice>, path: Seq<usize>) -> Option<Vec<Choice>>
    decreases path.len(),
{
    if path.len() == 0 {
        Some(opts)
    } else if path[0] < opts@.len() {
        match opts@[path[0] as int].choice {
            Some(nested) => choices_along(nested, path.drop_first()),
            None => None,
        }
    } else {
        None
    }
}

/// The choices `get_current_choices` gives: those reached through the
/// choice stack from the node's choices.
pub open spec fn current_choices_spec(choices: Option<Vec<Choice>>, stack: Seq<usize>) -> Option<Vec<Choice>> {
    match choices {
        Some(c) => choices_along(c, stack),
        None => None,
    }
}

/// The abstract content of a run item.
pub struct RunView {
    pub content_index: usize,
    pub name: Seq<char>,
    pub kind: DialogueRunKind,
    pub ignore_duration: bool,
}

pub open spec fn run_view(r: DialogueRunItem) -> RunView {
    RunView { content_index: r.content_index, name: r.name@, kind: r.kind, ignore_duration: r.ignore_duration }
}

pub open spec fn flag_or_false(b: Option<bool>) -> bool {
    match b {
        Some(x) => x,
        None => false,
    }
}

/// The run statements that follow one another from content position `idx`
/// on: executed items are passed over, as are `run_event` items with an
/// index override (they fire with their text) and run items without a
/// name; the first item of another kind (or without a type) ends them.
pub open spec fn consecutive_runs(content: Seq<ContentItem>, idx: int, executed: Seq<usize>) -> Seq<RunView>
    decreases content.len() - idx,
{
    if idx < 0 || idx >= content.len() {
        Seq::empty()
    } else {
        let rest = consecutive_runs(content, idx + 1, executed);
        let item = content[idx];
        if executed.contains(idx as usize) {
            rest
        } else if item.item_type is None {
            Seq::empty()
        } else if item_type_is(item, "run_event"@) {
            if item.has_index_override {
                rest
            } else {
                match item.name {
                    Some(n) => seq![
                        RunView {
                            content_index: idx as usize,
                            name: n@,
                            kind: DialogueRunKind::Event,
                            ignore_duration: flag_or_false(item.ignore_duration),
                        },
                    ] + rest,
                    None => rest,
                }
            }
        } else if item_type_is(item, "run_timeline"@) {
            match item.name {
                Some(n) => seq![
                    RunView {
                        content_index: idx as usize,
                        name: n@,
                        kind: DialogueRunKind::Timeline,
                        ignore_duration: false,
                    },
                ] + rest,
                None => rest,
            }
        } else {
            Seq::empty()
        }
    }
}

/// The abstract content of a run descriptor.
pub struct RunDescriptorView {
    pub content_index: usize,
    pub name: Seq<char>,
    pub args: Seq<String>,
    pub index_override: Option<IndexOverride>,
    pub ignore_duration: bool,
}

pub open spec fn descriptor_view(d: DialogueRunDescriptor) -> RunDescriptorView {
    RunDescriptorView { content_index: d.0, name: d.1@, args: d.2@, index_override: d.3, ignore_duration: d.4 }
}

/// The run statement at content position `pos`, unless it was executed.
pub open spec fn run_at(content: Seq<ContentItem>, pos: usize, executed: Seq<usize>) -> Option<RunDescriptorView> {
    if pos >= content.len() || executed.contains(pos) {
        None
    } else {
        let item = content[pos as int];
        if item_type_is(item, "run_event"@) {
            match item.name {
                Some(n) => Some(
                    RunDescriptorView {
                        content_index: pos,
                        name: n@,
                        args: match item.args {
                            Some(a) => a@,
                            None => Seq::empty(),
                        },
                        index_override: item.index_override,
                        ignore_duration: flag_or_false(item.ignore_duration),
                    },
                ),
                None => None,
            }
        } else if item_type_is(item, "run_timeline"@) {
            match item.name {
                Some(n) => Some(
                    RunDescriptorView {
                        content_index: pos,
                        name: n@,
                        args: Seq::empty(),
                        index_override: None,
                        ignore_duration: false,
                    },
                ),
                None => None,
            }
        } else {
            None
        }
    }
}

/// The choice stack after entering option `index`.
pub open spec fn push_choice_spec(v: DialogueView, index: usize) -> DialogueView {
    DialogueView { choice_stack: v.choice_stack.push(index), selected_choice: None, ..v }
}

/// The index `pop_choice` gives and the state after it.
pub open spec fn pop_choice_spec(v: DialogueView) -> (Option<usize>, DialogueView) {
    if v.choice_stack.len() == 0 {
        (None, DialogueView { selected_choice: None, ..v })
    } else {
        (
            Some(v.choice_stack.last()),
            DialogueView { choice_stack: v.choice_stack.drop_last(), selected_choice: None, ..v },
        )
    }
}

/// The executed positions after marking `index`.
pub open spec fn mark_executed_spec(executed: Seq<usize>, index: usize) -> Seq<usize> {
    if executed.contains(index) {
        executed
    } else {
        executed.push(index)
    }
}

/// The executed positions after marking each of `indices` in order.
pub open spec fn marked_spec(executed: Seq<usize>, indices: Seq<usize>) -> Seq<usize>
    decreases indices.len(),
{
    if indices.len() == 0 {
        executed
    } else {
        mark_executed_spec(marked_spec(executed, indices.drop_last()), indices.last())
    }
}

/// Leaving nested options undoes entering them: `pop_choice` right after
/// `push_choice(index)` gives `index` back and restores the choice stack.
pub proof fn lemma_push_pop_choice(v: DialogueView, index: usize)
    ensures
        pop_choice_spec(push_choice_spec(v, index)).0 == Some(index),
        pop_choice_spec(push_choice_spec(v, index)).1 == (DialogueView { selected_choice: None, ..v }),
{
    assert(v.choice_stack.push(index).drop_last() =~= v.choice_stack);
}

/// Marking a position as executed records it once: afterwards it is
/// recorded, and a record without repeats stays without repeats.
pub proof fn lemma_mark_executed(executed: Seq<usize>, index: usize)
    ensures
        mark_executed_spec(executed, index).contains(index),
        executed.no_duplicates() ==> mark_executed_spec(executed, index).no_duplicates(),
        forall|x: usize| executed.contains(x) ==> mark_executed_spec(executed, index).contains(x),
        mark_executed_spec(mark_executed_spec(executed, index), index) == mark_executed_spec(executed, index),
{
    let m = mark_executed_spec(executed, index);
    if !executed.contains(index) {
        assert(m[executed.len() as int] == index);
        assert forall|x: usize| executed.contains(x) implies m.contains(x) by {
            let j = choose|j: int| 0 <= j < executed.len() && executed[j] == x;
            assert(m[j] == x);
        }
        if executed.no_duplicates() {
            assert forall|a: int, b: int| 0 <= a < m.len() && 0 <= b < m.len() && a != b implies m[a] != m[b] by {
                if a < executed.len() && b < executed.len() {
                } else if a == executed.len() {
                    assert(m[b] == executed[b]);
                } else {
                    assert(m[a] == executed[a]);
                }
            }
        }
    }
}

/// The texts of a node appear in content order: their positions strictly
/// increase, and each is the position of a `text` or `line` item.
pub proof fn lemma_text_positions_ordered(content: Seq<ContentItem>)
    requires
        content.len() <= usize::MAX,
    ensures
        forall|a: int, b: int|
            0 <= a < b < text_positions(content).len() ==> text_positions(content)[a] < text_positions(content)[b],
        forall|k: int|
            0 <= k < text_positions(content).len() ==> text_positions(content)[k] < content.len()
                && is_text_item(content[text_positions(content)[k] as int]),
    decreases content.len(),
{
    if content.len() > 0 {
        let prefix = content.drop_last();
        lemma_text_positions_ordered(prefix);
        let p = text_positions(prefix);
        assert forall|k: int| 0 <= k < p.len() implies content[p[k] as int] == prefix[p[k] as int] by {}
    }
}

/// The display unit at text `i` ends after `i`; when text `i` is a line
/// it covers every line that follows it and stops at the end or at the
/// first text that is not a line.
pub proof fn lemma_group_end(items: Seq<TextData>, i: int)
    requires
        0 <= i < items.len(),
    ensures
        i < group_end(items, i) <= items.len(),
        items[i].is_line ==> forall|k: int| i <= k < group_end(items, i) ==> #[trigger] items[k].is_line,
        items[i].is_line && group_end(items, i) < items.len() ==> !items[group_end(items, i)].is_line,
        !items[i].is_line ==> group_end(items, i) == i + 1,
{
    if items[i].is_line {
        lemma_line_run_end_bounds(items, i + 1);
    }
}

/// The runs collected from a position are unexecuted items at or after
/// it, in content order.
pub proof fn lemma_consecutive_runs(content: Seq<ContentItem>, idx: int, executed: Seq<usize>)
    requires
        0 <= idx,
        content.len() <= usize::MAX,
    ensures
        forall|k: int|
            0 <= k < consecutive_runs(content, idx, executed).len() ==> {
                let c = #[trigger] consecutive_runs(content, idx, executed)[k].content_index;
                idx <= c < content.len() && !executed.contains(c)
            },
        forall|a: int, b: int|
            0 <= a < b < consecutive_runs(content, idx, executed).len() ==> consecutive_runs(
                content,
                idx,
                executed,
            )[a].content_index < consecutive_runs(content, idx, executed)[b].content_index,
    decreases content.len() - idx,
{
    if idx < content.len() {
        lemma_consecutive_runs(content, idx + 1, executed);
        let rest = consecutive_runs(content, idx + 1, executed);
        let all = consecutive_runs(content, idx, executed);
        if all != rest && all.len() > 0 {
            assert forall|k: int| 1 <= k < all.len() implies all[k] == rest[k - 1] by {}
        }
    }
}

pub proof fn lemma_line_run_end_bounds(items: Seq<TextData>, j: int)
    requires
        0 <= j,
    ensures
        j <= line_run_end(items, j),
        j <= items.len() ==> line_run_end(items, j) <= items.len(),
        forall|k: int| j <= k < line_run_end(items, j) ==> #[trigger] items[k].is_line,
        line_run_end(items, j) < items.len() ==> !items[line_run_end(items, j)].is_line,
    decreases items.len() - j,
{
    if 0 <= j < items.len() && items[j].is_line {
        lemma_line_run_end_bounds(items, j + 1);
    }
}

/// `v` is a dialogue just started at node `node_name` (its data
/// `node_data`) of the script at `mortar_path`: the cursor at the first
/// text, no choice selected or stacked, nothing executed or pending, and
/// the node's texts and choice taken out of its content.
pub open spec fn started_view(v: DialogueView, mortar_path: Seq<char>, node_name: Seq<char>, node_data: Node) -> bool {
    &&& v.mortar_path == mortar_path
    &&& v.current_node == node_name
    &&& v.text_index == 0
    &&& v.selected_choice is None
    &&& v.choice_stack == Seq::<usize>::empty()
    &&& !v.choices_broken
    &&& v.executed == Seq::<usize>::empty()
    &&& v.pending_run_position is None
    &&& v.node.name == node_data.name
    &&& v.node.next == node_data.next
    &&& v.node.variables == node_data.variables
    &&& v.node.content@ == node_data.content@.map_values(|i: ContentItem| stripped(i))
    &&& v.content_indices == text_positions(node_data.content@)
    &&& v.texts.len() == v.content_indices.len()
    &&& forall|k: int|
        0 <= k < v.texts.len() ==> text_matches(
            #[trigger] v.texts[k],
            node_data.content@[v.content_indices[k] as int],
        )
    &&& v.choice_position == last_choice_position(node_data.content@)
    &&& match v.choice_position {
        Some(i) => v.choices == node_data.content@[i as int].options,
        None => v.choices is None,
    }
}

/// The abstract content of a dialogue state.
pub struct DialogueView {
    pub mortar_path: Seq<char>,
    pub current_node: Seq<char>,
    pub text_index: usize,
    pub selected_choice: Option<usize>,
    pub choice_stack: Seq<usize>,
    pub choices_broken: bool,
    pub executed: Seq<usize>,
    pub pending_run_position: Option<usize>,
    /// The node, as the state keeps it.
    pub node: Node,
    /// The texts of the node, in order.
    pub texts: Seq<TextData>,
    /// For each text, the position of its item in the node's content.
    pub content_indices: Seq<usize>,
    /// The position of the node's choice item.
    pub choice_position: Option<usize>,
    /// The options of the node's choice item.
    pub choices: Option<Vec<Choice>>,
}

impl View for DialogueState {
    type V = DialogueView;

    closed spec fn view(&self) -> DialogueView {
        DialogueView {
            mortar_path: self.mortar_path@,
            current_node: self.current_node@,
            text_index: self.text_index,
            selected_choice: self.selected_choice,
            choice_stack: self.choice_stack@,
            choices_broken: self.choices_broken,
            executed: self.executed_content_indices@,
            pending_run_position: self.pending_run_position,
            node: self.script.node_data,
            texts: self.script.text_items@,
            content_indices: self.script.text_to_content_index@,
            choice_position: self.script.choice_content_index,
            choices: self.script.choices,
        }
    }
}

/// The public fields of a dialogue state are the matching parts of its
/// view, so that a write to one of them is seen in the view.
pub proof fn lemma_dialogue_fields(s: DialogueState)
    ensures
        s@.mortar_path == s.mortar_path@,
        s@.current_node == s.current_node@,
        s@.text_index == s.text_index,
        s@.selected_choice == s.selected_choice,
        s@.choice_stack == s.choice_stack@,
        s@.choices_broken == s.choices_broken,
        s@.executed == s.executed_content_indices@,
        s@.pending_run_position == s.pending_run_position,
        s@.texts.len() <= usize::MAX,
{
    assert(s.script.text_items@.len() == s.script.text_items.len());
}

impl DialogueState {
    /// Builds the state of a dialogue at node `node_name` of the script at
    /// `mortar_path`: the cursor at the first text, no choice selected,
    /// nothing executed.
    pub fn new(mortar_path: String, node_name: String, node_data: Node) -> (r: Self)
        ensures
            started_view(r@, mortar_path@, node_name@, node_data),
    {
        let Node { name, content, variables, next } = node_data;
        let ghost orig = content@;
        let n = content.len();
        let mut rest = content;
        let mut kept: Vec<ContentItem> = Vec::new();
        let mut text_items: Vec<TextData> = Vec::new();
        let mut positions: Vec<usize> = Vec::new();
        let mut choice_content_index: Option<usize> = None;
        let mut choices: Option<Vec<Choice>> = None;
        let mut i: usize = 0;
        while i < n
            invariant
                n == orig.len(),
                i <= n,
                rest@ == orig.subrange(i as int, n as int),
                kept@ == orig.subrange(0, i as int).map_values(|x: ContentItem| stripped(x)),
                positions@ == text_positions(orig.subrange(0, i as int)),
                text_items@.len() == positions@.len(),
                forall|k: int|
                    0 <= k < text_items@.len() ==> positions@[k] < i && text_matches(
                        #[trigger] text_items@[k],
                        orig[positions@[k] as int],
                    ),
                choice_content_index == last_choice_position(orig.subrange(0, i as int)),
                match choice_content_index {
                    Some(c) => c < i && choices == orig[c as int].options,
                    None => choices is None,
                },
            decreases n - i,
        {
            proof {
                lemma_text_positions_bound(orig.subrange(0, i as int));
            }
            let ghost pre = orig.subrange(0, i as int);
            let ghost next_pre = orig.subrange(0, i + 1);
            assert(next_pre.drop_last() =~= pre);
            let item = rest.remove(0);
            assert(item == orig[i as int]);
            assert(next_pre.last() == item);
            let ContentItem {
                item_type,
                value,
                interpolated_parts,
                condition,
                pre_statements,
                events,
                options,
                name: item_name,
                args,
                has_index_override,
                index_override,
                ignore_duration,
            } = item;
            proof {
                lemma_item_kinds_distinct();
            }
            let is_text = opt_is(&item_type, "text");
            let is_line = opt_is(&item_type, "line");
            let is_choice = opt_is(&item_type, "choice");
            if is_text || is_line {
                let text_value = match &value {
                    Some(v) => v.clone(),
                    None => String::new(),
                };
                let statements = match pre_statements {
                    Some(v) => v,
                    None => Vec::new(),
                };
                text_items.push(
                    TextData {
                        value: text_value,
                        interpolated_parts,
                        condition,
                        pre_statements: statements,
                        events,
                        is_line,
                    },
                );
                positions.push(i);
            } else if is_choice && options.is_some() {
                choices = options;
                choice_content_index = Some(i);
            }
            kept.push(
                ContentItem {
                    item_type,
                    value,
                    interpolated_parts: None,
                    condition: None,
                    pre_statements: None,
                    events: None,
                    options: None,
                    name: item_name,
                    args,
                    has_index_override,
                    index_override,
                    ignore_duration,
                },
            );
            proof {
                assert(kept@ =~= next_pre.map_values(|x: ContentItem| stripped(x)));
                assert(rest@ =~= orig.subrange(i + 1, n as int));
            }
            i = i + 1;
        }
        proof {
            assert(orig.subrange(0, n as int) =~= orig);
            assert(kept@.len() == n);
            assert forall|k: int| 0 <= k < positions@.len() implies #[trigger] positions@[k] < kept@.len() by {
                assert(text_matches(text_items@[k], orig[positions@[k] as int]));
                assert(positions@[k] < n);
            }
        }
        DialogueState {
            mortar_path,
            current_node: node_name,
            text_index: 0,
            selected_choice: None,
            choice_stack: Vec::new(),
            choices_broken: false,
            executed_content_indices: Vec::new(),
            pending_run_position: None,
            script: NodeScript {
                node_data: Node { name, content: kept, variables, next },
                text_items,
                text_to_content_index: positions,
                choice_content_index,
                choices,
            },
        }
    }
}

impl DialogueState {
    /// The path of the script the dialogue plays.
    pub fn path(&self) -> (r: &str)
        ensures
            r@ == self@.mortar_path,
    {
        self.mortar_path.as_str()
    }

    /// The name of the node the dialogue is at.
    pub fn node_name(&self) -> (r: &str)
        ensures
            r@ == self@.current_node,
    {
        self.current_node.as_str()
    }

    /// The option selected among the choices on offer.
    pub fn selection(&self) -> (r: Option<usize>)
        ensures
            r == self@.selected_choice,
    {
        self.selected_choice
    }

    /// Whether a `break` left the choices.
    pub fn are_choices_broken(&self) -> (r: bool)
        ensures
            r == self@.choices_broken,
    {
        self.choices_broken
    }

    /// Selects option `index`.
    pub fn select_choice(&mut self, index: usize)
        ensures
            final(self)@ == (DialogueView { selected_choice: Some(index), ..old(self)@ }),
    {
        self.selected_choice = Some(index);
    }

    /// Marks the choices as left by a `break`.
    pub fn break_choices(&mut self)
        ensures
            final(self)@ == (DialogueView { choices_broken: true, ..old(self)@ }),
    {
        self.choices_broken = true;
    }

    /// Records where pending runs continue.
    pub fn set_pending_run_position(&mut self, position: Option<usize>)
        ensures
            final(self)@ == (DialogueView { pending_run_position: position, ..old(self)@ }),
    {
        self.pending_run_position = position;
    }

    /// The choices reached through the choice stack: from the node's
    /// choices, each index on the stack selects an option whose nested
    /// options come next.
    pub fn get_current_choices(&self) -> (r: Option<&Vec<Choice>>)
        ensures
            match r {
                Some(v) => current_choices_spec(self@.choices, self@.choice_stack) == Some(*v),
                None => current_choices_spec(self@.choices, self@.choice_stack) is None,
            },
    {
        let mut cur: &Vec<Choice> = match &self.script.choices {
            Some(c) => c,
            None => {
                return None;
            },
        };
        let ghost stack = self@.choice_stack;
        let ghost expected = current_choices_spec(self@.choices, stack);
        assert(stack.subrange(0, stack.len() as int) =~= stack);
        let mut j: usize = 0;
        while j < self.choice_stack.len()
            invariant
                stack == self.choice_stack@,
                expected == current_choices_spec(self@.choices, self@.choice_stack),
                j <= stack.len(),
                expected == choices_along(*cur, stack.subrange(j as int, stack.len() as int)),
            decreases stack.len() - j,
        {
            let ghost rest = stack.subrange(j as int, stack.len() as int);
            assert(rest[0] == stack[j as int]);
            assert(rest.drop_first() =~= stack.subrange(j + 1, stack.len() as int));
            let idx = self.choice_stack[j];
            if idx >= cur.len() {
                return None;
            }
            match &cur[idx].choice {
                Some(nested) => {
                    cur = nested;
                },
                None => {
                    return None;
                },
            }
            j = j + 1;
        }
        Some(cur)
    }

    /// Enters the nested options of option `index`.
    pub fn push_choice(&mut self, index: usize)
        ensures
            final(self)@ == push_choice_spec(old(self)@, index),
    {
        self.choice_stack.push(index);
        self.selected_choice = None;
    }

    /// Leaves the innermost nested options, giving the index that entered
    /// them.
    pub fn pop_choice(&mut self) -> (r: Option<usize>)
        ensures
            (r, final(self)@) == pop_choice_spec(old(self)@),
    {
        self.selected_choice = None;
        self.choice_stack.pop()
    }

    /// Returns to the top-level choices.
    pub fn clear_choice_stack(&mut self)
        ensures
            final(self)@ == (DialogueView {
                choice_stack: Seq::<usize>::empty(),
                selected_choice: None,
                ..old(self)@
            }),
    {
        self.choice_stack.clear();
        self.selected_choice = None;
    }

    /// The choices on offer: none once the choices are broken, else those
    /// reached through the choice stack.
    pub fn get_choices(&self) -> (r: Option<&Vec<Choice>>)
        ensures
            self@.choices_broken ==> r is None,
            !self@.choices_broken ==> match r {
                Some(v) => current_choices_spec(self@.choices, self@.choice_stack) == Some(*v),
                None => current_choices_spec(self@.choices, self@.choice_stack) is None,
            },
    {
        if self.choices_broken {
            return None;
        }
        if self.choice_stack.len() == 0 {
            match &self.script.choices {
                Some(c) => Some(c),
                None => None,
            }
        } else {
            self.get_current_choices()
        }
    }

    /// The text at the cursor.
    pub fn current_text(&self) -> (r: Option<&str>)
        ensures
            match r {
                Some(t) => self@.text_index < self@.texts.len() && t@ == self@.texts[self@.text_index as int].value@,
                None => self@.text_index >= self@.texts.len(),
            },
    {
        if self.text_index < self.script.text_items.len() {
            Some(self.script.text_items[self.text_index].value.as_str())
        } else {
            None
        }
    }

    /// The text data at the cursor.
    pub fn current_text_data(&self) -> (r: Option<&TextData>)
        ensures
            match r {
                Some(t) => self@.text_index < self@.texts.len() && *t == self@.texts[self@.text_index as int],
                None => self@.text_index >= self@.texts.len(),
            },
    {
        if self.text_index < self.script.text_items.len() {
            Some(&self.script.text_items[self.text_index])
        } else {
            None
        }
    }

    /// The text data at the cursor when its condition holds (or it has
    /// none); the condition is evaluated with [`evaluate_if_condition`].
    pub fn current_text_data_evaluated(
        &self,
        variable_state: &MortarVariableState,
        functions: &MortarFunctionRegistry,
    ) -> (r: Option<&TextData>)
        ensures
            self@.text_index >= self@.texts.len() ==> r is None,
            r matches Some(t) ==> self@.text_index < self@.texts.len() && *t == self@.texts[self@.text_index as int],
            self@.text_index < self@.texts.len() && self@.texts[self@.text_index as int].condition is None ==> r is Some,
            self@.text_index < self@.texts.len() ==> (self@.texts[self@.text_index as int].condition matches Some(c)
                ==> (calls_unbound(c, registered_names(*functions)) ==> (r is Some <==> condition_eval(
                c,
                variable_state@.variables,
                no_calls(),
            )))),
            self@.text_index < self@.texts.len() ==> (self@.texts[self@.text_index as int].condition matches Some(c)
                ==> exists|rec: Answers|
                replies_fit(c, registered_names(*functions), host_replies(*functions), rec, Seq::<int>::empty())
                    && #[trigger] decided_by(
                    c,
                    variable_state@.variables,
                    registered_names(*functions),
                    rec,
                    Seq::<int>::empty(),
                    r is Some,
                )),
    {
        if self.text_index >= self.script.text_items.len() {
            return None;
        }
        let text_data = &self.script.text_items[self.text_index];
        match &text_data.condition {
            None => Some(text_data),
            Some(condition) => {
                let holds = evaluate_if_condition(condition, functions, variable_state);
                let r = if holds {
                    Some(text_data)
                } else {
                    None
                };
                proof {
                    let c = *condition;
                    let rec = choose|rec: Answers|
                        replies_fit(c, registered_names(*functions), host_replies(*functions), rec, Seq::<int>::empty())
                            && #[trigger] decided_by(
                            c,
                            variable_state@.variables,
                            registered_names(*functions),
                            rec,
                            Seq::<int>::empty(),
                            holds,
                        );
                    assert(decided_by(
                        c,
                        variable_state@.variables,
                        registered_names(*functions),
                        rec,
                        Seq::<int>::empty(),
                        r is Some,
                    ));
                }
                r
            },
        }
    }

    /// The end (exclusive) of the display unit at the cursor (see
    /// [`group_end`]).
    fn line_group_end(&self) -> (r: usize)
        requires
            self@.text_index < self@.texts.len(),
        ensures
            r == group_end(self@.texts, self@.text_index as int),
            self@.text_index < r <= self@.texts.len(),
    {
        let i = self.text_index;
        assert(i < self.script.text_items.len());
        if !self.script.text_items[i].is_line {
            return i + 1;
        }
        let ghost items = self@.texts;
        proof {
            lemma_line_run_end_bounds(items, i + 1);
        }
        let mut end = i + 1;
        while end < self.script.text_items.len() && self.script.text_items[end].is_line
            invariant
                items == self.script.text_items@,
                i + 1 <= end <= items.len(),
                line_run_end(items, i + 1) == line_run_end(items, end as int),
            decreases items.len() - end,
        {
            end = end + 1;
        }
        end
    }

    /// The display unit at the cursor: the run of consecutive `line` texts
    /// it starts, or the single text there.
    pub fn current_line_group(&self) -> (r: Option<&[TextData]>)
        ensures
            match r {
                Some(g) => self@.text_index < self@.texts.len() && g@ == self@.texts.subrange(
                    self@.text_index as int,
                    group_end(self@.texts, self@.text_index as int),
                ),
                None => self@.text_index >= self@.texts.len(),
            },
    {
        if self.text_index >= self.script.text_items.len() {
            return None;
        }
        let end = self.line_group_end();
        Some(&self.script.text_items.as_slice()[self.text_index..end])
    }

    /// Whether a text follows the display unit at the cursor.
    pub fn has_next_text(&self) -> (r: bool)
        ensures
            r == (group_end(self@.texts, self@.text_index as int) < self@.texts.len()),
    {
        if self.text_index >= self.script.text_items.len() {
            return false;
        }
        self.line_group_end() < self.script.text_items.len()
    }

    /// Whether a text follows the display unit at the cursor before the
    /// node's choice item (when it has one).
    pub fn has_next_text_before_choice(&self) -> (r: bool)
        ensures
            ({
                let e = group_end(self@.texts, self@.text_index as int);
                match self@.choice_position {
                    Some(c) => r == (e < self@.texts.len() && e < self@.content_indices.len()
                        && self@.content_indices[e] < c),
                    None => r == (e < self@.texts.len()),
                }
            }),
    {
        if self.text_index >= self.script.text_items.len() {
            return false;
        }
        match self.script.choice_content_index {
            Some(choice_idx) => {
                let next_idx = self.line_group_end();
                if next_idx < self.script.text_items.len() && next_idx < self.script.text_to_content_index.len() {
                    self.script.text_to_content_index[next_idx] < choice_idx
                } else {
                    false
                }
            },
            None => self.has_next_text(),
        }
    }

    /// Moves the cursor past the display unit at the cursor, when a text
    /// follows it.
    pub fn next_text(&mut self) -> (r: bool)
        ensures
            ({
                let e = group_end(old(self)@.texts, old(self)@.text_index as int);
                &&& r == (e < old(self)@.texts.len())
                &&& r ==> final(self)@ == (DialogueView { text_index: e as usize, ..old(self)@ })
                &&& r ==> final(self)@.text_index == old(self)@.text_index + (e - old(self)@.text_index)
                &&& !r ==> final(self)@ == old(self)@
            }),
    {
        if self.text_index >= self.script.text_items.len() {
            return false;
        }
        let end = self.line_group_end();
        if end < self.script.text_items.len() {
            self.text_index = end;
            true
        } else {
            false
        }
    }

    /// Moves the cursor back to the first text.
    pub fn reset(&mut self)
        ensures
            final(self)@ == (DialogueView { text_index: 0, ..old(self)@ }),
    {
        self.text_index = 0;
    }

    /// The run statements that follow one another from content position
    /// `start_index` on (see [`consecutive_runs`]).
    pub fn collect_run_items_from(&self, start_index: usize) -> (r: Vec<DialogueRunItem>)
        ensures
            r@.map_values(|x: DialogueRunItem| run_view(x)) == consecutive_runs(
                self@.node.content@,
                start_index as int,
                self@.executed,
            ),
    {
        let content = &self.script.node_data.content;
        let ghost items = content@;
        let ghost executed = self@.executed;
        let mut runs: Vec<DialogueRunItem> = Vec::new();
        let mut idx = start_index;
        proof {
            lemma_run_kinds_distinct();
        }
        while idx < content.len()
            invariant
                items == content@,
                executed == self.executed_content_indices@,
                start_index <= idx,
                consecutive_runs(items, start_index as int, executed) == runs@.map_values(
                    |x: DialogueRunItem| run_view(x),
                ) + consecutive_runs(items, idx as int, executed),
            decreases items.len() - idx,
        {
            let ghost before = runs@.map_values(|x: DialogueRunItem| run_view(x));
            let ghost rest = consecutive_runs(items, idx + 1, executed);
            if contains_index(&self.executed_content_indices, idx) {
                idx = idx + 1;
                continue;
            }
            let item = &content[idx];
            let is_event = opt_is(&item.item_type, "run_event");
            let is_timeline = opt_is(&item.item_type, "run_timeline");
            if item.item_type.is_none() || !(is_event || is_timeline) {
                proof {
                    assert(consecutive_runs(items, idx as int, executed) =~= Seq::<RunView>::empty());
                    assert(consecutive_runs(items, items.len() as int, executed) =~= Seq::<RunView>::empty());
                }
                idx = content.len();
                continue;
            }
            if is_event && item.has_index_override {
                idx = idx + 1;
                continue;
            }
            match &item.name {
                Some(name) => {
                    let run = if is_event {
                        DialogueRunItem {
                            content_index: idx,
                            name: name.clone(),
                            kind: DialogueRunKind::Event,
                            ignore_duration: match item.ignore_duration {
                                Some(b) => b,
                                None => false,
                            },
                        }
                    } else {
                        DialogueRunItem {
                            content_index: idx,
                            name: name.clone(),
                            kind: DialogueRunKind::Timeline,
                            ignore_duration: false,
                        }
                    };
                    runs.push(run);
                    proof {
                        assert(runs@.map_values(|x: DialogueRunItem| run_view(x)) =~= before.push(run_view(run)));
                        assert(before.push(run_view(run)) + rest =~= before + (seq![run_view(run)] + rest));
                    }
                },
                None => {},
            }
            idx = idx + 1;
        }
        proof {
            let done = runs@.map_values(|x: DialogueRunItem| run_view(x));
            assert(consecutive_runs(items, idx as int, executed) =~= Seq::<RunView>::empty());
            assert(done + Seq::<RunView>::empty() =~= done);
        }
        runs
    }

    /// The run statements to play now: those that follow one another from
    /// the position where pending runs continue (see
    /// [`consecutive_runs`]). When there is no such position there are
    /// none; when the position is past the node's content, or no run
    /// follows it, it is cleared.
    pub fn pending_runs(&mut self) -> (r: Vec<DialogueRunItem>)
        ensures
            match old(self)@.pending_run_position {
                None => r@.len() == 0 && final(self)@ == old(self)@,
                Some(p) => {
                    let runs = consecutive_runs(old(self)@.node.content@, p as int, old(self)@.executed);
                    &&& r@.map_values(|x: DialogueRunItem| run_view(x)) == runs
                    &&& final(self)@ == (if runs.len() == 0 {
                        DialogueView { pending_run_position: None, ..old(self)@ }
                    } else {
                        old(self)@
                    })
                },
            },
    {
        let start = match self.pending_run_position {
            Some(p) => p,
            None => {
                return Vec::new();
            },
        };
        if start >= self.script.node_data.content.len() {
            self.pending_run_position = None;
            return Vec::new();
        }
        let runs = self.collect_run_items_from(start);
        if runs.len() == 0 {
            self.pending_run_position = None;
        }
        runs
    }

    /// Records the runs played from the pending position as executed, and
    /// clears the position.
    pub fn finish_runs(&mut self, runs: &Vec<DialogueRunItem>)
        ensures
            final(self)@ == (DialogueView {
                executed: marked_spec(old(self)@.executed, runs@.map_values(|x: DialogueRunItem| x.content_index)),
                pending_run_position: None,
                ..old(self)@
            }),
    {
        let mut i: usize = 0;
        while i < runs.len()
            invariant
                i <= runs@.len(),
                self@ == (DialogueView {
                    executed: marked_spec(
                        old(self)@.executed,
                        runs@.map_values(|x: DialogueRunItem| x.content_index).subrange(0, i as int),
                    ),
                    ..old(self)@
                }),
            decreases runs@.len() - i,
        {
            proof {
                let idx = runs@.map_values(|x: DialogueRunItem| x.content_index);
                assert(idx.subrange(0, i + 1).drop_last() =~= idx.subrange(0, i as int));
            }
            self.mark_content_executed(runs[i].content_index);
            i = i + 1;
        }
        proof {
            let idx = runs@.map_values(|x: DialogueRunItem| x.content_index);
            assert(idx.subrange(0, runs@.len() as int) =~= idx);
        }
        self.pending_run_position = None;
    }

    /// Whether the node has a choice item.
    pub fn has_choices(&self) -> (r: bool)
        ensures
            r == self@.choices is Some,
    {
        self.script.choices.is_some()
    }

    /// The node that follows this one.
    pub fn get_next_node(&self) -> (r: Option<&str>)
        ensures
            opt_str(r) == opt_text(self@.node.next),
    {
        match &self.script.node_data.next {
            Some(n) => Some(n.as_str()),
            None => None,
        }
    }

    /// The run statement at content position `content_position`, unless it
    /// was executed (see [`run_at`]).
    pub fn get_runs_at_content_position(&self, content_position: usize) -> (r: Vec<DialogueRunDescriptor>)
        ensures
            match run_at(self@.node.content@, content_position, self@.executed) {
                Some(d) => r@.len() == 1 && descriptor_view(r@[0]) == d,
                None => r@.len() == 0,
            },
    {
        let mut runs: Vec<DialogueRunDescriptor> = Vec::new();
        let content = &self.script.node_data.content;
        if content_position >= content.len() || contains_index(&self.executed_content_indices, content_position) {
            return runs;
        }
        proof {
            lemma_run_kinds_distinct();
        }
        let item = &content[content_position];
        let name = match &item.name {
            Some(n) => n,
            None => {
                return runs;
            },
        };
        if opt_is(&item.item_type, "run_event") {
            let args = match &item.args {
                Some(a) => copy_strings(a),
                None => Vec::new(),
            };
            let index_override = match &item.index_override {
                Some(o) => Some(IndexOverride { override_type: o.override_type.clone(), value: o.value.clone() }),
                None => None,
            };
            let ignore = match item.ignore_duration {
                Some(b) => b,
                None => false,
            };
            runs.push((content_position, name.clone(), args, index_override, ignore));
        } else if opt_is(&item.item_type, "run_timeline") {
            runs.push((content_position, name.clone(), Vec::new(), None, false));
        }
        runs
    }

    /// Records that content item `content_index` was executed (once).
    pub fn mark_content_executed(&mut self, content_index: usize)
        ensures
            final(self)@ == (DialogueView {
                executed: mark_executed_spec(old(self)@.executed, content_index),
                ..old(self)@
            }),
    {
        if !contains_index(&self.executed_content_indices, content_index) {
            self.executed_content_indices.push(content_index);
        }
    }

    /// The node, as the state keeps it.
    pub fn node_data(&self) -> (r: &Node)
        ensures
            *r == self@.node,
    {
        &self.script.node_data
    }

    /// The content position of the text at the cursor.
    pub fn current_text_content_index(&self) -> (r: Option<usize>)
        ensures
            r == (if self@.text_index < self@.content_indices.len() {
                Some(self@.content_indices[self@.text_index as int])
            } else {
                None
            }),
            r matches Some(i) ==> i < self@.node.content.len(),
    {
        proof {
            use_type_invariant(&self.script);
            assert(self.script.node_data.content@.len() == self.script.node_data.content.len());
        }
        if self.text_index < self.script.text_to_content_index.len() {
            Some(self.script.text_to_content_index[self.text_index])
        } else {
            None
        }
    }

    /// The content position of the last text of the display unit at the
    /// cursor.
    pub fn line_group_last_content_index(&self) -> (r: Option<usize>)
        ensures
            ({
                let last = group_end(self@.texts, self@.text_index as int) - 1;
                r == (if last < self@.content_indices.len() {
                    Some(self@.content_indices[last])
                } else {
                    None
                })
            }),
    {
        let last = if self.text_index >= self.script.text_items.len() {
            self.text_index
        } else {
            self.line_group_end() - 1
        };
        if last < self.script.text_to_content_index.len() {
            Some(self.script.text_to_content_index[last])
        } else {
            None
        }
    }

    /// For each text, the position of its item in the node's content.
    pub fn text_to_content_indices(&self) -> (r: &[usize])
        ensures
            r@ == self@.content_indices,
    {
        self.script.text_to_content_index.as_slice()
    }
}

pub open spec fn opt_str(o: Option<&str>) -> Option<Seq<char>> {
    match o {
        Some(s) => Some(s@),
        None => None,
    }
}

/// Whether `x` occurs in `v`.
fn contains_index(v: &Vec<usize>, x: usize) -> (r: bool)
    ensures
        r == v@.contains(x),
{
    let mut i: usize = 0;
    while i < v.len()
        invariant
            i <= v@.len(),
            forall|j: int| 0 <= j < i ==> v@[j] != x,
        decreases v@.len() - i,
    {
        if v[i] == x {
            assert(v@[i as int] == x);
            return true;
        }
        i = i + 1;
    }
    false
}

fn copy_strings(v: &Vec<String>) -> (r: Vec<String>)
    ensures
        r@ == v@,
{
    let mut out: Vec<String> = Vec::new();
    let mut i: usize = 0;
    while i < v.len()
        invariant
            i <= v@.len(),
            out@ == v@.subrange(0, i as int),
        decreases v@.len() - i,
    {
        out.push(v[i].clone());
        i = i + 1;
    }
    out
}

/// The item types `run_event` and `run_timeline` are different words.
proof fn lemma_run_kinds_distinct()
    ensures
        "run_event"@ != "run_timeline"@,
{
    reveal_strlit("run_event");
    reveal_strlit("run_timeline");
    assert("run_event"@[4] != "run_timeline"@[4]);
}

/// The item types `text`, `line` and `choice` are different words.
proof fn lemma_item_kinds_distinct()
    ensures
        "text"@ != "choice"@,
        "line"@ != "choice"@,
{
    reveal_strlit("text");
    reveal_strlit("line");
    reveal_strlit("choice");
    assert("text"@[0] != "choice"@[0]);
    assert("line"@[0] != "choice"@[0]);
}

proof fn lemma_text_positions_bound(content: Seq<ContentItem>)
    requires
        content.len() <= usize::MAX,
    ensures
        forall|k: int| 0 <= k < text_positions(content).len() ==> #[trigger] text_positions(content)[k] < content.len(),
    decreases content.len(),
{
    if content.len() > 0 {
        let prefix = content.drop_last();
        lemma_text_positions_bound(prefix);
        let p = text_positions(prefix);
        assert forall|k: int| 0 <= k < text_positions(content).len() implies #[trigger] text_positions(content)[k] < content.len() by {
            if k < p.len() {
                assert(text_positions(content)[k] == p[k]);
            }
        }
    }
}

fn opt_is(o: &Option<String>, lit: &str) -> (r: bool)
    ensures
        r == (opt_text(*o) == Some(lit@)),
{
    match o {
        Some(s) => text_eq(s.as_str(), lit),
        None => false,
    }
}

} // verus!
