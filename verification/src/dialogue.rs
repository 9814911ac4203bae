//! The dialogue text the runtime shows: statements run before a text,
//! line groups joined into one display unit, the text shown with its
//! header, and the variable state kept for the script being played.

use vstd::prelude::*;
use crate::condition::{calls_unbound, condition_eval, decided_by, no_calls, replies_fit, Answers, Replies};
use crate::condition_cache::{cache_hit, cache_view, cached_step, evaluate_condition_cached, CachedCondition};
use crate::dialogue_state::{group_end, DialogueState, TextData};
use crate::eval::{evaluate_if_condition, interpolate_spec, outcomes_fit, outcomes_replied, process_interpolated_text};
use crate::registry::{host_replies, registered_names, MortarFunctionRegistry};
use crate::script::{Function, Statement};
use crate::text::text_eq;
use crate::value::ValueView;
use crate::variable_state::{
    assignment_value, declare_constants, declare_variables, empty_state, Constant, Enum,
    MortarVariableState, Variable, VariableStateView,
};
use vstd::string::*;

verus! {

/// The state after the `assignment` statements among `stmts`, in order
/// (see [`assignment_value`]).
pub open spec fn statements_spec(st: VariableStateView, stmts: Seq<Statement>) -> VariableStateView
    decreases stmts.len(),
{
    if stmts.len() == 0 {
        st
    } else {
        let prev = statements_spec(st, stmts.drop_last());
        let s = stmts.last();
        if s.stmt_type@ == "assignment"@ && s.var_name is Some && s.value is Some {
            VariableStateView {
                variables: prev.variables.insert(s.var_name->0@, assignment_value(s.value->0)),
                ..prev
            }
        } else {
            prev
        }
    }
}

/// Runs the `assignment` statements among `stmts`, in order.
pub fn run_statements(variable_state: &mut MortarVariableState, stmts: &Vec<Statement>)
    ensures
        final(variable_state)@ == statements_spec(old(variable_state)@, stmts@),
{
    let mut i: usize = 0;
    while i < stmts.len()
        invariant
            i <= stmts@.len(),
            variable_state@ == statements_spec(old(variable_state)@, stmts@.subrange(0, i as int)),
        decreases stmts@.len() - i,
    {
        assert(stmts@.subrange(0, i + 1).drop_last() =~= stmts@.subrange(0, i as int));
        let stmt = &stmts[i];
        if text_eq(stmt.stmt_type.as_str(), "assignment") {
            if let (Some(name), Some(value)) = (&stmt.var_name, &stmt.value) {
                variable_state.execute_assignment(name.as_str(), value);
            }
        }
        i = i + 1;
    }
    assert(stmts@.subrange(0, stmts@.len() as int) =~= stmts@);
}

/// What one line of a group gave: whether it was shown, and its text.
pub struct LineOutcome {
    pub shown: bool,
    pub text: Seq<char>,
}

/// The text a line shows over state `st`: its interpolated text for call
/// outcomes that fit the bound functions, or its plain value.
pub open spec fn text_fits(
    line: TextData,
    st: VariableStateView,
    text: Seq<char>,
    names: Set<Seq<char>>,
    replies: Replies,
    decls: Seq<Function>,
) -> bool {
    match line.interpolated_parts {
        None => text == line.value@,
        Some(parts) => exists|outcomes: Seq<Option<ValueView>>|
            outcomes_fit(parts@, outcomes, names) && outcomes_replied(parts@, outcomes, replies) && text
                == #[trigger] interpolate_spec(
                parts@,
                st,
                decls,
                outcomes,
            ),
    }
}

/// A line's outcome fits the state `st` it was evaluated over: a line
/// without a condition is shown; a line with a condition is shown exactly
/// when the condition holds for the replies its calls of bound functions
/// got (when it calls none, exactly when it holds over the variables); a
/// shown line's text is its text after its statements ran.
pub open spec fn line_fits(
    line: TextData,
    st: VariableStateView,
    o: LineOutcome,
    names: Set<Seq<char>>,
    replies: Replies,
    decls: Seq<Function>,
) -> bool {
    &&& (line.condition is None ==> o.shown)
    &&& (line.condition matches Some(c) ==> (calls_unbound(c, names) ==> o.shown == condition_eval(
        c,
        st.variables,
        no_calls(),
    )))
    &&& (line.condition matches Some(c) ==> exists|rec: Answers|
        replies_fit(c, names, replies, rec, Seq::<int>::empty()) && #[trigger] decided_by(
            c,
            st.variables,
            names,
            rec,
            Seq::<int>::empty(),
            o.shown,
        ))
    &&& (o.shown ==> text_fits(line, statements_spec(st, line.pre_statements@), o.text, names, replies, decls))
}

/// The state before line `i` of a group: the statements of the lines
/// shown before it have run.
pub open spec fn group_state(
    lines: Seq<TextData>,
    st0: VariableStateView,
    outcomes: Seq<LineOutcome>,
    i: int,
) -> VariableStateView
    decreases i,
{
    if i <= 0 {
        st0
    } else {
        let prev = group_state(lines, st0, outcomes, i - 1);
        if outcomes[i - 1].shown {
            statements_spec(prev, lines[i - 1].pre_statements@)
        } else {
            prev
        }
    }
}

/// The non-empty texts of the shown lines, in order.
pub open spec fn shown_texts(outcomes: Seq<LineOutcome>) -> Seq<Seq<char>>
    decreases outcomes.len(),
{
    if outcomes.len() == 0 {
        Seq::empty()
    } else {
        let prev = shown_texts(outcomes.drop_last());
        let o = outcomes.last();
        if o.shown && o.text.len() > 0 {
            prev.push(o.text)
        } else {
            prev
        }
    }
}

/// Texts joined with `\n` between them.
pub open spec fn join_lines(texts: Seq<Seq<char>>) -> Seq<char>
    decreases texts.len(),
{
    if texts.len() == 0 {
        Seq::empty()
    } else if texts.len() == 1 {
        texts[0]
    } else {
        join_lines(texts.drop_last()) + "\n"@ + texts.last()
    }
}

/// The display text of a line group: its shown non-empty lines joined
/// with `\n`, none when there are none.
pub open spec fn group_text(outcomes: Seq<LineOutcome>) -> Option<Seq<char>> {
    if shown_texts(outcomes).len() == 0 {
        None
    } else {
        Some(join_lines(shown_texts(outcomes)))
    }
}

/// The outcomes fit a group evaluated from state `st0`.
pub open spec fn group_fits(
    lines: Seq<TextData>,
    st0: VariableStateView,
    outcomes: Seq<LineOutcome>,
    names: Set<Seq<char>>,
    replies: Replies,
    decls: Seq<Function>,
) -> bool {
    &&& outcomes.len() == lines.len()
    &&& forall|i: int|
        0 <= i < lines.len() ==> line_fits(
            #[trigger] lines[i],
            group_state(lines, st0, outcomes, i),
            outcomes[i],
            names,
            replies,
            decls,
        )
}

pub open spec fn text_of(o: Option<String>) -> Option<Seq<char>> {
    match o {
        Some(s) => Some(s@),
        None => None,
    }
}

proof fn lemma_group_state_prefix(
    lines: Seq<TextData>,
    st0: VariableStateView,
    a: Seq<LineOutcome>,
    b: Seq<LineOutcome>,
    i: int,
)
    requires
        0 <= i <= a.len(),
        i <= b.len(),
        forall|j: int| 0 <= j < i ==> a[j] == b[j],
    ensures
        group_state(lines, st0, a, i) == group_state(lines, st0, b, i),
    decreases i,
{
    if i > 0 {
        lemma_group_state_prefix(lines, st0, a, b, i - 1);
    }
}

/// Processes a line group: evaluates each line's condition, runs the
/// statements of the lines shown, interpolates their text, and joins the
/// non-empty texts with `\n`; none when no line gives text.
pub fn process_line_group(
    group: &[TextData],
    functions: &MortarFunctionRegistry,
    func_decls: &Vec<Function>,
    variable_state: &mut MortarVariableState,
) -> (r: Option<String>)
    ensures
        exists|outcomes: Seq<LineOutcome>|
            group_fits(
                group@,
                old(variable_state)@,
                outcomes,
                registered_names(*functions),
                host_replies(*functions),
                func_decls@,
            )
                && final(variable_state)@ == #[trigger] group_state(
                group@,
                old(variable_state)@,
                outcomes,
                group@.len() as int,
            ) && text_of(r) == group_text(outcomes),
{
    let ghost st0 = variable_state@;
    let ghost names = registered_names(*functions);
    let ghost mut outcomes: Seq<LineOutcome> = Seq::empty();
    let mut joined = String::new();
    let mut count: usize = 0;
    let mut i: usize = 0;
    while i < group.len()
        invariant
            i <= group@.len(),
            names == registered_names(*functions),
            outcomes.len() == i,
            forall|j: int|
                0 <= j < i ==> line_fits(
                    #[trigger] group@[j],
                    group_state(group@, st0, outcomes, j),
                    outcomes[j],
                    names,
                    host_replies(*functions),
                    func_decls@,
                ),
            variable_state@ == group_state(group@, st0, outcomes, i as int),
            count <= i,
            count == shown_texts(outcomes).len(),
            joined@ == join_lines(shown_texts(outcomes)),
        decreases group@.len() - i,
    {
        let line = &group[i];
        let ghost before = variable_state@;
        let shown = match &line.condition {
            Some(c) => evaluate_if_condition(c, functions, variable_state),
            None => true,
        };
        let ghost mut text: Seq<char> = Seq::empty();
        if shown {
            run_statements(variable_state, &line.pre_statements);
            let line_text = process_interpolated_text(line, functions, func_decls, variable_state);
            proof {
                text = line_text@;
            }
            if line_text.as_str().unicode_len() > 0 {
                if count > 0 {
                    joined.append("\n");
                }
                joined.append(line_text.as_str());
                count = count + 1;
            }
        }
        proof {
            let o = LineOutcome { shown, text };
            let next = outcomes.push(o);
            assert forall|j: int| 0 <= j <= i implies group_state(group@, st0, next, j) == group_state(
                group@,
                st0,
                outcomes,
                j,
            ) by {
                lemma_group_state_prefix(group@, st0, next, outcomes, j);
            }
            assert(next.drop_last() =~= outcomes);
            assert(next.last() == o);
            if shown && text.len() > 0 {
                let prev = shown_texts(outcomes);
                assert(shown_texts(next) == prev.push(text));
                assert(prev.push(text).drop_last() =~= prev);
                if prev.len() > 0 {
                    assert(join_lines(prev.push(text)) == join_lines(prev) + "\n"@ + text);
                } else {
                    assert(join_lines(prev.push(text)) == text);
                }
            } else {
                assert(shown_texts(next) == shown_texts(outcomes));
            }
            assert forall|j: int| 0 <= j < i + 1 implies line_fits(
                #[trigger] group@[j],
                group_state(group@, st0, next, j),
                next[j],
                names,
                host_replies(*functions),
                func_decls@,
            ) by {
                if j < i {
                    assert(next[j] == outcomes[j]);
                } else {
                    assert(group_state(group@, st0, next, j) == before);
                    assert(next[j].shown == shown);
                }
            }
            outcomes = next;
        }
        i = i + 1;
    }
    if count == 0 {
        None
    } else {
        Some(joined)
    }
}

/// Whether a statement list holds an assignment that runs.
pub open spec fn has_assignment(stmts: Seq<Statement>) -> bool {
    exists|k: int|
        0 <= k < stmts.len() && (#[trigger] stmts[k]).stmt_type@ == "assignment"@ && stmts[k].var_name is Some
            && stmts[k].value is Some
}

/// What a text target shows for the text at the cursor.
pub enum TextOutcome {
    /// Show this text.
    Show(String),
    /// Nothing to show here: the dialogue moves on to the next text.
    Advance,
    /// There is no text at the cursor.
    Nothing,
}

pub enum OutcomeView {
    Show(Seq<char>),
    Advance,
    Nothing,
}

pub open spec fn outcome_view(o: TextOutcome) -> OutcomeView {
    match o {
        TextOutcome::Show(s) => OutcomeView::Show(s@),
        TextOutcome::Advance => OutcomeView::Advance,
        TextOutcome::Nothing => OutcomeView::Nothing,
    }
}

/// What presenting a regular (not `line`) text `t` does, given whether
/// its condition passed and the text it gave. A text whose condition was
/// to be skipped moves on. A condition that fails moves on. Otherwise the
/// statements run and the text is interpolated: an empty text moves on
/// (and, when statements ran under a condition, the next conditional text
/// is skipped), any other text is shown.
pub open spec fn present_text_spec(
    t: TextData,
    vs0: VariableStateView,
    skip0: bool,
    passes: bool,
    text: Seq<char>,
    vs1: VariableStateView,
    skip1: bool,
    r: OutcomeView,
) -> bool {
    if skip0 && t.condition is Some {
        r == OutcomeView::Advance && !skip1 && vs1 == vs0
    } else if !passes {
        r == OutcomeView::Advance && skip1 == skip0 && vs1 == vs0
    } else {
        &&& vs1 == statements_spec(vs0, t.pre_statements@)
        &&& if text.len() == 0 {
            &&& r == OutcomeView::Advance
            &&& skip1 == (skip0 || (has_assignment(t.pre_statements@) && t.condition is Some))
        } else {
            r == OutcomeView::Show(text) && !skip1
        }
    }
}

/// Whether one of the statements is an assignment that runs.
fn any_assignment(stmts: &Vec<Statement>) -> (r: bool)
    ensures
        r == has_assignment(stmts@),
{
    let mut i: usize = 0;
    while i < stmts.len()
        invariant
            i <= stmts@.len(),
            forall|k: int|
                0 <= k < i ==> !((#[trigger] stmts@[k]).stmt_type@ == "assignment"@ && stmts@[k].var_name is Some
                    && stmts@[k].value is Some),
        decreases stmts@.len() - i,
    {
        let s = &stmts[i];
        if text_eq(s.stmt_type.as_str(), "assignment") && s.var_name.is_some() && s.value.is_some() {
            assert(stmts@[i as int] == *s);
            return true;
        }
        i = i + 1;
    }
    false
}

/// Presents the text at the cursor of `state` on a text target.
///
/// A `line` text shows its whole line group (see [`process_line_group`]),
/// or moves on when the group gives no text. A regular text follows
/// [`present_text_spec`], its condition evaluated through the if/else cache
/// (see [`evaluate_condition_cached`]).
pub fn present_current_text(
    state: &DialogueState,
    functions: &MortarFunctionRegistry,
    func_decls: &Vec<Function>,
    variable_state: &mut MortarVariableState,
    cache: &mut Option<CachedCondition>,
    skip_next_conditional: &mut bool,
) -> (r: TextOutcome)
    ensures
        ({
            let i = state@.text_index as int;
            let texts = state@.texts;
            let names = registered_names(*functions);
            if i >= texts.len() {
                &&& outcome_view(r) == OutcomeView::Nothing
                &&& final(variable_state)@ == old(variable_state)@
                &&& cache_view(*final(cache)) == cache_view(*old(cache))
                &&& *final(skip_next_conditional) == *old(skip_next_conditional)
            } else if texts[i].is_line {
                &&& cache_view(*final(cache)) == cache_view(*old(cache))
                &&& exists|outcomes: Seq<LineOutcome>| {
                    &&& group_fits(
                        texts.subrange(i, group_end(texts, i)),
                        old(variable_state)@,
                        outcomes,
                        names,
                        host_replies(*functions),
                        func_decls@,
                    )
                    &&& final(variable_state)@ == #[trigger] group_state(
                        texts.subrange(i, group_end(texts, i)),
                        old(variable_state)@,
                        outcomes,
                        group_end(texts, i) - i,
                    )
                    &&& match group_text(outcomes) {
                        Some(t) => outcome_view(r) == OutcomeView::Show(t) && !*final(skip_next_conditional),
                        None => outcome_view(r) == OutcomeView::Advance && *final(skip_next_conditional) == *old(
                            skip_next_conditional,
                        ),
                    }
                }
            } else {
                let t = texts[i];
                exists|passes: bool, text: Seq<char>|
                    #[trigger] present_text_spec(
                        t,
                        old(variable_state)@,
                        *old(skip_next_conditional),
                        passes,
                        text,
                        final(variable_state)@,
                        *final(skip_next_conditional),
                        outcome_view(r),
                    ) && (t.condition is None ==> passes) && (match t.condition {
                        Some(c) => !(*old(skip_next_conditional)) ==> (cached_step(
                            c,
                            cache_view(*old(cache)),
                            passes,
                            cache_view(*final(cache)),
                        ) && (cache_hit(c, cache_view(*old(cache))) is None && calls_unbound(c, names) ==> passes
                            == condition_eval(c, old(variable_state)@.variables, no_calls())) && (cache_hit(
                            c,
                            cache_view(*old(cache)),
                        ) is None ==> exists|rec: Answers|
                            replies_fit(c, names, host_replies(*functions), rec, Seq::<int>::empty())
                                && #[trigger] decided_by(
                                c,
                                old(variable_state)@.variables,
                                names,
                                rec,
                                Seq::<int>::empty(),
                                passes,
                            ))),
                        None => cache_view(*final(cache)) == cache_view(*old(cache)),
                    }) && (*old(skip_next_conditional) && t.condition is Some ==> cache_view(*final(cache))
                        == cache_view(*old(cache))) && (passes && !(*old(skip_next_conditional)
                        && t.condition is Some) ==> text_fits(
                        t,
                        statements_spec(old(variable_state)@, t.pre_statements@),
                        text,
                        names,
                        host_replies(*functions),
                        func_decls@,
                    ))
            }
        }),
{
    let text_data = match state.current_text_data() {
        Some(t) => t,
        None => {
            return TextOutcome::Nothing;
        },
    };
    if text_data.is_line {
        let group = match state.current_line_group() {
            Some(g) => g,
            None => {
                return TextOutcome::Nothing;
            },
        };
        let ghost i = state@.text_index as int;
        let ghost texts = state@.texts;
        proof {
            crate::dialogue_state::lemma_group_end(texts, i);
            assert(group@.len() == group_end(texts, i) - i);
        }
        let shown = process_line_group(group, functions, func_decls, variable_state);
        let r = match shown {
            Some(t) => {
                *skip_next_conditional = false;
                TextOutcome::Show(t)
            },
            None => TextOutcome::Advance,
        };
        proof {
            let names = registered_names(*functions);
            let o = choose|o: Seq<LineOutcome>|
                group_fits(group@, old(variable_state)@, o, names, host_replies(*functions), func_decls@)
                    && variable_state@ == #[trigger] group_state(
                    group@,
                    old(variable_state)@,
                    o,
                    group@.len() as int,
                ) && text_of(shown) == group_text(o);
            assert(group_state(texts.subrange(i, group_end(texts, i)), old(variable_state)@, o, group_end(texts, i) - i)
                == variable_state@);
        }
        return r;
    }
    if *skip_next_conditional && text_data.condition.is_some() {
        *skip_next_conditional = false;
        proof {
            assert(present_text_spec(
                *text_data,
                old(variable_state)@,
                true,
                false,
                Seq::empty(),
                variable_state@,
                false,
                OutcomeView::Advance,
            ));
        }
        return TextOutcome::Advance;
    }
    let passes = match &text_data.condition {
        Some(c) => evaluate_condition_cached(c, functions, variable_state, cache),
        None => true,
    };
    if !passes {
        proof {
            assert(present_text_spec(
                *text_data,
                old(variable_state)@,
                *old(skip_next_conditional),
                false,
                Seq::empty(),
                variable_state@,
                *skip_next_conditional,
                OutcomeView::Advance,
            ));
        }
        return TextOutcome::Advance;
    }
    let executed = any_assignment(&text_data.pre_statements);
    run_statements(variable_state, &text_data.pre_statements);
    let processed = process_interpolated_text(text_data, functions, func_decls, variable_state);
    if processed.as_str().unicode_len() == 0 {
        if executed && text_data.condition.is_some() {
            *skip_next_conditional = true;
        }
        proof {
            assert(present_text_spec(
                *text_data,
                old(variable_state)@,
                *old(skip_next_conditional),
                true,
                processed@,
                variable_state@,
                *skip_next_conditional,
                OutcomeView::Advance,
            ));
        }
        return TextOutcome::Advance;
    }
    *skip_next_conditional = false;
    let r = TextOutcome::Show(processed);
    proof {
        assert(present_text_spec(
            *text_data,
            old(variable_state)@,
            *old(skip_next_conditional),
            true,
            processed@,
            variable_state@,
            false,
            outcome_view(r),
        ));
    }
    r
}

/// The dialogue text currently shown: a header naming the script and node,
/// and the body processed from the script.
pub struct MortarDialogueText {
    pub header: String,
    pub body: String,
}

impl MortarDialogueText {
    /// The header followed by the body.
    pub fn full_text(&self) -> (r: String)
        ensures
            r@ == self.header@ + self.body@,
    {
        self.header.clone().concat(self.body.as_str())
    }
}

/// The header shown above a dialogue's text: `[path / node]` and a blank
/// line.
pub fn dialogue_header(path: &str, node: &str) -> (r: String)
    ensures
        r@ == "["@ + path@ + " / "@ + node@ + "]\n\n"@,
{
    "[".to_string().concat(path).concat(" / ").concat(node).concat("]\n\n")
}

/// The variable state kept for the script being played, and the path of
/// that script.
pub struct MortarDialogueVariables {
    pub state: Option<MortarVariableState>,
    pub active_path: Option<String>,
}

pub open spec fn state_view(s: Option<MortarVariableState>) -> Option<VariableStateView> {
    match s {
        Some(x) => Some(x@),
        None => None,
    }
}

impl MortarDialogueVariables {
    /// An empty cache.
    pub fn new() -> (r: Self)
        ensures
            r.state is None,
            r.active_path is None,
    {
        MortarDialogueVariables { state: None, active_path: None }
    }

    /// Forgets the state and the script.
    pub fn reset(&mut self)
        ensures
            final(self).state is None,
            final(self).active_path is None,
    {
        self.state = None;
        self.active_path = None;
    }

    /// Makes sure the state is that of the script at `path`: a state for
    /// another script, or none, is replaced by a fresh one built from the
    /// script's declarations; a state for this script is kept.
    pub fn ensure_for(&mut self, path: &str, variables: &Vec<Variable>, constants: &Vec<Constant>, enums: &Vec<Enum>)
        ensures
            text_of(final(self).active_path) == Some(path@),
            (text_of(old(self).active_path) == Some(path@) && old(self).state is Some) ==> state_view(
                final(self).state,
            ) == state_view(old(self).state),
            !(text_of(old(self).active_path) == Some(path@) && old(self).state is Some) ==> state_view(
                final(self).state,
            ) == Some(declare_constants(declare_variables(empty_state(), variables@, enums@), constants@)),
    {
        let same = match &self.active_path {
            Some(p) => text_eq(p.as_str(), path),
            None => false,
        };
        if !same || self.state.is_none() {
            self.state = Some(MortarVariableState::from_variables(variables, constants, enums));
        }
        self.active_path = Some(path.to_string());
    }
}

impl Default for MortarDialogueVariables {
    /// An empty cache.
    fn default() -> (r: Self)
        ensures
            r.state is None,
            r.active_path is None,
    {
        Self::new()
    }
}

} // verus!
