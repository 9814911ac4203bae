//! Evaluation with bound functions: conditions of `if` statements and of
//! choices, and interpolated text.

use vstd::prelude::*;
use crate::condition::{
    agree_under, answer, decided_by, word_number, replies_deterministic, Replies, answers_fit, bound_calls, call_args, call_name, calls_unbound, lemma_replies_fit_frame,
    lemma_replies_fit_none, replies_fit, compare_values_spec, condition_eval,
    eval_answered, extends, has_prefix, is_type, lemma_here, no_calls, opt_text, resolve_answered,
    resolve_spec, values_equal, variable_as_value, zero_number, Answers, Condition, IfCondition,
    calls_made, node_call, operand_call, CallLog,
};
use crate::dialogue_state::TextData;
use crate::registry::{args_view, host_replies, registered_names, MortarFunctionRegistry};
use crate::script::{Function, StringPart};
use crate::text::{split_whitespace_words, text_eq, texts_view, trim_class, trim_spec, words_spec, TrimClass};
use crate::value::{
    copy_number, display_spec, lexeme_number, parse_spec, truthy_spec, variable_display_spec,
    Lexeme, MortarBoolean, MortarString, MortarValue, MortarVariableValue, ValueView,
};
use crate::number::MortarNumber;
use crate::variable_state::{branch_text_spec, compare_numbers, MortarVariableState, VariableStateView};
use vstd::string::*;

verus! {

/// The text an unbound function of this return type stands for.
pub open spec fn default_return_spec(return_type: Seq<char>) -> Seq<char> {
    if return_type == "Boolean"@ || return_type == "Bool"@ {
        "false"@
    } else if return_type == "Number"@ {
        "0"@
    } else {
        Seq::empty()
    }
}

/// The return type declared for the first function named `name`, `void`
/// when there is none or it declares none.
pub open spec fn declared_return_type(decls: Seq<Function>, name: Seq<char>) -> Seq<char>
    decreases decls.len(),
{
    if decls.len() == 0 {
        "void"@
    } else if decls[0].name@ == name {
        match decls[0].return_type {
            Some(t) => t@,
            None => "void"@,
        }
    } else {
        declared_return_type(decls.drop_first(), name)
    }
}

/// The values script words parse to.
pub open spec fn parsed_args(words: Seq<Lexeme>) -> Seq<ValueView> {
    words.map_values(|w: Lexeme| parse_spec(w.text@, lexeme_number(w)))
}

/// Whether a call's outcome counts as true: a result that is truthy.
pub open spec fn outcome_truthy(outcome: Option<ValueView>) -> bool {
    match outcome {
        Some(v) => truthy_spec(v),
        None => false,
    }
}

/// The function an interpolated part calls, if it is an expression that
/// names one.
/// Each answer of an expression part is a reply that the function it names
/// can give to the part's parsed arguments.
pub open spec fn outcomes_replied(parts: Seq<StringPart>, outcomes: Seq<Option<ValueView>>, replies: Replies) -> bool {
    forall|i: int|
        0 <= i < parts.len() && i < outcomes.len() && #[trigger] part_call(parts[i]) is Some && outcomes[i] is Some
            ==> replies.contains((part_call(parts[i])->0, parsed_args(parts[i].args@), outcomes[i]->0))
}

pub open spec fn part_call(p: StringPart) -> Option<Seq<char>> {
    if p.part_type@ == "expression"@ {
        opt_text(p.function_name)
    } else {
        None
    }
}

/// The text of one interpolated part, given what its function call
/// returned (`outcome`, `None` when the function is not bound).
pub open spec fn part_text(
    p: StringPart,
    st: VariableStateView,
    decls: Seq<Function>,
    outcome: Option<ValueView>,
) -> Seq<char> {
    if p.part_type@ == "expression"@ {
        match p.function_name {
            Some(f) => match outcome {
                Some(v) => display_spec(v),
                None => default_return_spec(declared_return_type(decls, f@)),
            },
            None => p.content@,
        }
    } else if p.part_type@ == "placeholder"@ {
        let name = trim_spec(TrimClass::Braces, p.content@);
        if st.variables.contains_key(name) {
            variable_display_spec(st.variables[name])
        } else {
            match branch_text_spec(st, name) {
                Some(t) => t,
                None => p.content@,
            }
        }
    } else {
        p.content@
    }
}

/// The interpolated text of `parts`, part by part.
pub open spec fn interpolate_spec(
    parts: Seq<StringPart>,
    st: VariableStateView,
    decls: Seq<Function>,
    outcomes: Seq<Option<ValueView>>,
) -> Seq<char>
    decreases parts.len(),
{
    if parts.len() == 0 {
        Seq::empty()
    } else {
        interpolate_spec(parts.drop_last(), st, decls, outcomes) + part_text(
            parts.last(),
            st,
            decls,
            outcomes[parts.len() - 1],
        )
    }
}

/// The outcomes fit the bound functions: the call of each expression part
/// gave a result exactly when its function is bound.
pub open spec fn outcomes_fit(parts: Seq<StringPart>, outcomes: Seq<Option<ValueView>>, names: Set<Seq<char>>) -> bool {
    &&& outcomes.len() == parts.len()
    &&& forall|i: int|
        0 <= i < parts.len() ==> match #[trigger] part_call(parts[i]) {
            Some(f) => (outcomes[i] is Some <==> names.contains(f)),
            None => true,
        }
}

/// The text an unbound function of this return type stands for.
fn get_default_return_value(return_type: &str) -> (r: String)
    ensures
        r@ == default_return_spec(return_type@),
{
    proof {
        reveal_strlit("false");
        reveal_strlit("0");
    }
    if text_eq(return_type, "Boolean") || text_eq(return_type, "Bool") {
        "false".to_string()
    } else if text_eq(return_type, "Number") {
        "0".to_string()
    } else {
        String::new()
    }
}

/// The declared return type of `name` (see [`declared_return_type`]).
fn find_return_type(decls: &Vec<Function>, name: &str) -> (r: String)
    ensures
        r@ == declared_return_type(decls@, name@),
{
    let mut i: usize = 0;
    assert(decls@.subrange(0, decls@.len() as int) =~= decls@);
    while i < decls.len()
        invariant
            i <= decls@.len(),
            declared_return_type(decls@, name@) == declared_return_type(
                decls@.subrange(i as int, decls@.len() as int),
                name@,
            ),
        decreases decls@.len() - i,
    {
        let ghost rest = decls@.subrange(i as int, decls@.len() as int);
        assert(rest[0] == decls@[i as int]);
        assert(rest.drop_first() =~= decls@.subrange(i + 1, decls@.len() as int));
        if text_eq(decls[i].name.as_str(), name) {
            return match &decls[i].return_type {
                Some(t) => t.clone(),
                None => "void".to_string(),
            };
        }
        i = i + 1;
    }
    "void".to_string()
}

/// Parses script words into argument values.
pub fn parse_args(words: &Vec<Lexeme>) -> (r: Vec<MortarValue>)
    ensures
        r@.map_values(|v: MortarValue| v@) == parsed_args(words@),
{
    let mut out: Vec<MortarValue> = Vec::new();
    let mut i: usize = 0;
    while i < words.len()
        invariant
            i <= words@.len(),
            out@.len() == i,
            out@.map_values(|v: MortarValue| v@) == parsed_args(words@.subrange(0, i as int)),
        decreases words@.len() - i,
    {
        let ghost before = out@;
        out.push(MortarValue::parse(&words[i]));
        proof {
            let next = words@.subrange(0, i + 1);
            assert forall|j: int| 0 <= j < i + 1 implies out@[j]@ == parse_spec(next[j].text@, lexeme_number(next[j])) by {
                if j < i {
                    assert(before.map_values(|v: MortarValue| v@)[j] == parsed_args(words@.subrange(0, i as int))[j]);
                    assert(out@[j] == before[j]);
                }
            }
            assert(out@.map_values(|v: MortarValue| v@) =~= parsed_args(next));
        }
        i = i + 1;
    }
    assert(words@.subrange(0, words@.len() as int) =~= words@);
    out
}

/// Whether a call's outcome counts as true: a truthy result; no result
/// (the function is not bound) counts as false.
pub fn call_outcome(result: &Option<MortarValue>) -> (r: bool)
    ensures
        r == outcome_truthy(match result {
            Some(v) => Some(v@),
            None => None,
        }),
{
    match result {
        Some(v) => v.is_truthy(),
        None => false,
    }
}

/// Calls the function a `func_call` node names, with the words of its
/// `right` node as arguments. There is no result when the node names no
/// function or the function is not bound.
fn call_node(cond: &IfCondition, functions: &MortarFunctionRegistry, log: &mut Ghost<CallLog>) -> (r: Option<MortarValue>)
    ensures
        final(log)@ == old(log)@ + node_call(*cond),
        call_name(*cond) is None ==> r is None,
        call_name(*cond) matches Some(n) ==> (r is Some <==> registered_names(*functions).contains(n)),
        r matches Some(v) ==> host_replies(*functions).contains((call_name(*cond)->0, call_args(*cond), v@)),
{
    let name = match &cond.operand {
        Some(o) => match &o.value {
            Some(l) => l.text.as_str(),
            None => {
                return None;
            },
        },
        None => {
            return None;
        },
    };
    let args = match &cond.right {
        Some(r) => match &r.value {
            Some(l) => word_args(l.text.as_str(), &r.value_words),
            None => Vec::new(),
        },
        None => Vec::new(),
    };
    proof {
        assert(args_view(args@) =~= call_args(*cond));
    }
    let ghost before = log@;
    let r = call_logged(functions, name, args.as_slice(), log);
    proof {
        assert(log@ =~= before + node_call(*cond));
    }
    r
}

/// Calls the function registered under `name` with `args` (see
/// [`MortarFunctionRegistry::call`]), and adds the call to `log`.
fn call_logged(
    functions: &MortarFunctionRegistry,
    name: &str,
    args: &[MortarValue],
    log: &mut Ghost<CallLog>,
) -> (r: Option<MortarValue>)
    ensures
        final(log)@ == old(log)@.push((name@, args_view(args@))),
        r is Some <==> registered_names(*functions).contains(name@),
        r matches Some(v) ==> host_replies(*functions).contains((name@, args_view(args@), v@)),
{
    proof {
        log@ = log@.push((name@, args_view(args@)));
    }
    functions.call(name, args)
}

/// The values of the whitespace-separated words of `text`, each word read
/// as the number `words` gives for it (see [`word_number`]).
fn word_args(text: &str, words: &Vec<Lexeme>) -> (r: Vec<MortarValue>)
    ensures
        args_view(r@) == ({
            let ws = words_spec(text@);
            Seq::new(ws.len(), |k: int| parse_spec(ws[k], word_number(words@, k, ws[k])))
        }),
{
    let ws = split_whitespace_words(text);
    let ghost wv = words_spec(text@);
    let mut out: Vec<MortarValue> = Vec::new();
    let mut k: usize = 0;
    while k < ws.len()
        invariant
            k <= ws@.len(),
            texts_view(ws@) == wv,
            out@.len() == k,
            forall|j: int| 0 <= j < k ==> #[trigger] out@[j]@ == parse_spec(wv[j], word_number(words@, j, wv[j])),
        decreases ws@.len() - k,
    {
        assert(wv[k as int] == ws@[k as int]@);
        let number = if k < words.len() && text_eq(words[k].text.as_str(), ws[k].as_str()) {
            match &words[k].number {
                Some(n) => Some(copy_number(n)),
                None => None,
            }
        } else {
            None
        };
        let word = Lexeme::new(ws[k].clone(), number);
        out.push(MortarValue::parse(&word));
        k = k + 1;
    }
    proof {
        let ws_ = words_spec(text@);
        assert(args_view(out@) =~= Seq::new(ws_.len(), |k: int| parse_spec(ws_[k], word_number(words@, k, ws_[k]))));
    }
    out
}

/// Equality of two values (see [`values_equal`]).
fn values_equal_exec(left: &MortarValue, right: &MortarValue) -> (r: bool)
    ensures
        r == values_equal(left@, right@),
{
    match (left, right) {
        (MortarValue::Number(a), MortarValue::Number(b)) => a.nearly_equal(b),
        (MortarValue::String(a), MortarValue::String(b)) => text_eq(a.0.as_str(), b.0.as_str()),
        (MortarValue::Boolean(a), MortarValue::Boolean(b)) => a.0 == b.0,
        _ => false,
    }
}

/// Compares two values with an operator (see [`compare_values_spec`]):
/// `==` and `!=` on any values, ordering on two numbers.
pub fn compare_mortar_values(left: &MortarValue, right: &MortarValue, op: &Option<String>) -> (r: bool)
    ensures
        r == compare_values_spec(left@, right@, opt_text(*op)),
{
    match op {
        Some(o) => {
            if text_eq(o.as_str(), "==") {
                values_equal_exec(left, right)
            } else if text_eq(o.as_str(), "!=") {
                !values_equal_exec(left, right)
            } else {
                match (left, right) {
                    (MortarValue::Number(a), MortarValue::Number(b)) => compare_numbers(o.as_str(), a, b),
                    _ => false,
                }
            }
        },
        None => false,
    }
}

/// A variable's value as a value, `Void` for no variable.
fn variable_value(v: Option<&MortarVariableValue>) -> (r: MortarValue)
    ensures
        r@ == match v {
            Some(x) => variable_as_value(x@),
            None => ValueView::Void,
        },
{
    match v {
        Some(MortarVariableValue::Number(n)) => MortarValue::Number(copy_number(n)),
        Some(MortarVariableValue::String(s)) => MortarValue::String(MortarString(s.clone())),
        Some(MortarVariableValue::Boolean(b)) => MortarValue::Boolean(MortarBoolean(*b)),
        None => MortarValue::Void,
    }
}

/// The value of the literal `0`.
fn zero_value() -> (r: MortarValue)
    ensures
        r@ == ValueView::Number(zero_number()),
{
    MortarValue::Number(MortarNumber { bits: 0, text: "0".to_string() })
}

/// Resolves an operand of a comparison that takes no function call to a
/// value (see [`resolve_spec`]).
fn resolve_plain(cond: &IfCondition, variable_state: &MortarVariableState) -> (r: MortarValue)
    requires
        !is_type(*cond, "func_call"@),
    ensures
        r@ == resolve_spec(*cond, variable_state@.variables, no_calls()),
{
    if text_eq(cond.cond_type.as_str(), "identifier") {
        let name = match &cond.value {
            Some(l) => {
                if let Some(n) = &l.number {
                    return MortarValue::Number(copy_number(n));
                }
                l.text.as_str()
            },
            None => "",
        };
        proof {
            reveal_strlit("");
            assert(""@ =~= Seq::<char>::empty());
            assert(cond.value matches Some(l) ==> name@ == l.text@ && l.number is None);
            assert(cond.value is None ==> name@ == Seq::<char>::empty());
        }
        variable_value(variable_state.get(name))
    } else if text_eq(cond.cond_type.as_str(), "literal") {
        match &cond.value {
            Some(l) => MortarValue::parse(l),
            None => zero_value(),
        }
    } else if text_eq(cond.cond_type.as_str(), "enum_member") {
        match &cond.value {
            Some(l) => MortarValue::String(MortarString(l.text.clone())),
            None => MortarValue::String(MortarString(String::new())),
        }
    } else {
        MortarValue::Void
    }
}

/// Calls the function of the call node at position `p`; the answer, when
/// there is one, is recorded at `p`.
fn call_at(
    cond: &IfCondition,
    functions: &MortarFunctionRegistry,
    Ghost(p): Ghost<Seq<int>>,
    log: &mut Ghost<CallLog>,
) -> (r: (Option<MortarValue>, Ghost<Answers>))
    requires
        is_type(*cond, "func_call"@),
    ensures
        final(log)@ == old(log)@ + node_call(*cond),
        r.1@.dom().subset_of(bound_calls(*cond, registered_names(*functions), p)),
        forall|a: Answers|
            answers_fit(*cond, registered_names(*functions), a, p) && extends(a, r.1@) ==> answer(a, p) == match r.0 {
                Some(v) => Some(v@),
                None => None::<ValueView>,
            },
        call_name(*cond) is None ==> r.0 is None,
        replies_fit(*cond, registered_names(*functions), host_replies(*functions), r.1@, p),
{
    let ghost names = registered_names(*functions);
    let ghost replies = host_replies(*functions);
    let result = call_node(cond, functions, log);
    proof {
        lemma_here(*cond, names, p);
        assert(has_prefix(p, p)) by {
            assert(p.subrange(0, p.len() as int) =~= p);
        }
    }
    match result {
        Some(v) => {
            let ghost rec = Map::<Seq<int>, ValueView>::empty().insert(p, v@);
            assert(rec.dom() =~= set![p]);
            proof {
                lemma_fit_children_none(*cond, names, replies, rec, p);
            }
            (Some(v), Ghost(rec))
        },
        None => {
            let ghost rec = Map::<Seq<int>, ValueView>::empty();
            assert(rec.dom() =~= Set::<Seq<int>>::empty());
            proof {
                lemma_fit_children_none(*cond, names, replies, rec, p);
            }
            (None, Ghost(rec))
        },
    }
}

/// A record that holds at most an answer at `p` itself fits the replies
/// under each child of the node at `p`.
proof fn lemma_fit_children_none(c: IfCondition, names: Set<Seq<char>>, replies: crate::condition::Replies, rec: Answers, p: Seq<int>)
    requires
        forall|q: Seq<int>| #[trigger] rec.contains_key(q) ==> q == p,
    ensures
        c.left matches Some(x) ==> replies_fit(*x, names, replies, rec, p.push(0)),
        c.right matches Some(x) ==> replies_fit(*x, names, replies, rec, p.push(1)),
        c.operand matches Some(x) ==> replies_fit(*x, names, replies, rec, p.push(2)),
{
    if let Some(x) = c.left {
        lemma_replies_fit_none(*x, names, replies, rec, p.push(0));
    }
    if let Some(x) = c.right {
        lemma_replies_fit_none(*x, names, replies, rec, p.push(1));
    }
    if let Some(x) = c.operand {
        lemma_replies_fit_none(*x, names, replies, rec, p.push(2));
    }
}

/// The child of `c` at step `k` (`0` left, `1` right, `2` operand).
spec fn child(c: IfCondition, k: int) -> Option<IfCondition> {
    if k == 0 {
        match c.left {
            Some(x) => Some(*x),
            None => None,
        }
    } else if k == 1 {
        match c.right {
            Some(x) => Some(*x),
            None => None,
        }
    } else {
        match c.operand {
            Some(x) => Some(*x),
            None => None,
        }
    }
}

/// Answers recorded under one child of a node that is no call fit the
/// replies at the node when they fit them at the child.
proof fn lemma_fit_one(c: IfCondition, names: Set<Seq<char>>, replies: crate::condition::Replies, p: Seq<int>, k: int, x: IfCondition, rec: Answers)
    requires
        0 <= k <= 2,
        child(c, k) == Some(x),
        !is_type(c, "func_call"@),
        rec.dom().subset_of(bound_calls(x, names, p.push(k))),
        replies_fit(x, names, replies, rec, p.push(k)),
    ensures
        replies_fit(c, names, replies, rec, p),
{
    crate::condition::lemma_bound_calls_prefix(x, names, p.push(k));
    assert forall|j: int| 0 <= j <= 2 && j != k && child(c, j) is Some implies replies_fit(
        child(c, j)->0,
        names,
        replies,
        rec,
        p.push(j),
    ) by {
        assert forall|q: Seq<int>| #[trigger] rec.contains_key(q) implies !has_prefix(q, p.push(j)) by {
            assert(has_prefix(q, p.push(k)));
            if has_prefix(q, p.push(j)) {
                crate::condition::lemma_children_apart(p, k, j, q, q);
            }
        }
        lemma_replies_fit_none(child(c, j)->0, names, replies, rec, p.push(j));
    }
    assert(child(c, 0) is Some ==> replies_fit(child(c, 0)->0, names, replies, rec, p.push(0)));
    assert(child(c, 1) is Some ==> replies_fit(child(c, 1)->0, names, replies, rec, p.push(1)));
    assert(child(c, 2) is Some ==> replies_fit(child(c, 2)->0, names, replies, rec, p.push(2)));
}

/// Answers recorded under the left and right children of a node that is
/// no call, merged, fit the replies when each fits them at its child.
proof fn lemma_fit_merged(
    c: IfCondition,
    names: Set<Seq<char>>,
    replies: crate::condition::Replies,
    p: Seq<int>,
    l: IfCondition,
    r: IfCondition,
    rec_l: Answers,
    rec_r: Answers,
)
    requires
        c.left == Some(Box::new(l)),
        c.right == Some(Box::new(r)),
        !is_type(c, "func_call"@),
        rec_l.dom().subset_of(bound_calls(l, names, p.push(0))),
        rec_r.dom().subset_of(bound_calls(r, names, p.push(1))),
        replies_fit(l, names, replies, rec_l, p.push(0)),
        replies_fit(r, names, replies, rec_r, p.push(1)),
    ensures
        replies_fit(c, names, replies, rec_l.union_prefer_right(rec_r), p),
{
    crate::condition::lemma_bound_calls_prefix(l, names, p.push(0));
    crate::condition::lemma_bound_calls_prefix(r, names, p.push(1));
    let u = rec_l.union_prefer_right(rec_r);
    assert(agree_under(u, rec_l, p.push(0))) by {
        assert forall|q: Seq<int>| has_prefix(q, p.push(0)) implies (#[trigger] u.contains_key(q) <==> rec_l.contains_key(q))
            && (u.contains_key(q) ==> u[q] == rec_l[q]) by {
            if rec_r.contains_key(q) {
                crate::condition::lemma_children_apart(p, 0, 1, q, q);
            }
        }
    }
    assert(agree_under(u, rec_r, p.push(1))) by {
        assert forall|q: Seq<int>| has_prefix(q, p.push(1)) implies (#[trigger] u.contains_key(q) <==> rec_r.contains_key(q))
            && (u.contains_key(q) ==> u[q] == rec_r[q]) by {
            if rec_l.contains_key(q) && !rec_r.contains_key(q) {
                crate::condition::lemma_children_apart(p, 0, 1, q, q);
            }
        }
    }
    lemma_replies_fit_frame(l, names, replies, u, rec_l, p.push(0));
    lemma_replies_fit_frame(r, names, replies, u, rec_r, p.push(1));
    if let Some(x) = c.operand {
        assert forall|q: Seq<int>| #[trigger] u.contains_key(q) implies !has_prefix(q, p.push(2)) by {
            if has_prefix(q, p.push(2)) {
                if rec_r.contains_key(q) {
                    crate::condition::lemma_children_apart(p, 1, 2, q, q);
                } else {
                    crate::condition::lemma_children_apart(p, 0, 2, q, q);
                }
            }
        }
        lemma_replies_fit_none(*x, names, replies, u, p.push(2));
    }
}

/// Resolves the operand at position `p` of a comparison to a value (see
/// [`resolve_answered`]); a function that is not bound gives `Void`.
fn resolve_node(
    cond: &IfCondition,
    functions: &MortarFunctionRegistry,
    variable_state: &MortarVariableState,
    Ghost(p): Ghost<Seq<int>>,
    log: &mut Ghost<CallLog>,
) -> (r: (MortarValue, Ghost<Answers>))
    ensures
        final(log)@ == old(log)@ + operand_call(*cond),
        r.1@.dom().subset_of(bound_calls(*cond, registered_names(*functions), p)),
        forall|a: Answers|
            answers_fit(*cond, registered_names(*functions), a, p) && extends(a, r.1@) ==> r.0@ == resolve_answered(
                *cond,
                variable_state@.variables,
                a,
                p,
            ),
        replies_fit(*cond, registered_names(*functions), host_replies(*functions), r.1@, p),
{
    if text_eq(cond.cond_type.as_str(), "func_call") {
        let (result, rec) = call_at(cond, functions, Ghost(p), log);
        let v = match result {
            Some(v) => v,
            None => MortarValue::Void,
        };
        (v, rec)
    } else {
        let v = resolve_plain(cond, variable_state);
        let ghost rec = Map::<Seq<int>, ValueView>::empty();
        assert(rec.dom() =~= Set::<Seq<int>>::empty());
        proof {
            lemma_replies_fit_none(*cond, registered_names(*functions), host_replies(*functions), rec, p);
        }
        (v, Ghost(rec))
    }
}

/// Two answer records from different children of `p` merged.
proof fn lemma_merge(
    c: IfCondition,
    names: Set<Seq<char>>,
    p: Seq<int>,
    l: IfCondition,
    r: IfCondition,
    rec_l: Answers,
    rec_r: Answers,
)
    requires
        c.left == Some(Box::new(l)),
        c.right == Some(Box::new(r)),
        rec_l.dom().subset_of(bound_calls(l, names, p.push(0))),
        rec_r.dom().subset_of(bound_calls(r, names, p.push(1))),
    ensures
        rec_l.union_prefer_right(rec_r).dom().subset_of(bound_calls(c, names, p)),
        forall|a: Answers| extends(a, rec_l.union_prefer_right(rec_r)) ==> extends(a, rec_l) && extends(a, rec_r),
{
    crate::condition::lemma_bound_calls_prefix(l, names, p.push(0));
    crate::condition::lemma_bound_calls_prefix(r, names, p.push(1));
    let u = rec_l.union_prefer_right(rec_r);
    assert forall|a: Answers| extends(a, u) implies extends(a, rec_l) && extends(a, rec_r) by {
        assert forall|q: Seq<int>| #[trigger] rec_l.contains_key(q) implies a.contains_key(q) && a[q] == rec_l[q] by {
            assert(u.contains_key(q));
            if rec_r.contains_key(q) {
                crate::condition::lemma_children_apart(p, 0, 1, q, q);
            }
        }
        assert forall|q: Seq<int>| #[trigger] rec_r.contains_key(q) implies a.contains_key(q) && a[q] == rec_r[q] by {
            assert(u.contains_key(q));
        }
    }
}

/// Evaluates the condition at position `p`, calling bound functions
/// where it calls them, and records their answers.
fn eval_node(
    condition: &IfCondition,
    functions: &MortarFunctionRegistry,
    variable_state: &MortarVariableState,
    Ghost(p): Ghost<Seq<int>>,
    log: &mut Ghost<CallLog>,
) -> (r: (bool, Ghost<Answers>))
    ensures
        forall|a: Answers|
            answers_fit(*condition, registered_names(*functions), a, p) && extends(a, r.1@) ==> final(log)@ == old(
                log,
            )@ + calls_made(*condition, variable_state@.variables, a, p),
        r.1@.dom().subset_of(bound_calls(*condition, registered_names(*functions), p)),
        forall|a: Answers|
            answers_fit(*condition, registered_names(*functions), a, p) && extends(a, r.1@) ==> r.0
                == eval_answered(*condition, variable_state@.variables, a, p),
        replies_fit(*condition, registered_names(*functions), host_replies(*functions), r.1@, p),
    decreases condition,
{
    let ghost names = registered_names(*functions);
    let ghost replies = host_replies(*functions);
    let ghost vars = variable_state@.variables;
    let ghost empty = Map::<Seq<int>, ValueView>::empty();
    let ghost log0 = log@;
    assert(empty.dom() =~= Set::<Seq<int>>::empty());
    assert(log0 + Seq::<(Seq<char>, Seq<ValueView>)>::empty() =~= log0);
    proof {
        lemma_replies_fit_none(*condition, names, replies, empty, p);
    }
    proof {
        assert forall|a: Answers| answers_fit(*condition, names, a, p) implies (condition.left matches Some(x)
            ==> answers_fit(*x, names, a, p.push(0))) && (condition.right matches Some(x) ==> answers_fit(
            *x,
            names,
            a,
            p.push(1),
        )) && (condition.operand matches Some(x) ==> answers_fit(*x, names, a, p.push(2))) by {
            crate::condition::lemma_fit_child(*condition, names, a, p);
        }
    }
    let t = condition.cond_type.as_str();
    if text_eq(t, "func_call") {
        let (result, rec) = call_at(condition, functions, Ghost(p), log);
        (call_outcome(&result), rec)
    } else if text_eq(t, "binary") {
        match (&condition.left, &condition.right) {
            (Some(l), Some(r)) => {
                if opt_is(&condition.operator, "&&") || opt_is(&condition.operator, "||") {
                    let is_and = opt_is(&condition.operator, "&&");
                    let (lv, rec_l) = eval_node(l, functions, variable_state, Ghost(p.push(0)), log);
                    let ghost log1 = log@;
                    if (is_and && !lv) || (!is_and && lv) {
                        proof {
                            assert forall|a: Answers| answers_fit(*condition, names, a, p) && extends(a, rec_l@) implies log@
                                == log0 + calls_made(*condition, vars, a, p) by {
                                assert(answers_fit(**l, names, a, p.push(0)));
                                assert(lv == eval_answered(**l, vars, a, p.push(0)));
                            }
                            assert forall|a: Answers| answers_fit(*condition, names, a, p) && extends(a, rec_l@) implies lv
                                == eval_answered(*condition, vars, a, p) by {
                                assert(answers_fit(**l, names, a, p.push(0)));
                                assert(lv == eval_answered(**l, vars, a, p.push(0)));
                            }
                            assert(child(*condition, 0) == Some(**l));
                            lemma_fit_one(*condition, names, replies, p, 0, **l, rec_l@);
                        }
                        return (lv, rec_l);
                    }
                    let (rv, rec_r) = eval_node(r, functions, variable_state, Ghost(p.push(1)), log);
                    let ghost merged = rec_l@.union_prefer_right(rec_r@);
                    proof {
                        lemma_merge(*condition, names, p, **l, **r, rec_l@, rec_r@);
                        lemma_fit_merged(*condition, names, replies, p, **l, **r, rec_l@, rec_r@);
                        assert forall|a: Answers| answers_fit(*condition, names, a, p) && extends(a, merged) implies log@
                            == log0 + calls_made(*condition, vars, a, p) by {
                            assert(answers_fit(**l, names, a, p.push(0)));
                            assert(answers_fit(**r, names, a, p.push(1)));
                            assert(extends(a, rec_l@) && extends(a, rec_r@));
                            assert(lv == eval_answered(**l, vars, a, p.push(0)));
                            assert(log1 == log0 + calls_made(**l, vars, a, p.push(0)));
                            assert(log@ == log1 + calls_made(**r, vars, a, p.push(1)));
                            assert(log@ =~= log0 + (calls_made(**l, vars, a, p.push(0)) + calls_made(
                                **r,
                                vars,
                                a,
                                p.push(1),
                            )));
                        }
                        assert forall|a: Answers| answers_fit(*condition, names, a, p) && extends(a, merged) implies rv
                            == eval_answered(*condition, vars, a, p) by {
                            assert(answers_fit(**l, names, a, p.push(0)));
                            assert(answers_fit(**r, names, a, p.push(1)));
                            assert(extends(a, rec_l@) && extends(a, rec_r@));
                            assert(lv == eval_answered(**l, vars, a, p.push(0)));
                            assert(rv == eval_answered(**r, vars, a, p.push(1)));
                        }
                    }
                    (rv, Ghost(merged))
                } else if text_eq(l.cond_type.as_str(), "func_call") || text_eq(r.cond_type.as_str(), "func_call") {
                    let (lv, rec_l) = resolve_node(l, functions, variable_state, Ghost(p.push(0)), log);
                    let ghost log1 = log@;
                    let (rv, rec_r) = resolve_node(r, functions, variable_state, Ghost(p.push(1)), log);
                    proof {
                        assert(log@ =~= log0 + (operand_call(**l) + operand_call(**r)));
                    }
                    let ghost merged = rec_l@.union_prefer_right(rec_r@);
                    let result = compare_mortar_values(&lv, &rv, &condition.operator);
                    proof {
                        lemma_merge(*condition, names, p, **l, **r, rec_l@, rec_r@);
                        lemma_fit_merged(*condition, names, replies, p, **l, **r, rec_l@, rec_r@);
                        assert forall|a: Answers| answers_fit(*condition, names, a, p) && extends(a, merged) implies result
                            == eval_answered(*condition, vars, a, p) by {
                            assert(answers_fit(**l, names, a, p.push(0)));
                            assert(answers_fit(**r, names, a, p.push(1)));
                            assert(extends(a, rec_l@) && extends(a, rec_r@));
                            assert(lv@ == resolve_answered(**l, vars, a, p.push(0)));
                            assert(rv@ == resolve_answered(**r, vars, a, p.push(1)));
                        }
                    }
                    (result, Ghost(merged))
                } else {
                    (variable_state.evaluate_condition(condition), Ghost(empty))
                }
            },
            _ => (false, Ghost(empty)),
        }
    } else if text_eq(t, "unary") {
        match &condition.operand {
            Some(o) => {
                let (inner, rec) = eval_node(o, functions, variable_state, Ghost(p.push(2)), log);
                let result = if opt_is(&condition.operator, "!") {
                    !inner
                } else {
                    false
                };
                proof {
                    assert forall|a: Answers| answers_fit(*condition, names, a, p) && extends(a, rec@) implies result
                        == eval_answered(*condition, vars, a, p) && log@ == log0 + calls_made(*condition, vars, a, p) by {
                        assert(answers_fit(**o, names, a, p.push(2)));
                        assert(inner == eval_answered(**o, vars, a, p.push(2)));
                    }
                    assert(rec@.dom().subset_of(bound_calls(*condition, names, p)));
                    assert(child(*condition, 2) == Some(**o));
                    lemma_fit_one(*condition, names, replies, p, 2, **o, rec@);
                }
                (result, rec)
            },
            None => (false, Ghost(empty)),
        }
    } else {
        (variable_state.evaluate_condition(condition), Ghost(empty))
    }
}

/// Evaluates the condition of an `if`, calling bound functions where it
/// calls them (see [`eval_answered`]).
///
/// A `func_call` node is true when its function is bound and returns a
/// truthy value; `&&` and `||` evaluate their right side only when needed;
/// a comparison with a function call on either side compares the resolved
/// values; every other node is evaluated over the variables. A node that
/// lacks a part it needs is false. The result is the condition's value for
/// the answers the bound functions gave, which exist exactly for the calls
/// of bound functions; when no bound function is called it is
/// [`condition_eval`] with no functions.
pub fn evaluate_if_condition(
    condition: &IfCondition,
    functions: &MortarFunctionRegistry,
    variable_state: &MortarVariableState,
) -> (r: bool)
    ensures
        exists|answers: Answers|
            answers_fit(*condition, registered_names(*functions), answers, Seq::<int>::empty()) && r
                == #[trigger] eval_answered(*condition, variable_state@.variables, answers, Seq::<int>::empty()),
        calls_unbound(*condition, registered_names(*functions)) ==> r == condition_eval(
            *condition,
            variable_state@.variables,
            no_calls(),
        ),
        exists|rec: Answers|
            replies_fit(*condition, registered_names(*functions), host_replies(*functions), rec, Seq::<int>::empty())
                && #[trigger] decided_by(
                *condition,
                variable_state@.variables,
                registered_names(*functions),
                rec,
                Seq::<int>::empty(),
                r,
            ),
{
    let mut log: Ghost<CallLog> = Ghost(Seq::empty());
    evaluate_if_condition_with_calls(condition, functions, variable_state, &mut log)
}

/// [`evaluate_if_condition`], with the calls it makes added to `log`: for
/// the answers the bound functions gave, exactly the calls of
/// [`calls_made`], in order (so a condition without a call node makes
/// none, and a call node calls its function once).
pub fn evaluate_if_condition_with_calls(
    condition: &IfCondition,
    functions: &MortarFunctionRegistry,
    variable_state: &MortarVariableState,
    log: &mut Ghost<CallLog>,
) -> (r: bool)
    ensures
        exists|answers: Answers|
            answers_fit(*condition, registered_names(*functions), answers, Seq::<int>::empty()) && r
                == #[trigger] eval_answered(*condition, variable_state@.variables, answers, Seq::<int>::empty())
                && final(log)@ == old(log)@ + calls_made(*condition, variable_state@.variables, answers, Seq::<int>::empty()),
        calls_unbound(*condition, registered_names(*functions)) ==> r == condition_eval(
            *condition,
            variable_state@.variables,
            no_calls(),
        ),
        exists|rec: Answers|
            replies_fit(*condition, registered_names(*functions), host_replies(*functions), rec, Seq::<int>::empty())
                && #[trigger] decided_by(
                *condition,
                variable_state@.variables,
                registered_names(*functions),
                rec,
                Seq::<int>::empty(),
                r,
            ),
{
    let ghost names = registered_names(*functions);
    let ghost root = Seq::<int>::empty();
    let (r, rec) = eval_node(condition, functions, variable_state, Ghost(root), log);
    proof {
        assert(decided_by(*condition, variable_state@.variables, names, rec@, root, r));
    }
    proof {
        let bound = bound_calls(*condition, names, root);
        let filler = Map::<Seq<int>, ValueView>::new(|q: Seq<int>| bound.contains(q), |q: Seq<int>| ValueView::Void);
        let a = filler.union_prefer_right(rec@);
        assert forall|q: Seq<int>| has_prefix(q, root) implies (#[trigger] a.contains_key(q) <==> bound.contains(q)) by {
            if rec@.contains_key(q) {
                assert(rec@.dom().contains(q));
            }
        }
        assert(answers_fit(*condition, names, a, root));
        assert(extends(a, rec@));
        assert(r == eval_answered(*condition, variable_state@.variables, a, root));
        if calls_unbound(*condition, names) {
            crate::condition::lemma_unbound_answers(*condition, variable_state@.variables, names, a, root);
        }
    }
    r
}

fn opt_is(o: &Option<String>, lit: &str) -> (r: bool)
    ensures
        r == (opt_text(*o) == Some(lit@)),
{
    match o {
        Some(s) => text_eq(s.as_str(), lit),
        None => false,
    }
}

/// Evaluates the condition of a choice by calling the bound function it
/// names with its arguments; a function that is not bound gives false.
pub fn evaluate_condition(
    condition: &Condition,
    functions: &MortarFunctionRegistry,
    _function_decls: &Vec<Function>,
) -> (r: bool)
    ensures
        !registered_names(*functions).contains(condition.condition_type@) ==> !r,
        exists|reply: Option<ValueView>|
            (reply is Some <==> registered_names(*functions).contains(condition.condition_type@)) && (reply matches Some(
                v,
            ) ==> host_replies(*functions).contains((condition.condition_type@, parsed_args(condition.args@), v)))
                && r == #[trigger] outcome_truthy(reply),
{
    let args = parse_args(&condition.args);
    proof {
        assert(args_view(args@) =~= parsed_args(condition.args@));
    }
    let result = functions.call(condition.condition_type.as_str(), args.as_slice());
    let r = call_outcome(&result);
    proof {
        let reply = match result {
            Some(v) => Some(v@),
            None => None::<ValueView>,
        };
        assert(r == outcome_truthy(reply));
    }
    r
}

/// Processes interpolated text: plain parts as they are, expressions by
/// calling their function (or the default of its declared return type when
/// it is not bound), placeholders by the variable or branch they name.
/// Without interpolated parts the text is the plain value.
pub fn process_interpolated_text(
    text_data: &TextData,
    functions: &MortarFunctionRegistry,
    function_decls: &Vec<Function>,
    variable_state: &MortarVariableState,
) -> (r: String)
    ensures
        text_data.interpolated_parts is None ==> r@ == text_data.value@,
        text_data.interpolated_parts matches Some(parts) ==> exists|outcomes: Seq<Option<ValueView>>|
            outcomes_fit(parts@, outcomes, registered_names(*functions)) && outcomes_replied(
                parts@,
                outcomes,
                host_replies(*functions),
            ) && r@ == #[trigger] interpolate_spec(
                parts@,
                variable_state@,
                function_decls@,
                outcomes,
            ),
{
    let parts = match &text_data.interpolated_parts {
        Some(p) => p,
        None => {
            return text_data.value.clone();
        },
    };
    let ghost names = registered_names(*functions);
    let ghost mut outcomes: Seq<Option<ValueView>> = Seq::empty();
    let mut result = String::new();
    let mut i: usize = 0;
    while i < parts.len()
        invariant
            i <= parts@.len(),
            names == registered_names(*functions),
            outcomes_fit(parts@.subrange(0, i as int), outcomes, names),
            outcomes_replied(parts@.subrange(0, i as int), outcomes, host_replies(*functions)),
            result@ == interpolate_spec(parts@.subrange(0, i as int), variable_state@, function_decls@, outcomes),
        decreases parts@.len() - i,
    {
        let part = &parts[i];
        let (piece, outcome) = interpolate_part(part, functions, function_decls, variable_state);
        result.append(piece.as_str());
        proof {
            let pre = parts@.subrange(0, i as int);
            let next = parts@.subrange(0, i + 1);
            let outs = outcomes.push(outcome@);
            assert(next.drop_last() =~= pre);
            assert(next.last() == parts@[i as int]);
            assert(interpolate_spec(pre, variable_state@, function_decls@, outs) == interpolate_spec(
                pre,
                variable_state@,
                function_decls@,
                outcomes,
            )) by {
                lemma_interpolate_prefix(pre, variable_state@, function_decls@, outcomes, outs);
            }
            assert forall|j: int| 0 <= j < next.len() implies match #[trigger] part_call(next[j]) {
                Some(f) => (outs[j] is Some <==> names.contains(f)),
                None => true,
            } by {
                if j < i {
                    assert(next[j] == pre[j]);
                }
            }
            assert forall|j: int|
                0 <= j < next.len() && j < outs.len() && #[trigger] part_call(next[j]) is Some && outs[j] is Some
                    implies host_replies(*functions).contains((part_call(next[j])->0, parsed_args(next[j].args@), outs[j]->0)) by {
                if j < i {
                    assert(next[j] == pre[j]);
                }
            }
            outcomes = outs;
        }
        i = i + 1;
    }
    assert(parts@.subrange(0, parts@.len() as int) =~= parts@);
    result
}

/// The interpolated text of `parts` reads only the outcomes of its own
/// parts.
proof fn lemma_interpolate_prefix(
    parts: Seq<StringPart>,
    st: VariableStateView,
    decls: Seq<Function>,
    a: Seq<Option<ValueView>>,
    b: Seq<Option<ValueView>>,
)
    requires
        a.len() >= parts.len(),
        b.len() >= parts.len(),
        forall|j: int| 0 <= j < parts.len() ==> a[j] == b[j],
    ensures
        interpolate_spec(parts, st, decls, a) == interpolate_spec(parts, st, decls, b),
    decreases parts.len(),
{
    if parts.len() > 0 {
        lemma_interpolate_prefix(parts.drop_last(), st, decls, a, b);
    }
}

/// Interpolation works part by part: the text of two runs of parts one
/// after the other is the text of the first followed by that of the
/// second, each part with its own outcome.
pub proof fn lemma_interpolate_concat(
    p1: Seq<StringPart>,
    p2: Seq<StringPart>,
    st: VariableStateView,
    decls: Seq<Function>,
    o1: Seq<Option<ValueView>>,
    o2: Seq<Option<ValueView>>,
)
    requires
        o1.len() == p1.len(),
        o2.len() == p2.len(),
    ensures
        interpolate_spec(p1 + p2, st, decls, o1 + o2) == interpolate_spec(p1, st, decls, o1) + interpolate_spec(
            p2,
            st,
            decls,
            o2,
        ),
    decreases p2.len(),
{
    if p2.len() == 0 {
        assert(p1 + p2 =~= p1);
        assert(o1 + o2 =~= o1);
        assert(interpolate_spec(p1, st, decls, o1) + Seq::<char>::empty() =~= interpolate_spec(p1, st, decls, o1));
    } else {
        let q2 = p2.drop_last();
        let r2 = o2.drop_last();
        lemma_interpolate_concat(p1, q2, st, decls, o1, r2);
        assert((p1 + p2).drop_last() =~= p1 + q2);
        assert((p1 + p2).last() == p2.last());
        lemma_interpolate_prefix(p1 + q2, st, decls, o1 + o2, o1 + r2);
        lemma_interpolate_prefix(q2, st, decls, o2, r2);
        assert((o1 + o2)[(p1 + p2).len() - 1] == o2[p2.len() - 1]);
        let a = interpolate_spec(p1, st, decls, o1);
        let b = interpolate_spec(q2, st, decls, r2);
        let t = part_text(p2.last(), st, decls, o2[p2.len() - 1]);
        assert(a + b + t =~= a + (b + t));
    }
}

/// Interpolation reads an outcome only through the text of its part.
proof fn lemma_interpolate_same_texts(
    parts: Seq<StringPart>,
    st: VariableStateView,
    decls: Seq<Function>,
    a: Seq<Option<ValueView>>,
    b: Seq<Option<ValueView>>,
)
    requires
        a.len() >= parts.len(),
        b.len() >= parts.len(),
        forall|i: int| 0 <= i < parts.len() ==> part_text(parts[i], st, decls, a[i]) == part_text(parts[i], st, decls, b[i]),
    ensures
        interpolate_spec(parts, st, decls, a) == interpolate_spec(parts, st, decls, b),
    decreases parts.len(),
{
    if parts.len() > 0 {
        let pre = parts.drop_last();
        assert forall|i: int| 0 <= i < pre.len() implies part_text(pre[i], st, decls, a[i]) == part_text(pre[i], st, decls, b[i]) by {
            assert(pre[i] == parts[i]);
        }
        lemma_interpolate_same_texts(pre, st, decls, a, b);
    }
}

/// Interpolating with host functions that answer alike is interpolating
/// part by part: the text of two runs of parts one after the other is the
/// text of the first followed by that of the second, whatever calls each
/// interpolation made (with no parts the text is empty).
pub proof fn lemma_interpolate_calls_concat(
    p1: Seq<StringPart>,
    p2: Seq<StringPart>,
    st: VariableStateView,
    decls: Seq<Function>,
    names: Set<Seq<char>>,
    replies: Replies,
    o1: Seq<Option<ValueView>>,
    o2: Seq<Option<ValueView>>,
    o12: Seq<Option<ValueView>>,
)
    requires
        replies_deterministic(replies),
        outcomes_fit(p1, o1, names),
        outcomes_replied(p1, o1, replies),
        outcomes_fit(p2, o2, names),
        outcomes_replied(p2, o2, replies),
        outcomes_fit(p1 + p2, o12, names),
        outcomes_replied(p1 + p2, o12, replies),
    ensures
        interpolate_spec(p1 + p2, st, decls, o12) == interpolate_spec(p1, st, decls, o1) + interpolate_spec(
            p2,
            st,
            decls,
            o2,
        ),
        interpolate_spec(Seq::<StringPart>::empty(), st, decls, o1) == Seq::<char>::empty(),
{
    let pp = p1 + p2;
    let o = o1 + o2;
    assert forall|i: int| 0 <= i < pp.len() implies part_text(pp[i], st, decls, o12[i]) == part_text(pp[i], st, decls, o[i]) by {
        if i < p1.len() {
            assert(pp[i] == p1[i]);
            assert(o[i] == o1[i]);
        } else {
            assert(pp[i] == p2[i - p1.len()]);
            assert(o[i] == o2[i - p1.len()]);
        }
        if part_call(pp[i]) is Some {
            let f = part_call(pp[i])->0;
            let args = parsed_args(pp[i].args@);
            if o12[i] is Some && o[i] is Some {
                assert(replies.contains((f, args, o12[i]->0)));
                if i < p1.len() {
                    assert(replies.contains((f, args, o1[i]->0)));
                } else {
                    assert(replies.contains((f, args, o2[i - p1.len()]->0)));
                }
            }
        }
    }
    lemma_interpolate_same_texts(pp, st, decls, o12, o);
    lemma_interpolate_concat(p1, p2, st, decls, o1, o2);
}

/// One interpolated part: its text, and the outcome of the call it made.
fn interpolate_part(
    part: &StringPart,
    functions: &MortarFunctionRegistry,
    function_decls: &Vec<Function>,
    variable_state: &MortarVariableState,
) -> (r: (String, Ghost<Option<ValueView>>))
    ensures
        r.0@ == part_text(*part, variable_state@, function_decls@, r.1@),
        match part_call(*part) {
            Some(f) => (r.1@ is Some <==> registered_names(*functions).contains(f)),
            None => true,
        },
        part_call(*part) is Some && r.1@ is Some ==> host_replies(*functions).contains(
            (part_call(*part)->0, parsed_args(part.args@), r.1@->0),
        ),
{
    let kind = part.part_type.as_str();
    if text_eq(kind, "expression") {
        match &part.function_name {
            Some(f) => {
                let args = parse_args(&part.args);
                proof {
                    assert(args_view(args@) =~= parsed_args(part.args@));
                }
                let result = functions.call(f.as_str(), args.as_slice());
                match result {
                    Some(v) => {
                        let shown = v.to_display_string();
                        (shown, Ghost(Some(v@)))
                    },
                    None => {
                        let rt = find_return_type(function_decls, f.as_str());
                        (get_default_return_value(rt.as_str()), Ghost(None))
                    },
                }
            },
            None => (part.content.clone(), Ghost(None)),
        }
    } else if text_eq(kind, "placeholder") {
        let name = trim_class(TrimClass::Braces, part.content.as_str());
        match variable_state.get(name.as_str()) {
            Some(v) => (v.to_display_string(), Ghost(None)),
            None => match variable_state.get_branch_text(name.as_str()) {
                Some(t) => (t, Ghost(None)),
                None => (part.content.clone(), Ghost(None)),
            },
        }
    } else {
        (part.content.clone(), Ghost(None))
    }
}

} // verus!
