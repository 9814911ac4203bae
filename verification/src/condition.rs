//! Conditions of Mortar scripts and what they evaluate to.
//!
//! [`IfCondition`] is the expression tree of an `if` (binary and unary
//! operators, identifiers, literals, enum members and calls of bound
//! functions). The spec functions here define its value over the variables
//! of a dialogue and the results bound functions give.

use vstd::prelude::*;
use crate::number::{is_nan_bits, less_equal_bits, less_than_bits, nearly_equal_bits, order_key, NumberView};
use crate::text::words_spec;
use crate::value::{
    lexeme_number, parse_spec, truthy_spec, variable_display_spec, Lexeme, ValueView, VariableView,
};

verus! {

/// A conditional expression of an `if` (the tree a compiled script carries).
///
/// The argument list of a function call is read from the whitespace-separated
/// words of its `right` node's `value`; `value_words` gives the number each of
/// those words reads as (an entry counts for the word at its position when
/// its text is that word).
#[derive(Debug)]
pub struct IfCondition {
    pub cond_type: String,
    pub operator: Option<String>,
    pub left: Option<Box<IfCondition>>,
    pub right: Option<Box<IfCondition>>,
    pub operand: Option<Box<IfCondition>>,
    pub value: Option<Lexeme>,
    pub value_words: Vec<Lexeme>,
}

impl Clone for IfCondition {
    /// A copy of the tree, node by node.
    fn clone(&self) -> (r: Self)
        decreases self,
    {
        let left = match &self.left {
            Some(l) => Some(Box::new((**l).clone())),
            None => None,
        };
        let right = match &self.right {
            Some(x) => Some(Box::new((**x).clone())),
            None => None,
        };
        let operand = match &self.operand {
            Some(o) => Some(Box::new((**o).clone())),
            None => None,
        };
        IfCondition {
            cond_type: self.cond_type.clone(),
            operator: self.operator.clone(),
            left,
            right,
            operand,
            value: self.value.clone(),
            value_words: self.value_words.clone(),
        }
    }
}

/// A condition on a choice: a bound function and its arguments.
#[derive(Debug, Clone)]
pub struct Condition {
    pub condition_type: String,
    pub args: Vec<Lexeme>,
}

/// The variables a condition reads, by name.
pub type VariableMap = Map<Seq<char>, VariableView>;

/// What bound functions answer: a result for a name and arguments, or none
/// when no function of that name is bound.
pub type CallResults = spec_fn(Seq<char>, Seq<ValueView>) -> Option<ValueView>;

pub open spec fn opt_text(o: Option<String>) -> Option<Seq<char>> {
    match o {
        Some(s) => Some(s@),
        None => None,
    }
}

pub open spec fn is_type(c: IfCondition, t: Seq<char>) -> bool {
    c.cond_type@ == t
}

pub open spec fn op_is(c: IfCondition, t: Seq<char>) -> bool {
    opt_text(c.operator) == Some(t)
}

/// `cond_type` is `unary` and the operator `!`.
pub open spec fn is_unary_not(c: IfCondition) -> bool {
    is_type(c, "unary"@) && op_is(c, "!"@)
}

/// The variable value a number, string or boolean converts to as a value.
pub open spec fn variable_as_value(v: VariableView) -> ValueView {
    match v {
        VariableView::String(s) => ValueView::String(s),
        VariableView::Number(n) => ValueView::Number(n),
        VariableView::Boolean(b) => ValueView::Boolean(b),
    }
}

/// The number an operand stands for, as `MortarVariableState` reads it: a
/// literal, an identifier that reads as a number, or a numeric variable.
pub open spec fn numeric_operand(c: IfCondition, vars: VariableMap) -> Option<NumberView> {
    if is_type(c, "identifier"@) {
        match c.value {
            Some(l) => match lexeme_number(l) {
                Some(n) => Some(n),
                None => if vars.contains_key(l.text@) && vars[l.text@] is Number {
                    Some(vars[l.text@]->Number_0)
                } else {
                    None
                },
            },
            None => None,
        }
    } else if is_type(c, "literal"@) {
        match c.value {
            Some(l) => lexeme_number(l),
            None => None,
        }
    } else {
        None
    }
}

/// The text an operand stands for in an equality: the displayed value of a
/// variable, or the text of an enum member or literal.
pub open spec fn string_operand(c: IfCondition, vars: VariableMap) -> Option<Seq<char>> {
    if is_type(c, "identifier"@) {
        match c.value {
            Some(l) => if vars.contains_key(l.text@) {
                Some(variable_display_spec(vars[l.text@]))
            } else {
                None
            },
            None => None,
        }
    } else if is_type(c, "enum_member"@) || is_type(c, "literal"@) {
        match c.value {
            Some(l) => Some(l.text@),
            None => None,
        }
    } else {
        None
    }
}

/// Numeric comparison by operator text.
pub open spec fn compare_numbers_spec(op: Seq<char>, a: NumberView, b: NumberView) -> bool {
    if op == ">"@ {
        less_than_bits(b.bits, a.bits)
    } else if op == "<"@ {
        less_than_bits(a.bits, b.bits)
    } else if op == ">="@ {
        less_equal_bits(b.bits, a.bits)
    } else if op == "<="@ {
        less_equal_bits(a.bits, b.bits)
    } else {
        false
    }
}

/// `a == b` in IEEE-754 binary64 arithmetic: neither is NaN and both
/// stand at the same place in the order (`-0.0 == +0.0`).
pub open spec fn ieee_equal_bits(a: u64, b: u64) -> bool {
    !is_nan_bits(a) && !is_nan_bits(b) && order_key(a) == order_key(b)
}

/// The ordering comparisons of numbers follow IEEE-754: `<=` holds exactly
/// when `<` or equality does, and `>=` exactly when `>` or equality does;
/// `a < b` is `b > a` and `a <= b` is `b >= a`; between numbers that are
/// not NaN, `<=` is the negation of `>` and `>=` that of `<`; a number that
/// is not NaN is `<=` and `>=` itself and neither `<` nor `>` it; NaN
/// compares false every way.
pub proof fn lemma_compare_numbers_order(a: NumberView, b: NumberView)
    ensures
        compare_numbers_spec("<="@, a, b) == (compare_numbers_spec("<"@, a, b) || ieee_equal_bits(a.bits, b.bits)),
        compare_numbers_spec(">="@, a, b) == (compare_numbers_spec(">"@, a, b) || ieee_equal_bits(a.bits, b.bits)),
        compare_numbers_spec("<"@, a, b) == compare_numbers_spec(">"@, b, a),
        compare_numbers_spec("<="@, a, b) == compare_numbers_spec(">="@, b, a),
        !is_nan_bits(a.bits) && !is_nan_bits(b.bits) ==> {
            &&& compare_numbers_spec("<="@, a, b) == !compare_numbers_spec(">"@, a, b)
            &&& compare_numbers_spec(">="@, a, b) == !compare_numbers_spec("<"@, a, b)
            &&& (compare_numbers_spec("<"@, a, b) || compare_numbers_spec(">"@, a, b) || ieee_equal_bits(a.bits, b.bits))
        },
        !is_nan_bits(a.bits) ==> compare_numbers_spec("<="@, a, a) && compare_numbers_spec(">="@, a, a),
        !compare_numbers_spec("<"@, a, a) && !compare_numbers_spec(">"@, a, a),
        is_nan_bits(a.bits) || is_nan_bits(b.bits) ==> {
            &&& !compare_numbers_spec("<"@, a, b)
            &&& !compare_numbers_spec("<="@, a, b)
            &&& !compare_numbers_spec(">"@, a, b)
            &&& !compare_numbers_spec(">="@, a, b)
        },
{
    reveal_strlit("<");
    reveal_strlit("<=");
    reveal_strlit(">");
    reveal_strlit(">=");
    assert("<"@ != ">"@) by {
        assert("<"@[0] != ">"@[0]);
    }
    assert("<="@ != ">="@) by {
        assert("<="@[0] != ">="@[0]);
    }
    assert("<="@.len() != ">"@.len() && "<="@.len() != "<"@.len());
    assert(">="@.len() != ">"@.len() && ">="@.len() != "<"@.len());
    assert("<="@ != ">"@ && "<="@ != "<"@);
    assert(">="@ != ">"@ && ">="@ != "<"@);
}

/// A comparison `l <= r` (or `l >= r`) between numeric operands in a
/// condition over variables holds exactly when `l < r` (`l > r`) holds in
/// IEEE-754 order or the two are equal; `l < r` and `l > r` are strict.
pub proof fn lemma_condition_number_order(c: IfCondition, vars: VariableMap, a: NumberView, b: NumberView)
    requires
        is_type(c, "binary"@),
        c.left matches Some(l) && numeric_operand(*l, vars) == Some(a),
        c.right matches Some(r) && numeric_operand(*r, vars) == Some(b),
    ensures
        op_is(c, "<="@) ==> (variable_eval(c, vars) <==> less_than_bits(a.bits, b.bits) || ieee_equal_bits(a.bits, b.bits)),
        op_is(c, ">="@) ==> (variable_eval(c, vars) <==> less_than_bits(b.bits, a.bits) || ieee_equal_bits(a.bits, b.bits)),
        op_is(c, "<"@) ==> (variable_eval(c, vars) <==> less_than_bits(a.bits, b.bits)),
        op_is(c, ">"@) ==> (variable_eval(c, vars) <==> less_than_bits(b.bits, a.bits)),
        op_is(c, "<="@) ==> (compare_values_spec(ValueView::Number(a), ValueView::Number(b), opt_text(c.operator))
            <==> less_than_bits(a.bits, b.bits) || ieee_equal_bits(a.bits, b.bits)),
        op_is(c, ">="@) ==> (compare_values_spec(ValueView::Number(a), ValueView::Number(b), opt_text(c.operator))
            <==> less_than_bits(b.bits, a.bits) || ieee_equal_bits(a.bits, b.bits)),
{
    lemma_compare_numbers_order(a, b);
    reveal_strlit("<");
    reveal_strlit("<=");
    reveal_strlit(">");
    reveal_strlit(">=");
    reveal_strlit("&&");
    reveal_strlit("||");
    reveal_strlit("==");
    reveal_strlit("!=");
    match opt_text(c.operator) {
        Some(o) => {
            if o == "<="@ || o == ">="@ || o == "<"@ || o == ">"@ {
                assert(o[0] == '<' || o[0] == '>');
                assert(o[0] != "&&"@[0] && o[0] != "||"@[0] && o[0] != "=="@[0] && o[0] != "!="@[0]);
                assert(o != "&&"@ && o != "||"@ && o != "=="@ && o != "!="@);
            }
        },
        None => {},
    }
}

/// `==` (when `expect_equal`) or `!=` between two operands: numbers compare
/// with the tolerance comparison, else their texts compare; operands that
/// give neither make it false.
pub open spec fn equality_spec(l: IfCondition, r: IfCondition, vars: VariableMap, expect_equal: bool) -> bool {
    match (numeric_operand(l, vars), numeric_operand(r, vars)) {
        (Some(a), Some(b)) => if expect_equal {
            nearly_equal_bits(a.bits, b.bits)
        } else {
            !nearly_equal_bits(a.bits, b.bits)
        },
        _ => match (string_operand(l, vars), string_operand(r, vars)) {
            (Some(a), Some(b)) => if expect_equal {
                a == b
            } else {
                a != b
            },
            _ => false,
        },
    }
}

/// The value of a condition over variables alone (`MortarVariableState::
/// evaluate_condition`): function calls count as false there.
pub open spec fn variable_eval(c: IfCondition, vars: VariableMap) -> bool
    decreases c,
{
    if is_type(c, "binary"@) {
        match (c.left, c.right, c.operator) {
            (Some(l), Some(r), Some(op)) => if op@ == "&&"@ {
                variable_eval(*l, vars) && variable_eval(*r, vars)
            } else if op@ == "||"@ {
                variable_eval(*l, vars) || variable_eval(*r, vars)
            } else if op@ == "=="@ {
                equality_spec(*l, *r, vars, true)
            } else if op@ == "!="@ {
                equality_spec(*l, *r, vars, false)
            } else {
                match (numeric_operand(*l, vars), numeric_operand(*r, vars)) {
                    (Some(a), Some(b)) => compare_numbers_spec(op@, a, b),
                    _ => false,
                }
            },
            _ => false,
        }
    } else if is_type(c, "unary"@) {
        match c.operand {
            Some(o) => if op_is(c, "!"@) {
                !variable_eval(*o, vars)
            } else {
                false
            },
            None => false,
        }
    } else if is_type(c, "identifier"@) {
        match c.value {
            Some(l) => vars.contains_key(l.text@) && vars[l.text@] == VariableView::Boolean(true),
            None => false,
        }
    } else if is_type(c, "literal"@) {
        match c.value {
            Some(l) => l.text@ == "true"@,
            None => false,
        }
    } else {
        false
    }
}

/// The name of the function a `func_call` node calls.
pub open spec fn call_name(c: IfCondition) -> Option<Seq<char>> {
    match c.operand {
        Some(o) => match o.value {
            Some(l) => Some(l.text@),
            None => None,
        },
        None => None,
    }
}

/// The number the `k`-th word `w` of a value reads as: the number of the
/// `k`-th entry of `value_words` when that entry is this word.
pub open spec fn word_number(words: Seq<Lexeme>, k: int, w: Seq<char>) -> Option<NumberView> {
    if 0 <= k < words.len() && words[k].text@ == w {
        lexeme_number(words[k])
    } else {
        None
    }
}

/// The arguments a `func_call` node passes: the whitespace-separated words
/// of its `right` node's text, each parsed as a value.
pub open spec fn call_args(c: IfCondition) -> Seq<ValueView> {
    match c.right {
        Some(r) => match r.value {
            Some(l) => {
                let ws = words_spec(l.text@);
                Seq::new(ws.len(), |k: int| parse_spec(ws[k], word_number(r.value_words@, k, ws[k])))
            },
            None => Seq::empty(),
        },
        None => Seq::empty(),
    }
}

/// The number zero as the literal `0` reads.
pub open spec fn zero_number() -> NumberView {
    NumberView { bits: 0, text: "0"@ }
}

/// The value an operand of a comparison stands for when a function call
/// takes part in it.
pub open spec fn resolve_spec(c: IfCondition, vars: VariableMap, calls: CallResults) -> ValueView {
    if is_type(c, "func_call"@) {
        match call_name(c) {
            Some(name) => match calls(name, call_args(c)) {
                Some(v) => v,
                None => ValueView::Void,
            },
            None => ValueView::Void,
        }
    } else if is_type(c, "identifier"@) {
        let (name, number) = match c.value {
            Some(l) => (l.text@, lexeme_number(l)),
            None => (Seq::<char>::empty(), None),
        };
        match number {
            Some(n) => ValueView::Number(n),
            None => if vars.contains_key(name) {
                variable_as_value(vars[name])
            } else {
                ValueView::Void
            },
        }
    } else if is_type(c, "literal"@) {
        match c.value {
            Some(l) => parse_spec(l.text@, lexeme_number(l)),
            None => ValueView::Number(zero_number()),
        }
    } else if is_type(c, "enum_member"@) {
        match c.value {
            Some(l) => ValueView::String(l.text@),
            None => ValueView::String(Seq::empty()),
        }
    } else {
        ValueView::Void
    }
}

/// Equality of two values: numbers by the tolerance comparison, strings
/// and booleans exactly; values of different kinds are unequal.
pub open spec fn values_equal(l: ValueView, r: ValueView) -> bool {
    match (l, r) {
        (ValueView::Number(a), ValueView::Number(b)) => nearly_equal_bits(a.bits, b.bits),
        (ValueView::String(a), ValueView::String(b)) => a == b,
        (ValueView::Boolean(a), ValueView::Boolean(b)) => a == b,
        _ => false,
    }
}

/// A comparison of two values by operator; ordering needs two numbers.
pub open spec fn compare_values_spec(l: ValueView, r: ValueView, op: Option<Seq<char>>) -> bool {
    match op {
        Some(o) => if o == "=="@ {
            values_equal(l, r)
        } else if o == "!="@ {
            !values_equal(l, r)
        } else {
            match (l, r) {
                (ValueView::Number(a), ValueView::Number(b)) => compare_numbers_spec(o, a, b),
                _ => false,
            }
        },
        None => false,
    }
}

/// The value of a condition (`evaluate_if_condition`), given the variables
/// and what bound functions answer.
pub open spec fn condition_eval(c: IfCondition, vars: VariableMap, calls: CallResults) -> bool
    decreases c,
{
    if is_type(c, "func_call"@) {
        match call_name(c) {
            Some(name) => match calls(name, call_args(c)) {
                Some(v) => truthy_spec(v),
                None => false,
            },
            None => false,
        }
    } else if is_type(c, "binary"@) {
        match (c.left, c.right) {
            (Some(l), Some(r)) => if op_is(c, "&&"@) {
                condition_eval(*l, vars, calls) && condition_eval(*r, vars, calls)
            } else if op_is(c, "||"@) {
                condition_eval(*l, vars, calls) || condition_eval(*r, vars, calls)
            } else if is_type(*l, "func_call"@) || is_type(*r, "func_call"@) {
                compare_values_spec(
                    resolve_spec(*l, vars, calls),
                    resolve_spec(*r, vars, calls),
                    opt_text(c.operator),
                )
            } else {
                variable_eval(c, vars)
            },
            _ => false,
        }
    } else if is_type(c, "unary"@) {
        match c.operand {
            Some(o) => if op_is(c, "!"@) {
                !condition_eval(*o, vars, calls)
            } else {
                false
            },
            None => false,
        }
    } else {
        variable_eval(c, vars)
    }
}

/// No node of the tree calls a function.
pub open spec fn calls_free(c: IfCondition) -> bool
    decreases c,
{
    &&& !is_type(c, "func_call"@)
    &&& match c.left {
        Some(l) => calls_free(*l),
        None => true,
    }
    &&& match c.right {
        Some(r) => calls_free(*r),
        None => true,
    }
    &&& match c.operand {
        Some(o) => calls_free(*o),
        None => true,
    }
}

/// No function that a `func_call` node of the tree names is among `names`
/// (the functions that are bound).
pub open spec fn calls_unbound(c: IfCondition, names: Set<Seq<char>>) -> bool
    decreases c,
{
    &&& (is_type(c, "func_call"@) ==> match call_name(c) {
        Some(n) => !names.contains(n),
        None => true,
    })
    &&& match c.left {
        Some(l) => calls_unbound(*l, names),
        None => true,
    }
    &&& match c.right {
        Some(r) => calls_unbound(*r, names),
        None => true,
    }
    &&& match c.operand {
        Some(o) => calls_unbound(*o, names),
        None => true,
    }
}

/// What the bound functions answered during one evaluation, by the
/// position of each call node in the tree: the steps from the root, `0` to
/// `left`, `1` to `right`, `2` to `operand`. A call with no answer found no
/// function of its name.
pub type Answers = Map<Seq<int>, ValueView>;

pub open spec fn answer(ans: Answers, p: Seq<int>) -> Option<ValueView> {
    if ans.contains_key(p) {
        Some(ans[p])
    } else {
        None
    }
}

/// The value of an operand of a comparison, with the call at `p` (if the
/// operand is a call) answered by `ans`.
pub open spec fn resolve_answered(c: IfCondition, vars: VariableMap, ans: Answers, p: Seq<int>) -> ValueView {
    if is_type(c, "func_call"@) {
        match call_name(c) {
            Some(_) => match answer(ans, p) {
                Some(v) => v,
                None => ValueView::Void,
            },
            None => ValueView::Void,
        }
    } else {
        resolve_spec(c, vars, no_calls())
    }
}

/// The value of the condition at position `p`, each call answered by
/// `ans` (see [`condition_eval`] for the rules).
pub open spec fn eval_answered(c: IfCondition, vars: VariableMap, ans: Answers, p: Seq<int>) -> bool
    decreases c,
{
    if is_type(c, "func_call"@) {
        match call_name(c) {
            Some(_) => match answer(ans, p) {
                Some(v) => truthy_spec(v),
                None => false,
            },
            None => false,
        }
    } else if is_type(c, "binary"@) {
        match (c.left, c.right) {
            (Some(l), Some(r)) => if op_is(c, "&&"@) {
                eval_answered(*l, vars, ans, p.push(0)) && eval_answered(*r, vars, ans, p.push(1))
            } else if op_is(c, "||"@) {
                eval_answered(*l, vars, ans, p.push(0)) || eval_answered(*r, vars, ans, p.push(1))
            } else if is_type(*l, "func_call"@) || is_type(*r, "func_call"@) {
                compare_values_spec(
                    resolve_answered(*l, vars, ans, p.push(0)),
                    resolve_answered(*r, vars, ans, p.push(1)),
                    opt_text(c.operator),
                )
            } else {
                variable_eval(c, vars)
            },
            _ => false,
        }
    } else if is_type(c, "unary"@) {
        match c.operand {
            Some(o) => if op_is(c, "!"@) {
                !eval_answered(*o, vars, ans, p.push(2))
            } else {
                false
            },
            None => false,
        }
    } else {
        variable_eval(c, vars)
    }
}

/// The calls a condition makes, in order: each a function's name and the
/// arguments it is called with.
pub type CallLog = Seq<(Seq<char>, Seq<ValueView>)>;

/// The call a `func_call` node makes: its function, once, with its
/// arguments, when it names one; no call otherwise.
pub open spec fn node_call(c: IfCondition) -> CallLog {
    match call_name(c) {
        Some(n) => seq![(n, call_args(c))],
        None => Seq::empty(),
    }
}

/// The call an operand of a comparison makes: that of a `func_call` node,
/// none for any other node.
pub open spec fn operand_call(c: IfCondition) -> CallLog {
    if is_type(c, "func_call"@) {
        node_call(c)
    } else {
        Seq::empty()
    }
}

/// The calls evaluating the condition at position `p` makes, in order,
/// each call answered by `ans`: a `func_call` node calls its function once;
/// `&&` and `||` make the calls of their left side, then those of their
/// right side unless the left side decides; a comparison with a call on
/// either side makes the call of each side, left first; `!` (or another
/// unary operator) makes the calls of its operand; every other node, and a
/// node lacking a part it needs, makes none.
pub open spec fn calls_made(c: IfCondition, vars: VariableMap, ans: Answers, p: Seq<int>) -> CallLog
    decreases c,
{
    if is_type(c, "func_call"@) {
        node_call(c)
    } else if is_type(c, "binary"@) {
        match (c.left, c.right) {
            (Some(l), Some(r)) => if op_is(c, "&&"@) || op_is(c, "||"@) {
                let lv = eval_answered(*l, vars, ans, p.push(0));
                if (op_is(c, "&&"@) && !lv) || (!op_is(c, "&&"@) && lv) {
                    calls_made(*l, vars, ans, p.push(0))
                } else {
                    calls_made(*l, vars, ans, p.push(0)) + calls_made(*r, vars, ans, p.push(1))
                }
            } else if is_type(*l, "func_call"@) || is_type(*r, "func_call"@) {
                operand_call(*l) + operand_call(*r)
            } else {
                Seq::empty()
            },
            _ => Seq::empty(),
        }
    } else if is_type(c, "unary"@) {
        match c.operand {
            Some(o) => calls_made(*o, vars, ans, p.push(2)),
            None => Seq::empty(),
        }
    } else {
        Seq::empty()
    }
}

/// Whether a condition holds a `func_call` node.
pub open spec fn has_call_node(c: IfCondition) -> bool
    decreases c,
{
    ||| is_type(c, "func_call"@)
    ||| (c.left matches Some(x) && has_call_node(*x))
    ||| (c.right matches Some(x) && has_call_node(*x))
    ||| (c.operand matches Some(x) && has_call_node(*x))
}

/// A condition without a `func_call` node calls no function, whatever
/// the answers; a `func_call` node that names a function calls it once,
/// with its arguments.
pub proof fn lemma_calls_of_nodes(c: IfCondition, vars: VariableMap, ans: Answers, p: Seq<int>)
    ensures
        !has_call_node(c) ==> calls_made(c, vars, ans, p) == Seq::<(Seq<char>, Seq<ValueView>)>::empty(),
        is_type(c, "func_call"@) && call_name(c) is Some ==> calls_made(c, vars, ans, p) == seq![
            (call_name(c)->0, call_args(c)),
        ],
    decreases c,
{
    if !has_call_node(c) {
        if let Some(x) = c.left {
            lemma_calls_of_nodes(*x, vars, ans, p.push(0));
        }
        if let Some(x) = c.right {
            lemma_calls_of_nodes(*x, vars, ans, p.push(1));
        }
        if let Some(x) = c.operand {
            lemma_calls_of_nodes(*x, vars, ans, p.push(2));
        }
        assert(calls_made(c, vars, ans, p) =~= Seq::<(Seq<char>, Seq<ValueView>)>::empty());
    }
}

/// The function a call node calls is bound.
pub open spec fn is_bound_call(c: IfCondition, names: Set<Seq<char>>) -> bool {
    is_type(c, "func_call"@) && match call_name(c) {
        Some(n) => names.contains(n),
        None => false,
    }
}

/// The positions (under `p`) of the call nodes whose function is bound.
pub open spec fn bound_calls(c: IfCondition, names: Set<Seq<char>>, p: Seq<int>) -> Set<Seq<int>>
    decreases c,
{
    let here = if is_bound_call(c, names) {
        set![p]
    } else {
        Set::empty()
    };
    let l = match c.left {
        Some(x) => bound_calls(*x, names, p.push(0)),
        None => Set::empty(),
    };
    let r = match c.right {
        Some(x) => bound_calls(*x, names, p.push(1)),
        None => Set::empty(),
    };
    let o = match c.operand {
        Some(x) => bound_calls(*x, names, p.push(2)),
        None => Set::empty(),
    };
    here + l + r + o
}

/// `q` lies at or under position `p`.
pub open spec fn has_prefix(q: Seq<int>, p: Seq<int>) -> bool {
    p.len() <= q.len() && q.subrange(0, p.len() as int) == p
}

/// The answers fit the bound functions at and under `p`: exactly the
/// calls of bound functions have an answer.
pub open spec fn answers_fit(c: IfCondition, names: Set<Seq<char>>, ans: Answers, p: Seq<int>) -> bool {
    forall|q: Seq<int>| has_prefix(q, p) ==> (#[trigger] ans.contains_key(q) <==> bound_calls(c, names, p).contains(q))
}

/// Positions under `p` lie under `p`.
pub proof fn lemma_bound_calls_prefix(c: IfCondition, names: Set<Seq<char>>, p: Seq<int>)
    ensures
        forall|q: Seq<int>| #[trigger] bound_calls(c, names, p).contains(q) ==> has_prefix(q, p),
    decreases c,
{
    lemma_prefix_push(p);
    if let Some(x) = c.left {
        lemma_bound_calls_prefix(*x, names, p.push(0));
    }
    if let Some(x) = c.right {
        lemma_bound_calls_prefix(*x, names, p.push(1));
    }
    if let Some(x) = c.operand {
        lemma_bound_calls_prefix(*x, names, p.push(2));
    }
    assert(has_prefix(p, p)) by {
        assert(p.subrange(0, p.len() as int) =~= p);
    }
    assert forall|q: Seq<int>| #[trigger] bound_calls(c, names, p).contains(q) implies has_prefix(q, p) by {
        if q != p {
            if c.left is Some && bound_calls(*c.left->0, names, p.push(0)).contains(q) {
                assert(has_prefix(q, p.push(0)));
            } else if c.right is Some && bound_calls(*c.right->0, names, p.push(1)).contains(q) {
                assert(has_prefix(q, p.push(1)));
            } else {
                assert(c.operand is Some && bound_calls(*c.operand->0, names, p.push(2)).contains(q));
                assert(has_prefix(q, p.push(2)));
            }
        }
    }
}

/// Positions under different children of `p` are different.
pub proof fn lemma_children_apart(p: Seq<int>, j: int, k: int, a: Seq<int>, b: Seq<int>)
    requires
        j != k,
        has_prefix(a, p.push(j)),
        has_prefix(b, p.push(k)),
    ensures
        a != b,
        a != p,
{
    assert(a.subrange(0, p.len() + 1int)[p.len() as int] == j);
    assert(b.subrange(0, p.len() + 1int)[p.len() as int] == k);
    assert(a[p.len() as int] == j);
    assert(b[p.len() as int] == k);
}

/// Answers that fit a node fit each of its children.
pub proof fn lemma_fit_child(c: IfCondition, names: Set<Seq<char>>, ans: Answers, p: Seq<int>)
    requires
        answers_fit(c, names, ans, p),
    ensures
        c.left matches Some(x) ==> answers_fit(*x, names, ans, p.push(0)),
        c.right matches Some(x) ==> answers_fit(*x, names, ans, p.push(1)),
        c.operand matches Some(x) ==> answers_fit(*x, names, ans, p.push(2)),
{
    lemma_prefix_push(p);
    if let Some(x) = c.left {
        lemma_fit_one_child(c, names, ans, p, 0, *x);
    }
    if let Some(x) = c.right {
        lemma_fit_one_child(c, names, ans, p, 1, *x);
    }
    if let Some(x) = c.operand {
        lemma_fit_one_child(c, names, ans, p, 2, *x);
    }
}

proof fn lemma_prefix_push(p: Seq<int>)
    ensures
        forall|k: int, q: Seq<int>| #[trigger] has_prefix(q, p.push(k)) ==> has_prefix(q, p) && q != p,
{
    assert forall|k: int, q: Seq<int>| #[trigger] has_prefix(q, p.push(k)) implies has_prefix(q, p) && q != p by {
        assert(q.subrange(0, p.len() as int) =~= q.subrange(0, p.len() + 1int).subrange(0, p.len() as int));
        assert(p.push(k).subrange(0, p.len() as int) =~= p);
    }
}

proof fn lemma_fit_one_child(c: IfCondition, names: Set<Seq<char>>, ans: Answers, p: Seq<int>, k: int, x: IfCondition)
    requires
        answers_fit(c, names, ans, p),
        0 <= k <= 2,
        k == 0 ==> c.left == Some(Box::new(x)),
        k == 1 ==> c.right == Some(Box::new(x)),
        k == 2 ==> c.operand == Some(Box::new(x)),
    ensures
        answers_fit(x, names, ans, p.push(k)),
{
    lemma_prefix_push(p);
    assert forall|q: Seq<int>| has_prefix(q, p.push(k)) implies (#[trigger] ans.contains_key(q) <==> bound_calls(
        x,
        names,
        p.push(k),
    ).contains(q)) by {
        assert(has_prefix(q, p));
        if let Some(y) = c.left {
            lemma_bound_calls_prefix(*y, names, p.push(0));
            if k != 0 && bound_calls(*y, names, p.push(0)).contains(q) {
                lemma_children_apart(p, 0, k, q, q);
            }
        }
        if let Some(y) = c.right {
            lemma_bound_calls_prefix(*y, names, p.push(1));
            if k != 1 && bound_calls(*y, names, p.push(1)).contains(q) {
                lemma_children_apart(p, 1, k, q, q);
            }
        }
        if let Some(y) = c.operand {
            lemma_bound_calls_prefix(*y, names, p.push(2));
            if k != 2 && bound_calls(*y, names, p.push(2)).contains(q) {
                lemma_children_apart(p, 2, k, q, q);
            }
        }
    }
}

/// The replies host functions can give: `(name, args, reply)`.
pub type Replies = Set<(Seq<char>, Seq<ValueView>, ValueView)>;

/// Each answer recorded at or below `p` is a reply that the function its
/// call names can give to the arguments the call passes (see
/// [`call_args`]).
pub open spec fn replies_fit(c: IfCondition, names: Set<Seq<char>>, replies: Replies, rec: Answers, p: Seq<int>) -> bool
    decreases c,
{
    &&& (is_bound_call(c, names) && rec.contains_key(p) ==> replies.contains((call_name(c)->0, call_args(c), rec[p])))
    &&& match c.left {
        Some(x) => replies_fit(*x, names, replies, rec, p.push(0)),
        None => true,
    }
    &&& match c.right {
        Some(x) => replies_fit(*x, names, replies, rec, p.push(1)),
        None => true,
    }
    &&& match c.operand {
        Some(x) => replies_fit(*x, names, replies, rec, p.push(2)),
        None => true,
    }
}

/// The recorded answers `rec` decide that the condition at `p` has value
/// `r`: they answer calls of bound functions in the condition, and given
/// them, whatever the calls not made would have answered, the condition
/// has value `r`.
pub open spec fn decided_by(c: IfCondition, vars: VariableMap, names: Set<Seq<char>>, rec: Answers, p: Seq<int>, r: bool) -> bool {
    &&& rec.dom().subset_of(bound_calls(c, names, p))
    &&& forall|a: Answers| answers_fit(c, names, a, p) && extends(a, rec) ==> #[trigger] eval_answered(c, vars, a, p) == r
}

/// Host functions answer alike when called alike: no two different
/// replies to the same function called with the same arguments.
pub open spec fn replies_deterministic(replies: Replies) -> bool {
    forall|n: Seq<char>, a: Seq<ValueView>, v: ValueView, w: ValueView|
        #[trigger] replies.contains((n, a, v)) && #[trigger] replies.contains((n, a, w)) ==> v == w
}

/// Two records of replies from functions that answer alike agree on each
/// call they both answer.
pub proof fn lemma_records_agree(
    c: IfCondition,
    names: Set<Seq<char>>,
    replies: Replies,
    r1: Answers,
    r2: Answers,
    p: Seq<int>,
)
    requires
        replies_deterministic(replies),
        replies_fit(c, names, replies, r1, p),
        replies_fit(c, names, replies, r2, p),
    ensures
        forall|q: Seq<int>|
            bound_calls(c, names, p).contains(q) && #[trigger] r1.contains_key(q) && r2.contains_key(q) ==> r1[q]
                == r2[q],
    decreases c,
{
    lemma_here(c, names, p);
    if let Some(x) = c.left {
        lemma_records_agree(*x, names, replies, r1, r2, p.push(0));
    }
    if let Some(x) = c.right {
        lemma_records_agree(*x, names, replies, r1, r2, p.push(1));
    }
    if let Some(x) = c.operand {
        lemma_records_agree(*x, names, replies, r1, r2, p.push(2));
    }
    assert forall|q: Seq<int>|
        bound_calls(c, names, p).contains(q) && #[trigger] r1.contains_key(q) && r2.contains_key(q) implies r1[q]
            == r2[q] by {
        if q == p {
            assert(replies.contains((call_name(c)->0, call_args(c), r1[p])));
            assert(replies.contains((call_name(c)->0, call_args(c), r2[p])));
        }
    }
}

/// With host functions that answer alike, a condition has one value: two
/// evaluations over the same variables, whatever calls each made, give the
/// same result (so a repeated or a cached evaluation agrees with a direct
/// one).
pub proof fn lemma_decided_unique(
    c: IfCondition,
    vars: VariableMap,
    names: Set<Seq<char>>,
    replies: Replies,
    r1: Answers,
    r2: Answers,
    p: Seq<int>,
    b1: bool,
    b2: bool,
)
    requires
        replies_deterministic(replies),
        replies_fit(c, names, replies, r1, p),
        replies_fit(c, names, replies, r2, p),
        decided_by(c, vars, names, r1, p, b1),
        decided_by(c, vars, names, r2, p, b2),
    ensures
        b1 == b2,
{
    lemma_records_agree(c, names, replies, r1, r2, p);
    let bound = bound_calls(c, names, p);
    let filler = Map::<Seq<int>, ValueView>::new(|q: Seq<int>| bound.contains(q), |q: Seq<int>| ValueView::Void);
    let a = filler.union_prefer_right(r1).union_prefer_right(r2);
    assert(answers_fit(c, names, a, p)) by {
        assert forall|q: Seq<int>| has_prefix(q, p) implies (#[trigger] a.contains_key(q) <==> bound.contains(q)) by {
            if r1.contains_key(q) {
                assert(r1.dom().contains(q));
            }
            if r2.contains_key(q) {
                assert(r2.dom().contains(q));
            }
        }
    }
    assert(extends(a, r1)) by {
        assert forall|q: Seq<int>| #[trigger] r1.contains_key(q) implies a.contains_key(q) && a[q] == r1[q] by {
            assert(r1.dom().contains(q));
        }
    }
    assert(extends(a, r2));
    assert(eval_answered(c, vars, a, p) == b1);
    assert(eval_answered(c, vars, a, p) == b2);
}

/// Two records hold the same answers at and below `p`.
pub open spec fn agree_under(a: Answers, b: Answers, p: Seq<int>) -> bool {
    forall|q: Seq<int>|
        has_prefix(q, p) ==> (#[trigger] a.contains_key(q) <==> b.contains_key(q)) && (a.contains_key(q) ==> a[q]
            == b[q])
}

/// Whether recorded answers fit the replies depends only on the answers at
/// and below `p`.
pub proof fn lemma_replies_fit_frame(c: IfCondition, names: Set<Seq<char>>, replies: Replies, a: Answers, b: Answers, p: Seq<int>)
    requires
        agree_under(a, b, p),
    ensures
        replies_fit(c, names, replies, a, p) == replies_fit(c, names, replies, b, p),
    decreases c,
{
    lemma_prefix_push(p);
    assert(has_prefix(p, p)) by {
        assert(p.subrange(0, p.len() as int) =~= p);
    }
    assert(a.contains_key(p) <==> b.contains_key(p));
    if let Some(x) = c.left {
        assert(agree_under(a, b, p.push(0)));
        lemma_replies_fit_frame(*x, names, replies, a, b, p.push(0));
    }
    if let Some(x) = c.right {
        assert(agree_under(a, b, p.push(1)));
        lemma_replies_fit_frame(*x, names, replies, a, b, p.push(1));
    }
    if let Some(x) = c.operand {
        assert(agree_under(a, b, p.push(2)));
        lemma_replies_fit_frame(*x, names, replies, a, b, p.push(2));
    }
}

/// A record with no answer at or below `p` fits any replies there.
pub proof fn lemma_replies_fit_none(c: IfCondition, names: Set<Seq<char>>, replies: Replies, rec: Answers, p: Seq<int>)
    requires
        forall|q: Seq<int>| #[trigger] rec.contains_key(q) ==> !has_prefix(q, p),
    ensures
        replies_fit(c, names, replies, rec, p),
    decreases c,
{
    lemma_prefix_push(p);
    assert(has_prefix(p, p)) by {
        assert(p.subrange(0, p.len() as int) =~= p);
    }
    if let Some(x) = c.left {
        lemma_replies_fit_none(*x, names, replies, rec, p.push(0));
    }
    if let Some(x) = c.right {
        lemma_replies_fit_none(*x, names, replies, rec, p.push(1));
    }
    if let Some(x) = c.operand {
        lemma_replies_fit_none(*x, names, replies, rec, p.push(2));
    }
}

/// `a` gives every answer that `rec` gives.
pub open spec fn extends(a: Answers, rec: Answers) -> bool {
    forall|q: Seq<int>| #[trigger] rec.contains_key(q) ==> a.contains_key(q) && a[q] == rec[q]
}

/// A node's own position is among the bound calls exactly when it is one.
pub proof fn lemma_here(c: IfCondition, names: Set<Seq<char>>, p: Seq<int>)
    ensures
        bound_calls(c, names, p).contains(p) <==> is_bound_call(c, names),
{
    lemma_prefix_push(p);
    if let Some(x) = c.left {
        lemma_bound_calls_prefix(*x, names, p.push(0));
        if bound_calls(*x, names, p.push(0)).contains(p) {
            assert(has_prefix(p, p.push(0)));
        }
    }
    if let Some(x) = c.right {
        lemma_bound_calls_prefix(*x, names, p.push(1));
        if bound_calls(*x, names, p.push(1)).contains(p) {
            assert(has_prefix(p, p.push(1)));
        }
    }
    if let Some(x) = c.operand {
        lemma_bound_calls_prefix(*x, names, p.push(2));
        if bound_calls(*x, names, p.push(2)).contains(p) {
            assert(has_prefix(p, p.push(2)));
        }
    }
}

/// When no bound function is called, the answers change nothing: the
/// condition evaluates as with no function bound at all.
pub proof fn lemma_unbound_answers(c: IfCondition, vars: VariableMap, names: Set<Seq<char>>, ans: Answers, p: Seq<int>)
    requires
        answers_fit(c, names, ans, p),
        calls_unbound(c, names),
    ensures
        eval_answered(c, vars, ans, p) == condition_eval(c, vars, no_calls()),
    decreases c,
{
    lemma_fit_child(c, names, ans, p);
    assert(has_prefix(p, p)) by {
        assert(p.subrange(0, p.len() as int) =~= p);
    }
    lemma_no_answer_here(c, names, ans, p);
    if let Some(x) = c.left {
        lemma_unbound_answers(*x, vars, names, ans, p.push(0));
        lemma_no_answer_here(*x, names, ans, p.push(0));
    }
    if let Some(x) = c.right {
        lemma_unbound_answers(*x, vars, names, ans, p.push(1));
        lemma_no_answer_here(*x, names, ans, p.push(1));
    }
    if let Some(x) = c.operand {
        lemma_unbound_answers(*x, vars, names, ans, p.push(2));
    }
}

/// An unbound call node has no answer.
proof fn lemma_no_answer_here(c: IfCondition, names: Set<Seq<char>>, ans: Answers, p: Seq<int>)
    requires
        answers_fit(c, names, ans, p),
        calls_unbound(c, names),
    ensures
        is_type(c, "func_call"@) ==> !ans.contains_key(p),
{
    assert(has_prefix(p, p)) by {
        assert(p.subrange(0, p.len() as int) =~= p);
    }
    if is_type(c, "func_call"@) {
        lemma_bound_calls_prefix(c, names, p);
        if let Some(x) = c.left {
            lemma_bound_calls_prefix(*x, names, p.push(0));
            lemma_prefix_push(p);
        }
        if let Some(x) = c.right {
            lemma_bound_calls_prefix(*x, names, p.push(1));
            lemma_prefix_push(p);
        }
        if let Some(x) = c.operand {
            lemma_bound_calls_prefix(*x, names, p.push(2));
            lemma_prefix_push(p);
        }
        assert(!is_bound_call(c, names));
        if let Some(x) = c.left {
            if bound_calls(*x, names, p.push(0)).contains(p) {
                assert(has_prefix(p, p.push(0)));
            }
        }
        if let Some(x) = c.right {
            if bound_calls(*x, names, p.push(1)).contains(p) {
                assert(has_prefix(p, p.push(1)));
            }
        }
        if let Some(x) = c.operand {
            if bound_calls(*x, names, p.push(2)).contains(p) {
                assert(has_prefix(p, p.push(2)));
            }
        }
        assert(!bound_calls(c, names, p).contains(p));
    }
}

/// Answers for no function at all.
pub open spec fn no_calls() -> CallResults {
    |name: Seq<char>, args: Seq<ValueView>| None::<ValueView>
}

/// The shape of a condition tree as the compiled script writes it: node
/// types, operators and value texts.
pub struct CondView {
    pub cond_type: Seq<char>,
    pub operator: Option<Seq<char>>,
    pub left: Option<Box<CondView>>,
    pub right: Option<Box<CondView>>,
    pub operand: Option<Box<CondView>>,
    pub value: Option<Seq<char>>,
}

pub open spec fn value_text(v: Option<Lexeme>) -> Option<Seq<char>> {
    match v {
        Some(l) => Some(l.text@),
        None => None,
    }
}

/// The shape of a condition tree.
pub open spec fn cond_view(c: IfCondition) -> CondView
    decreases c,
{
    CondView {
        cond_type: c.cond_type@,
        operator: opt_text(c.operator),
        left: match c.left {
            Some(l) => Some(Box::new(cond_view(*l))),
            None => None,
        },
        right: match c.right {
            Some(r) => Some(Box::new(cond_view(*r))),
            None => None,
        },
        operand: match c.operand {
            Some(o) => Some(Box::new(cond_view(*o))),
            None => None,
        },
        value: value_text(c.value),
    }
}

/// Whether `n` is `c` negated: a `unary` node with operator `!` whose
/// operand is `c`.
pub open spec fn is_negation_of(n: IfCondition, c: IfCondition) -> bool {
    &&& is_unary_not(n)
    &&& n.operand matches Some(o)
    &&& *o == c
}


/// Records `a` at `p` and `b` at `q` hold the same answers at matching
/// positions below `p` and `q`.
pub open spec fn corresp(a: Answers, p: Seq<int>, b: Answers, q: Seq<int>) -> bool {
    forall|s: Seq<int>|
        #![trigger a.contains_key(p + s)]
        #![trigger b.contains_key(q + s)]
        (a.contains_key(p + s) <==> b.contains_key(q + s)) && (a.contains_key(p + s) ==> a[p + s] == b[q + s])
}

proof fn lemma_corresp_child(a: Answers, p: Seq<int>, b: Answers, q: Seq<int>, k: int)
    requires
        corresp(a, p, b, q),
    ensures
        corresp(a, p.push(k), b, q.push(k)),
{
    assert forall|s: Seq<int>|
        (a.contains_key(p.push(k) + s) <==> b.contains_key(q.push(k) + s)) && (a.contains_key(p.push(k) + s) ==> a[p.push(k)
            + s] == b[q.push(k) + s]) by {
        let t = seq![k] + s;
        assert(p.push(k) + s =~= p + t);
        assert(q.push(k) + s =~= q + t);
        assert(a.contains_key(p + t) <==> b.contains_key(q + t));
    }
}

/// Where a condition stands in a tree does not change its value: records
/// that hold the same answers at matching positions give the same value.
proof fn lemma_eval_corresp(c: IfCondition, vars: VariableMap, a: Answers, p: Seq<int>, b: Answers, q: Seq<int>)
    requires
        corresp(a, p, b, q),
    ensures
        eval_answered(c, vars, a, p) == eval_answered(c, vars, b, q),
        resolve_answered(c, vars, a, p) == resolve_answered(c, vars, b, q),
    decreases c,
{
    assert(p + Seq::<int>::empty() =~= p);
    assert(q + Seq::<int>::empty() =~= q);
    assert(a.contains_key(p + Seq::<int>::empty()) <==> b.contains_key(q + Seq::<int>::empty()));
    assert(answer(a, p) == answer(b, q));
    if let Some(x) = c.left {
        lemma_corresp_child(a, p, b, q, 0);
        lemma_eval_corresp(*x, vars, a, p.push(0), b, q.push(0));
    }
    if let Some(x) = c.right {
        lemma_corresp_child(a, p, b, q, 1);
        lemma_eval_corresp(*x, vars, a, p.push(1), b, q.push(1));
    }
    if let Some(x) = c.operand {
        lemma_corresp_child(a, p, b, q, 2);
        lemma_eval_corresp(*x, vars, a, p.push(2), b, q.push(2));
    }
}

/// The calls of a condition sit at matching positions wherever it stands.
proof fn lemma_bound_corresp(c: IfCondition, names: Set<Seq<char>>, p: Seq<int>, q: Seq<int>)
    ensures
        forall|s: Seq<int>|
            #![trigger bound_calls(c, names, p).contains(p + s)]
            #![trigger bound_calls(c, names, q).contains(q + s)]
            bound_calls(c, names, p).contains(p + s) <==> bound_calls(c, names, q).contains(q + s),
    decreases c,
{
    if let Some(x) = c.left {
        lemma_bound_corresp(*x, names, p.push(0), q.push(0));
        lemma_bound_calls_prefix(*x, names, p.push(0));
        lemma_bound_calls_prefix(*x, names, q.push(0));
    }
    if let Some(x) = c.right {
        lemma_bound_corresp(*x, names, p.push(1), q.push(1));
        lemma_bound_calls_prefix(*x, names, p.push(1));
        lemma_bound_calls_prefix(*x, names, q.push(1));
    }
    if let Some(x) = c.operand {
        lemma_bound_corresp(*x, names, p.push(2), q.push(2));
        lemma_bound_calls_prefix(*x, names, p.push(2));
        lemma_bound_calls_prefix(*x, names, q.push(2));
    }
    assert forall|s: Seq<int>|
        bound_calls(c, names, p).contains(p + s) <==> bound_calls(c, names, q).contains(q + s) by {
        assert((p + s == p) <==> (s.len() == 0)) by {
            if s.len() == 0 {
                assert(p + s =~= p);
            } else {
                assert((p + s).len() != p.len());
            }
        }
        assert((q + s == q) <==> (s.len() == 0)) by {
            if s.len() == 0 {
                assert(q + s =~= q);
            } else {
                assert((q + s).len() != q.len());
            }
        }
        if s.len() > 0 {
            let k = s[0];
            let t = s.drop_first();
            assert(p + s =~= p.push(k) + t);
            assert(q + s =~= q.push(k) + t);
            assert forall|j: int| j != k implies {
                &&& !(has_prefix(p + s, p.push(j)))
                &&& !(has_prefix(q + s, q.push(j)))
            } by {
                if has_prefix(p + s, p.push(j)) {
                    assert((p + s).subrange(0, p.len() + 1int)[p.len() as int] == j);
                    assert((p + s)[p.len() as int] == k);
                }
                if has_prefix(q + s, q.push(j)) {
                    assert((q + s).subrange(0, q.len() + 1int)[q.len() as int] == j);
                    assert((q + s)[q.len() as int] == k);
                }
            }
            let lp = match c.left {
                Some(x) => bound_calls(*x, names, p.push(0)),
                None => Set::empty(),
            };
            let lq = match c.left {
                Some(x) => bound_calls(*x, names, q.push(0)),
                None => Set::empty(),
            };
            let rp = match c.right {
                Some(x) => bound_calls(*x, names, p.push(1)),
                None => Set::empty(),
            };
            let rq = match c.right {
                Some(x) => bound_calls(*x, names, q.push(1)),
                None => Set::empty(),
            };
            let op = match c.operand {
                Some(x) => bound_calls(*x, names, p.push(2)),
                None => Set::empty(),
            };
            let oq = match c.operand {
                Some(x) => bound_calls(*x, names, q.push(2)),
                None => Set::empty(),
            };
            assert(lp.contains(p + s) <==> lq.contains(q + s)) by {
                if let Some(x) = c.left {
                    if k == 0 {
                        assert(bound_calls(*x, names, p.push(0)).contains(p.push(0) + t) <==> bound_calls(*x, names, q.push(0)).contains(q.push(0) + t));
                    }
                }
            }
            assert(rp.contains(p + s) <==> rq.contains(q + s)) by {
                if let Some(x) = c.right {
                    if k == 1 {
                        assert(bound_calls(*x, names, p.push(1)).contains(p.push(1) + t) <==> bound_calls(*x, names, q.push(1)).contains(q.push(1) + t));
                    }
                }
            }
            assert(op.contains(p + s) <==> oq.contains(q + s)) by {
                if let Some(x) = c.operand {
                    if k == 2 {
                        assert(bound_calls(*x, names, p.push(2)).contains(p.push(2) + t) <==> bound_calls(*x, names, q.push(2)).contains(q.push(2) + t));
                    }
                }
            }
            assert(p + s != p);
            assert(q + s != q);
            let hp = if is_bound_call(c, names) {
                set![p]
            } else {
                Set::empty()
            };
            let hq = if is_bound_call(c, names) {
                set![q]
            } else {
                Set::empty()
            };
            assert(bound_calls(c, names, p) == hp + lp + rp + op);
            assert(bound_calls(c, names, q) == hq + lq + rq + oq);
            assert(!hp.contains(p + s));
            assert(!hq.contains(q + s));
        } else {
            assert(p + s =~= p);
            assert(q + s =~= q);
            lemma_here(c, names, p);
            lemma_here(c, names, q);
        }
    }
}

/// Replies that fit a record at `p` fit a record holding the same answers
/// at matching positions below `q`.
proof fn lemma_replies_corresp(
    c: IfCondition,
    names: Set<Seq<char>>,
    replies: Replies,
    a: Answers,
    p: Seq<int>,
    b: Answers,
    q: Seq<int>,
)
    requires
        corresp(a, p, b, q),
        replies_fit(c, names, replies, a, p),
    ensures
        replies_fit(c, names, replies, b, q),
    decreases c,
{
    assert(p + Seq::<int>::empty() =~= p);
    assert(q + Seq::<int>::empty() =~= q);
    assert(a.contains_key(p + Seq::<int>::empty()) <==> b.contains_key(q + Seq::<int>::empty()));
    if let Some(x) = c.left {
        lemma_corresp_child(a, p, b, q, 0);
        lemma_replies_corresp(*x, names, replies, a, p.push(0), b, q.push(0));
    }
    if let Some(x) = c.right {
        lemma_corresp_child(a, p, b, q, 1);
        lemma_replies_corresp(*x, names, replies, a, p.push(1), b, q.push(1));
    }
    if let Some(x) = c.operand {
        lemma_corresp_child(a, p, b, q, 2);
        lemma_replies_corresp(*x, names, replies, a, p.push(2), b, q.push(2));
    }
}


/// An `if` and its `else` exclude each other when host functions answer
/// alike: a condition and its negation (a unary `!` node over it, with no
/// other children), each evaluated with whatever calls it makes over the
/// same variables, have opposite values.
pub proof fn lemma_if_else_exclusive_deterministic(
    c: IfCondition,
    n: IfCondition,
    vars: VariableMap,
    names: Set<Seq<char>>,
    replies: Replies,
    rec_c: Answers,
    rec_n: Answers,
    rc: bool,
    rn: bool,
)
    requires
        replies_deterministic(replies),
        is_negation_of(n, c),
        n.left is None,
        n.right is None,
        replies_fit(c, names, replies, rec_c, Seq::<int>::empty()),
        decided_by(c, vars, names, rec_c, Seq::<int>::empty(), rc),
        replies_fit(n, names, replies, rec_n, Seq::<int>::empty()),
        decided_by(n, vars, names, rec_n, Seq::<int>::empty(), rn),
    ensures
        rn == !rc,
{
    let root = Seq::<int>::empty();
    let two = root.push(2);
    assert(n.operand->0 == c);
    reveal_strlit("unary");
    reveal_strlit("func_call");
    reveal_strlit("binary");
    assert(is_unary_not(n));
    assert(n.cond_type@ == "unary"@);
    assert("unary"@.len() == 5);
    assert("func_call"@.len() == 9);
    assert("binary"@.len() == 6);
    assert(!is_type(n, "func_call"@));
    assert(!is_type(n, "binary"@));
    assert(bound_calls(n, names, root) =~= bound_calls(c, names, two));
    assert(replies_fit(c, names, replies, rec_n, two));
    let r2 = Map::<Seq<int>, ValueView>::new(|y: Seq<int>| rec_n.contains_key(two + y), |y: Seq<int>| rec_n[two + y]);
    assert(corresp(rec_n, two, r2, root)) by {
        assert forall|s: Seq<int>|
            (rec_n.contains_key(two + s) <==> r2.contains_key(root + s)) && (rec_n.contains_key(two + s) ==> rec_n[two + s]
                == r2[root + s]) by {
            assert(root + s =~= s);
        }
    }
    lemma_replies_corresp(c, names, replies, rec_n, two, r2, root);
    lemma_bound_corresp(c, names, two, root);
    lemma_bound_calls_prefix(c, names, two);
    assert(decided_by(c, vars, names, r2, root, !rn)) by {
        assert forall|y: Seq<int>| r2.dom().contains(y) implies bound_calls(c, names, root).contains(y) by {
            assert(rec_n.dom().contains(two + y));
            assert(root + y =~= y);
            assert(bound_calls(c, names, two).contains(two + y));
        }
        assert forall|a: Answers| answers_fit(c, names, a, root) && extends(a, r2) implies #[trigger] eval_answered(
            c,
            vars,
            a,
            root,
        ) == !rn by {
            let a2 = Map::<Seq<int>, ValueView>::new(
                |x: Seq<int>| x.len() > 0 && x[0] == 2 && a.contains_key(x.drop_first()),
                |x: Seq<int>| a[x.drop_first()],
            );
            assert(corresp(a2, two, a, root)) by {
                assert forall|s: Seq<int>|
                    (a2.contains_key(two + s) <==> a.contains_key(root + s)) && (a2.contains_key(two + s) ==> a2[two + s]
                        == a[root + s]) by {
                    assert((two + s).drop_first() =~= s);
                    assert((two + s)[0] == 2);
                    assert(root + s =~= s);
                }
            }
            lemma_eval_corresp(c, vars, a2, two, a, root);
            assert(answers_fit(n, names, a2, root)) by {
                assert forall|x: Seq<int>| has_prefix(x, root) implies (#[trigger] a2.contains_key(x) <==> bound_calls(
                    n,
                    names,
                    root,
                ).contains(x)) by {
                    if x.len() > 0 && x[0] == 2 {
                        let t = x.drop_first();
                        assert(x =~= two + t);
                        assert(has_prefix(t, root)) by {
                            assert(t.subrange(0, 0) =~= root);
                        }
                        assert(root + t =~= t);
                        assert(bound_calls(c, names, two).contains(two + t) <==> bound_calls(c, names, root).contains(root + t));
                    } else {
                        if bound_calls(c, names, two).contains(x) {
                            assert(has_prefix(x, two));
                            assert(x.subrange(0, 1)[0] == 2);
                        }
                    }
                }
            }
            assert(extends(a2, rec_n)) by {
                assert forall|x: Seq<int>| #[trigger] rec_n.contains_key(x) implies a2.contains_key(x) && a2[x] == rec_n[x] by {
                    assert(rec_n.dom().contains(x));
                    assert(bound_calls(c, names, two).contains(x));
                    assert(has_prefix(x, two));
                    assert(x.subrange(0, 1)[0] == 2);
                    let t = x.drop_first();
                    assert(x =~= two + t);
                    assert(r2.contains_key(t));
                }
            }
            assert(eval_answered(n, vars, a2, root) == !eval_answered(c, vars, a2, two));
            assert(eval_answered(n, vars, a2, root) == rn);
        }
    }
    lemma_decided_unique(c, vars, names, replies, rec_c, r2, root, rc, !rn);
}

/// The branches of an `if` and its `else` are mutually exclusive: whatever
/// the variables and whatever bound functions answer, a condition and its
/// negation never hold together, and one of them always holds.
pub proof fn lemma_negation_exclusive(c: IfCondition, n: IfCondition, vars: VariableMap, calls: CallResults)
    requires
        is_negation_of(n, c),
    ensures
        condition_eval(n, vars, calls) == !condition_eval(c, vars, calls),
{
    reveal_strlit("unary");
    reveal_strlit("func_call");
    reveal_strlit("binary");
    assert("unary"@ != "func_call"@) by {
        assert("unary"@[0] != "func_call"@[0]);
    }
    assert("unary"@ != "binary"@) by {
        assert("unary"@[0] != "binary"@[0]);
    }
}

/// A negated condition evaluates to the opposite of its operand when the
/// operand's calls get the same answers.
pub proof fn lemma_negation_answered(c: IfCondition, n: IfCondition, vars: VariableMap, ans: Answers, p: Seq<int>)
    requires
        is_negation_of(n, c),
    ensures
        eval_answered(n, vars, ans, p) == !eval_answered(c, vars, ans, p.push(2)),
{
    reveal_strlit("unary");
    reveal_strlit("func_call");
    reveal_strlit("binary");
    assert("unary"@ != "func_call"@) by {
        assert("unary"@[0] != "func_call"@[0]);
    }
    assert("unary"@ != "binary"@) by {
        assert("unary"@[0] != "binary"@[0]);
    }
}

/// `!=` is the negation of `==` on values.
pub proof fn lemma_not_equal_is_negated_equal(l: ValueView, r: ValueView)
    ensures
        compare_values_spec(l, r, Some("!="@)) == !compare_values_spec(l, r, Some("=="@)),
{
    reveal_strlit("!=");
    reveal_strlit("==");
    assert("!="@ != "=="@) by {
        assert("!="@[0] != "=="@[0]);
    }
}

} // verus!
