//! Variable state of a running Mortar dialogue: variable values, branch
//! definitions used for branch interpolation, and the evaluation of
//! conditions over them.

use vstd::prelude::*;
use crate::assoc::{assoc_index, assoc_view, keys_distinct, lemma_assoc_insert, lemma_assoc_view};
use crate::condition::{
    compare_numbers_spec, equality_spec, numeric_operand, opt_text, string_operand, variable_eval,
    zero_number, IfCondition, VariableMap,
};
use crate::number::{MortarNumber, NumberView};
use crate::text::{after_last_dot, member_after_last_dot, text_contains_char, text_eq};
use crate::value::{
    copy_number, from_json_spec, lexeme_number, variable_display_spec, JsonValue, Lexeme,
    MortarVariableValue, VariableView,
};
use vstd::string::*;

verus! {

/// One case of a branch: the condition that selects it and its text.
pub struct BranchCase {
    pub condition: String,
    pub text: String,
}

/// Branch definition for branch interpolation: cases selected by boolean
/// variables, or by the member of an enum variable.
pub struct BranchDef {
    pub enum_type: Option<String>,
    pub cases: Vec<BranchCase>,
}

pub struct BranchView {
    pub enum_type: Option<Seq<char>>,
    pub cases: Seq<(Seq<char>, Seq<char>)>,
}

impl View for BranchDef {
    type V = BranchView;

    open spec fn view(&self) -> BranchView {
        BranchView {
            enum_type: opt_text(self.enum_type),
            cases: self.cases@.map_values(|c: BranchCase| (c.condition@, c.text@)),
        }
    }
}

/// A variable declaration of a compiled script.
#[derive(Debug, Clone)]
pub struct Variable {
    pub name: String,
    pub var_type: String,
    pub value: Option<JsonValue>,
}

/// A constant declaration of a compiled script.
#[derive(Debug, Clone)]
pub struct Constant {
    pub name: String,
    pub const_type: String,
    pub value: JsonValue,
    pub public: bool,
}

/// An enum definition of a compiled script.
#[derive(Debug, Clone)]
pub struct Enum {
    pub name: String,
    pub variants: Vec<String>,
}

/// The abstract content of a variable state.
pub struct VariableStateView {
    pub variables: VariableMap,
    pub branches: Map<Seq<char>, BranchView>,
}

/// Component that manages variable state for a Mortar dialogue runtime.
pub struct MortarVariableState {
    variables: Vec<(String, MortarVariableValue)>,
    branches: Vec<(String, BranchDef)>,
}

impl View for MortarVariableState {
    type V = VariableStateView;

    closed spec fn view(&self) -> VariableStateView {
        VariableStateView {
            variables: assoc_view(self.variables@),
            branches: assoc_view(self.branches@),
        }
    }
}

/// The first case whose condition is `member`, by its text.
pub open spec fn first_case_named(cases: Seq<(Seq<char>, Seq<char>)>, member: Seq<char>) -> Option<Seq<char>>
    decreases cases.len(),
{
    if cases.len() == 0 {
        None
    } else if cases[0].0 == member {
        Some(cases[0].1)
    } else {
        first_case_named(cases.drop_first(), member)
    }
}

/// The first case whose condition names a variable holding `true`.
pub open spec fn first_case_true(cases: Seq<(Seq<char>, Seq<char>)>, vars: VariableMap) -> Option<Seq<char>>
    decreases cases.len(),
{
    if cases.len() == 0 {
        None
    } else if vars.contains_key(cases[0].0) && vars[cases[0].0] == VariableView::Boolean(true) {
        Some(cases[0].1)
    } else {
        first_case_true(cases.drop_first(), vars)
    }
}

/// The case chosen among boolean cases is the first whose condition
/// variable holds `true`: when there is a text, some case has that text,
/// its variable holds `true`, and no earlier case's variable does; when
/// there is none, no case's variable holds `true`. A case whose variable is
/// false, not a boolean or missing is never chosen.
pub proof fn lemma_first_case_true(cases: Seq<(Seq<char>, Seq<char>)>, vars: VariableMap)
    ensures
        first_case_true(cases, vars) matches Some(t) ==> exists|i: int|
            0 <= i < cases.len() && cases[i].1 == t && vars.contains_key(#[trigger] cases[i].0)
                && vars[cases[i].0] == VariableView::Boolean(true) && forall|j: int|
                0 <= j < i ==> !(vars.contains_key(#[trigger] cases[j].0) && vars[cases[j].0]
                    == VariableView::Boolean(true)),
        first_case_true(cases, vars) is None ==> forall|i: int|
            0 <= i < cases.len() ==> !(vars.contains_key(#[trigger] cases[i].0) && vars[cases[i].0]
                == VariableView::Boolean(true)),
    decreases cases.len(),
{
    if cases.len() > 0 {
        let rest = cases.drop_first();
        lemma_first_case_true(rest, vars);
        if vars.contains_key(cases[0].0) && vars[cases[0].0] == VariableView::Boolean(true) {
            assert(cases[0].1 == first_case_true(cases, vars)->0);
        } else {
            match first_case_true(rest, vars) {
                Some(t) => {
                    let k = choose|k: int|
                        0 <= k < rest.len() && rest[k].1 == t && vars.contains_key(#[trigger] rest[k].0)
                            && vars[rest[k].0] == VariableView::Boolean(true) && forall|j: int|
                            0 <= j < k ==> !(vars.contains_key(#[trigger] rest[j].0) && vars[rest[j].0]
                                == VariableView::Boolean(true));
                    assert(cases[k + 1] == rest[k]);
                    assert forall|j: int| 0 <= j < k + 1 implies !(vars.contains_key(#[trigger] cases[j].0)
                        && vars[cases[j].0] == VariableView::Boolean(true)) by {
                        if j > 0 {
                            assert(cases[j] == rest[j - 1]);
                        }
                    }
                },
                None => {
                    assert forall|i: int| 0 <= i < cases.len() implies !(vars.contains_key(#[trigger] cases[i].0)
                        && vars[cases[i].0] == VariableView::Boolean(true)) by {
                        if i > 0 {
                            assert(cases[i] == rest[i - 1]);
                        }
                    }
                },
            }
        }
    }
}

/// The case chosen by an enum member is the first case named after it:
/// when there is a text, some case named `member` has it and no earlier
/// case is named `member`; when there is none, no case is named `member`.
pub proof fn lemma_first_case_named(cases: Seq<(Seq<char>, Seq<char>)>, member: Seq<char>)
    ensures
        first_case_named(cases, member) matches Some(t) ==> exists|i: int|
            0 <= i < cases.len() && #[trigger] cases[i].0 == member && cases[i].1 == t && forall|j: int|
                0 <= j < i ==> #[trigger] cases[j].0 != member,
        first_case_named(cases, member) is None ==> forall|i: int| 0 <= i < cases.len() ==> #[trigger] cases[i].0 != member,
    decreases cases.len(),
{
    if cases.len() > 0 {
        let rest = cases.drop_first();
        lemma_first_case_named(rest, member);
        if cases[0].0 != member {
            match first_case_named(rest, member) {
                Some(t) => {
                    let k = choose|k: int|
                        0 <= k < rest.len() && #[trigger] rest[k].0 == member && rest[k].1 == t && forall|j: int|
                            0 <= j < k ==> #[trigger] rest[j].0 != member;
                    assert(cases[k + 1] == rest[k]);
                    assert forall|j: int| 0 <= j < k + 1 implies #[trigger] cases[j].0 != member by {
                        if j > 0 {
                            assert(cases[j] == rest[j - 1]);
                        }
                    }
                },
                None => {
                    assert forall|i: int| 0 <= i < cases.len() implies #[trigger] cases[i].0 != member by {
                        if i > 0 {
                            assert(cases[i] == rest[i - 1]);
                        }
                    }
                },
            }
        }
    }
}

/// A branch variable's text (what `get_branch_text` gives): for a branch
/// without an enum type, the text of the first case whose condition
/// variable holds `true` (none when no case's does; a false, non-boolean or
/// missing variable never selects its case); for an enum branch whose enum
/// variable is set, the text of the first case named after the member that
/// variable holds (the part after its last `.`).
pub proof fn lemma_branch_text_choice(st: VariableStateView, name: Seq<char>)
    requires
        st.branches.contains_key(name),
    ensures
        ({
            let cases = st.branches[name].cases;
            let vars = st.variables;
            st.branches[name].enum_type is None ==> {
                &&& branch_text_spec(st, name) matches Some(t) ==> exists|i: int|
                    0 <= i < cases.len() && cases[i].1 == t && vars.contains_key(#[trigger] cases[i].0)
                        && vars[cases[i].0] == VariableView::Boolean(true) && forall|j: int|
                        0 <= j < i ==> !(vars.contains_key(#[trigger] cases[j].0) && vars[cases[j].0]
                            == VariableView::Boolean(true))
                &&& branch_text_spec(st, name) is None ==> forall|i: int|
                    0 <= i < cases.len() ==> !(vars.contains_key(#[trigger] cases[i].0) && vars[cases[i].0]
                        == VariableView::Boolean(true))
            }
        }),
        ({
            let cases = st.branches[name].cases;
            let ev = st.branches[name].enum_type->0;
            st.branches[name].enum_type is Some && st.variables.contains_key(ev) ==> {
                let member = after_last_dot(variable_display_spec(st.variables[ev]));
                &&& branch_text_spec(st, name) matches Some(t) ==> exists|i: int|
                    0 <= i < cases.len() && #[trigger] cases[i].0 == member && cases[i].1 == t && forall|j: int|
                        0 <= j < i ==> #[trigger] cases[j].0 != member
                &&& branch_text_spec(st, name) is None ==> forall|i: int|
                    0 <= i < cases.len() ==> #[trigger] cases[i].0 != member
            }
        }),
{
    let b = st.branches[name];
    lemma_first_case_true(b.cases, st.variables);
    match b.enum_type {
        Some(ev) => {
            if st.variables.contains_key(ev) {
                lemma_first_case_named(b.cases, after_last_dot(variable_display_spec(st.variables[ev])));
            }
        },
        None => {},
    }
}

/// The text of branch `name`: for an enum branch, the case named after the
/// member the enum variable holds; else the first case whose condition
/// variable is true.
pub open spec fn branch_text_spec(st: VariableStateView, name: Seq<char>) -> Option<Seq<char>> {
    if !st.branches.contains_key(name) {
        None
    } else {
        let b = st.branches[name];
        match b.enum_type {
            Some(ev) => if st.variables.contains_key(ev) {
                first_case_named(b.cases, after_last_dot(variable_display_spec(st.variables[ev])))
            } else {
                None
            },
            None => first_case_true(b.cases, st.variables),
        }
    }
}

/// The first declaration in `vars` of a `Branch` variable named `name`.
pub open spec fn find_branch_decl(vars: Seq<Variable>, name: Seq<char>) -> Option<Variable>
    decreases vars.len(),
{
    if vars.len() == 0 {
        None
    } else if vars[0].name@ == name && vars[0].var_type@ == "Branch"@ {
        Some(vars[0])
    } else {
        find_branch_decl(vars.drop_first(), name)
    }
}

/// The condition of a case of a branch declaration: the `condition` string
/// of a case object.
pub open spec fn case_condition(c: JsonValue) -> Option<Seq<char>> {
    match c {
        JsonValue::Object(o) => json_str(json_get(o@, "condition"@)),
        _ => None,
    }
}

/// The first case whose condition is `member`.
pub open spec fn first_json_case_named(cases: Seq<JsonValue>, member: Seq<char>) -> Option<JsonValue>
    decreases cases.len(),
{
    if cases.len() == 0 {
        None
    } else if case_condition(cases[0]) == Some(member) {
        Some(cases[0])
    } else {
        first_json_case_named(cases.drop_first(), member)
    }
}

/// Whether the condition of a case names a variable holding `true`.
pub open spec fn case_holds(c: JsonValue, vars: VariableMap) -> bool {
    match case_condition(c) {
        Some(n) => vars.contains_key(n) && vars[n] == VariableView::Boolean(true),
        None => false,
    }
}

/// The first case whose condition names a variable holding `true`.
pub open spec fn first_json_case_true(cases: Seq<JsonValue>, vars: VariableMap) -> Option<JsonValue>
    decreases cases.len(),
{
    if cases.len() == 0 {
        None
    } else if case_holds(cases[0], vars) {
        Some(cases[0])
    } else {
        first_json_case_true(cases.drop_first(), vars)
    }
}

/// The events of the case that branch variable `name` selects, read from
/// its declaration among `vars` (the first `Branch` declaration of that
/// name): its object value must have a `cases` array; an `enum_type`
/// string selects the case named after the member the enum variable holds,
/// else the first case whose condition variable holds `true` is taken; the
/// result is that case's `events` array.
pub open spec fn branch_events_spec(st: VariableStateView, name: Seq<char>, vars: Seq<Variable>) -> Option<
    Seq<JsonValue>,
> {
    match find_branch_decl(vars, name) {
        Some(decl) => match decl.value {
            Some(JsonValue::Object(obj)) => match json_get(obj@, "cases"@) {
                Some(JsonValue::Array(cases)) => {
                    let chosen = match json_str(json_get(obj@, "enum_type"@)) {
                        Some(ev) => if st.variables.contains_key(ev) {
                            first_json_case_named(cases@, after_last_dot(variable_display_spec(st.variables[ev])))
                        } else {
                            None
                        },
                        None => first_json_case_true(cases@, st.variables),
                    };
                    match chosen {
                        Some(JsonValue::Object(c)) => match json_get(c@, "events"@) {
                            Some(JsonValue::Array(events)) => Some(events@),
                            _ => None,
                        },
                        _ => None,
                    }
                },
                _ => None,
            },
            _ => None,
        },
        None => None,
    }
}

/// The value an assignment statement stores: an enum member (text with a
/// dot) as text, then `true`/`false`, then a number, else the text.
pub open spec fn assignment_value(l: Lexeme) -> VariableView {
    if l.text@.contains('.') {
        VariableView::String(l.text@)
    } else if l.text@ == "true"@ {
        VariableView::Boolean(true)
    } else if l.text@ == "false"@ {
        VariableView::Boolean(false)
    } else if lexeme_number(l) is Some {
        VariableView::Number(lexeme_number(l)->0)
    } else {
        VariableView::String(l.text@)
    }
}

/// The value under `key` in a JSON object (keys are unique).
pub open spec fn json_get(obj: Seq<(String, JsonValue)>, key: Seq<char>) -> Option<JsonValue>
    decreases obj.len(),
{
    if obj.len() == 0 {
        None
    } else if obj[0].0@ == key {
        Some(obj[0].1)
    } else {
        json_get(obj.drop_first(), key)
    }
}

pub open spec fn json_str(v: Option<JsonValue>) -> Option<Seq<char>> {
    match v {
        Some(JsonValue::String(s)) => Some(s@),
        _ => None,
    }
}

pub open spec fn str_or_empty(o: Option<Seq<char>>) -> Seq<char> {
    match o {
        Some(s) => s,
        None => Seq::empty(),
    }
}

/// The cases of a branch definition: the objects of the `cases` array, each
/// with its `condition` and `text` (empty when absent).
pub open spec fn cases_from_json(a: Seq<JsonValue>) -> Seq<(Seq<char>, Seq<char>)>
    decreases a.len(),
{
    if a.len() == 0 {
        Seq::empty()
    } else {
        let rest = cases_from_json(a.drop_last());
        match a.last() {
            JsonValue::Object(o) => rest.push(
                (
                    str_or_empty(json_str(json_get(o@, "condition"@))),
                    str_or_empty(json_str(json_get(o@, "text"@))),
                ),
            ),
            _ => rest,
        }
    }
}

/// The branch definition a `Branch` variable's object value gives.
pub open spec fn branch_from_json(obj: Seq<(String, JsonValue)>) -> BranchView {
    BranchView {
        enum_type: json_str(json_get(obj, "enum_type"@)),
        cases: match json_get(obj, "cases"@) {
            Some(JsonValue::Array(a)) => cases_from_json(a@),
            _ => Seq::empty(),
        },
    }
}

/// The first enum named `name`.
pub open spec fn find_enum(enums: Seq<Enum>, name: Seq<char>) -> Option<Enum>
    decreases enums.len(),
{
    if enums.len() == 0 {
        None
    } else if enums[0].name@ == name {
        Some(enums[0])
    } else {
        find_enum(enums.drop_first(), name)
    }
}

/// The value a variable declared without one starts with: empty, zero or
/// false for the primitive types, the first member of a known enum type
/// (`Enum.member`), none otherwise.
pub open spec fn default_value(var_type: Seq<char>, enums: Seq<Enum>) -> Option<VariableView> {
    if var_type == "String"@ {
        Some(VariableView::String(Seq::empty()))
    } else if var_type == "Number"@ {
        Some(VariableView::Number(zero_number()))
    } else if var_type == "Boolean"@ || var_type == "Bool"@ {
        Some(VariableView::Boolean(false))
    } else {
        match find_enum(enums, var_type) {
            Some(e) => if e.variants@.len() > 0 {
                Some(VariableView::String(e.name@ + "."@ + e.variants@[0]@))
            } else {
                None
            },
            None => None,
        }
    }
}

/// The state after one variable declaration.
pub open spec fn declare_variable(st: VariableStateView, v: Variable, enums: Seq<Enum>) -> VariableStateView {
    if v.var_type@ == "Branch"@ {
        match v.value {
            Some(JsonValue::Object(obj)) => VariableStateView {
                branches: st.branches.insert(v.name@, branch_from_json(obj@)),
                ..st
            },
            _ => st,
        }
    } else {
        let init = match v.value {
            Some(j) => from_json_spec(j),
            None => default_value(v.var_type@, enums),
        };
        match init {
            Some(x) => VariableStateView { variables: st.variables.insert(v.name@, x), ..st },
            None => st,
        }
    }
}

/// A variable declared without a value starts from its type: `Boolean` or
/// `Bool` as `false`, `Number` as `0`, `String` as the empty string. Its
/// declaration sets it so, whatever the state and the enums, and touches no
/// other variable and no branch.
pub proof fn lemma_declare_without_value(st: VariableStateView, v: Variable, enums: Seq<Enum>)
    requires
        v.value is None,
    ensures
        v.var_type@ == "Boolean"@ || v.var_type@ == "Bool"@ ==> declare_variable(st, v, enums) == (VariableStateView {
            variables: st.variables.insert(v.name@, VariableView::Boolean(false)),
            branches: st.branches,
        }),
        v.var_type@ == "Number"@ ==> declare_variable(st, v, enums) == (VariableStateView {
            variables: st.variables.insert(v.name@, VariableView::Number(NumberView { bits: 0, text: "0"@ })),
            branches: st.branches,
        }),
        v.var_type@ == "String"@ ==> declare_variable(st, v, enums) == (VariableStateView {
            variables: st.variables.insert(v.name@, VariableView::String(Seq::empty())),
            branches: st.branches,
        }),
{
    reveal_strlit("Boolean");
    reveal_strlit("Bool");
    reveal_strlit("Branch");
    reveal_strlit("String");
    reveal_strlit("Number");
    assert("Boolean"@.len() != "Branch"@.len() && "Bool"@.len() != "Branch"@.len());
    assert("Boolean"@.len() != "String"@.len() && "Bool"@.len() != "String"@.len());
    assert("Boolean"@.len() != "Number"@.len() && "Bool"@.len() != "Number"@.len());
    assert("Number"@[0] != "Branch"@[0] && "Number"@[0] != "String"@[0]);
    assert("String"@[0] != "Branch"@[0]);
}

/// A declaration touches no variable but the one it names.
proof fn lemma_declare_keeps_others(st: VariableStateView, v: Variable, enums: Seq<Enum>, name: Seq<char>)
    requires
        v.name@ != name,
    ensures
        declare_variable(st, v, enums).variables.contains_key(name) == st.variables.contains_key(name),
        declare_variable(st, v, enums).variables[name] == st.variables[name],
{
}

/// A variable declared `Boolean` (or `Bool`) without a value, and not
/// declared again later, reads `false` once every declaration is made; so
/// does it after the constants, when no constant has its name.
pub proof fn lemma_boolean_declared_false(
    st: VariableStateView,
    vars: Seq<Variable>,
    enums: Seq<Enum>,
    consts: Seq<Constant>,
    i: int,
)
    requires
        0 <= i < vars.len(),
        vars[i].value is None,
        vars[i].var_type@ == "Boolean"@ || vars[i].var_type@ == "Bool"@,
        forall|j: int| i < j < vars.len() ==> #[trigger] vars[j].name@ != vars[i].name@,
    ensures
        declare_variables(st, vars, enums).variables.contains_key(vars[i].name@),
        declare_variables(st, vars, enums).variables[vars[i].name@] == VariableView::Boolean(false),
        (forall|k: int| 0 <= k < consts.len() ==> #[trigger] consts[k].name@ != vars[i].name@) ==> {
            let done = declare_constants(declare_variables(st, vars, enums), consts);
            &&& done.variables.contains_key(vars[i].name@)
            &&& done.variables[vars[i].name@] == VariableView::Boolean(false)
        },
    decreases vars.len(),
{
    let name = vars[i].name@;
    let pre = vars.drop_last();
    if i == vars.len() - 1 {
        lemma_declare_without_value(declare_variables(st, pre, enums), vars[i], enums);
    } else {
        assert forall|j: int| i < j < pre.len() implies #[trigger] pre[j].name@ != pre[i].name@ by {
            assert(pre[j] == vars[j]);
        }
        lemma_boolean_declared_false(st, pre, enums, Seq::empty(), i);
        assert(vars.last().name@ != name) by {
            assert(vars[vars.len() - 1] == vars.last());
        }
        lemma_declare_keeps_others(declare_variables(st, pre, enums), vars.last(), enums, name);
    }
    if forall|k: int| 0 <= k < consts.len() ==> #[trigger] consts[k].name@ != name {
        lemma_constants_keep(declare_variables(st, vars, enums), consts, name);
    }
}

/// Constants touch no variable that none of them names.
proof fn lemma_constants_keep(st: VariableStateView, consts: Seq<Constant>, name: Seq<char>)
    requires
        forall|k: int| 0 <= k < consts.len() ==> #[trigger] consts[k].name@ != name,
    ensures
        declare_constants(st, consts).variables.contains_key(name) == st.variables.contains_key(name),
        declare_constants(st, consts).variables[name] == st.variables[name],
    decreases consts.len(),
{
    if consts.len() > 0 {
        let pre = consts.drop_last();
        assert forall|k: int| 0 <= k < pre.len() implies #[trigger] pre[k].name@ != name by {
            assert(pre[k] == consts[k]);
        }
        lemma_constants_keep(st, pre, name);
        assert(consts[consts.len() - 1] == consts.last());
    }
}

/// The state after a sequence of variable declarations.
pub open spec fn declare_variables(st: VariableStateView, vars: Seq<Variable>, enums: Seq<Enum>) -> VariableStateView
    decreases vars.len(),
{
    if vars.len() == 0 {
        st
    } else {
        declare_variable(declare_variables(st, vars.drop_last(), enums), vars.last(), enums)
    }
}

/// The state after a sequence of constant declarations: each constant whose
/// value is a string, number or boolean is readable under its name.
pub open spec fn declare_constants(st: VariableStateView, consts: Seq<Constant>) -> VariableStateView
    decreases consts.len(),
{
    if consts.len() == 0 {
        st
    } else {
        let prev = declare_constants(st, consts.drop_last());
        match from_json_spec(consts.last().value) {
            Some(x) => VariableStateView { variables: prev.variables.insert(consts.last().name@, x), ..prev },
            None => prev,
        }
    }
}

pub open spec fn empty_state() -> VariableStateView {
    VariableStateView { variables: Map::empty(), branches: Map::empty() }
}

fn opt_is(o: &Option<String>, lit: &str) -> (r: bool)
    ensures
        r == (opt_text(*o) == Some(lit@)),
{
    match o {
        Some(s) => text_eq(s.as_str(), lit),
        None => false,
    }
}

fn json_lookup<'a>(obj: &'a Vec<(String, JsonValue)>, key: &str) -> (r: Option<&'a JsonValue>)
    ensures
        r matches Some(v) ==> json_get(obj@, key@) == Some(*v),
        r is None ==> json_get(obj@, key@) is None,
{
    let mut i: usize = 0;
    assert(obj@.subrange(0, obj@.len() as int) =~= obj@);
    while i < obj.len()
        invariant
            i <= obj@.len(),
            json_get(obj@, key@) == json_get(obj@.subrange(i as int, obj@.len() as int), key@),
        decreases obj@.len() - i,
    {
        let ghost rest = obj@.subrange(i as int, obj@.len() as int);
        assert(rest[0] == obj@[i as int]);
        assert(rest.drop_first() =~= obj@.subrange(i + 1, obj@.len() as int));
        if text_eq(obj[i].0.as_str(), key) {
            return Some(&obj[i].1);
        }
        i = i + 1;
    }
    None
}

fn json_string_of(v: Option<&JsonValue>) -> (r: Option<String>)
    ensures
        opt_text(r) == json_str(match v {
            Some(x) => Some(*x),
            None => None,
        }),
{
    match v {
        Some(JsonValue::String(s)) => Some(s.clone()),
        _ => None,
    }
}

fn find_branch_declaration<'a>(vars: &'a Vec<Variable>, name: &str) -> (r: Option<&'a Variable>)
    ensures
        match r {
            Some(v) => find_branch_decl(vars@, name@) == Some(*v),
            None => find_branch_decl(vars@, name@) is None,
        },
{
    let mut i: usize = 0;
    assert(vars@.subrange(0, vars@.len() as int) =~= vars@);
    while i < vars.len()
        invariant
            i <= vars@.len(),
            find_branch_decl(vars@, name@) == find_branch_decl(vars@.subrange(i as int, vars@.len() as int), name@),
        decreases vars@.len() - i,
    {
        let ghost rest = vars@.subrange(i as int, vars@.len() as int);
        assert(rest[0] == vars@[i as int]);
        assert(rest.drop_first() =~= vars@.subrange(i + 1, vars@.len() as int));
        if text_eq(vars[i].name.as_str(), name) && text_eq(vars[i].var_type.as_str(), "Branch") {
            return Some(&vars[i]);
        }
        i = i + 1;
    }
    None
}

fn json_case_condition(c: &JsonValue) -> (r: Option<String>)
    ensures
        opt_text(r) == case_condition(*c),
{
    match c {
        JsonValue::Object(o) => json_string_of(json_lookup(o, "condition")),
        _ => None,
    }
}

fn first_case_named_in<'a>(cases: &'a Vec<JsonValue>, member: &str) -> (r: Option<&'a JsonValue>)
    ensures
        match r {
            Some(c) => first_json_case_named(cases@, member@) == Some(*c),
            None => first_json_case_named(cases@, member@) is None,
        },
{
    let mut i: usize = 0;
    assert(cases@.subrange(0, cases@.len() as int) =~= cases@);
    while i < cases.len()
        invariant
            i <= cases@.len(),
            first_json_case_named(cases@, member@) == first_json_case_named(
                cases@.subrange(i as int, cases@.len() as int),
                member@,
            ),
        decreases cases@.len() - i,
    {
        let ghost rest = cases@.subrange(i as int, cases@.len() as int);
        assert(rest[0] == cases@[i as int]);
        assert(rest.drop_first() =~= cases@.subrange(i + 1, cases@.len() as int));
        if let Some(cond) = json_case_condition(&cases[i]) {
            if text_eq(cond.as_str(), member) {
                return Some(&cases[i]);
            }
        }
        i = i + 1;
    }
    None
}

fn cases_of(a: &Vec<JsonValue>) -> (r: Vec<BranchCase>)
    ensures
        r@.map_values(|c: BranchCase| (c.condition@, c.text@)) == cases_from_json(a@),
{
    let mut out: Vec<BranchCase> = Vec::new();
    let mut i: usize = 0;
    while i < a.len()
        invariant
            i <= a@.len(),
            out@.map_values(|c: BranchCase| (c.condition@, c.text@)) == cases_from_json(a@.subrange(0, i as int)),
        decreases a@.len() - i,
    {
        let ghost pre = a@.subrange(0, i as int);
        assert(a@.subrange(0, i + 1).drop_last() =~= pre);
        assert(a@.subrange(0, i + 1).last() == a@[i as int]);
        if let JsonValue::Object(o) = &a[i] {
            let cond = match json_string_of(json_lookup(o, "condition")) {
                Some(s) => s,
                None => String::new(),
            };
            let text = match json_string_of(json_lookup(o, "text")) {
                Some(s) => s,
                None => String::new(),
            };
            out.push(BranchCase { condition: cond, text });
        }
        proof {
            assert(out@.map_values(|c: BranchCase| (c.condition@, c.text@)) =~= cases_from_json(a@.subrange(0, i + 1)));
        }
        i = i + 1;
    }
    assert(a@.subrange(0, a@.len() as int) =~= a@);
    out
}

impl MortarVariableState {
    #[verifier::type_invariant]
    spec fn well_formed(&self) -> bool {
        keys_distinct(self.variables@) && keys_distinct(self.branches@)
    }

    /// Create a new empty variable state.
    pub fn new() -> (r: Self)
        ensures
            r@ == empty_state(),
    {
        let r = MortarVariableState { variables: Vec::new(), branches: Vec::new() };
        assert(r@.variables =~= Map::empty());
        assert(r@.branches =~= Map::empty());
        r
    }

    /// Set a variable value.
    pub fn set(&mut self, name: &str, value: MortarVariableValue)
        ensures
            final(self)@.variables == old(self)@.variables.insert(name@, value@),
            final(self)@.branches == old(self)@.branches,
    {
        proof {
            use_type_invariant(&*self);
        }
        let found = assoc_index(&self.variables, name);
        let entry = (name.to_string(), value);
        proof {
            lemma_assoc_insert(self.variables@, entry, match found {
                Some(i) => Some(i as int),
                None => None,
            });
        }
        let mut vars = Vec::new();
        std::mem::swap(&mut vars, &mut self.variables);
        match found {
            Some(i) => {
                vars.set(i, entry);
            },
            None => {
                vars.push(entry);
            },
        }
        self.variables = vars;
    }

    /// Get a variable value.
    pub fn get(&self, name: &str) -> (r: Option<&MortarVariableValue>)
        ensures
            r is Some <==> self@.variables.contains_key(name@),
            r matches Some(v) ==> self@.variables[name@] == v@,
    {
        proof {
            use_type_invariant(self);
            lemma_assoc_view(self.variables@);
        }
        match assoc_index(&self.variables, name) {
            Some(i) => {
                proof {
                    assert(assoc_view(self.variables@).contains_key(self.variables@[i as int].0@));
                }
                Some(&self.variables[i].1)
            },
            None => None,
        }
    }

    fn set_branch(&mut self, name: &str, def: BranchDef)
        ensures
            final(self)@.branches == old(self)@.branches.insert(name@, def@),
            final(self)@.variables == old(self)@.variables,
    {
        proof {
            use_type_invariant(&*self);
        }
        let found = assoc_index(&self.branches, name);
        let entry = (name.to_string(), def);
        proof {
            lemma_assoc_insert(self.branches@, entry, match found {
                Some(i) => Some(i as int),
                None => None,
            });
        }
        let mut branches = Vec::new();
        std::mem::swap(&mut branches, &mut self.branches);
        match found {
            Some(i) => {
                branches.set(i, entry);
            },
            None => {
                branches.push(entry);
            },
        }
        self.branches = branches;
    }

    /// Execute an assignment statement (see [`assignment_value`]).
    pub fn execute_assignment(&mut self, var_name: &str, value: &Lexeme)
        ensures
            final(self)@.variables == old(self)@.variables.insert(var_name@, assignment_value(*value)),
            final(self)@.branches == old(self)@.branches,
    {
        let text = value.text.as_str();
        if text_contains_char(text, '.') {
            self.set(var_name, MortarVariableValue::String(value.text.clone()));
        } else if text_eq(text, "true") {
            self.set(var_name, MortarVariableValue::Boolean(true));
        } else if text_eq(text, "false") {
            self.set(var_name, MortarVariableValue::Boolean(false));
        } else if let Some(n) = &value.number {
            self.set(var_name, MortarVariableValue::Number(copy_number(n)));
        } else {
            self.set(var_name, MortarVariableValue::String(value.text.clone()));
        }
    }

    /// Set a branch variable's text directly: a branch with the single case
    /// `default`, and the variable `default` set to true.
    pub fn set_branch_text(&mut self, name: String, text: String)
        ensures
            final(self)@.branches == old(self)@.branches.insert(
                name@,
                BranchView { enum_type: None, cases: seq![("default"@, text@)] },
            ),
            final(self)@.variables == old(self)@.variables.insert("default"@, VariableView::Boolean(true)),
    {
        let mut cases: Vec<BranchCase> = Vec::new();
        cases.push(BranchCase { condition: "default".to_string(), text });
        let def = BranchDef { enum_type: None, cases };
        proof {
            assert(def@.cases =~= seq![("default"@, text@)]);
        }
        self.set_branch(name.as_str(), def);
        self.set("default", MortarVariableValue::Boolean(true));
    }

    /// Get a branch variable's text by evaluating its conditions
    /// (see [`branch_text_spec`]).
    pub fn get_branch_text(&self, name: &str) -> (r: Option<String>)
        ensures
            opt_text(r) == branch_text_spec(self@, name@),
    {
        proof {
            use_type_invariant(self);
            lemma_assoc_view(self.branches@);
        }
        let idx = match assoc_index(&self.branches, name) {
            Some(i) => i,
            None => {
                return None;
            },
        };
        let branch = &self.branches[idx].1;
        let ghost cases = branch@.cases;
        proof {
            assert(assoc_view(self.branches@).contains_key(self.branches@[idx as int].0@));
            assert(self@.branches[name@] == branch@);
        }
        if let Some(enum_var) = &branch.enum_type {
            let value = match self.get(enum_var.as_str()) {
                Some(v) => v,
                None => {
                    return None;
                },
            };
            let shown = value.to_display_string();
            let member = member_after_last_dot(shown.as_str());
            let ghost expected = branch_text_spec(self@, name@);
            assert(expected == first_case_named(cases, member@));
            let mut i: usize = 0;
            assert(cases.subrange(0, cases.len() as int) =~= cases);
            while i < branch.cases.len()
                invariant
                    i <= branch.cases@.len(),
                    cases == branch@.cases,
                    expected == branch_text_spec(self@, name@),
                    expected == first_case_named(cases, member@),
                    first_case_named(cases, member@) == first_case_named(
                        cases.subrange(i as int, cases.len() as int),
                        member@,
                    ),
                decreases branch.cases@.len() - i,
            {
                let ghost rest = cases.subrange(i as int, cases.len() as int);
                assert(rest[0] == cases[i as int]);
                assert(rest.drop_first() =~= cases.subrange(i + 1, cases.len() as int));
                assert(cases[i as int] == (branch.cases@[i as int].condition@, branch.cases@[i as int].text@));
                if text_eq(branch.cases[i].condition.as_str(), member.as_str()) {
                    assert(first_case_named(rest, member@) == Some(branch.cases@[i as int].text@));
                    return Some(branch.cases[i].text.clone());
                }
                i = i + 1;
            }
            None
        } else {
            let ghost expected = branch_text_spec(self@, name@);
            assert(expected == first_case_true(cases, self@.variables));
            let mut i: usize = 0;
            assert(cases.subrange(0, cases.len() as int) =~= cases);
            while i < branch.cases.len()
                invariant
                    i <= branch.cases@.len(),
                    cases == branch@.cases,
                    expected == branch_text_spec(self@, name@),
                    expected == first_case_true(cases, self@.variables),
                    first_case_true(cases, self@.variables) == first_case_true(
                        cases.subrange(i as int, cases.len() as int),
                        self@.variables,
                    ),
                decreases branch.cases@.len() - i,
            {
                let ghost rest = cases.subrange(i as int, cases.len() as int);
                assert(rest[0] == cases[i as int]);
                assert(rest.drop_first() =~= cases.subrange(i + 1, cases.len() as int));
                assert(cases[i as int] == (branch.cases@[i as int].condition@, branch.cases@[i as int].text@));
                if let Some(MortarVariableValue::Boolean(true)) = self.get(branch.cases[i].condition.as_str()) {
                    return Some(branch.cases[i].text.clone());
                }
                i = i + 1;
            }
            None
        }
    }

    /// The number an operand stands for (see [`numeric_operand`]).
    fn get_numeric_value(&self, c: &IfCondition) -> (r: Option<MortarNumber>)
        ensures
            match r {
                Some(n) => numeric_operand(*c, self@.variables) == Some(n@),
                None => numeric_operand(*c, self@.variables) is None,
            },
    {
        if text_eq(c.cond_type.as_str(), "identifier") {
            match &c.value {
                Some(l) => match &l.number {
                    Some(n) => Some(copy_number(n)),
                    None => match self.get(l.text.as_str()) {
                        Some(MortarVariableValue::Number(n)) => Some(copy_number(n)),
                        _ => None,
                    },
                },
                None => None,
            }
        } else if text_eq(c.cond_type.as_str(), "literal") {
            match &c.value {
                Some(l) => match &l.number {
                    Some(n) => Some(copy_number(n)),
                    None => None,
                },
                None => None,
            }
        } else {
            None
        }
    }

    /// The text an operand stands for (see [`string_operand`]).
    fn get_string_value(&self, c: &IfCondition) -> (r: Option<String>)
        ensures
            opt_text(r) == string_operand(*c, self@.variables),
    {
        if text_eq(c.cond_type.as_str(), "identifier") {
            match &c.value {
                Some(l) => match self.get(l.text.as_str()) {
                    Some(v) => Some(v.to_display_string()),
                    None => None,
                },
                None => None,
            }
        } else if text_eq(c.cond_type.as_str(), "enum_member") || text_eq(c.cond_type.as_str(), "literal") {
            match &c.value {
                Some(l) => Some(l.text.clone()),
                None => None,
            }
        } else {
            None
        }
    }

    /// `==` or `!=` between two operands (see [`equality_spec`]).
    fn compare_values_eq(&self, left: &IfCondition, right: &IfCondition, expect_equal: bool) -> (r: bool)
        ensures
            r == equality_spec(*left, *right, self@.variables, expect_equal),
    {
        let ln = self.get_numeric_value(left);
        let rn = self.get_numeric_value(right);
        if let (Some(a), Some(b)) = (&ln, &rn) {
            let equal = a.nearly_equal(b);
            return if expect_equal {
                equal
            } else {
                !equal
            };
        }
        let ls = self.get_string_value(left);
        let rs = self.get_string_value(right);
        if let (Some(a), Some(b)) = (&ls, &rs) {
            let equal = text_eq(a.as_str(), b.as_str());
            return if expect_equal {
                equal
            } else {
                !equal
            };
        }
        false
    }

    /// An ordering comparison between two operands; both must stand for
    /// numbers.
    fn compare_values(&self, left: &IfCondition, right: &IfCondition, op: &str) -> (r: bool)
        ensures
            r == match (numeric_operand(*left, self@.variables), numeric_operand(*right, self@.variables)) {
                (Some(a), Some(b)) => compare_numbers_spec(op@, a, b),
                _ => false,
            },
    {
        let ln = self.get_numeric_value(left);
        let rn = self.get_numeric_value(right);
        match (&ln, &rn) {
            (Some(a), Some(b)) => compare_numbers(op, a, b),
            _ => false,
        }
    }

    /// Evaluate a condition over the variables (see [`variable_eval`]):
    /// logical and comparison operators, `!`, boolean variables and the
    /// literals `true`/`false`. A function call, an unknown node type or
    /// operator, or a node that lacks a part it needs counts as false.
    pub fn evaluate_condition(&self, condition: &IfCondition) -> (r: bool)
        ensures
            r == variable_eval(*condition, self@.variables),
        decreases condition,
    {
        let t = condition.cond_type.as_str();
        if text_eq(t, "binary") {
            match (&condition.left, &condition.right, &condition.operator) {
                (Some(l), Some(r), Some(op)) => {
                    let o = op.as_str();
                    if text_eq(o, "&&") {
                        let a = self.evaluate_condition(l);
                        let b = self.evaluate_condition(r);
                        a && b
                    } else if text_eq(o, "||") {
                        let a = self.evaluate_condition(l);
                        let b = self.evaluate_condition(r);
                        a || b
                    } else if text_eq(o, "==") {
                        self.compare_values_eq(l, r, true)
                    } else if text_eq(o, "!=") {
                        self.compare_values_eq(l, r, false)
                    } else {
                        self.compare_values(l, r, o)
                    }
                },
                _ => false,
            }
        } else if text_eq(t, "unary") {
            match (&condition.operand, &condition.operator) {
                (Some(o), Some(op)) => if text_eq(op.as_str(), "!") {
                    !self.evaluate_condition(o)
                } else {
                    false
                },
                _ => false,
            }
        } else if text_eq(t, "identifier") {
            match &condition.value {
                Some(l) => match self.get(l.text.as_str()) {
                    Some(MortarVariableValue::Boolean(b)) => *b,
                    _ => false,
                },
                None => false,
            }
        } else if text_eq(t, "literal") {
            match &condition.value {
                Some(l) => text_eq(l.text.as_str(), "true"),
                None => false,
            }
        } else {
            false
        }
    }

    fn declare(&mut self, var: &Variable, enums: &Vec<Enum>)
        ensures
            final(self)@ == declare_variable(old(self)@, *var, enums@),
    {
        if text_eq(var.var_type.as_str(), "Branch") {
            if let Some(JsonValue::Object(obj)) = &var.value {
                let enum_type = json_string_of(json_lookup(obj, "enum_type"));
                let cases = match json_lookup(obj, "cases") {
                    Some(JsonValue::Array(a)) => cases_of(a),
                    _ => Vec::new(),
                };
                let def = BranchDef { enum_type, cases };
                proof {
                    assert(def@.cases =~= branch_from_json(obj@).cases);
                }
                self.set_branch(var.name.as_str(), def);
            }
            return;
        }
        let init = match &var.value {
            Some(j) => MortarVariableValue::from_json(j),
            None => default_for_type(var.var_type.as_str(), enums),
        };
        if let Some(x) = init {
            self.set(var.name.as_str(), x);
        }
    }

    /// Initialize from variable, constant and enum declarations: variables in
    /// order (see [`declare_variable`]), then constants.
    pub fn from_variables(variables: &Vec<Variable>, constants: &Vec<Constant>, enums: &Vec<Enum>) -> (r: Self)
        ensures
            r@ == declare_constants(declare_variables(empty_state(), variables@, enums@), constants@),
    {
        let mut state = Self::new();
        let mut i: usize = 0;
        while i < variables.len()
            invariant
                i <= variables@.len(),
                state@ == declare_variables(empty_state(), variables@.subrange(0, i as int), enums@),
            decreases variables@.len() - i,
        {
            assert(variables@.subrange(0, i + 1).drop_last() =~= variables@.subrange(0, i as int));
            state.declare(&variables[i], enums);
            i = i + 1;
        }
        assert(variables@.subrange(0, variables@.len() as int) =~= variables@);
        let ghost after_vars = state@;
        let mut k: usize = 0;
        while k < constants.len()
            invariant
                k <= constants@.len(),
                state@ == declare_constants(after_vars, constants@.subrange(0, k as int)),
            decreases constants@.len() - k,
        {
            assert(constants@.subrange(0, k + 1).drop_last() =~= constants@.subrange(0, k as int));
            if let Some(x) = MortarVariableValue::from_json(&constants[k].value) {
                state.set(constants[k].name.as_str(), x);
            }
            k = k + 1;
        }
        assert(constants@.subrange(0, constants@.len() as int) =~= constants@);
        state
    }

    fn first_case_true_in<'a>(&self, cases: &'a Vec<JsonValue>) -> (r: Option<&'a JsonValue>)
        ensures
            match r {
                Some(c) => first_json_case_true(cases@, self@.variables) == Some(*c),
                None => first_json_case_true(cases@, self@.variables) is None,
            },
    {
        let mut i: usize = 0;
        assert(cases@.subrange(0, cases@.len() as int) =~= cases@);
        while i < cases.len()
            invariant
                i <= cases@.len(),
                first_json_case_true(cases@, self@.variables) == first_json_case_true(
                    cases@.subrange(i as int, cases@.len() as int),
                    self@.variables,
                ),
            decreases cases@.len() - i,
        {
            let ghost rest = cases@.subrange(i as int, cases@.len() as int);
            assert(rest[0] == cases@[i as int]);
            assert(rest.drop_first() =~= cases@.subrange(i + 1, cases@.len() as int));
            if let Some(cond) = json_case_condition(&cases[i]) {
                if let Some(MortarVariableValue::Boolean(true)) = self.get(cond.as_str()) {
                    return Some(&cases[i]);
                }
            }
            i = i + 1;
        }
        None
    }

    /// Get a branch variable's events by evaluating its conditions (see
    /// [`branch_events_spec`]): the `events` array of the case it selects,
    /// as the compiled script holds it.
    pub fn get_branch_events<'a>(&self, name: &str, variables: &'a Vec<Variable>) -> (r: Option<&'a Vec<JsonValue>>)
        ensures
            match r {
                Some(events) => branch_events_spec(self@, name@, variables@) == Some(events@),
                None => branch_events_spec(self@, name@, variables@) is None,
            },
    {
        let decl = match find_branch_declaration(variables, name) {
            Some(d) => d,
            None => {
                return None;
            },
        };
        let obj = match &decl.value {
            Some(JsonValue::Object(o)) => o,
            _ => {
                return None;
            },
        };
        let cases = match json_lookup(obj, "cases") {
            Some(JsonValue::Array(a)) => a,
            _ => {
                return None;
            },
        };
        let chosen = match json_string_of(json_lookup(obj, "enum_type")) {
            Some(ev) => match self.get(ev.as_str()) {
                Some(v) => {
                    let shown = v.to_display_string();
                    let member = member_after_last_dot(shown.as_str());
                    first_case_named_in(cases, member.as_str())
                },
                None => None,
            },
            None => self.first_case_true_in(cases),
        };
        match chosen {
            Some(JsonValue::Object(c)) => match json_lookup(c, "events") {
                Some(JsonValue::Array(events)) => Some(events),
                _ => None,
            },
            _ => None,
        }
    }
}

/// Reading a variable after setting it gives the value set, and every
/// other variable reads as before.
pub proof fn lemma_set_then_get(st: VariableStateView, name: Seq<char>, value: VariableView, other: Seq<char>)
    ensures
        st.variables.insert(name, value).contains_key(name),
        st.variables.insert(name, value)[name] == value,
        other != name ==> (st.variables.insert(name, value).contains_key(other) <==> st.variables.contains_key(
            other,
        )),
        other != name && st.variables.contains_key(other) ==> st.variables.insert(name, value)[other]
            == st.variables[other],
{
}

/// A branch whose text was set directly reads back as that text.
pub proof fn lemma_branch_text_roundtrip(st: VariableStateView, name: Seq<char>, text: Seq<char>)
    ensures
        branch_text_spec(
            VariableStateView {
                branches: st.branches.insert(name, BranchView { enum_type: None, cases: seq![("default"@, text)] }),
                variables: st.variables.insert("default"@, VariableView::Boolean(true)),
            },
            name,
        ) == Some(text),
{
    let cases = seq![("default"@, text)];
    let vars = st.variables.insert("default"@, VariableView::Boolean(true));
    assert(cases.drop_first() =~= Seq::<(Seq<char>, Seq<char>)>::empty());
    assert(first_case_true(cases, vars) == Some(text));
}

impl Default for MortarVariableState {
    /// An empty variable state.
    fn default() -> (r: Self)
        ensures
            r@ == empty_state(),
    {
        Self::new()
    }
}

/// Numeric comparison by operator text (see [`compare_numbers_spec`]).
pub fn compare_numbers(op: &str, a: &MortarNumber, b: &MortarNumber) -> (r: bool)
    ensures
        r == compare_numbers_spec(op@, a@, b@),
{
    if text_eq(op, ">") {
        b.less_than(a)
    } else if text_eq(op, "<") {
        a.less_than(b)
    } else if text_eq(op, ">=") {
        b.less_equal(a)
    } else if text_eq(op, "<=") {
        a.less_equal(b)
    } else {
        false
    }
}

fn zero() -> (r: MortarNumber)
    ensures
        r@ == zero_number(),
{
    MortarNumber { bits: 0, text: "0".to_string() }
}

fn default_for_type(var_type: &str, enums: &Vec<Enum>) -> (r: Option<MortarVariableValue>)
    ensures
        match r {
            Some(v) => default_value(var_type@, enums@) == Some(v@),
            None => default_value(var_type@, enums@) is None,
        },
{
    if text_eq(var_type, "String") {
        return Some(MortarVariableValue::String(String::new()));
    }
    if text_eq(var_type, "Number") {
        return Some(MortarVariableValue::Number(zero()));
    }
    if text_eq(var_type, "Boolean") || text_eq(var_type, "Bool") {
        return Some(MortarVariableValue::Boolean(false));
    }
    let mut i: usize = 0;
    assert(enums@.subrange(0, enums@.len() as int) =~= enums@);
    let ghost expected = default_value(var_type@, enums@);
    assert(expected == match find_enum(enums@, var_type@) {
        Some(e) => if e.variants@.len() > 0 {
            Some(VariableView::String(e.name@ + "."@ + e.variants@[0]@))
        } else {
            None
        },
        None => None,
    });
    while i < enums.len()
        invariant
            i <= enums@.len(),
            expected == default_value(var_type@, enums@),
            expected == match find_enum(enums@, var_type@) {
                Some(e) => if e.variants@.len() > 0 {
                    Some(VariableView::String(e.name@ + "."@ + e.variants@[0]@))
                } else {
                    None
                },
                None => None,
            },
            find_enum(enums@, var_type@) == find_enum(enums@.subrange(i as int, enums@.len() as int), var_type@),
        decreases enums@.len() - i,
    {
        let ghost rest = enums@.subrange(i as int, enums@.len() as int);
        assert(rest[0] == enums@[i as int]);
        assert(rest.drop_first() =~= enums@.subrange(i + 1, enums@.len() as int));
        if text_eq(enums[i].name.as_str(), var_type) {
            assert(find_enum(rest, var_type@) == Some(enums@[i as int]));
            if enums[i].variants.len() > 0 {
                let v = enums[i].name.clone().concat(".").concat(enums[i].variants[0].as_str());
                return Some(MortarVariableValue::String(v));
            }
            return None;
        }
        i = i + 1;
    }
    None
}

} // verus!
