//! Mortar values: the arguments and results of bound functions
//! ([`MortarValue`]), the values of script variables ([`MortarVariableValue`]),
//! the words of a script that may read as numbers ([`Lexeme`]), and the JSON
//! values that compiled scripts carry ([`JsonValue`]).

use vstd::prelude::*;
use crate::number::{nonzero_bits, MortarNumber, NumberView};
use crate::text::{text_eq, trim_class, trim_spec, TrimClass};
use vstd::string::*;

verus! {

/// A string argument or result of a Mortar function.
#[derive(Debug, Clone, PartialEq, Eq)]
pub struct MortarString(pub String);

/// A boolean argument or result of a Mortar function.
#[derive(Debug, Clone, Copy, PartialEq, Eq)]
pub struct MortarBoolean(pub bool);

/// The result of a Mortar function that returns nothing.
#[derive(Debug, Clone, Copy, PartialEq, Eq)]
pub struct MortarVoid;

impl MortarString {
    pub fn as_str(&self) -> (r: &str)
        ensures
            r@ == self.0@,
    {
        self.0.as_str()
    }

    pub fn from_text(s: &str) -> (r: Self)
        ensures
            r.0@ == s@,
    {
        MortarString(s.to_string())
    }
}

impl MortarBoolean {
    pub fn as_bool(&self) -> (r: bool)
        ensures
            r == self.0,
    {
        self.0
    }
}

/// A word of a script together with the number it reads as, if any
/// (`number` is what `str::parse::<f64>` gives for `text`).
#[derive(Debug, Clone, PartialEq, Eq)]
pub struct Lexeme {
    pub text: String,
    pub number: Option<MortarNumber>,
}

impl Lexeme {
    pub fn new(text: String, number: Option<MortarNumber>) -> (r: Self)
        ensures
            r.text@ == text@,
            r.number == number,
    {
        Lexeme { text, number }
    }
}

/// The number a lexeme reads as, by its view.
pub open spec fn lexeme_number(l: Lexeme) -> Option<NumberView> {
    match l.number {
        Some(n) => Some(n@),
        None => None,
    }
}

/// Arguments that can be passed to Mortar functions, and their results.
#[derive(Debug, Clone, PartialEq, Eq)]
pub enum MortarValue {
    String(MortarString),
    Number(MortarNumber),
    Boolean(MortarBoolean),
    Void,
}

/// The abstract content of a [`MortarValue`].
pub enum ValueView {
    String(Seq<char>),
    Number(NumberView),
    Boolean(bool),
    Void,
}

impl View for MortarValue {
    type V = ValueView;

    open spec fn view(&self) -> ValueView {
        match self {
            MortarValue::String(s) => ValueView::String(s.0@),
            MortarValue::Number(n) => ValueView::Number(n@),
            MortarValue::Boolean(b) => ValueView::Boolean(b.0),
            MortarValue::Void => ValueView::Void,
        }
    }
}

/// The value a word of a script denotes: a number when it reads as one, then
/// the booleans `true` and `false`, then a string, with one pair of matching
/// quotes (`"` or `'`) around the trimmed text taken off.
pub open spec fn parse_spec(text: Seq<char>, number: Option<NumberView>) -> ValueView {
    if number is Some {
        ValueView::Number(number->0)
    } else if text == "true"@ {
        ValueView::Boolean(true)
    } else if text == "false"@ {
        ValueView::Boolean(false)
    } else {
        ValueView::String(unquote_spec(text))
    }
}

/// A lone quote mark is no quoted string: where it reads as no number it
/// parses as the string it is, the quote mark itself.
pub proof fn lemma_lone_quote_is_string(text: Seq<char>)
    requires
        text == seq!['"'] || text == seq!['\''],
    ensures
        parse_spec(text, None) == ValueView::String(text),
{
    reveal_strlit("true");
    reveal_strlit("false");
    assert(text != "true"@ && text != "false"@) by {
        assert(text.len() != "true"@.len() && text.len() != "false"@.len());
    }
    assert(trim_spec(TrimClass::Whitespace, text).len() <= 1);
    assert(!is_quote_pair(trim_spec(TrimClass::Whitespace, text)));
}

pub open spec fn is_quote_pair(t: Seq<char>) -> bool {
    t.len() >= 2 && ((t[0] == '"' && t.last() == '"') || (t[0] == '\'' && t.last() == '\''))
}

/// The text of a string argument: the trimmed text without its surrounding
/// quotes when it is quoted, else the text unchanged.
pub open spec fn unquote_spec(text: Seq<char>) -> Seq<char> {
    let t = trim_spec(TrimClass::Whitespace, text);
    if is_quote_pair(t) {
        t.subrange(1, t.len() - 1)
    } else {
        text
    }
}

/// Whether a value counts as true in a condition.
pub open spec fn truthy_spec(v: ValueView) -> bool {
    match v {
        ValueView::String(s) => s.len() > 0,
        ValueView::Number(n) => nonzero_bits(n.bits),
        ValueView::Boolean(b) => b,
        ValueView::Void => false,
    }
}

pub open spec fn bool_text(b: bool) -> Seq<char> {
    if b {
        "true"@
    } else {
        "false"@
    }
}

/// The text a value shows as when interpolated into dialogue.
pub open spec fn display_spec(v: ValueView) -> Seq<char> {
    match v {
        ValueView::String(s) => s,
        ValueView::Number(n) => n.text,
        ValueView::Boolean(b) => bool_text(b),
        ValueView::Void => Seq::empty(),
    }
}

pub fn bool_to_text(b: bool) -> (r: String)
    ensures
        r@ == bool_text(b),
{
    proof {
        reveal_strlit("true");
        reveal_strlit("false");
    }
    if b {
        "true".to_string()
    } else {
        "false".to_string()
    }
}

/// Copies a number, keeping both parts.
pub fn copy_number(n: &MortarNumber) -> (r: MortarNumber)
    ensures
        r == *n,
{
    MortarNumber { bits: n.bits, text: n.text.clone() }
}

impl MortarValue {
    /// Copies a value, keeping every part.
    pub fn duplicate(&self) -> (r: Self)
        ensures
            r == *self,
    {
        match self {
            MortarValue::String(s) => MortarValue::String(MortarString(s.0.clone())),
            MortarValue::Number(n) => MortarValue::Number(copy_number(n)),
            MortarValue::Boolean(b) => MortarValue::Boolean(MortarBoolean(b.0)),
            MortarValue::Void => MortarValue::Void,
        }
    }

    pub fn as_string(&self) -> (r: Option<&MortarString>)
        ensures
            r == (match self {
                MortarValue::String(s) => Some(s),
                _ => None::<&MortarString>,
            }),
    {
        match self {
            MortarValue::String(s) => Some(s),
            _ => None,
        }
    }

    pub fn as_number(&self) -> (r: Option<MortarNumber>)
        ensures
            r == (match self {
                MortarValue::Number(n) => Some(*n),
                _ => None::<MortarNumber>,
            }),
    {
        match self {
            MortarValue::Number(n) => Some(copy_number(n)),
            _ => None,
        }
    }

    pub fn as_bool(&self) -> (r: Option<MortarBoolean>)
        ensures
            r == (match self {
                MortarValue::Boolean(b) => Some(*b),
                _ => None::<MortarBoolean>,
            }),
    {
        match self {
            MortarValue::Boolean(b) => Some(*b),
            _ => None,
        }
    }

    /// Parses a script word into a value (see [`parse_spec`]).
    pub fn parse(s: &Lexeme) -> (r: Self)
        ensures
            r@ == parse_spec(s.text@, lexeme_number(*s)),
    {
        proof {
            reveal_strlit("true");
            reveal_strlit("false");
        }
        if let Some(n) = &s.number {
            return MortarValue::Number(copy_number(n));
        }
        if text_eq(s.text.as_str(), "true") {
            return MortarValue::Boolean(MortarBoolean(true));
        }
        if text_eq(s.text.as_str(), "false") {
            return MortarValue::Boolean(MortarBoolean(false));
        }
        MortarValue::String(MortarString(unquote(s.text.as_str())))
    }

    /// Whether the value counts as true in a condition: a true boolean, a
    /// nonzero number (NaN included) or a non-empty string.
    pub fn is_truthy(&self) -> (r: bool)
        ensures
            r == truthy_spec(self@),
    {
        match self {
            MortarValue::String(s) => s.0.as_str().unicode_len() > 0,
            MortarValue::Number(n) => n.is_nonzero(),
            MortarValue::Boolean(b) => b.0,
            MortarValue::Void => false,
        }
    }

    /// The text the value shows as when interpolated into dialogue.
    pub fn to_display_string(&self) -> (r: String)
        ensures
            r@ == display_spec(self@),
    {
        match self {
            MortarValue::String(s) => s.0.clone(),
            MortarValue::Number(n) => n.text.clone(),
            MortarValue::Boolean(b) => bool_to_text(b.0),
            MortarValue::Void => String::new(),
        }
    }
}

impl From<String> for MortarValue {
    fn from(s: String) -> (r: Self) {
        MortarValue::String(MortarString(s))
    }
}

impl vstd::std_specs::convert::FromSpecImpl<String> for MortarValue {
    open spec fn obeys_from_spec() -> bool {
        true
    }

    open spec fn from_spec(s: String) -> Self {
        MortarValue::String(MortarString(s))
    }
}

impl From<bool> for MortarValue {
    fn from(b: bool) -> (r: Self) {
        MortarValue::Boolean(MortarBoolean(b))
    }
}

impl vstd::std_specs::convert::FromSpecImpl<bool> for MortarValue {
    open spec fn obeys_from_spec() -> bool {
        true
    }

    open spec fn from_spec(b: bool) -> Self {
        MortarValue::Boolean(MortarBoolean(b))
    }
}

impl From<MortarNumber> for MortarValue {
    fn from(n: MortarNumber) -> (r: Self) {
        MortarValue::Number(n)
    }
}

impl vstd::std_specs::convert::FromSpecImpl<MortarNumber> for MortarValue {
    open spec fn obeys_from_spec() -> bool {
        true
    }

    open spec fn from_spec(n: MortarNumber) -> Self {
        MortarValue::Number(n)
    }
}

/// Strips one pair of matching quotes from the trimmed text.
pub fn unquote(text: &str) -> (r: String)
    ensures
        r@ == unquote_spec(text@),
{
    let t = trim_class(TrimClass::Whitespace, text);
    let n = t.as_str().unicode_len();
    if n >= 2 {
        let first = t.as_str().get_char(0);
        let last = t.as_str().get_char(n - 1);
        if (first == '"' && last == '"') || (first == '\'' && last == '\'') {
            return t.as_str().substring_char(1, n - 1).to_string();
        }
    }
    text.to_string()
}

/// Runtime value of a Mortar variable.
#[derive(Debug, Clone, PartialEq, Eq)]
pub enum MortarVariableValue {
    String(String),
    Number(MortarNumber),
    Boolean(bool),
}

/// The abstract content of a [`MortarVariableValue`].
pub enum VariableView {
    String(Seq<char>),
    Number(NumberView),
    Boolean(bool),
}

impl View for MortarVariableValue {
    type V = VariableView;

    open spec fn view(&self) -> VariableView {
        match self {
            MortarVariableValue::String(s) => VariableView::String(s@),
            MortarVariableValue::Number(n) => VariableView::Number(n@),
            MortarVariableValue::Boolean(b) => VariableView::Boolean(*b),
        }
    }
}

/// The text a variable value shows as.
pub open spec fn variable_display_spec(v: VariableView) -> Seq<char> {
    match v {
        VariableView::String(s) => s,
        VariableView::Number(n) => n.text,
        VariableView::Boolean(b) => bool_text(b),
    }
}

/// A JSON value as compiled Mortar scripts carry it (variable initialisers,
/// constants, branch definitions).
#[derive(Debug)]
pub enum JsonValue {
    Null,
    Bool(bool),
    Number(MortarNumber),
    String(String),
    Array(Vec<JsonValue>),
    Object(Vec<(String, JsonValue)>),
}

impl Clone for JsonValue {
    /// A copy of the value, part by part.
    fn clone(&self) -> (r: Self)
        decreases self,
    {
        match self {
            JsonValue::Null => JsonValue::Null,
            JsonValue::Bool(b) => JsonValue::Bool(*b),
            JsonValue::Number(n) => JsonValue::Number(copy_number(n)),
            JsonValue::String(s) => JsonValue::String(s.clone()),
            JsonValue::Array(items) => {
                let mut out: Vec<JsonValue> = Vec::new();
                let mut i: usize = 0;
                while i < items.len()
                    invariant
                        i <= items.len(),
                        *self == JsonValue::Array(*items),
                    decreases items.len() - i,
                {
                    proof {
                        assert(decreases_to!(*self => self->Array_0));
                        assert(decreases_to!(self->Array_0 => self->Array_0@));
                        assert(decreases_to!(items@ => items@[i as int]));
                    }
                    out.push(items[i].clone());
                    i = i + 1;
                }
                JsonValue::Array(out)
            },
            JsonValue::Object(entries) => {
                let mut out: Vec<(String, JsonValue)> = Vec::new();
                let mut i: usize = 0;
                while i < entries.len()
                    invariant
                        i <= entries.len(),
                        *self == JsonValue::Object(*entries),
                    decreases entries.len() - i,
                {
                    proof {
                        assert(decreases_to!(*self => self->Object_0));
                        assert(decreases_to!(self->Object_0 => self->Object_0@));
                        assert(decreases_to!(entries@ => entries@[i as int]));
                        assert(decreases_to!(entries@[i as int] => entries@[i as int].1));
                    }
                    let value = entries[i].1.clone();
                    out.push((entries[i].0.clone(), value));
                    i = i + 1;
                }
                JsonValue::Object(out)
            },
        }
    }
}

/// The variable value a JSON value denotes: strings, numbers and booleans
/// map over, anything else has none.
pub open spec fn from_json_spec(v: JsonValue) -> Option<VariableView> {
    match v {
        JsonValue::String(s) => Some(VariableView::String(s@)),
        JsonValue::Number(n) => Some(VariableView::Number(n@)),
        JsonValue::Bool(b) => Some(VariableView::Boolean(b)),
        _ => None,
    }
}

impl MortarVariableValue {
    /// Copies a value, keeping every part.
    pub fn duplicate(&self) -> (r: Self)
        ensures
            r == *self,
    {
        match self {
            MortarVariableValue::String(s) => MortarVariableValue::String(s.clone()),
            MortarVariableValue::Number(n) => MortarVariableValue::Number(copy_number(n)),
            MortarVariableValue::Boolean(b) => MortarVariableValue::Boolean(*b),
        }
    }

    /// Parses a value from JSON.
    pub fn from_json(value: &JsonValue) -> (r: Option<Self>)
        ensures
            r matches Some(v) ==> from_json_spec(*value) == Some(v@),
            r is None ==> from_json_spec(*value) is None,
    {
        match value {
            JsonValue::String(s) => Some(MortarVariableValue::String(s.clone())),
            JsonValue::Number(n) => Some(MortarVariableValue::Number(copy_number(n))),
            JsonValue::Bool(b) => Some(MortarVariableValue::Boolean(*b)),
            _ => None,
        }
    }

    /// Converts to display string.
    pub fn to_display_string(&self) -> (r: String)
        ensures
            r@ == variable_display_spec(self@),
    {
        match self {
            MortarVariableValue::String(s) => s.clone(),
            MortarVariableValue::Number(n) => n.text.clone(),
            MortarVariableValue::Boolean(b) => bool_to_text(*b),
        }
    }
}

} // verus!
