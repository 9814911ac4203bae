//! The data of a compiled Mortar script that the runtime reads: nodes and
//! their content items, interpolated text, statements, events, choices and
//! function declarations.
//!
//! Each content item of a node is a JSON object in the compiled script; the
//! host reads its fields into a [`ContentItem`], one field per key the
//! runtime looks at.

use vstd::prelude::*;
use crate::condition::{Condition, IfCondition};
use crate::number::MortarNumber;
use crate::value::Lexeme;
use crate::variable_state::Variable;

verus! {

/// A piece of interpolated text: plain `text`, an `expression` that calls a
/// bound function, or a `placeholder` naming a variable (`{name}`).
#[derive(Debug, Clone)]
pub struct StringPart {
    pub part_type: String,
    pub content: String,
    pub function_name: Option<String>,
    pub args: Vec<Lexeme>,
}

/// A statement run before a text is shown (`assignment` of `value` to
/// `var_name`).
#[derive(Debug, Clone)]
pub struct Statement {
    pub stmt_type: String,
    pub var_name: Option<String>,
    pub value: Option<Lexeme>,
}

/// An action of an event: the function it calls and the words of its
/// arguments.
#[derive(Debug, Clone)]
pub struct Action {
    pub action_type: String,
    pub args: Vec<Lexeme>,
}

/// An event bound to a character index of a text, or to the index a
/// variable holds.
#[derive(Debug, Clone)]
pub struct Event {
    pub index: MortarNumber,
    pub index_variable: Option<String>,
    pub actions: Vec<Action>,
}

/// How a `run` statement overrides the index its event fires at.
#[derive(Debug, Clone)]
pub struct IndexOverride {
    pub override_type: String,
    pub value: String,
}

/// An option of a choice, with the options nested under it.
#[derive(Debug)]
pub struct Choice {
    pub text: String,
    pub condition: Option<Condition>,
    pub next: Option<String>,
    pub action: Option<String>,
    pub choice: Option<Vec<Choice>>,
}

impl Clone for Choice {
    /// A copy of the option, with the options nested under it.
    fn clone(&self) -> (r: Self)
        decreases self,
    {
        let nested = match &self.choice {
            Some(options) => {
                let mut out: Vec<Choice> = Vec::new();
                let mut i: usize = 0;
                while i < options.len()
                    invariant
                        i <= options.len(),
                        self.choice == Some(*options),
                    decreases options.len() - i,
                {
                    proof {
                        assert(decreases_to!(*self => self.choice));
                        assert(decreases_to!(self.choice => self.choice->Some_0));
                        assert(decreases_to!(self.choice->Some_0 => self.choice->Some_0@));
                        assert(decreases_to!(options@ => options@[i as int]));
                    }
                    out.push(options[i].clone());
                    i = i + 1;
                }
                Some(out)
            },
            None => None,
        };
        Choice {
            text: self.text.clone(),
            condition: self.condition.clone(),
            next: self.next.clone(),
            action: self.action.clone(),
            choice: nested,
        }
    }
}

/// A parameter of a declared function.
#[derive(Debug, Clone)]
pub struct Param {
    pub name: String,
    pub param_type: String,
}

/// A function declaration of a script.
#[derive(Debug, Clone)]
pub struct Function {
    pub name: String,
    pub params: Vec<Param>,
    pub return_type: Option<String>,
}

/// One content item of a node, by the keys the runtime reads.
///
/// `item_type` is the `type` string (`text`, `line`, `choice`, `run_event`,
/// `run_timeline`, ...); it is `None` when the key is absent or not a
/// string. `options` holds the choice options when they are present and
/// well formed. `has_index_override` says whether the `index_override` key
/// is present at all; `index_override` is its value when well formed.
#[derive(Debug, Clone)]
pub struct ContentItem {
    pub item_type: Option<String>,
    pub value: Option<String>,
    pub interpolated_parts: Option<Vec<StringPart>>,
    pub condition: Option<IfCondition>,
    pub pre_statements: Option<Vec<Statement>>,
    pub events: Option<Vec<Event>>,
    pub options: Option<Vec<Choice>>,
    pub name: Option<String>,
    pub args: Option<Vec<String>>,
    pub has_index_override: bool,
    pub index_override: Option<IndexOverride>,
    pub ignore_duration: Option<bool>,
}

/// A node of a compiled script.
#[derive(Debug, Clone)]
pub struct Node {
    pub name: String,
    pub content: Vec<ContentItem>,
    pub variables: Vec<Variable>,
    pub next: Option<String>,
}

} // verus!
