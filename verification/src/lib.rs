//! Verified core of the Mortar dialogue runtime: values and variables,
//! condition evaluation, the dialogue state machine and the runtime that
//! drives it.

use vstd::prelude::*;

pub mod number;
pub mod text;
pub mod assoc;
pub mod value;
pub mod registry;
pub mod condition;
pub mod variable_state;
pub mod script;
pub mod dialogue_state;
pub mod eval;
pub mod condition_cache;
pub mod events;
pub mod runtime;
pub mod dialogue;
pub mod run_execution;
pub mod text_events;
pub mod outside;
pub mod compiled;
pub mod asset;

verus! {

} // verus!
