//! The registry of host functions that Mortar scripts call.
//!
//! Host functions are closures supplied by the game; the registry keeps them
//! by name. What a call returns is decided by the closure, so the library
//! states of a call only whether a function of that name was there to answer.

use vstd::prelude::*;
use crate::value::{MortarValue, ValueView};
use std::collections::HashMap;

verus! {

/// A host function as the registry stores it.
pub trait HostFunction: Send + Sync {
    spec fn accepts(&self, args: &[MortarValue]) -> bool;

    fn invoke(&self, args: &[MortarValue]) -> MortarValue
        requires
            self.accepts(args),
    ;
}

impl<F: Fn(&[MortarValue]) -> MortarValue + Send + Sync> HostFunction for F {
    open spec fn accepts(&self, args: &[MortarValue]) -> bool {
        call_requires(*self, (args,))
    }

    fn invoke(&self, args: &[MortarValue]) -> (r: MortarValue)
        ensures
            call_ensures(*self, (args,), r),
    {
        self(args)
    }
}

/// A registry for Mortar functions: closures from arguments to a result,
/// kept by name.
#[verifier::external_body]
pub struct MortarFunctionRegistry {
    functions: HashMap<String, Box<dyn HostFunction>>,
}

/// The names under which functions are registered.
pub uninterp spec fn registered_names(registry: MortarFunctionRegistry) -> Set<Seq<char>>;

/// The replies the registered functions can give: `(name, args, reply)`
/// for each reply that the function registered under `name` may give when
/// called with arguments `args` (nothing is said of which one it gives).
pub uninterp spec fn host_replies(registry: MortarFunctionRegistry) -> Set<(Seq<char>, Seq<ValueView>, ValueView)>;

/// The values of a list of arguments.
pub open spec fn args_view(args: Seq<MortarValue>) -> Seq<ValueView> {
    args.map_values(|a: MortarValue| a@)
}

impl MortarFunctionRegistry {
    /// Creates an empty registry (`HashMap::new`).
    #[verifier::external_body]
    pub fn new() -> (r: Self)
        ensures
            registered_names(r) == Set::<Seq<char>>::empty(),
            host_replies(r) == Set::<(Seq<char>, Seq<ValueView>, ValueView)>::empty(),
    {
        MortarFunctionRegistry { functions: HashMap::new() }
    }

    /// Registers `func` under `name`, replacing any function of that name
    /// (`HashMap::insert`). The replies under `name` are then the results
    /// `func` can give; `func` must accept every argument list, as the
    /// registry calls it with whatever arguments a script passes.
    #[verifier::external_body]
    pub fn register<F>(&mut self, name: &str, func: F)
        where
            F: Fn(&[MortarValue]) -> MortarValue + Send + Sync + 'static,
        requires
            forall|args: &[MortarValue]| call_requires(func, (args,)),
        ensures
            registered_names(*final(self)) == registered_names(*old(self)).insert(name@),
            forall|args: &[MortarValue], v: MortarValue|
                call_ensures(func, (args,), v) ==> #[trigger] host_replies(*final(self)).contains(
                    (name@, args_view(args@), v@),
                ),
            forall|a: Seq<ValueView>, w: ValueView|
                #[trigger] host_replies(*final(self)).contains((name@, a, w)) ==> exists|
                    args: &[MortarValue],
                    v: MortarValue,
                | args_view(args@) == a && v@ == w && call_ensures(func, (args,), v),
            forall|t: (Seq<char>, Seq<ValueView>, ValueView)|
                t.0 != name@ ==> (#[trigger] host_replies(*final(self)).contains(t) <==> host_replies(
                    *old(self),
                ).contains(t)),
    {
        self.functions.insert(name.to_string(), Box::new(func));
    }

    /// Calls the function registered under `name` with `args`
    /// (`HashMap::get`, then the closure). A result comes back exactly when
    /// a function of that name is registered; it is a reply of that
    /// function to these arguments (see [`host_replies`]), which one being
    /// the closure's choice.
    #[verifier::external_body]
    pub fn call(&self, name: &str, args: &[MortarValue]) -> (r: Option<MortarValue>)
        ensures
            r is Some <==> registered_names(*self).contains(name@),
            r matches Some(v) ==> host_replies(*self).contains((name@, args_view(args@), v@)),
    {
        match self.functions.get(name) {
            Some(f) => Some(f.invoke(args)),
            None => None,
        }
    }
}

} // verus!
