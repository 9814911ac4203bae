//! The cache that keeps the branches of an `if` and its `else` mutually
//! exclusive within one pass.
//!
//! It remembers the last condition evaluated and its result, so that the
//! negated condition of the `else` (or the same condition again) reuses
//! that decision instead of calling bound functions a second time.

use vstd::prelude::*;
use crate::condition::{
    answers_fit, calls_unbound, cond_view, condition_eval, eval_answered, is_negation_of, is_unary_not,
    no_calls, opt_text, value_text, Answers, CondView, IfCondition, decided_by, replies_fit,
    lemma_decided_unique, replies_deterministic, Replies, VariableMap, calls_made, CallLog,
};
use crate::eval::evaluate_if_condition_with_calls;
use crate::registry::{host_replies, registered_names, MortarFunctionRegistry};
use crate::text::text_eq;
use crate::value::Lexeme;
use crate::variable_state::MortarVariableState;

verus! {

/// Cached result of a condition evaluation, used to ensure if/else mutual
/// exclusivity.
pub struct CachedCondition {
    key: IfCondition,
    result: bool,
}

/// What the cache holds: the shape of the condition and its result.
pub struct CacheView {
    pub key: CondView,
    pub result: bool,
}

impl View for CachedCondition {
    type V = CacheView;

    closed spec fn view(&self) -> CacheView {
        CacheView { key: cond_view(self.key), result: self.result }
    }
}

pub open spec fn cache_view(c: Option<CachedCondition>) -> Option<CacheView> {
    match c {
        Some(k) => Some(k@),
        None => None,
    }
}

/// The answer the cache gives for `c`, if any: a negation (`!x`) of the
/// cached condition gets the opposite of the cached result; the cached
/// condition itself gets the cached result.
pub open spec fn cache_hit(c: IfCondition, cache: Option<CacheView>) -> Option<bool> {
    match cache {
        Some(k) => if is_unary_not(c) && c.operand is Some && cond_view(*c.operand->0) == k.key {
            Some(!k.result)
        } else if cond_view(c) == k.key {
            Some(k.result)
        } else {
            None
        },
        None => None,
    }
}

/// One cached evaluation of `c` that answered `r`, taking the cache from
/// `before` to `after`: a hit answers from the cache and keeps it; a miss
/// evaluates, and remembers `c` with its result unless `c` is a negation.
pub open spec fn cached_step(c: IfCondition, before: Option<CacheView>, r: bool, after: Option<CacheView>) -> bool {
    match cache_hit(c, before) {
        Some(b) => r == b && after == before,
        None => if is_unary_not(c) {
            after == before
        } else {
            after == Some(CacheView { key: cond_view(c), result: r })
        },
    }
}

/// The `if` and `else` of a cached pass are mutually exclusive: once a
/// condition (not itself a negation) has been evaluated through the cache,
/// its negation evaluated through the cache gives the opposite answer,
/// whatever the bound functions return.
pub proof fn lemma_cached_if_else_exclusive(
    c: IfCondition,
    n: IfCondition,
    cache0: Option<CacheView>,
    r1: bool,
    cache1: Option<CacheView>,
    r2: bool,
    cache2: Option<CacheView>,
)
    requires
        is_negation_of(n, c),
        !is_unary_not(c),
        cached_step(c, cache0, r1, cache1),
        cached_step(n, cache1, r2, cache2),
    ensures
        r2 == !r1,
        cache2 == cache1,
{
    assert(cache1 == Some(CacheView { key: cond_view(c), result: r1 }));
}

/// Evaluating the same condition again through the cache gives the same
/// answer.
pub proof fn lemma_cached_repeat(
    c: IfCondition,
    cache0: Option<CacheView>,
    r1: bool,
    cache1: Option<CacheView>,
    r2: bool,
    cache2: Option<CacheView>,
)
    requires
        !is_unary_not(c),
        cached_step(c, cache0, r1, cache1),
        cached_step(c, cache1, r2, cache2),
    ensures
        r2 == r1,
        cache2 == cache1,
{
}

fn opt_text_eq(a: &Option<String>, b: &Option<String>) -> (r: bool)
    ensures
        r == (opt_text(*a) == opt_text(*b)),
{
    match (a, b) {
        (Some(x), Some(y)) => text_eq(x.as_str(), y.as_str()),
        (None, None) => true,
        _ => false,
    }
}

fn value_text_eq(a: &Option<Lexeme>, b: &Option<Lexeme>) -> (r: bool)
    ensures
        r == (value_text(*a) == value_text(*b)),
{
    match (a, b) {
        (Some(x), Some(y)) => text_eq(x.text.as_str(), y.text.as_str()),
        (None, None) => true,
        _ => false,
    }
}

fn child_eq(a: &Option<Box<IfCondition>>, b: &Option<Box<IfCondition>>) -> (r: bool)
    ensures
        r == (match a {
            Some(x) => Some(Box::new(cond_view(**x))),
            None => None,
        } == match b {
            Some(y) => Some(Box::new(cond_view(**y))),
            None => None,
        }),
    decreases a,
{
    match (a, b) {
        (Some(x), Some(y)) => same_condition(x, y),
        (None, None) => true,
        _ => false,
    }
}

/// Whether two condition trees have the same shape (see [`cond_view`]).
pub fn same_condition(a: &IfCondition, b: &IfCondition) -> (r: bool)
    ensures
        r == (cond_view(*a) == cond_view(*b)),
    decreases a,
{
    text_eq(a.cond_type.as_str(), b.cond_type.as_str()) && opt_text_eq(&a.operator, &b.operator)
        && value_text_eq(&a.value, &b.value) && child_eq(&a.left, &b.left) && child_eq(
        &a.right,
        &b.right,
    ) && child_eq(&a.operand, &b.operand)
}

fn copy_lexeme(l: &Lexeme) -> (r: Lexeme)
    ensures
        r == *l,
{
    Lexeme {
        text: l.text.clone(),
        number: match &l.number {
            Some(n) => Some(crate::value::copy_number(n)),
            None => None,
        },
    }
}

fn copy_words(words: &Vec<Lexeme>) -> (r: Vec<Lexeme>)
    ensures
        r@ == words@,
{
    let mut out: Vec<Lexeme> = Vec::new();
    let mut i: usize = 0;
    while i < words.len()
        invariant
            i <= words@.len(),
            out@ == words@.subrange(0, i as int),
        decreases words@.len() - i,
    {
        out.push(copy_lexeme(&words[i]));
        i = i + 1;
    }
    out
}

fn copy_child(c: &Option<Box<IfCondition>>) -> (r: Option<Box<IfCondition>>)
    ensures
        match r {
            Some(x) => Some(Box::new(cond_view(*x))),
            None => None,
        } == match c {
            Some(y) => Some(Box::new(cond_view(**y))),
            None => None,
        },
    decreases c,
{
    match c {
        Some(x) => Some(Box::new(copy_condition(x))),
        None => None,
    }
}

/// A copy of a condition tree.
pub fn copy_condition(c: &IfCondition) -> (r: IfCondition)
    ensures
        cond_view(r) == cond_view(*c),
        r.value_words@ == c.value_words@,
    decreases c,
{
    IfCondition {
        cond_type: c.cond_type.clone(),
        operator: match &c.operator {
            Some(o) => Some(o.clone()),
            None => None,
        },
        left: copy_child(&c.left),
        right: copy_child(&c.right),
        operand: copy_child(&c.operand),
        value: match &c.value {
            Some(l) => Some(copy_lexeme(l)),
            None => None,
        },
        value_words: copy_words(&c.value_words),
    }
}

fn cache_lookup(condition: &IfCondition, cached: &Option<CachedCondition>) -> (r: Option<bool>)
    ensures
        r == cache_hit(*condition, cache_view(*cached)),
{
    let cache = match cached {
        Some(k) => k,
        None => {
            return None;
        },
    };
    let not = text_eq(condition.cond_type.as_str(), "unary") && match &condition.operator {
        Some(o) => text_eq(o.as_str(), "!"),
        None => false,
    };
    if not {
        if let Some(o) = &condition.operand {
            if same_condition(o, &cache.key) {
                return Some(!cache.result);
            }
        }
    }
    if same_condition(condition, &cache.key) {
        return Some(cache.result);
    }
    None
}

/// A cached evaluation from an empty cache answers as a direct evaluation
/// does, where each bound function answers each call one way; afterwards
/// the cache records the condition with that answer, unless it is a
/// negation, which leaves the cache empty.
pub proof fn lemma_cached_from_empty(
    c: IfCondition,
    vars: VariableMap,
    names: Set<Seq<char>>,
    replies: Replies,
    cached_rec: Answers,
    r_cached: bool,
    cache_after: Option<CacheView>,
    direct_rec: Answers,
    r_direct: bool,
)
    requires
        replies_deterministic(replies),
        cached_step(c, None, r_cached, cache_after),
        replies_fit(c, names, replies, cached_rec, Seq::<int>::empty()),
        decided_by(c, vars, names, cached_rec, Seq::<int>::empty(), r_cached),
        replies_fit(c, names, replies, direct_rec, Seq::<int>::empty()),
        decided_by(c, vars, names, direct_rec, Seq::<int>::empty(), r_direct),
    ensures
        r_cached == r_direct,
        !is_unary_not(c) ==> cache_after == Some(CacheView { key: cond_view(c), result: r_direct }),
        is_unary_not(c) ==> cache_after is None,
{
    lemma_decided_unique(c, vars, names, replies, cached_rec, direct_rec, Seq::<int>::empty(), r_cached, r_direct);
}

/// Evaluates a condition with caching to guarantee if/else mutual
/// exclusivity (see [`cached_step`]). On a miss the condition is evaluated
/// with [`crate::eval::evaluate_if_condition`].
pub fn evaluate_condition_cached(
    condition: &IfCondition,
    functions: &MortarFunctionRegistry,
    variable_state: &MortarVariableState,
    cached: &mut Option<CachedCondition>,
) -> (r: bool)
    ensures
        cached_step(*condition, cache_view(*old(cached)), r, cache_view(*final(cached))),
        cache_hit(*condition, cache_view(*old(cached))) is None && calls_unbound(
            *condition,
            registered_names(*functions),
        ) ==> r == condition_eval(*condition, variable_state@.variables, no_calls()),
        cache_hit(*condition, cache_view(*old(cached))) is None ==> exists|answers: Answers|
            answers_fit(*condition, registered_names(*functions), answers, Seq::<int>::empty()) && r
                == #[trigger] eval_answered(*condition, variable_state@.variables, answers, Seq::<int>::empty()),
        cache_hit(*condition, cache_view(*old(cached))) is None ==> exists|rec: Answers|
            replies_fit(*condition, registered_names(*functions), host_replies(*functions), rec, Seq::<int>::empty())
                && #[trigger] decided_by(
                *condition,
                variable_state@.variables,
                registered_names(*functions),
                rec,
                Seq::<int>::empty(),
                r,
            ),
{
    let mut log: Ghost<CallLog> = Ghost(Seq::empty());
    evaluate_condition_cached_with_calls(condition, functions, variable_state, cached, &mut log)
}

/// [`evaluate_condition_cached`], with the calls it makes added to `log`:
/// none on a hit; on a miss, for the answers the bound functions gave,
/// exactly the calls of [`calls_made`], in order.
pub fn evaluate_condition_cached_with_calls(
    condition: &IfCondition,
    functions: &MortarFunctionRegistry,
    variable_state: &MortarVariableState,
    cached: &mut Option<CachedCondition>,
    log: &mut Ghost<CallLog>,
) -> (r: bool)
    ensures
        cached_step(*condition, cache_view(*old(cached)), r, cache_view(*final(cached))),
        cache_hit(*condition, cache_view(*old(cached))) is Some ==> final(log)@ == old(log)@,
        cache_hit(*condition, cache_view(*old(cached))) is None && calls_unbound(
            *condition,
            registered_names(*functions),
        ) ==> r == condition_eval(*condition, variable_state@.variables, no_calls()),
        cache_hit(*condition, cache_view(*old(cached))) is None ==> exists|answers: Answers|
            answers_fit(*condition, registered_names(*functions), answers, Seq::<int>::empty()) && r
                == #[trigger] eval_answered(*condition, variable_state@.variables, answers, Seq::<int>::empty())
                && final(log)@ == old(log)@ + calls_made(*condition, variable_state@.variables, answers, Seq::<int>::empty()),
        cache_hit(*condition, cache_view(*old(cached))) is None ==> exists|rec: Answers|
            replies_fit(*condition, registered_names(*functions), host_replies(*functions), rec, Seq::<int>::empty())
                && #[trigger] decided_by(
                *condition,
                variable_state@.variables,
                registered_names(*functions),
                rec,
                Seq::<int>::empty(),
                r,
            ),
{
    if let Some(hit) = cache_lookup(condition, cached) {
        return hit;
    }
    let result = evaluate_if_condition_with_calls(condition, functions, variable_state, log);
    let not = text_eq(condition.cond_type.as_str(), "unary") && match &condition.operator {
        Some(o) => text_eq(o.as_str(), "!"),
        None => false,
    };
    if !not {
        *cached = Some(CachedCondition { key: copy_condition(condition), result });
    }
    result
}

} // verus!
