//! Where the events bound to a text land once interpolation has expanded
//! it: each character position of the authored text is mapped to the
//! position it takes in the text shown, and each placeholder is given the
//! position where its value starts.
//!
//! Event indices themselves are floating-point numbers; the host applies
//! the mapping to them.

use vstd::prelude::*;
use crate::number::{MortarNumber, NumberView};
use crate::script::{Event, IndexOverride, Node, StringPart};
use crate::value::{copy_number, MortarVariableValue, VariableView};
use crate::text::{text_eq, trim_class, trim_spec, TrimClass};
use crate::value::variable_display_spec;
use crate::variable_state::{branch_text_spec, MortarVariableState, VariableStateView};
use crate::condition::opt_text;
use crate::eval::{interpolate_spec, part_text};
use crate::script::Function;
use crate::value::ValueView;

verus! {

/// The layout of an interpolated text, as it is built part by part:
/// the shown position of each authored character so far, the placeholders
/// met so far with the shown position where each starts, and the shown
/// length so far.
pub struct LayoutView {
    pub rendered: Seq<int>,
    pub placeholders: Seq<(Seq<char>, int)>,
    pub pos: int,
}

/// How many characters a placeholder for `name` shows: the branch text of
/// that name, else the value of the variable, else nothing.
pub open spec fn shown_len(st: VariableStateView, name: Seq<char>) -> int {
    match branch_text_spec(st, name) {
        Some(t) => t.len() as int,
        None => if st.variables.contains_key(name) {
            variable_display_spec(st.variables[name]).len() as int
        } else {
            0
        },
    }
}

/// The layout after one more part: a `text` part maps each of its
/// characters one to one; a `placeholder` (`{name}`) takes the room of what
/// it shows and maps no authored character; other parts take no room.
pub open spec fn layout_part(acc: LayoutView, p: StringPart, st: VariableStateView) -> LayoutView {
    if p.part_type@ == "text"@ {
        let n = p.content@.len();
        LayoutView {
            rendered: acc.rendered + Seq::new(n, |i: int| acc.pos + i),
            pos: acc.pos + n,
            ..acc
        }
    } else if p.part_type@ == "placeholder"@ {
        let name = trim_spec(TrimClass::Braces, p.content@);
        LayoutView {
            placeholders: acc.placeholders.push((name, acc.pos)),
            pos: acc.pos + shown_len(st, name),
            ..acc
        }
    } else {
        acc
    }
}

/// The layout of a sequence of parts.
pub open spec fn layout_parts(parts: Seq<StringPart>, st: VariableStateView) -> LayoutView
    decreases parts.len(),
{
    if parts.len() == 0 {
        LayoutView { rendered: Seq::empty(), placeholders: Seq::empty(), pos: 0 }
    } else {
        layout_part(layout_parts(parts.drop_last(), st), parts.last(), st)
    }
}

/// A layout keeps the authored characters in order and moves none of them
/// earlier: their shown positions strictly increase, each is at least the
/// authored position, and all lie before the end of the text shown.
pub open spec fn layout_ordered(v: LayoutView) -> bool {
    &&& forall|i: int, j: int| 0 <= i < j < v.rendered.len() ==> v.rendered[i] < v.rendered[j]
    &&& forall|i: int| 0 <= i < v.rendered.len() ==> i <= #[trigger] v.rendered[i] && v.rendered[i] < v.pos
    &&& v.rendered.len() <= v.pos
}

/// Interpolation keeps the authored characters of a text in order: events
/// bound to them fire in the order they were written, never earlier in the
/// text shown than where they were written.
pub proof fn lemma_layout_ordered(parts: Seq<StringPart>, st: VariableStateView)
    ensures
        layout_ordered(layout_parts(parts, st)),
    decreases parts.len(),
{
    if parts.len() > 0 {
        let prev = layout_parts(parts.drop_last(), st);
        lemma_layout_ordered(parts.drop_last(), st);
        let p = parts.last();
        if p.part_type@ == "text"@ {
            let n = p.content@.len();
            let v = layout_parts(parts, st);
            let added = Seq::new(n, |i: int| prev.pos + i);
            assert(v.rendered == prev.rendered + added);
            assert forall|i: int, j: int| 0 <= i < j < v.rendered.len() implies v.rendered[i] < v.rendered[j] by {
                if j < prev.rendered.len() {
                    assert(v.rendered[i] == prev.rendered[i]);
                    assert(v.rendered[j] == prev.rendered[j]);
                } else if i < prev.rendered.len() {
                    assert(v.rendered[i] == prev.rendered[i]);
                    assert(v.rendered[j] == added[j - prev.rendered.len()]);
                } else {
                    assert(v.rendered[i] == added[i - prev.rendered.len()]);
                    assert(v.rendered[j] == added[j - prev.rendered.len()]);
                }
            }
            assert forall|i: int| 0 <= i < v.rendered.len() implies i <= #[trigger] v.rendered[i] && v.rendered[i] < v.pos by {
                if i < prev.rendered.len() {
                    assert(v.rendered[i] == prev.rendered[i]);
                } else {
                    assert(v.rendered[i] == added[i - prev.rendered.len()]);
                }
            }
        } else if p.part_type@ == "placeholder"@ {
            let name = trim_spec(TrimClass::Braces, p.content@);
            assert(shown_len(st, name) >= 0);
        }
    }
}

/// The layout of an interpolated text: `rendered[k]` is the shown position
/// of authored character `k`, and `rendered[n]` (one past the last of the
/// `n` authored characters) the length of the text shown; each placeholder
/// with the shown position where its value starts.
pub struct InterpolationLayout {
    pub rendered: Vec<usize>,
    pub placeholders: Vec<(String, usize)>,
}

pub open spec fn positions(v: Seq<usize>) -> Seq<int> {
    v.map_values(|x: usize| x as int)
}

pub open spec fn placeholder_view(v: Seq<(String, usize)>) -> Seq<(Seq<char>, int)> {
    v.map_values(|x: (String, usize)| (x.0@, x.1 as int))
}

/// The shown length only grows part by part.
proof fn lemma_layout_monotone(parts: Seq<StringPart>, st: VariableStateView, j: int)
    requires
        0 <= j <= parts.len(),
    ensures
        0 <= layout_parts(parts.subrange(0, j), st).pos <= layout_parts(parts, st).pos,
    decreases parts.len(),
{
    if parts.len() > 0 {
        let pre = parts.drop_last();
        if j == parts.len() {
            assert(parts.subrange(0, j) =~= parts);
            lemma_layout_monotone(pre, st, pre.len() as int);
            assert(pre.subrange(0, pre.len() as int) =~= pre);
        } else {
            lemma_layout_monotone(pre, st, j);
            assert(pre.subrange(0, j) =~= parts.subrange(0, j));
            lemma_layout_monotone(pre, st, pre.len() as int);
            assert(pre.subrange(0, pre.len() as int) =~= pre);
        }
    } else {
        assert(parts.subrange(0, j) =~= parts);
    }
}

/// How many characters the placeholder for `name` shows (see
/// [`shown_len`]).
fn placeholder_len(state: &MortarVariableState, name: &str) -> (r: usize)
    ensures
        r as int == shown_len(state@, name@),
{
    match state.get_branch_text(name) {
        Some(t) => t.as_str().unicode_len(),
        None => match state.get(name) {
            Some(v) => v.to_display_string().as_str().unicode_len(),
            None => 0,
        },
    }
}

/// The layout of an interpolated text over the current variables (see
/// [`layout_parts`]); none when the shown text would be longer than
/// `usize::MAX` characters.
pub fn interpolation_layout(parts: &Vec<StringPart>, state: &MortarVariableState) -> (r: Option<InterpolationLayout>)
    ensures
        r is Some <==> layout_parts(parts@, state@).pos <= usize::MAX,
        r matches Some(l) ==> {
            let v = layout_parts(parts@, state@);
            &&& positions(l.rendered@) == v.rendered.push(v.pos)
            &&& placeholder_view(l.placeholders@) == v.placeholders
        },
{
    let mut rendered: Vec<usize> = Vec::new();
    let mut placeholders: Vec<(String, usize)> = Vec::new();
    let mut pos: usize = 0;
    let mut i: usize = 0;
    assert(parts@.subrange(0, 0) =~= Seq::<StringPart>::empty());
    assert(positions(rendered@) =~= Seq::<int>::empty());
    assert(placeholder_view(placeholders@) =~= Seq::<(Seq<char>, int)>::empty());
    while i < parts.len()
        invariant
            i <= parts@.len(),
            positions(rendered@) == layout_parts(parts@.subrange(0, i as int), state@).rendered,
            placeholder_view(placeholders@) == layout_parts(parts@.subrange(0, i as int), state@).placeholders,
            pos as int == layout_parts(parts@.subrange(0, i as int), state@).pos,
        decreases parts@.len() - i,
    {
        let ghost before = layout_parts(parts@.subrange(0, i as int), state@);
        assert(parts@.subrange(0, i + 1).drop_last() =~= parts@.subrange(0, i as int));
        assert(parts@.subrange(0, i + 1).last() == parts@[i as int]);
        let part = &parts[i];
        if text_eq(part.part_type.as_str(), "text") {
            let n = part.content.as_str().unicode_len();
            let end = match pos.checked_add(n) {
                Some(e) => e,
                None => {
                    proof {
                        lemma_layout_monotone(parts@, state@, i + 1);
                        assert(parts@.subrange(0, parts@.len() as int) =~= parts@);
                    }
                    return None;
                },
            };
            let ghost start = rendered@.len();
            let mut k: usize = 0;
            while k < n
                invariant
                    k <= n,
                    pos as int + n as int == end as int,
                    rendered@.len() == start + k,
                    start == before.rendered.len(),
                    positions(rendered@) == before.rendered + Seq::new(k as nat, |j: int| pos as int + j),
                decreases n - k,
            {
                let ghost prev = rendered@;
                rendered.push(pos + k);
                proof {
                    assert(rendered@ == prev.push((pos + k) as usize));
                    assert(positions(rendered@) =~= positions(prev).push(pos as int + k as int));
                    assert(positions(rendered@) =~= before.rendered + Seq::new((k + 1) as nat, |j: int| pos as int + j));
                }
                k = k + 1;
            }
            pos = end;
        } else if text_eq(part.part_type.as_str(), "placeholder") {
            let name = trim_class(TrimClass::Braces, part.content.as_str());
            let len = placeholder_len(state, name.as_str());
            let start = pos;
            pos = match pos.checked_add(len) {
                Some(e) => e,
                None => {
                    proof {
                        lemma_layout_monotone(parts@, state@, i + 1);
                        assert(parts@.subrange(0, parts@.len() as int) =~= parts@);
                    }
                    return None;
                },
            };
            placeholders.push((name, start));
            proof {
                assert(placeholder_view(placeholders@) =~= before.placeholders.push((trim_spec(TrimClass::Braces, part.content@), start as int)));
            }
        }
        i = i + 1;
    }
    assert(parts@.subrange(0, parts@.len() as int) =~= parts@);
    rendered.push(pos);
    proof {
        let v = layout_parts(parts@, state@);
        assert(positions(rendered@) =~= v.rendered.push(v.pos));
    }
    Some(InterpolationLayout { rendered, placeholders })
}

/// The index an event fires at: the number its index variable holds, when
/// it names a variable holding a number; else its own index.
pub open spec fn event_index_spec(e: Event, st: VariableStateView) -> NumberView {
    match e.index_variable {
        Some(v) => if st.variables.contains_key(v@) {
            match st.variables[v@] {
                VariableView::Number(n) => n,
                _ => e.index@,
            }
        } else {
            e.index@
        },
        None => e.index@,
    }
}

/// The index an event fires at (see [`event_index_spec`]).
pub fn event_index(event: &Event, state: &MortarVariableState) -> (r: MortarNumber)
    ensures
        r@ == event_index_spec(*event, state@),
{
    match &event.index_variable {
        Some(v) => match state.get(v.as_str()) {
            Some(MortarVariableValue::Number(n)) => copy_number(n),
            _ => copy_number(&event.index),
        },
        None => copy_number(&event.index),
    }
}

/// The `run_event` right before content position `content_index` when it
/// overrides the index of its event: the event's name and the override.
/// Such an event fires with the text at that position.
pub fn index_override_before(node: &Node, content_index: usize) -> (r: Option<(&String, &IndexOverride)>)
    ensures
        match r {
            Some((name, o)) => {
                let item = node.content@[content_index - 1];
                &&& 0 < content_index <= node.content@.len()
                &&& opt_text(item.item_type) == Some("run_event"@)
                &&& item.index_override == Some(*o)
                &&& item.name == Some(*name)
            },
            None => !(0 < content_index <= node.content@.len() && {
                let item = node.content@[content_index - 1];
                &&& opt_text(item.item_type) == Some("run_event"@)
                &&& item.index_override is Some
                &&& item.name is Some
            }),
        },
{
    if content_index == 0 || content_index > node.content.len() {
        return None;
    }
    let item = &node.content[content_index - 1];
    let is_run_event = match &item.item_type {
        Some(t) => text_eq(t.as_str(), "run_event"),
        None => false,
    };
    if !is_run_event {
        return None;
    }
    match (&item.index_override, &item.name) {
        (Some(o), Some(name)) => Some((name, o)),
        _ => None,
    }
}

/// An event of a text, by where it comes from.
#[derive(Debug, Clone, Copy, PartialEq, Eq, Structural)]
pub enum TextEventSource {
    /// Event `event` of the branch case chosen for placeholder
    /// `placeholder` (fired from where the placeholder's value starts).
    Branch { placeholder: usize, event: usize },
    /// The text's own event `event` (moved to its shown position when the
    /// text is interpolated).
    Text { event: usize },
    /// The event of the `run` with an index override right before the text.
    Override,
}

/// The events of the branch cases, placeholder by placeholder, each in
/// its order, where `counts[k]` events belong to placeholder `k`.
pub open spec fn branch_sources(counts: Seq<usize>) -> Seq<TextEventSource>
    decreases counts.len(),
{
    if counts.len() == 0 {
        Seq::empty()
    } else {
        let k = (counts.len() - 1) as usize;
        branch_sources(counts.drop_last()) + Seq::new(
            counts.last() as nat,
            |j: int| TextEventSource::Branch { placeholder: k, event: j as usize },
        )
    }
}

/// The text's own events, in order.
pub open spec fn text_sources(count: nat) -> Seq<TextEventSource> {
    Seq::new(count, |j: int| TextEventSource::Text { event: j as usize })
}

/// The events a text fires, in order. A plain text fires its own events.
/// An interpolated text fires, once it is laid out (its script known and
/// every placeholder shown), the events of each placeholder's branch case
/// and then its own events; unlaid, it fires none of these. The event of
/// an index override before the text comes last.
pub open spec fn text_event_order_spec(
    interpolated: bool,
    laid_out: bool,
    branch_counts: Seq<usize>,
    text_count: nat,
    has_override: bool,
) -> Seq<TextEventSource> {
    let body = if !interpolated {
        text_sources(text_count)
    } else if laid_out {
        branch_sources(branch_counts) + text_sources(text_count)
    } else {
        Seq::empty()
    };
    if has_override {
        body.push(TextEventSource::Override)
    } else {
        body
    }
}

/// The order in which the events of a text are fired (see
/// [`text_event_order_spec`]); `branch_counts[k]` is the number of events
/// of the branch case chosen for the `k`-th placeholder of the layout.
pub fn text_event_order(
    interpolated: bool,
    laid_out: bool,
    branch_counts: &Vec<usize>,
    text_count: usize,
    has_override: bool,
) -> (r: Vec<TextEventSource>)
    ensures
        r@ == text_event_order_spec(interpolated, laid_out, branch_counts@, text_count as nat, has_override),
{
    let mut out: Vec<TextEventSource> = Vec::new();
    if interpolated && laid_out {
        let mut k: usize = 0;
        while k < branch_counts.len()
            invariant
                k <= branch_counts.len(),
                out@ == branch_sources(branch_counts@.take(k as int)),
            decreases branch_counts.len() - k,
        {
            let n = branch_counts[k];
            let ghost before = out@;
            let mut j: usize = 0;
            while j < n
                invariant
                    j <= n,
                    k < branch_counts.len(),
                    n == branch_counts@[k as int],
                    out@ == before + Seq::new(
                        j as nat,
                        |i: int| TextEventSource::Branch { placeholder: k, event: i as usize },
                    ),
                decreases n - j,
            {
                out.push(TextEventSource::Branch { placeholder: k, event: j });
                j = j + 1;
                assert(out@ =~= before + Seq::new(
                    j as nat,
                    |i: int| TextEventSource::Branch { placeholder: k, event: i as usize },
                ));
            }
            assert(branch_counts@.take(k as int + 1).drop_last() =~= branch_counts@.take(k as int));
            k = k + 1;
        }
        assert(branch_counts@.take(branch_counts.len() as int) =~= branch_counts@);
    }
    if !interpolated || laid_out {
        let ghost before = out@;
        let mut j: usize = 0;
        while j < text_count
            invariant
                j <= text_count,
                out@ == before + text_sources(j as nat),
            decreases text_count - j,
        {
            out.push(TextEventSource::Text { event: j });
            j = j + 1;
            assert(out@ =~= before + text_sources(j as nat));
        }
        assert(before + text_sources(text_count as nat) =~= if !interpolated {
            text_sources(text_count as nat)
        } else {
            branch_sources(branch_counts@) + text_sources(text_count as nat)
        });
    } else {
        assert(out@ =~= Seq::<TextEventSource>::empty());
    }
    if has_override {
        out.push(TextEventSource::Override);
    }
    out
}

/// A placeholder that names no plain variable but a branch variable shows
/// that branch's text (see [`branch_text_spec`]), taking exactly the room
/// the text-event layout reserves for it; appended to parts, it extends
/// their interpolated text by exactly that branch text.
pub proof fn lemma_placeholder_shows_branch_text(
    p: StringPart,
    parts: Seq<StringPart>,
    st: VariableStateView,
    decls: Seq<Function>,
    outcomes: Seq<Option<ValueView>>,
    t: Seq<char>,
)
    requires
        p.part_type@ == "placeholder"@,
        !st.variables.contains_key(trim_spec(TrimClass::Braces, p.content@)),
        branch_text_spec(st, trim_spec(TrimClass::Braces, p.content@)) == Some(t),
        outcomes.len() == parts.len() + 1,
    ensures
        part_text(p, st, decls, outcomes[parts.len() as int]) == t,
        t.len() == shown_len(st, trim_spec(TrimClass::Braces, p.content@)),
        interpolate_spec(parts.push(p), st, decls, outcomes) == interpolate_spec(parts, st, decls, outcomes) + t,
{
    reveal_strlit("placeholder");
    reveal_strlit("expression");
    assert("placeholder"@.len() != "expression"@.len());
    assert(parts.push(p).drop_last() =~= parts);
    assert(parts.push(p).last() == p);
}

} // verus!
