//! Character-level text helpers used by the dialogue logic: equality,
//! trimming, and the small scans Mortar performs on names and values.

use vstd::prelude::*;
use vstd::string::*;

verus! {

/// The characters Rust's `char::is_whitespace` accepts (Unicode White_Space).
pub open spec fn is_whitespace_char(c: char) -> bool {
    ||| ('\u{9}' <= c && c <= '\u{d}')
    ||| c == ' '
    ||| c == '\u{85}'
    ||| c == '\u{a0}'
    ||| c == '\u{1680}'
    ||| ('\u{2000}' <= c && c <= '\u{200a}')
    ||| c == '\u{2028}'
    ||| c == '\u{2029}'
    ||| c == '\u{202f}'
    ||| c == '\u{205f}'
    ||| c == '\u{3000}'
}

/// Which characters a trim removes.
#[derive(Clone, Copy, Debug, PartialEq, Eq)]
pub enum TrimClass {
    /// Unicode whitespace (`str::trim`).
    Whitespace,
    /// Curly braces (`trim_matches(|c| c == '{' || c == '}')`).
    Braces,
    /// Double quotes (`trim_matches('"')`).
    Quotes,
}

pub open spec fn in_class(class: TrimClass, c: char) -> bool {
    match class {
        TrimClass::Whitespace => is_whitespace_char(c),
        TrimClass::Braces => c == '{' || c == '}',
        TrimClass::Quotes => c == '"',
    }
}

/// Number of leading characters of `s` in `class`.
pub open spec fn leading_count(class: TrimClass, s: Seq<char>) -> nat
    decreases s.len(),
{
    if s.len() > 0 && in_class(class, s[0]) {
        1 + leading_count(class, s.drop_first())
    } else {
        0
    }
}

/// Number of trailing characters of `s` in `class`.
pub open spec fn trailing_count(class: TrimClass, s: Seq<char>) -> nat
    decreases s.len(),
{
    if s.len() > 0 && in_class(class, s.last()) {
        1 + trailing_count(class, s.drop_last())
    } else {
        0
    }
}

/// `s` with its leading and trailing characters of `class` removed.
pub open spec fn trim_spec(class: TrimClass, s: Seq<char>) -> Seq<char> {
    let lead = leading_count(class, s);
    if lead == s.len() {
        Seq::empty()
    } else {
        s.subrange(lead as int, s.len() - trailing_count(class, s))
    }
}

/// The part of `s` after its last `'.'`, or all of `s` when it holds none.
pub open spec fn after_last_dot(s: Seq<char>) -> Seq<char>
    decreases s.len(),
{
    if s.len() == 0 {
        s
    } else if s.last() == '.' {
        Seq::empty()
    } else if s.drop_last().contains('.') {
        after_last_dot(s.drop_last()).push(s.last())
    } else {
        s
    }
}

proof fn lemma_leading_count_bound(class: TrimClass, s: Seq<char>)
    ensures
        leading_count(class, s) <= s.len(),
        forall|i: int| 0 <= i < leading_count(class, s) ==> in_class(class, #[trigger] s[i]),
        leading_count(class, s) < s.len() ==> !in_class(class, s[leading_count(class, s) as int]),
    decreases s.len(),
{
    if s.len() > 0 && in_class(class, s[0]) {
        lemma_leading_count_bound(class, s.drop_first());
        assert forall|i: int| 0 <= i < leading_count(class, s) implies in_class(class, #[trigger] s[i]) by {
            if i > 0 {
                assert(s[i] == s.drop_first()[i - 1]);
            }
        }
        if leading_count(class, s) < s.len() {
            assert(s[leading_count(class, s) as int] == s.drop_first()[leading_count(class, s.drop_first()) as int]);
        }
    }
}

proof fn lemma_trailing_count_bound(class: TrimClass, s: Seq<char>)
    ensures
        trailing_count(class, s) <= s.len(),
        forall|i: int| s.len() - trailing_count(class, s) <= i < s.len() ==> in_class(class, #[trigger] s[i]),
        trailing_count(class, s) < s.len() ==> !in_class(class, s[s.len() - trailing_count(class, s) - 1]),
    decreases s.len(),
{
    if s.len() > 0 && in_class(class, s.last()) {
        lemma_trailing_count_bound(class, s.drop_last());
        assert forall|i: int| s.len() - trailing_count(class, s) <= i < s.len() implies in_class(class, #[trigger] s[i]) by {
            if i < s.len() - 1 {
                assert(s[i] == s.drop_last()[i]);
            }
        }
        if trailing_count(class, s) < s.len() {
            assert(s[s.len() - trailing_count(class, s) - 1] == s.drop_last()[s.drop_last().len() - trailing_count(class, s.drop_last()) - 1]);
        }
    }
}

/// A run of class characters from position `i` on, ended by a non-class one,
/// has the length `leading_count` reports for the suffix.
proof fn lemma_leading_count_exact(class: TrimClass, s: Seq<char>, k: nat)
    requires
        k <= s.len(),
        forall|i: int| 0 <= i < k ==> in_class(class, #[trigger] s[i]),
        k == s.len() || !in_class(class, s[k as int]),
    ensures
        leading_count(class, s) == k,
    decreases s.len(),
{
    if k > 0 {
        assert forall|i: int| 0 <= i < k - 1 implies in_class(class, #[trigger] s.drop_first()[i]) by {
            assert(s.drop_first()[i] == s[i + 1]);
        }
        if k < s.len() {
            assert(s.drop_first()[k - 1] == s[k as int]);
        }
        lemma_leading_count_exact(class, s.drop_first(), (k - 1) as nat);
    }
}

proof fn lemma_trailing_count_exact(class: TrimClass, s: Seq<char>, k: nat)
    requires
        k <= s.len(),
        forall|i: int| s.len() - k <= i < s.len() ==> in_class(class, #[trigger] s[i]),
        k == s.len() || !in_class(class, s[s.len() - k - 1]),
    ensures
        trailing_count(class, s) == k,
    decreases s.len(),
{
    if k > 0 {
        assert forall|i: int| s.drop_last().len() - (k - 1) <= i < s.drop_last().len() implies in_class(class, #[trigger] s.drop_last()[i]) by {
            assert(s.drop_last()[i] == s[i]);
        }
        if k < s.len() {
            assert(s.drop_last()[s.drop_last().len() - (k - 1) - 1] == s[s.len() - k - 1]);
        }
        lemma_trailing_count_exact(class, s.drop_last(), (k - 1) as nat);
    }
}

fn char_in_class(class: TrimClass, c: char) -> (r: bool)
    ensures
        r == in_class(class, c),
{
    match class {
        TrimClass::Whitespace => {
            ('\u{9}' <= c && c <= '\u{d}') || c == ' ' || c == '\u{85}' || c == '\u{a0}' || c
                == '\u{1680}' || ('\u{2000}' <= c && c <= '\u{200a}') || c == '\u{2028}' || c
                == '\u{2029}' || c == '\u{202f}' || c == '\u{205f}' || c == '\u{3000}'
        },
        TrimClass::Braces => c == '{' || c == '}',
        TrimClass::Quotes => c == '"',
    }
}

/// Removes the leading and trailing characters of `class` from `s`.
pub fn trim_class(class: TrimClass, s: &str) -> (r: String)
    ensures
        r@ == trim_spec(class, s@),
{
    let n = s.unicode_len();
    let mut lead: usize = 0;
    while lead < n && char_in_class(class, s.get_char(lead))
        invariant
            n == s@.len(),
            lead <= n,
            forall|i: int| 0 <= i < lead ==> in_class(class, #[trigger] s@[i]),
        decreases n - lead,
    {
        lead = lead + 1;
    }
    proof {
        lemma_leading_count_exact(class, s@, lead as nat);
    }
    if lead == n {
        return String::new();
    }
    let mut trail: usize = 0;
    while trail < n - lead && char_in_class(class, s.get_char(n - 1 - trail))
        invariant
            n == s@.len(),
            lead < n,
            trail <= n - lead,
            forall|i: int| n - trail <= i < n ==> in_class(class, #[trigger] s@[i]),
        decreases n - lead - trail,
    {
        trail = trail + 1;
    }
    proof {
        assert(trail < n - lead) by {
            if trail == n - lead {
                assert(in_class(class, s@[lead as int]));
            }
        }
        lemma_trailing_count_exact(class, s@, trail as nat);
    }
    s.substring_char(lead, n - trail).to_string()
}

/// The words of `s` (runs of characters that are not whitespace, as
/// `str::split_whitespace` gives them), `cur` being the word read so far.
pub open spec fn ws_words(s: Seq<char>, cur: Seq<char>) -> Seq<Seq<char>>
    decreases s.len(),
{
    if s.len() == 0 {
        if cur.len() > 0 {
            seq![cur]
        } else {
            Seq::empty()
        }
    } else if is_whitespace_char(s[0]) {
        (if cur.len() > 0 {
            seq![cur]
        } else {
            Seq::empty()
        }) + ws_words(s.drop_first(), Seq::empty())
    } else {
        ws_words(s.drop_first(), cur.push(s[0]))
    }
}

/// The whitespace-separated words of `s`.
pub open spec fn words_spec(s: Seq<char>) -> Seq<Seq<char>> {
    ws_words(s, Seq::empty())
}

pub open spec fn texts_view(v: Seq<String>) -> Seq<Seq<char>> {
    v.map_values(|w: String| w@)
}

/// The whitespace-separated words of `s` (see [`words_spec`]).
pub fn split_whitespace_words(s: &str) -> (r: Vec<String>)
    ensures
        texts_view(r@) == words_spec(s@),
{
    let n = s.unicode_len();
    let mut out: Vec<String> = Vec::new();
    let mut start: usize = 0;
    let mut i: usize = 0;
    assert(s@.subrange(0, n as int) =~= s@);
    assert(s@.subrange(0, 0) =~= Seq::<char>::empty());
    while i < n
        invariant
            n == s@.len(),
            start <= i <= n,
            texts_view(out@) + ws_words(s@.subrange(i as int, n as int), s@.subrange(start as int, i as int))
                == words_spec(s@),
        decreases n - i,
    {
        let ghost rest = s@.subrange(i as int, n as int);
        let ghost cur = s@.subrange(start as int, i as int);
        assert(rest[0] == s@[i as int]);
        assert(rest.drop_first() =~= s@.subrange(i + 1, n as int));
        let c = s.get_char(i);
        if char_in_class(TrimClass::Whitespace, c) {
            if start < i {
                let w = s.substring_char(start, i).to_string();
                let ghost before = out@;
                out.push(w);
                proof {
                    assert(texts_view(out@) =~= texts_view(before) + seq![cur]);
                    assert(texts_view(out@) + ws_words(rest.drop_first(), Seq::empty()) =~= texts_view(before) + (seq![
                        cur,
                    ] + ws_words(rest.drop_first(), Seq::empty())));
                }
            } else {
                proof {
                    assert(cur =~= Seq::<char>::empty());
                    assert(Seq::<Seq<char>>::empty() + ws_words(rest.drop_first(), Seq::empty()) =~= ws_words(
                        rest.drop_first(),
                        Seq::empty(),
                    ));
                }
            }
            start = i + 1;
            proof {
                assert(s@.subrange(start as int, i + 1) =~= Seq::<char>::empty());
            }
        } else {
            proof {
                assert(s@.subrange(start as int, i + 1) =~= cur.push(c));
            }
        }
        i = i + 1;
    }
    let ghost cur = s@.subrange(start as int, n as int);
    if start < n {
        let w = s.substring_char(start, n).to_string();
        let ghost before = out@;
        out.push(w);
        proof {
            assert(texts_view(out@) =~= texts_view(before) + seq![cur]);
        }
    } else {
        proof {
            assert(texts_view(out@) + Seq::<Seq<char>>::empty() =~= texts_view(out@));
        }
    }
    out
}

/// Whether two texts are equal.
pub fn text_eq(a: &str, b: &str) -> (r: bool)
    ensures
        r == (a@ == b@),
{
    let n = a.unicode_len();
    let m = b.unicode_len();
    if n != m {
        return false;
    }
    let mut i: usize = 0;
    while i < n
        invariant
            n == a@.len(),
            m == b@.len(),
            n == m,
            i <= n,
            forall|k: int| 0 <= k < i ==> a@[k] == b@[k],
        decreases n - i,
    {
        if a.get_char(i) != b.get_char(i) {
            return false;
        }
        i = i + 1;
    }
    assert(a@ =~= b@);
    true
}

/// Whether `s` holds the character `c`.
pub fn text_contains_char(s: &str, c: char) -> (r: bool)
    ensures
        r == s@.contains(c),
{
    let n = s.unicode_len();
    let mut i: usize = 0;
    while i < n
        invariant
            n == s@.len(),
            i <= n,
            forall|k: int| 0 <= k < i ==> s@[k] != c,
        decreases n - i,
    {
        if s.get_char(i) == c {
            assert(s@[i as int] == c);
            return true;
        }
        i = i + 1;
    }
    false
}

proof fn lemma_after_last_dot(s: Seq<char>, k: int)
    requires
        0 <= k < s.len(),
        s[k] == '.',
        forall|j: int| k < j < s.len() ==> s[j] != '.',
    ensures
        after_last_dot(s) == s.subrange(k + 1, s.len() as int),
    decreases s.len(),
{
    if k == s.len() - 1 {
        assert(s.subrange(k + 1, s.len() as int) =~= Seq::<char>::empty());
    } else {
        let t = s.drop_last();
        assert(t[k] == '.');
        assert(t.contains('.'));
        assert forall|j: int| k < j < t.len() implies t[j] != '.' by {
            assert(t[j] == s[j]);
        }
        lemma_after_last_dot(t, k);
        assert(t.subrange(k + 1, t.len() as int).push(s.last()) =~= s.subrange(k + 1, s.len() as int));
    }
}

proof fn lemma_after_last_dot_none(s: Seq<char>)
    requires
        !s.contains('.'),
    ensures
        after_last_dot(s) == s,
{
    if s.len() > 0 {
        assert(s.last() != '.') by {
            assert(s[s.len() - 1] == s.last());
        }
        assert(!s.drop_last().contains('.')) by {
            if s.drop_last().contains('.') {
                let j = choose|j: int| 0 <= j < s.drop_last().len() && s.drop_last()[j] == '.';
                assert(s[j] == '.');
            }
        }
    }
}

/// The part of `s` after its last `'.'` (the member name of `Enum.member`),
/// or all of `s` when it holds no dot.
pub fn member_after_last_dot(s: &str) -> (r: String)
    ensures
        r@ == after_last_dot(s@),
{
    let n = s.unicode_len();
    let mut i: usize = n;
    while i > 0
        invariant
            n == s@.len(),
            i <= n,
            forall|j: int| i <= j < n ==> s@[j] != '.',
        decreases i,
    {
        if s.get_char(i - 1) == '.' {
            proof {
                lemma_after_last_dot(s@, (i - 1) as int);
            }
            return s.substring_char(i, n).to_string();
        }
        i = i - 1;
    }
    proof {
        assert(!s@.contains('.')) by {
            if s@.contains('.') {
                let j = choose|j: int| 0 <= j < s@.len() && s@[j] == '.';
                assert(s@[j] != '.');
            }
        }
        lemma_after_last_dot_none(s@);
    }
    s.to_string()
}

} // verus!
