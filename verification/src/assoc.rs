//! Association lists keyed by strings: the maps the runtime keeps its
//! variables and branch definitions in.

use vstd::prelude::*;
use crate::text::text_eq;

verus! {

/// No key occurs twice.
pub open spec fn keys_distinct<V>(s: Seq<(String, V)>) -> bool {
    forall|i: int, j: int| 0 <= i < j < s.len() ==> s[i].0@ != s[j].0@
}

/// The map an association list denotes.
pub open spec fn assoc_view<V: View>(s: Seq<(String, V)>) -> Map<Seq<char>, V::V>
    decreases s.len(),
{
    if s.len() == 0 {
        Map::empty()
    } else {
        assoc_view(s.drop_last()).insert(s.last().0@, s.last().1@)
    }
}

pub proof fn lemma_assoc_view<V: View>(s: Seq<(String, V)>)
    requires
        keys_distinct(s),
    ensures
        forall|i: int|
            0 <= i < s.len() ==> #[trigger] assoc_view(s).contains_key(s[i].0@) && assoc_view(s)[s[i].0@]
                == s[i].1@,
        forall|k: Seq<char>|
            #[trigger] assoc_view(s).contains_key(k) <==> exists|i: int| 0 <= i < s.len() && s[i].0@ == k,
    decreases s.len(),
{
    if s.len() > 0 {
        let t = s.drop_last();
        assert(t.len() == s.len() - 1);
        assert(keys_distinct(t)) by {
            assert forall|a: int, b: int| 0 <= a < b < t.len() implies t[a].0@ != t[b].0@ by {
                assert(t[a] == s[a] && t[b] == s[b]);
            }
        }
        lemma_assoc_view(t);
        let last = s[s.len() - 1];
        assert(last == s.last());
        assert forall|i: int| 0 <= i < s.len() implies #[trigger] assoc_view(s).contains_key(s[i].0@)
            && assoc_view(s)[s[i].0@] == s[i].1@ by {
            if i < s.len() - 1 {
                assert(s[i] == t[i]);
                assert(s[i].0@ != last.0@);
                assert(assoc_view(t).contains_key(t[i].0@));
            }
        }
        assert forall|k: Seq<char>| #[trigger] assoc_view(s).contains_key(k) implies exists|i: int|
            0 <= i < s.len() && s[i].0@ == k by {
            if k != last.0@ {
                assert(assoc_view(t).contains_key(k));
                let i = choose|i: int| 0 <= i < t.len() && t[i].0@ == k;
                assert(s[i] == t[i]);
            }
        }
        assert forall|k: Seq<char>| (exists|i: int| 0 <= i < s.len() && s[i].0@ == k) implies #[trigger] assoc_view(s).contains_key(k) by {
            let i = choose|i: int| 0 <= i < s.len() && s[i].0@ == k;
            if i < s.len() - 1 {
                assert(s[i] == t[i]);
                assert(assoc_view(t).contains_key(t[i].0@));
            }
        }
    }
}

/// The position of `key` in the list, if it occurs.
pub fn assoc_index<V>(list: &Vec<(String, V)>, key: &str) -> (r: Option<usize>)
    ensures
        r matches Some(i) ==> i < list@.len() && list@[i as int].0@ == key@,
        r is None ==> forall|i: int| 0 <= i < list@.len() ==> list@[i].0@ != key@,
{
    let mut i: usize = 0;
    while i < list.len()
        invariant
            i <= list@.len(),
            forall|j: int| 0 <= j < i ==> list@[j].0@ != key@,
        decreases list@.len() - i,
    {
        if text_eq(list[i].0.as_str(), key) {
            return Some(i);
        }
        i = i + 1;
    }
    None
}

/// Updating or appending an entry inserts into the map.
pub proof fn lemma_assoc_insert<V: View>(s: Seq<(String, V)>, entry: (String, V), found: Option<int>)
    requires
        keys_distinct(s),
        found matches Some(i) ==> 0 <= i < s.len() && s[i].0@ == entry.0@,
        found is None ==> forall|i: int| 0 <= i < s.len() ==> s[i].0@ != entry.0@,
    ensures
        ({
            let t = match found {
                Some(i) => s.update(i, entry),
                None => s.push(entry),
            };
            keys_distinct(t) && assoc_view(t) == assoc_view(s).insert(entry.0@, entry.1@)
        }),
{
    let t = match found {
        Some(i) => s.update(i, entry),
        None => s.push(entry),
    };
    assert(keys_distinct(t)) by {
        assert forall|a: int, b: int| 0 <= a < b < t.len() implies t[a].0@ != t[b].0@ by {
            if found is None {
                if b == s.len() {
                    assert(t[a] == s[a]);
                } else {
                    assert(t[a] == s[a] && t[b] == s[b]);
                }
            } else {
                let i = found->0;
                if a != i && b != i {
                    assert(t[a] == s[a] && t[b] == s[b]);
                } else if a == i {
                    assert(t[b] == s[b]);
                } else {
                    assert(t[a] == s[a]);
                }
            }
        }
    }
    lemma_assoc_view(s);
    lemma_assoc_view(t);
    assert(assoc_view(t) =~= assoc_view(s).insert(entry.0@, entry.1@)) by {
        assert forall|k: Seq<char>| #[trigger] assoc_view(t).contains_key(k) <==> assoc_view(s).insert(entry.0@, entry.1@).contains_key(k) by {
            if assoc_view(t).contains_key(k) {
                let j = choose|j: int| 0 <= j < t.len() && t[j].0@ == k;
                if t[j] != entry {
                    assert(t[j] == s[j]);
                }
            }
            if assoc_view(s).contains_key(k) && k != entry.0@ {
                let j = choose|j: int| 0 <= j < s.len() && s[j].0@ == k;
                assert(t[j] == s[j]);
            }
            if k == entry.0@ {
                match found {
                    Some(i) => { assert(t[i] == entry); },
                    None => { assert(t[s.len() as int] == entry); },
                }
            }
        }
        assert forall|k: Seq<char>| #[trigger] assoc_view(t).contains_key(k) implies assoc_view(t)[k] == assoc_view(s).insert(entry.0@, entry.1@)[k] by {
            let j = choose|j: int| 0 <= j < t.len() && t[j].0@ == k;
            if k == entry.0@ {
                match found {
                    Some(i) => { assert(t[i] == entry); },
                    None => { assert(t[s.len() as int] == entry); },
                }
            } else {
                assert(t[j] == s[j]);
            }
        }
    }
}

} // verus!
