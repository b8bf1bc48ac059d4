//! Entries kept in a vector ordered by strictly increasing string key: the
//! ordered maps and sets of the library, with their iteration order.

use vstd::prelude::*;
use crate::text::{chars_lt, str_lt, str_eq, lemma_chars_lt_irreflexive, lemma_chars_lt_asymmetric, lemma_chars_lt_transitive, lemma_chars_lt_total};

verus! {

/// Keys strictly increase along the vector, so each key occurs once.
pub open spec fn keys_sorted<V>(s: Seq<(String, V)>) -> bool {
    forall|i: int, j: int| 0 <= i < j < s.len() ==> chars_lt(#[trigger] s[i].0@, #[trigger] s[j].0@)
}

/// Some entry has key `k`.
pub open spec fn has_key<V>(s: Seq<(String, V)>, k: Seq<char>) -> bool {
    exists|i: int| 0 <= i < s.len() && #[trigger] s[i].0@ == k
}

/// The index of the entry with key `k` (meaningful when `has_key(s, k)`).
pub open spec fn index_of_key<V>(s: Seq<(String, V)>, k: Seq<char>) -> int {
    choose|i: int| 0 <= i < s.len() && #[trigger] s[i].0@ == k
}

/// The value under key `k`, if any.
pub open spec fn value_of<V>(s: Seq<(String, V)>, k: Seq<char>) -> Option<V> {
    if has_key(s, k) {
        Some(s[index_of_key(s, k)].1)
    } else {
        None
    }
}

/// In a sorted vector the entry with a given key is unique.
pub proof fn lemma_sorted_unique<V>(s: Seq<(String, V)>, i: int, j: int)
    requires
        keys_sorted(s),
        0 <= i < s.len(),
        0 <= j < s.len(),
        s[i].0@ == s[j].0@,
    ensures
        i == j,
{
    if i < j {
        lemma_chars_lt_irreflexive(s[i].0@);
    } else if j < i {
        lemma_chars_lt_irreflexive(s[i].0@);
    }
}

/// Where the entry with key `key` is, if anywhere.
pub fn find_key<V>(v: &Vec<(String, V)>, key: &str) -> (r: Option<usize>)
    ensures
        match r {
            Some(i) => i < v@.len() && v@[i as int].0@ == key@,
            None => !has_key(v@, key@),
        },
{
    let mut i: usize = 0;
    while i < v.len()
        invariant
            i <= v@.len(),
            forall|j: int| 0 <= j < i ==> v@[j].0@ != key@,
        decreases v@.len() - i,
    {
        if str_eq(v[i].0.as_str(), key) {
            return Some(i);
        }
        i = i + 1;
    }
    None
}

/// With sorted keys, a found index is the one `index_of_key` names.
pub proof fn lemma_found_is_index_of_key<V>(s: Seq<(String, V)>, i: int)
    requires
        keys_sorted(s),
        0 <= i < s.len(),
    ensures
        has_key(s, s[i].0@),
        index_of_key(s, s[i].0@) == i,
        value_of(s, s[i].0@) == Some(s[i].1),
{
    let k = s[i].0@;
    assert(has_key(s, k));
    let j = index_of_key(s, k);
    lemma_sorted_unique(s, i, j);
}

/// Replacing or inserting one entry changes the lookup under that key only.
proof fn lemma_put_value_of<V>(old_s: Seq<(String, V)>, new_s: Seq<(String, V)>, key: String, value: V, p: int, replaced: bool)
    requires
        keys_sorted(old_s),
        keys_sorted(new_s),
        replaced ==> 0 <= p < old_s.len() && old_s[p].0@ == key@ && new_s == old_s.update(p, (key, value)),
        !replaced ==> 0 <= p <= old_s.len() && !has_key(old_s, key@) && new_s == old_s.insert(p, (key, value)),
    ensures
        value_of(new_s, key@) == Some(value),
        forall|k: Seq<char>| k != key@ ==> #[trigger] value_of(new_s, k) == value_of(old_s, k),
        forall|k: Seq<char>| #[trigger] has_key(new_s, k) == (has_key(old_s, k) || k == key@),
{
    lemma_found_is_index_of_key(new_s, p);
    assert forall|k: Seq<char>| k != key@ implies #[trigger] value_of(new_s, k) == value_of(old_s, k) by {
        if has_key(old_s, k) {
            let j = index_of_key(old_s, k);
            lemma_found_is_index_of_key(old_s, j);
            let j2 = if replaced || j < p { j } else { j + 1 };
            assert(new_s[j2] == old_s[j]);
            lemma_found_is_index_of_key(new_s, j2);
        } else {
            if has_key(new_s, k) {
                let j2 = index_of_key(new_s, k);
                if replaced || j2 < p {
                    assert(old_s[j2] == new_s[j2]);
                } else {
                    assert(j2 != p);
                    assert(old_s[j2 - 1] == new_s[j2]);
                }
                assert(false);
            }
        }
    }
    assert forall|k: Seq<char>| #[trigger] has_key(new_s, k) == (has_key(old_s, k) || k == key@) by {
        if k != key@ {
            assert(value_of(new_s, k) == value_of(old_s, k));
        } else {
            assert(new_s[p].0@ == k);
        }
    }
}

/// Removing the entry at `p` changes the lookup under its key only.
proof fn lemma_remove_value_of<V>(old_s: Seq<(String, V)>, new_s: Seq<(String, V)>, p: int)
    requires
        keys_sorted(old_s),
        keys_sorted(new_s),
        0 <= p < old_s.len(),
        new_s == old_s.remove(p),
    ensures
        !has_key(new_s, old_s[p].0@),
        forall|k: Seq<char>| k != old_s[p].0@ ==> #[trigger] value_of(new_s, k) == value_of(old_s, k),
        forall|k: Seq<char>| #[trigger] has_key(new_s, k) == (has_key(old_s, k) && k != old_s[p].0@),
{
    let key = old_s[p].0@;
    if has_key(new_s, key) {
        let j = index_of_key(new_s, key);
        let j0 = if j < p { j } else { j + 1 };
        assert(old_s[j0] == new_s[j]);
        lemma_sorted_unique(old_s, p, j0);
    }
    assert forall|k: Seq<char>| k != key implies #[trigger] value_of(new_s, k) == value_of(old_s, k) by {
        if has_key(old_s, k) {
            let j = index_of_key(old_s, k);
            lemma_found_is_index_of_key(old_s, j);
            assert(j != p);
            let j2 = if j < p { j } else { j - 1 };
            assert(new_s[j2] == old_s[j]);
            lemma_found_is_index_of_key(new_s, j2);
        } else if has_key(new_s, k) {
            let j2 = index_of_key(new_s, k);
            let j0 = if j2 < p { j2 } else { j2 + 1 };
            assert(old_s[j0] == new_s[j2]);
            assert(false);
        }
    }
    assert forall|k: Seq<char>| #[trigger] has_key(new_s, k) == (has_key(old_s, k) && k != key) by {
        if k != key {
            assert(value_of(new_s, k) == value_of(old_s, k));
        }
    }
}

/// The value under `key`, if any.
pub fn get_value<'a, V>(v: &'a Vec<(String, V)>, key: &str) -> (r: Option<&'a V>)
    requires
        keys_sorted(v@),
    ensures
        match r {
            Some(x) => value_of(v@, key@) == Some(*x),
            None => value_of(v@, key@) is None,
        },
{
    match find_key(v, key) {
        Some(i) => {
            proof {
                lemma_found_is_index_of_key(v@, i as int);
            }
            Some(&v[i].1)
        },
        None => None,
    }
}

/// Puts `value` under `key`: replaces the entry with that key, or inserts a
/// new entry where the order puts it.
pub fn insert_sorted<V>(v: &mut Vec<(String, V)>, key: String, value: V)
    requires
        keys_sorted(old(v)@),
    ensures
        keys_sorted(final(v)@),
        has_key(old(v)@, key@) ==> final(v)@ == old(v)@.update(index_of_key(old(v)@, key@), (key, value)),
        !has_key(old(v)@, key@) ==> exists|p: int| 0 <= p <= old(v)@.len() && final(v)@ == old(v)@.insert(p, (key, value)),
        value_of(final(v)@, key@) == Some(value),
        forall|k: Seq<char>| k != key@ ==> #[trigger] value_of(final(v)@, k) == value_of(old(v)@, k),
        forall|k: Seq<char>| #[trigger] has_key(final(v)@, k) == (has_key(old(v)@, k) || k == key@),
{
    let mut i: usize = 0;
    while i < v.len()
        invariant
            i <= v@.len(),
            v@ == old(v)@,
            keys_sorted(v@),
            forall|j: int| 0 <= j < i ==> chars_lt(#[trigger] v@[j].0@, key@),
        ensures
            i <= v@.len(),
            v@ == old(v)@,
            forall|j: int| 0 <= j < i ==> chars_lt(#[trigger] v@[j].0@, key@),
            i < v@.len() ==> !chars_lt(v@[i as int].0@, key@),
        decreases v@.len() - i,
    {
        if !str_lt(v[i].0.as_str(), key.as_str()) {
            break;
        }
        i = i + 1;
    }
    let ghost k = key@;
    proof {
        assert forall|j: int| 0 <= j < i implies v@[j].0@ != k by {
            lemma_chars_lt_irreflexive(k);
        }
    }
    if i < v.len() && str_eq(v[i].0.as_str(), key.as_str()) {
        proof {
            lemma_found_is_index_of_key(v@, i as int);
        }
        let ghost before = v@;
        let ghost kv = (key, value);
        v.set(i, (key, value));
        proof {
            assert forall|a: int, b: int| 0 <= a < b < v@.len() implies chars_lt(#[trigger] v@[a].0@, #[trigger] v@[b].0@) by {
                assert(v@[a].0@ == before[a].0@);
                assert(v@[b].0@ == before[b].0@);
            }
            lemma_put_value_of(before, v@, kv.0, kv.1, i as int, true);
        }
    } else {
        proof {
            // no entry at or after `i` has the key: the one at `i` is greater
            if i < v@.len() {
                lemma_chars_lt_total(v@[i as int].0@, k);
                assert(chars_lt(k, v@[i as int].0@));
                assert forall|j: int| i <= j < v@.len() implies v@[j].0@ != k by {
                    if j > i {
                        lemma_chars_lt_transitive(k, v@[i as int].0@, v@[j].0@);
                        lemma_chars_lt_irreflexive(k);
                    }
                }
            }
            assert(!has_key(v@, k));
        }
        let ghost before = v@;
        let ghost kv = (key, value);
        v.insert(i, (key, value));
        proof {
            assert forall|a: int, b: int| 0 <= a < b < v@.len() implies chars_lt(#[trigger] v@[a].0@, #[trigger] v@[b].0@) by {
                if a < i && b < i {
                    assert(v@[a] == before[a] && v@[b] == before[b]);
                } else if a < i && b == i {
                } else if a < i && b > i {
                    assert(v@[b] == before[b - 1]);
                    assert(chars_lt(before[a].0@, k));
                    if b - 1 > i as int {
                        assert(chars_lt(before[i as int].0@, before[b - 1].0@));
                        lemma_chars_lt_transitive(k, before[i as int].0@, before[b - 1].0@);
                    }
                    lemma_chars_lt_transitive(before[a].0@, k, before[b - 1].0@);
                } else if a == i {
                    assert(v@[b] == before[b - 1]);
                    if b - 1 > i as int {
                        assert(chars_lt(before[i as int].0@, before[b - 1].0@));
                        lemma_chars_lt_transitive(k, before[i as int].0@, before[b - 1].0@);
                    }
                } else {
                    assert(v@[a] == before[a - 1] && v@[b] == before[b - 1]);
                }
            }
            lemma_put_value_of(before, v@, kv.0, kv.1, i as int, false);
        }
    }
}

/// Takes out the entry with key `key`, if there is one.
pub fn remove_key<V>(v: &mut Vec<(String, V)>, key: &str) -> (r: Option<V>)
    requires
        keys_sorted(old(v)@),
    ensures
        keys_sorted(final(v)@),
        has_key(old(v)@, key@) ==> r == Some(old(v)@[index_of_key(old(v)@, key@)].1) && final(v)@
            == old(v)@.remove(index_of_key(old(v)@, key@)),
        !has_key(old(v)@, key@) ==> r is None && final(v)@ == old(v)@,
        !has_key(final(v)@, key@),
        forall|k: Seq<char>| k != key@ ==> #[trigger] value_of(final(v)@, k) == value_of(old(v)@, k),
        forall|k: Seq<char>| #[trigger] has_key(final(v)@, k) == (has_key(old(v)@, k) && k != key@),
{
    match find_key(v, key) {
        Some(i) => {
            proof {
                lemma_found_is_index_of_key(v@, i as int);
            }
            let ghost before = v@;
            let (_k, value) = v.remove(i);
            proof {
                assert forall|a: int, b: int| 0 <= a < b < v@.len() implies chars_lt(#[trigger] v@[a].0@, #[trigger] v@[b].0@) by {
                    if a < i {
                        if b < i {
                        } else {
                            assert(v@[b] == before[b + 1]);
                        }
                    } else {
                        assert(v@[a] == before[a + 1] && v@[b] == before[b + 1]);
                    }
                }
            }
            proof {
                lemma_remove_value_of(before, v@, i as int);
            }
            Some(value)
        },
        None => None,
    }
}

} // verus!
