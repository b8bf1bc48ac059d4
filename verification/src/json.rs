//! JSON values as the library holds them.

use vstd::prelude::*;
use crate::keyed::keys_sorted;
use crate::text::chars_lt;

verus! {

/// A JSON value as mathematics sees it.
pub enum JsonModel {
    Null,
    Bool(bool),
    Number(Seq<char>),
    Str(Seq<char>),
    Array(Seq<JsonModel>),
    Object(Seq<(Seq<char>, JsonModel)>),
}

/// The index of the first member with key `k` at or after `from`, or the
/// number of members if there is none.
pub open spec fn first_member(es: Seq<(Seq<char>, JsonModel)>, k: Seq<char>, from: int) -> int
    decreases es.len() - from,
{
    if from < 0 || from >= es.len() {
        es.len() as int
    } else if es[from].0 == k {
        from
    } else {
        first_member(es, k, from + 1)
    }
}

/// `first_member` finds the first match, or reports that there is none.
pub proof fn lemma_first_member(es: Seq<(Seq<char>, JsonModel)>, k: Seq<char>, from: int)
    requires
        0 <= from <= es.len(),
    ensures
        from <= first_member(es, k, from) <= es.len(),
        first_member(es, k, from) < es.len() ==> es[first_member(es, k, from)].0 == k,
        forall|j: int| from <= j < first_member(es, k, from) ==> es[j].0 != k,
    decreases es.len() - from,
{
    if from < es.len() && es[from].0 != k {
        lemma_first_member(es, k, from + 1);
    }
}

/// An index that matches first (or is past the end with no match) is the one
/// `first_member` gives.
pub proof fn lemma_first_member_is(es: Seq<(Seq<char>, JsonModel)>, k: Seq<char>, from: int, idx: int)
    requires
        0 <= from <= idx <= es.len(),
        idx < es.len() ==> es[idx].0 == k,
        forall|j: int| from <= j < idx ==> es[j].0 != k,
    ensures
        first_member(es, k, from) == idx,
    decreases idx - from,
{
    if from < idx {
        lemma_first_member_is(es, k, from + 1, idx);
    }
}

/// An object has a key exactly when it has a member under that key.
pub proof fn lemma_keys_contains(m: JsonModel, k: Seq<char>)
    requires
        m is Object,
    ensures
        m.keys().contains(k) == (m.field(k) is Some),
{
    let es = m->Object_0;
    lemma_first_member(es, k, 0);
    let f = first_member(es, k, 0);
    if f < es.len() {
        assert(m.keys()[f] == k);
    }
    if m.keys().contains(k) {
        let j = choose|j: int| 0 <= j < m.keys().len() && m.keys()[j] == k;
        assert(es[j].0 == k);
    }
}

/// Where a member with key `k` goes among members ordered by key: before
/// the first member at or after `from` whose key is not below `k`, or at the
/// end.
pub open spec fn insert_pos(es: Seq<(Seq<char>, JsonModel)>, k: Seq<char>, from: int) -> int
    decreases es.len() - from,
{
    if from < 0 || from >= es.len() {
        es.len() as int
    } else if !chars_lt(es[from].0, k) {
        from
    } else {
        insert_pos(es, k, from + 1)
    }
}

/// The members after setting key `k` to `v` (`Map::insert`): the first
/// member with that key is replaced, or else a member is added where the
/// key order puts it.
pub open spec fn set_member(es: Seq<(Seq<char>, JsonModel)>, k: Seq<char>, v: JsonModel) -> Seq<(Seq<char>, JsonModel)> {
    let f = first_member(es, k, 0);
    if 0 <= f < es.len() {
        es.update(f, (k, v))
    } else {
        es.insert(insert_pos(es, k, 0), (k, v))
    }
}

/// A member of an object as mathematics sees it.
pub type Member = (Seq<char>, JsonModel);

impl JsonModel {
    /// The member under key `k` of an object: the first one with that key.
    pub open spec fn field(self, k: Seq<char>) -> Option<JsonModel> {
        match self {
            JsonModel::Object(es) => if first_member(es, k, 0) < es.len() {
                Some(es[first_member(es, k, 0)].1)
            } else {
                None
            },
            _ => None,
        }
    }

    /// The member under key `k` when it is a string.
    pub open spec fn str_field(self, k: Seq<char>) -> Option<Seq<char>> {
        match self.field(k) {
            Some(JsonModel::Str(s)) => Some(s),
            _ => None,
        }
    }

    /// The keys of an object's members, in order.
    pub open spec fn keys(self) -> Seq<Seq<char>> {
        match self {
            JsonModel::Object(es) => es.map_values(|e: (Seq<char>, JsonModel)| e.0),
            _ => Seq::empty(),
        }
    }
}

/// A JSON value. Numbers keep the text that JSON writes for them.
#[derive(Debug, PartialEq)]
pub enum JsonValue {
    Null,
    Bool(bool),
    Number(String),
    Str(String),
    Array(Vec<JsonValue>),
    Object(Vec<(String, JsonValue)>),
}

impl JsonValue {
    /// The value as mathematics sees it.
    pub open spec fn model(self) -> JsonModel
        decreases self,
    {
        match self {
            JsonValue::Null => JsonModel::Null,
            JsonValue::Bool(b) => JsonModel::Bool(b),
            JsonValue::Number(t) => JsonModel::Number(t@),
            JsonValue::Str(t) => JsonModel::Str(t@),
            JsonValue::Array(items) => JsonModel::Array(
                Seq::new(items@.len(), |i: int| if 0 <= i < items@.len() { items@[i].model() } else { JsonModel::Null }),
            ),
            JsonValue::Object(entries) => JsonModel::Object(
                Seq::new(entries@.len(), |i: int| if 0 <= i < entries@.len() { (entries@[i].0@, entries@[i].1.model()) } else { (Seq::empty(), JsonModel::Null) }),
            ),
        }
    }

    /// An object's members are kept in increasing key order, as in a JSON
    /// map with ordered keys; other values have no constraint.
    pub open spec fn fields_ordered(self) -> bool {
        self is Object ==> keys_sorted(self->Object_0@)
    }

    /// The members of an object as mathematics sees them.
    pub open spec fn members(self) -> Seq<Member> {
        match self.model() {
            JsonModel::Object(es) => es,
            _ => Seq::empty(),
        }
    }

    /// The model of an object lists the key and model of each member held.
    pub proof fn lemma_object_model(self)
        requires
            self is Object,
        ensures
            self.model() is Object,
            self.model()->Object_0.len() == self->Object_0@.len(),
            forall|i: int| 0 <= i < self->Object_0@.len() ==> #[trigger] self.model()->Object_0[i] == (self->Object_0@[i].0@, self->Object_0@[i].1.model()),
    {
    }

    /// Whether this is an object (`Value::is_object`).
    pub fn is_object(&self) -> (r: bool)
        ensures
            r == (*self is Object),
    {
        match self {
            JsonValue::Object(_) => true,
            _ => false,
        }
    }

    /// The position among an object's members of the first one with key
    /// `key`, if any.
    fn find_member(entries: &Vec<(String, JsonValue)>, key: &str) -> (r: Option<usize>)
        ensures
            ({
                let es = JsonValue::Object(*entries).model()->Object_0;
                match r {
                    Some(i) => i == first_member(es, key@, 0) && i < es.len(),
                    None => first_member(es, key@, 0) == es.len(),
                }
            }),
    {
        let ghost v = JsonValue::Object(*entries);
        proof {
            v.lemma_object_model();
        }
        let ghost es = v.model()->Object_0;
        let mut i: usize = 0;
        while i < entries.len()
            invariant
                i <= entries@.len(),
                es == JsonValue::Object(*entries).model()->Object_0,
                es.len() == entries@.len(),
                forall|j: int| 0 <= j < entries@.len() ==> #[trigger] es[j] == (entries@[j].0@, entries@[j].1.model()),
                forall|j: int| 0 <= j < i ==> es[j].0 != key@,
            decreases entries@.len() - i,
        {
            if crate::text::str_eq(entries[i].0.as_str(), key) {
                proof {
                    lemma_first_member_is(es, key@, 0, i as int);
                }
                return Some(i);
            }
            i = i + 1;
        }
        proof {
            lemma_first_member_is(es, key@, 0, es.len() as int);
        }
        None
    }

    /// The member under `key`, if this is an object that has one
    /// (`Value::get`).
    pub fn get_field(&self, key: &str) -> (r: Option<&JsonValue>)
        ensures
            match r {
                Some(x) => self.model().field(key@) == Some(x.model()),
                None => self.model().field(key@) is None,
            },
    {
        match self {
            JsonValue::Object(entries) => {
                proof {
                    self.lemma_object_model();
                }
                match Self::find_member(entries, key) {
                    Some(i) => Some(&entries[i].1),
                    None => None,
                }
            },
            _ => None,
        }
    }

    /// The string member under `key` (`value.get(key).and_then(Value::as_str)`).
    pub fn get_str_field(&self, key: &str) -> (r: Option<String>)
        ensures
            match r {
                Some(s) => self.model().str_field(key@) == Some(s@),
                None => self.model().str_field(key@) is None,
            },
    {
        match self.get_field(key) {
            Some(JsonValue::Str(s)) => Some(s.clone()),
            _ => None,
        }
    }

    /// Sets the member `key` of an object to `value` (`Map::insert`): the
    /// first member with that key is replaced, or else a member is added
    /// where the key order puts it.
    pub fn set_field(&mut self, key: String, value: JsonValue)
        requires
            *old(self) is Object,
        ensures
            *final(self) is Object,
            final(self).model() == JsonModel::Object(set_member(old(self).model()->Object_0, key@, value.model())),
            old(self).fields_ordered() ==> final(self).fields_ordered(),
            final(self).model().field(key@) == Some(value.model()),
            forall|k: Seq<char>| k != key@ ==> #[trigger] final(self).model().field(k) == old(self).model().field(k),
            forall|k: Seq<char>| #[trigger] final(self).model().keys().contains(k) == (old(self).model().keys().contains(k) || k == key@),
    {
        proof {
            old(self).lemma_object_model();
        }
        let ghost kv = key@;
        let ghost vm = value.model();
        let ghost old_es = old(self).model()->Object_0;
        match self {
            JsonValue::Object(entries) => {
                match Self::find_member(entries, key.as_str()) {
                    Some(i) => {
                        entries.set(i, (key, value));
                        proof {
                            let nv = JsonValue::Object(*entries);
                            nv.lemma_object_model();
                            let new_es = nv.model()->Object_0;
                            lemma_first_member(old_es, kv, 0);
                            assert(old_es[i as int].0 == kv);
                            assert forall|j: int| 0 <= j < new_es.len() implies #[trigger] new_es[j].0 == old_es[j].0 by {
                                if j != i {
                                    assert(new_es[j].0 == old_es[j].0);
                                }
                            }
                            lemma_first_member_is(new_es, kv, 0, i as int);
                            assert(new_es =~= old_es.update(i as int, (kv, vm)));
                            assert forall|k: Seq<char>| k != kv implies #[trigger] nv.model().field(k) == old(self).model().field(k) by {
                                lemma_first_member(old_es, k, 0);
                                let f = first_member(old_es, k, 0);
                                lemma_first_member_is(new_es, k, 0, f);
                                if f < old_es.len() {
                                    assert(f != i);
                                    assert(new_es[f] == old_es[f]);
                                }
                            }
                        }
                    },
                    None => {
                        let mut p: usize = 0;
                        while p < entries.len()
                            invariant
                                p <= entries@.len(),
                                forall|j: int| 0 <= j < p ==> crate::text::chars_lt(#[trigger] entries@[j].0@, key@),
                                kv == key@,
                                old_es.len() == entries@.len(),
                                forall|j: int| 0 <= j < entries@.len() ==> #[trigger] old_es[j].0 == entries@[j].0@,
                                insert_pos(old_es, kv, 0) == insert_pos(old_es, kv, p as int),
                            ensures
                                p <= entries@.len(),
                                forall|j: int| 0 <= j < p ==> crate::text::chars_lt(#[trigger] entries@[j].0@, key@),
                                p < entries@.len() ==> !crate::text::chars_lt(entries@[p as int].0@, key@),
                                insert_pos(old_es, kv, 0) == p,
                            decreases entries@.len() - p,
                        {
                            if !crate::text::str_lt(entries[p].0.as_str(), key.as_str()) {
                                break;
                            }
                            p = p + 1;
                        }
                        let ghost before = entries@;
                        entries.insert(p, (key, value));
                        proof {
                            let nv = JsonValue::Object(*entries);
                            nv.lemma_object_model();
                            let new_es = nv.model()->Object_0;
                            lemma_first_member(old_es, kv, 0);
                            assert(first_member(old_es, kv, 0) == old_es.len());
                            assert forall|j: int| 0 <= j < before.len() implies #[trigger] before[j].0@ != kv by {
                                assert(old_es[j].0 == before[j].0@);
                            }
                            assert forall|j: int| 0 <= j < new_es.len() && j != p implies #[trigger] new_es[j].0 != kv by {
                                if j < p {
                                    assert(new_es[j].0 == old_es[j].0);
                                } else {
                                    assert(new_es[j].0 == old_es[j - 1].0);
                                }
                            }
                            lemma_first_member_is(new_es, kv, 0, p as int);
                            assert(new_es =~= old_es.insert(p as int, (kv, vm)));
                            assert forall|k: Seq<char>| k != kv implies #[trigger] nv.model().field(k) == old(self).model().field(k) by {
                                lemma_first_member(old_es, k, 0);
                                let f = first_member(old_es, k, 0);
                                let g = if f < p { f } else { f + 1 };
                                assert forall|j: int| 0 <= j < g implies new_es[j].0 != k by {
                                    if j < p {
                                        assert(new_es[j].0 == old_es[j].0);
                                    } else if j > p {
                                        assert(new_es[j].0 == old_es[j - 1].0);
                                    }
                                }
                                if f < old_es.len() {
                                    assert(new_es[g] == old_es[f]);
                                }
                                lemma_first_member_is(new_es, k, 0, g);
                            }
                            if old(self).fields_ordered() {
                                assert(keys_sorted(before));
                                assert forall|a: int, b: int| 0 <= a < b < entries@.len() implies crate::text::chars_lt(#[trigger] entries@[a].0@, #[trigger] entries@[b].0@) by {
                                    if a < p && b < p {
                                        assert(entries@[a] == before[a] && entries@[b] == before[b]);
                                    } else if a < p && b == p {
                                    } else if a < p && b > p {
                                        assert(entries@[b] == before[b - 1]);
                                        if p < before.len() {
                                            crate::text::lemma_chars_lt_total(before[p as int].0@, kv);
                                            assert(before[p as int].0@ != kv);
                                            assert(crate::text::chars_lt(kv, before[p as int].0@));
                                            if b - 1 > p as int {
                                                crate::text::lemma_chars_lt_transitive(kv, before[p as int].0@, before[b - 1].0@);
                                            }
                                            crate::text::lemma_chars_lt_transitive(before[a].0@, kv, before[b - 1].0@);
                                        }
                                    } else if a == p {
                                        assert(entries@[b] == before[b - 1]);
                                        crate::text::lemma_chars_lt_total(before[p as int].0@, kv);
                                        assert(before[p as int].0@ != kv);
                                        if b - 1 > p as int {
                                            crate::text::lemma_chars_lt_transitive(kv, before[p as int].0@, before[b - 1].0@);
                                        }
                                    } else {
                                        assert(entries@[a] == before[a - 1] && entries@[b] == before[b - 1]);
                                    }
                                }
                            }
                        }
                    },
                }
            },
            _ => {},
        }
        proof {
            let nm = final(self).model();
            let om = old(self).model();
            assert forall|k: Seq<char>| #[trigger] nm.keys().contains(k) == (om.keys().contains(k) || k == kv) by {
                lemma_keys_contains(nm, k);
                lemma_keys_contains(om, k);
            }
        }
    }

    /// Values with the same model agree on being ordered objects.
    pub proof fn lemma_same_model(self, other: JsonValue)
        requires
            self.model() == other.model(),
        ensures
            self.fields_ordered() == other.fields_ordered(),
            (self is Object) == (other is Object),
    {
        assert((self.model() is Object) == (self is Object));
        assert((other.model() is Object) == (other is Object));
        match (self, other) {
            (JsonValue::Object(a), JsonValue::Object(b)) => {
                let am = self.model()->Object_0;
                let bm = other.model()->Object_0;
                assert(am.len() == a@.len() && bm.len() == b@.len());
                assert forall|i: int| 0 <= i < a@.len() implies #[trigger] a@[i].0@ == b@[i].0@ by {
                    assert(am[i].0 == a@[i].0@);
                    assert(bm[i].0 == b@[i].0@);
                }
                assert(keys_sorted(a@) == keys_sorted(b@)) by {
                    if keys_sorted(a@) {
                        assert forall|i: int, j: int| 0 <= i < j < b@.len() implies crate::text::chars_lt(#[trigger] b@[i].0@, #[trigger] b@[j].0@) by {
                            assert(a@[i].0@ == b@[i].0@ && a@[j].0@ == b@[j].0@);
                        }
                    }
                    if keys_sorted(b@) {
                        assert forall|i: int, j: int| 0 <= i < j < a@.len() implies crate::text::chars_lt(#[trigger] a@[i].0@, #[trigger] a@[j].0@) by {
                            assert(a@[i].0@ == b@[i].0@ && a@[j].0@ == b@[j].0@);
                        }
                    }
                }
            },
            _ => {},
        }
    }

    /// A copy with the same model.
    pub fn deep_copy(&self) -> (r: JsonValue)
        ensures
            r.model() == self.model(),
        decreases self,
    {
        match self {
            JsonValue::Null => JsonValue::Null,
            JsonValue::Bool(b) => JsonValue::Bool(*b),
            JsonValue::Number(t) => JsonValue::Number(t.clone()),
            JsonValue::Str(t) => JsonValue::Str(t.clone()),
            JsonValue::Array(items) => {
                let mut out: Vec<JsonValue> = Vec::new();
                let mut i: usize = 0;
                while i < items.len()
                    invariant
                        *self is Array,
                        self->Array_0 == *items,
                        i <= items@.len(),
                        out@.len() == i,
                        forall|j: int| 0 <= j < i ==> (#[trigger] out@[j]).model() == items@[j].model(),
                    decreases items@.len() - i,
                {
                    proof {
                        assert(decreases_to!(*self => self->Array_0));
                        assert(decreases_to!(self->Array_0 => self->Array_0[i as int])) by {
                            broadcast use vstd::std_specs::vec::axiom_vec_index_decreases;
                        }
                    }
                    out.push(items[i].deep_copy());
                    i = i + 1;
                }
                let r = JsonValue::Array(out);
                assert(r.model()->Array_0 =~= self.model()->Array_0);
                r
            },
            JsonValue::Object(entries) => {
                let mut out: Vec<(String, JsonValue)> = Vec::new();
                let mut i: usize = 0;
                while i < entries.len()
                    invariant
                        *self is Object,
                        self->Object_0 == *entries,
                        i <= entries@.len(),
                        out@.len() == i,
                        forall|j: int| 0 <= j < i ==> (#[trigger] out@[j]).1.model() == entries@[j].1.model() && out@[j].0@ == entries@[j].0@,
                    decreases entries@.len() - i,
                {
                    proof {
                        assert(decreases_to!(*self => self->Object_0));
                        assert(decreases_to!(self->Object_0 => self->Object_0[i as int])) by {
                            broadcast use vstd::std_specs::vec::axiom_vec_index_decreases;
                        }
                        assert(decreases_to!(self->Object_0[i as int] => self->Object_0[i as int].1));
                    }
                    out.push((entries[i].0.clone(), entries[i].1.deep_copy()));
                    i = i + 1;
                }
                let r = JsonValue::Object(out);
                assert(r.model()->Object_0 =~= self.model()->Object_0);
                r
            },
        }
    }
}

} // verus!
