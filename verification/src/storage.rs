//! Saved command presets: validation and an in-memory store keyed by id.

use vstd::prelude::*;
use crate::json::{JsonModel, JsonValue};
use crate::text::{is_trim_of, trim};

verus! {

/// A saved command: its id, its name and its JSON payload.
#[derive(Debug, PartialEq)]
pub struct Preset {
    pub id: i64,
    pub name: String,
    pub payload: JsonValue,
}

/// A request to save a preset under a name.
#[derive(Debug, PartialEq)]
pub struct CreatePreset {
    pub name: String,
    pub payload: JsonValue,
}

/// Why a preset request was refused.
#[derive(Debug, PartialEq, Eq)]
pub enum PresetStoreError {
    InvalidName,
    InvalidPayload,
    NotFound(i64),
    Storage(String),
}

/// A preset as mathematics sees it: id, name, payload.
pub type PresetModel = (i64, Seq<char>, JsonModel);

/// The model of a preset.
pub open spec fn preset_model(p: Preset) -> PresetModel {
    (p.id, p.name@, p.payload.model())
}

/// The outcome of validating a request: the name without surrounding white
/// space must not be empty, and the payload must be a JSON object.
pub open spec fn validation_ok(request: CreatePreset, name: Seq<char>) -> bool {
    is_trim_of(request.name@, name) && name.len() > 0 && request.payload is Object
}

/// Why a request is refused, if it is: its name is blank once white space
/// is trimmed, or else its payload is not a JSON object.
pub open spec fn validation_error(request: CreatePreset) -> Option<PresetStoreError> {
    if forall|t: Seq<char>| is_trim_of(request.name@, t) ==> t.len() == 0 {
        Some(PresetStoreError::InvalidName)
    } else if !(request.payload is Object) {
        Some(PresetStoreError::InvalidPayload)
    } else {
        None
    }
}

/// Checks a preset request and gives back its trimmed name and payload.
pub fn validate_request(request: CreatePreset) -> (r: Result<(String, JsonValue), PresetStoreError>)
    ensures
        match r {
            Ok((name, payload)) => validation_ok(request, name@) && payload == request.payload,
            Err(PresetStoreError::InvalidName) => forall|t: Seq<char>| is_trim_of(request.name@, t) ==> t.len() == 0,
            Err(PresetStoreError::InvalidPayload) => (exists|t: Seq<char>| is_trim_of(request.name@, t) && t.len() > 0)
                && !(request.payload is Object),
            Err(_) => false,
        },
        r matches Err(e) ==> validation_error(request) == Some(e),
{
    let ghost req = request;
    let name = trim(request.name.as_str());
    proof {
        crate::text::lemma_trim_unique_pair(req.name@, name@);
    }
    if name.unicode_len() == 0 {
        return Err(PresetStoreError::InvalidName);
    }
    if !request.payload.is_object() {
        return Err(PresetStoreError::InvalidPayload);
    }
    Ok((name, request.payload))
}

impl PresetStoreError {
    /// The error's message (what `to_string` gives).
    pub fn message(&self) -> (r: String)
        ensures
            r@ == match *self {
                PresetStoreError::InvalidName => "preset name must not be empty"@,
                PresetStoreError::InvalidPayload => "preset payload must be a JSON object"@,
                PresetStoreError::NotFound(id) => "preset not found: "@ + crate::text::signed_decimal(id as int),
                PresetStoreError::Storage(m) => "preset storage error: "@ + m@,
            },
    {
        match self {
            PresetStoreError::InvalidName => String::from_str("preset name must not be empty"),
            PresetStoreError::InvalidPayload => String::from_str("preset payload must be a JSON object"),
            PresetStoreError::NotFound(id) => {
                let mut s = String::from_str("preset not found: ");
                crate::text::push_signed_decimal(&mut s, *id);
                s
            },
            PresetStoreError::Storage(m) => crate::error::concat_str("preset storage error: ", m.as_str()),
        }
    }
}

/// The preset saved by `create` is the one that `get` finds under its id:
/// every id in the store is at most the last one handed out, and the new id
/// is one more.
pub proof fn law_get_after_create(presets: Seq<PresetModel>, last: i64, created: PresetModel)
    requires
        forall|i: int| 0 <= i < presets.len() ==> #[trigger] presets[i].0 <= last,
        created.0 == last + 1,
    ensures
        InMemoryPresetStore::index_of_id(presets.push(created), created.0) == Some(presets.len() as int),
{
    let ps = presets.push(created);
    assert(ps[presets.len() as int].0 == created.0);
    let k = choose|k: int| 0 <= k < ps.len() && #[trigger] ps[k].0 == created.0;
    if k < presets.len() {
        assert(ps[k] == presets[k]);
    }
}

/// After `delete` removes a preset, `get` no longer finds its id: ids in the
/// store are distinct.
pub proof fn law_get_after_delete(presets: Seq<PresetModel>, id: i64)
    requires
        forall|i: int, j: int| 0 <= i < j < presets.len() ==> #[trigger] presets[i].0 < #[trigger] presets[j].0,
        InMemoryPresetStore::index_of_id(presets, id) is Some,
    ensures
        ({
            let i = InMemoryPresetStore::index_of_id(presets, id)->0;
            InMemoryPresetStore::index_of_id(presets.remove(i), id) is None
        }),
{
    let i = InMemoryPresetStore::index_of_id(presets, id)->0;
    let rest = presets.remove(i);
    assert forall|k: int| 0 <= k < rest.len() implies #[trigger] rest[k].0 != id by {
        if k < i {
            assert(rest[k] == presets[k]);
            assert(presets[k].0 < presets[i].0);
        } else {
            assert(rest[k] == presets[k + 1]);
            assert(presets[i].0 < presets[k + 1].0);
        }
    }
}

/// Presets kept in memory, in increasing id order; ids are handed out
/// 1, 2, ... and never reused.
#[derive(Debug)]
pub struct InMemoryPresetStore {
    next_id: i64,
    presets: Vec<Preset>,
}

/// A copy of a preset.
fn copy_preset(p: &Preset) -> (r: Preset)
    ensures
        preset_model(r) == preset_model(*p),
{
    Preset { id: p.id, name: p.name.clone(), payload: p.payload.deep_copy() }
}

impl Default for InMemoryPresetStore {
    /// An empty store.
    fn default() -> (r: InMemoryPresetStore)
        ensures
            r.presets() == Seq::<PresetModel>::empty(),
            r.last_id() == 0,
    {
        InMemoryPresetStore::new()
    }
}

impl InMemoryPresetStore {
    #[verifier::type_invariant]
    spec fn wf(&self) -> bool {
        &&& 0 <= self.next_id
        &&& forall|i: int, j: int| 0 <= i < j < self.presets@.len() ==> #[trigger] self.presets@[i].id < #[trigger] self.presets@[j].id
        &&& forall|i: int| 0 <= i < self.presets@.len() ==> 1 <= #[trigger] self.presets@[i].id <= self.next_id
    }

    /// The presets, in increasing id order.
    pub closed spec fn presets(&self) -> Seq<PresetModel> {
        self.presets@.map_values(|p: Preset| preset_model(p))
    }

    /// The last id handed out (0 before the first).
    pub closed spec fn last_id(&self) -> i64 {
        self.next_id
    }

    /// The index of the preset with id `id` in `presets()`, if any.
    pub open spec fn index_of_id(presets: Seq<PresetModel>, id: i64) -> Option<int> {
        if exists|i: int| 0 <= i < presets.len() && #[trigger] presets[i].0 == id {
            Some(choose|i: int| 0 <= i < presets.len() && #[trigger] presets[i].0 == id)
        } else {
            None
        }
    }

    /// An empty store.
    pub fn new() -> (r: InMemoryPresetStore)
        ensures
            r.presets() == Seq::<PresetModel>::empty(),
            r.last_id() == 0,
    {
        let r = InMemoryPresetStore { next_id: 0, presets: Vec::new() };
        assert(r.presets() =~= Seq::<PresetModel>::empty());
        r
    }

    /// The last id handed out.
    pub fn current_last_id(&self) -> (r: i64)
        ensures
            r == self.last_id(),
    {
        self.next_id
    }

    /// Ids increase along the store and do not exceed the last id handed out.
    pub fn ids_increase(&self)
        ensures
            forall|i: int, j: int| 0 <= i < j < self.presets().len() ==> #[trigger] self.presets()[i].0 < #[trigger] self.presets()[j].0,
            forall|i: int| 0 <= i < self.presets().len() ==> 1 <= #[trigger] self.presets()[i].0 <= self.last_id(),
    {
        proof {
            use_type_invariant(self);
        }
    }

    /// Where the preset with id `id` is.
    fn find(&self, id: i64) -> (r: Option<usize>)
        ensures
            match r {
                Some(i) => i < self.presets().len() && self.presets()[i as int].0 == id && Self::index_of_id(self.presets(), id) == Some(i as int),
                None => Self::index_of_id(self.presets(), id) is None,
            },
    {
        proof {
            use_type_invariant(self);
        }
        let mut i: usize = 0;
        while i < self.presets.len()
            invariant
                i <= self.presets@.len(),
                forall|j: int| 0 <= j < i ==> self.presets@[j].id != id,
                forall|a: int, b: int| 0 <= a < b < self.presets@.len() ==> #[trigger] self.presets@[a].id < #[trigger] self.presets@[b].id,
            decreases self.presets@.len() - i,
        {
            if self.presets[i].id == id {
                proof {
                    let ps = self.presets();
                    assert(ps[i as int] == preset_model(self.presets@[i as int]));
                    assert(ps[i as int].0 == id);
                    let k = choose|k: int| 0 <= k < ps.len() && #[trigger] ps[k].0 == id;
                    assert(ps[k] == preset_model(self.presets@[k]));
                    if k < i as int {
                        assert(self.presets@[k].id < self.presets@[i as int].id);
                    } else if k > i as int {
                        assert(self.presets@[i as int].id < self.presets@[k].id);
                    }
                }
                return Some(i);
            }
            i = i + 1;
        }
        proof {
            let ps = self.presets();
            assert forall|k: int| 0 <= k < ps.len() implies #[trigger] ps[k].0 != id by {
                assert(ps[k] == preset_model(self.presets@[k]));
            }
        }
        None
    }

    /// The presets, in increasing id order.
    pub fn list(&self) -> (r: Result<Vec<Preset>, PresetStoreError>)
        ensures
            r matches Ok(list) && list@.map_values(|p: Preset| preset_model(p)) == self.presets(),
    {
        let mut out: Vec<Preset> = Vec::new();
        let mut i: usize = 0;
        while i < self.presets.len()
            invariant
                i <= self.presets@.len(),
                out@.len() == i,
                forall|j: int| 0 <= j < i ==> preset_model(#[trigger] out@[j]) == preset_model(self.presets@[j]),
            decreases self.presets@.len() - i,
        {
            out.push(copy_preset(&self.presets[i]));
            i = i + 1;
        }
        assert(out@.map_values(|p: Preset| preset_model(p)) =~= self.presets());
        Ok(out)
    }

    /// Validates the request and saves it under the next id.
    pub fn create(&mut self, request: CreatePreset) -> (r: Result<Preset, PresetStoreError>)
        requires
            old(self).last_id() < i64::MAX,
        ensures
            match r {
                Ok(p) => {
                    &&& validation_ok(request, p.name@) && p.payload == request.payload
                    &&& p.id == old(self).last_id() + 1
                    &&& final(self).last_id() == p.id
                    &&& final(self).presets() == old(self).presets().push(preset_model(p))
                },
                Err(e) => (e is InvalidName || e is InvalidPayload) && validation_error(request) == Some(e) && final(self).presets() == old(self).presets()
                    && final(self).last_id() == old(self).last_id() && !(exists|t: Seq<char>| validation_ok(request, t)),
            },
    {
        proof {
            use_type_invariant(&*self);
        }
        let ghost req = request;
        let (name, payload) = match validate_request(request) {
            Ok(v) => v,
            Err(e) => {
                proof {
                    assert forall|t: Seq<char>| !validation_ok(req, t) by {
                        if is_trim_of(req.name@, t) {
                            crate::text::lemma_trim_unique_pair(req.name@, t);
                        }
                    }
                }
                return Err(e);
            },
        };
        let id = self.next_id + 1;
        let preset = Preset { id, name, payload };
        let stored = copy_preset(&preset);
        self.next_id = id;
        let mut presets = Vec::new();
        std::mem::swap(&mut presets, &mut self.presets);
        presets.push(stored);
        self.presets = presets;
        assert(self.presets() =~= old(self).presets().push(preset_model(preset)));
        Ok(preset)
    }

    /// The preset with id `id`.
    pub fn get(&self, id: i64) -> (r: Result<Preset, PresetStoreError>)
        ensures
            match Self::index_of_id(self.presets(), id) {
                Some(i) => r matches Ok(p) && preset_model(p) == self.presets()[i],
                None => r == Err::<Preset, PresetStoreError>(PresetStoreError::NotFound(id)),
            },
    {
        match self.find(id) {
            Some(i) => Ok(copy_preset(&self.presets[i])),
            None => Err(PresetStoreError::NotFound(id)),
        }
    }

    /// Validates the request and replaces the name and payload of the preset
    /// with id `id`.
    pub fn update(&mut self, id: i64, request: CreatePreset) -> (r: Result<Preset, PresetStoreError>)
        ensures
            final(self).last_id() == old(self).last_id(),
            match r {
                Ok(p) => {
                    &&& validation_ok(request, p.name@) && p.payload == request.payload && p.id == id
                    &&& Self::index_of_id(old(self).presets(), id) matches Some(i)
                        && final(self).presets() == old(self).presets().update(i, preset_model(p))
                },
                Err(PresetStoreError::NotFound(n)) => n == id && (exists|t: Seq<char>| validation_ok(request, t))
                    && Self::index_of_id(old(self).presets(), id) is None && final(self).presets() == old(self).presets(),
                Err(e) => (e is InvalidName || e is InvalidPayload) && validation_error(request) == Some(e) && !(exists|t: Seq<char>| validation_ok(request, t))
                    && final(self).presets() == old(self).presets(),
            },
    {
        proof {
            use_type_invariant(&*self);
        }
        let ghost req = request;
        let (name, payload) = match validate_request(request) {
            Ok(v) => v,
            Err(e) => {
                proof {
                    assert forall|t: Seq<char>| !validation_ok(req, t) by {
                        if is_trim_of(req.name@, t) {
                            crate::text::lemma_trim_unique_pair(req.name@, t);
                        }
                    }
                }
                return Err(e);
            },
        };
        let i = match self.find(id) {
            Some(i) => i,
            None => return Err(PresetStoreError::NotFound(id)),
        };
        let preset = Preset { id, name, payload };
        let stored = copy_preset(&preset);
        let mut presets = Vec::new();
        std::mem::swap(&mut presets, &mut self.presets);
        presets.set(i, stored);
        self.presets = presets;
        assert(self.presets() =~= old(self).presets().update(i as int, preset_model(preset)));
        Ok(preset)
    }

    /// Removes the preset with id `id`, giving back its id.
    pub fn delete(&mut self, id: i64) -> (r: Result<i64, PresetStoreError>)
        ensures
            final(self).last_id() == old(self).last_id(),
            match Self::index_of_id(old(self).presets(), id) {
                Some(i) => r == Ok::<i64, PresetStoreError>(id) && final(self).presets() == old(self).presets().remove(i),
                None => r == Err::<i64, PresetStoreError>(PresetStoreError::NotFound(id)) && final(self).presets() == old(self).presets(),
            },
    {
        proof {
            use_type_invariant(&*self);
        }
        match self.find(id) {
            Some(i) => {
                let mut presets = Vec::new();
                std::mem::swap(&mut presets, &mut self.presets);
                let _ = presets.remove(i);
                self.presets = presets;
                assert(self.presets() =~= old(self).presets().remove(i as int));
                Ok(id)
            },
            None => Err(PresetStoreError::NotFound(id)),
        }
    }
}

} // verus!
