//! Delta storage: the settings that differ from their defaults, keyed by field path
//! (`"audio.volume"`, `"keys[2]"`), and how such a delta is merged back into the defaults.

use vstd::prelude::*;
use crate::settings::error::SettingsError;
use crate::settings::json::{
    arr_entries, find_key, insert_key, lemma_array_model, lemma_obj_index, lemma_object_model,
    obj_entries, obj_get, obj_index, obj_insert, str_eq, Json, JsonValue,
};
use crate::text::{
    contains_char, decimal, find_char, find_from, lemma_find_from, parse_usize, parse_usize_spec,
    split_char, split_on, substring, to_owned_string, usize_to_decimal,
};

verus! {

/// Field paths with their values, as a map that remembers the order in which keys
/// first arrived.
pub struct DeltaMap {
    entries: Vec<(String, JsonValue)>,
}

/// The entries, in order, with distinct keys.
pub open spec fn keys_distinct(es: Seq<(Seq<char>, Json)>) -> bool {
    forall|i: int, j: int| 0 <= i < j < es.len() ==> (#[trigger] es[i]).0 != (#[trigger] es[j]).0
}

/// `es` after setting `key` to `value`: an entry with that key gets the new value in
/// its place; otherwise the entry goes at the end.
pub open spec fn entry_insert(es: Seq<(Seq<char>, Json)>, key: Seq<char>, value: Json) -> Seq<(Seq<char>, Json)> {
    if exists|i: int| 0 <= i < es.len() && (#[trigger] es[i]).0 == key {
        let i = choose|i: int| 0 <= i < es.len() && (#[trigger] es[i]).0 == key;
        es.update(i, (key, value))
    } else {
        es.push((key, value))
    }
}

/// `es` after setting each of `ins` in turn.
pub open spec fn entries_insert_all(es: Seq<(Seq<char>, Json)>, ins: Seq<(Seq<char>, Json)>) -> Seq<(Seq<char>, Json)>
    decreases ins.len(),
{
    if ins.len() == 0 {
        es
    } else {
        entry_insert(entries_insert_all(es, ins.drop_last()), ins.last().0, ins.last().1)
    }
}

/// The map that a sequence of entries with distinct keys stands for.
pub open spec fn entries_map(es: Seq<(Seq<char>, Json)>) -> Map<Seq<char>, Json> {
    Map::new(
        |k: Seq<char>| exists|i: int| 0 <= i < es.len() && (#[trigger] es[i]).0 == k,
        |k: Seq<char>| es[choose|i: int| 0 <= i < es.len() && (#[trigger] es[i]).0 == k].1,
    )
}

proof fn lemma_insert_all_append(es: Seq<(Seq<char>, Json)>, a: Seq<(Seq<char>, Json)>, b: Seq<(Seq<char>, Json)>)
    ensures
        entries_insert_all(es, a + b) == entries_insert_all(entries_insert_all(es, a), b),
    decreases b.len(),
{
    if b.len() == 0 {
        assert(a + b =~= a);
    } else {
        assert((a + b).drop_last() =~= a + b.drop_last());
        assert((a + b).last() == b.last());
        lemma_insert_all_append(es, a, b.drop_last());
    }
}

impl DeltaMap {
    #[verifier::type_invariant]
    spec fn distinct(&self) -> bool {
        keys_distinct(obj_entries(self.entries@))
    }

    /// The entries, in the order in which their keys first arrived.
    pub closed spec fn items(&self) -> Seq<(Seq<char>, Json)> {
        obj_entries(self.entries@)
    }

    /// An empty map.
    pub fn new() -> (r: DeltaMap)
        ensures
            r.items() == Seq::<(Seq<char>, Json)>::empty(),
    {
        let r = DeltaMap { entries: Vec::new() };
        assert(r.items() =~= Seq::<(Seq<char>, Json)>::empty());
        r
    }

    /// The number of entries.
    pub fn len(&self) -> (r: usize)
        ensures
            r == self.items().len(),
    {
        self.entries.len()
    }

    /// True when there are no entries.
    pub fn is_empty(&self) -> (r: bool)
        ensures
            r == (self.items().len() == 0),
    {
        self.entries.len() == 0
    }

    /// Sets `key` to `value`.
    pub fn insert(&mut self, key: String, value: JsonValue)
        ensures
            final(self).items() == entry_insert(old(self).items(), key@, value.model()),
    {
        proof { use_type_invariant(&*self); }
        let ghost es = self.items();
        let ghost vm = value.model();
        match find_key(&self.entries, key.as_str()) {
            Some(i) => {
                proof {
                    lemma_obj_index(es, key@);
                    assert(es[i as int].0 == key@);
                    let c = choose|j: int| 0 <= j < es.len() && (#[trigger] es[j]).0 == key@;
                    assert(c == i);
                }
                let mut entries = Vec::new();
                std::mem::swap(&mut entries, &mut self.entries);
                entries.set(i, (key, value));
                proof {
                    assert(obj_entries(entries@) =~= es.update(i as int, (key@, vm)));
                }
                self.entries = entries;
            },
            None => {
                proof { lemma_obj_index(es, key@); }
                let mut entries = Vec::new();
                std::mem::swap(&mut entries, &mut self.entries);
                let ghost k = key@;
                entries.push((key, value));
                proof {
                    assert(obj_entries(entries@) =~= es.push((k, vm)));
                }
                self.entries = entries;
            },
        }
    }

    /// The value stored under `key`.
    pub fn get(&self, key: &str) -> (r: Option<&JsonValue>)
        ensures
            match r {
                Some(v) => self.items().contains((key@, v.model())),
                None => forall|i: int| 0 <= i < self.items().len() ==> (#[trigger] self.items()[i]).0 != key@,
            },
    {
        proof { lemma_obj_index(self.items(), key@); }
        match find_key(&self.entries, key) {
            Some(i) => {
                proof { assert(self.items()[i as int] == (key@, self.entries@[i as int].1.model())); }
                Some(&self.entries[i].1)
            },
            None => None,
        }
    }

    /// True when some entry has the key `key`.
    pub fn contains_key(&self, key: &str) -> (r: bool)
        ensures
            r == (exists|i: int| 0 <= i < self.items().len() && (#[trigger] self.items()[i]).0 == key@),
    {
        proof { lemma_obj_index(self.items(), key@); }
        find_key(&self.entries, key).is_some()
    }

    /// The entries, in order.
    pub fn into_vec(self) -> (r: Vec<(String, JsonValue)>)
        ensures
            obj_entries(r@) == self.items(),
    {
        self.entries
    }

    /// The entries, in order.
    pub fn as_slice(&self) -> (r: &[(String, JsonValue)])
        ensures
            obj_entries(r@) == self.items(),
    {
        self.entries.as_slice()
    }
}

} // verus!

verus! {

/// The path of the field `key` under `path` (the key alone at the top).
pub open spec fn child_path(path: Seq<char>, key: Seq<char>) -> Seq<char> {
    if path.len() == 0 {
        key
    } else {
        path + seq!['.'] + key
    }
}

/// The path of element `i` of the array at `path`.
pub open spec fn index_path(path: Seq<char>, i: nat) -> Seq<char> {
    path + seq!['['] + decimal(i) + seq![']']
}

/// The path under which a changed value at `path` is recorded (`value` at the top).
pub open spec fn leaf_path(path: Seq<char>) -> Seq<char> {
    if path.len() == 0 {
        seq!['v', 'a', 'l', 'u', 'e']
    } else {
        path
    }
}

/// The entries that record how `current` differs from `default` at `path`, in the order
/// in which they are recorded: objects field by field (fields missing from the default
/// whole), arrays element by element over the common length and then the extra
/// elements of `current` whole, and any other difference as the whole current value.
pub open spec fn delta_of(path: Seq<char>, default: Json, current: Json) -> Seq<(Seq<char>, Json)>
    decreases current, 0nat,
{
    match (default, current) {
        (Json::Obj(dm), Json::Obj(cm)) => delta_obj(path, dm, cm, cm.len()),
        (Json::Arr(da), Json::Arr(ca)) => {
            let common = if da.len() <= ca.len() { da.len() } else { ca.len() };
            delta_arr(path, da, ca, common) + extra_elements(path, da.len(), ca)
        },
        _ => if default != current {
            seq![(leaf_path(path), current)]
        } else {
            seq![]
        },
    }
}

/// The entries for the first `n` fields of the current object `cm`.
pub open spec fn delta_obj(path: Seq<char>, dm: Seq<(Seq<char>, Json)>, cm: Seq<(Seq<char>, Json)>, n: nat) -> Seq<(Seq<char>, Json)>
    decreases cm, n,
{
    if n == 0 || n > cm.len() {
        seq![]
    } else {
        let k = cm[n - 1].0;
        let cv = cm[n - 1].1;
        delta_obj(path, dm, cm, (n - 1) as nat) + match obj_get(dm, k) {
            Some(dv) => if dv != cv {
                delta_of(child_path(path, k), dv, cv)
            } else {
                seq![]
            },
            None => seq![(child_path(path, k), cv)],
        }
    }
}

/// The entries for the first `n` elements of the current array `ca`.
pub open spec fn delta_arr(path: Seq<char>, da: Seq<Json>, ca: Seq<Json>, n: nat) -> Seq<(Seq<char>, Json)>
    decreases ca, n,
{
    if n == 0 || n > ca.len() || n > da.len() {
        seq![]
    } else {
        delta_arr(path, da, ca, (n - 1) as nat) + if da[n - 1] != ca[n - 1] {
            delta_of(index_path(path, (n - 1) as nat), da[n - 1], ca[n - 1])
        } else {
            seq![]
        }
    }
}

/// The elements of `ca` from position `from` on, each under its own path.
pub open spec fn extra_elements(path: Seq<char>, from: nat, ca: Seq<Json>) -> Seq<(Seq<char>, Json)> {
    if ca.len() <= from {
        seq![]
    } else {
        Seq::new((ca.len() - from) as nat, |j: int| (index_path(path, (from + j) as nat), ca[from + j]))
    }
}

/// `path` followed by `.` and `key`, or `key` alone when `path` is empty.
fn join_child_path(path: &str, key: &str) -> (r: String)
    ensures
        r@ == child_path(path@, key@),
{
    proof { reveal_strlit("."); }
    if path.unicode_len() == 0 {
        to_owned_string(key)
    } else {
        let mut s = to_owned_string(path);
        s.append(".");
        s.append(key);
        s
    }
}

/// `path` followed by `[i]`.
fn join_index_path(path: &str, i: usize) -> (r: String)
    ensures
        r@ == index_path(path@, i as nat),
{
    proof {
        reveal_strlit("[");
        reveal_strlit("]");
    }
    let mut s = to_owned_string(path);
    s.append("[");
    let d = usize_to_decimal(i);
    s.append(d.as_str());
    s.append("]");
    s
}

/// Records in `deltas`, in order, the entries of [`delta_of`] for `path`.
fn compute_json_delta(path: &str, default: &JsonValue, current: &JsonValue, deltas: &mut DeltaMap)
    ensures
        final(deltas).items() == entries_insert_all(old(deltas).items(), delta_of(path@, default.model(), current.model())),
    decreases current, 0nat,
{
    match (default, current) {
        (JsonValue::Object(dv), JsonValue::Object(cv)) => {
            let ghost dm = obj_entries(dv@);
            let ghost cm = obj_entries(cv@);
            proof {
                lemma_object_model(*dv);
                lemma_object_model(*cv);
            }
            let mut k: usize = 0;
            while k < cv.len()
                invariant
                    k <= cv@.len(),
                    dm == obj_entries(dv@),
                    cm == obj_entries(cv@),
                    *current == JsonValue::Object(*cv),
                    deltas.items() == entries_insert_all(old(deltas).items(), delta_obj(path@, dm, cm, k as nat)),
                decreases cv@.len() - k,
            {
                proof {
                    vstd::std_specs::vec::axiom_vec_index_decreases(*cv, k as int);
                    assert(decreases_to!(*current => current->Object_0));
                    assert(decreases_to!(cv[k as int] => cv[k as int].1));
                }
                let key = &cv[k].0;
                let cur_val = &cv[k].1;
                let new_path = join_child_path(path, key.as_str());
                let ghost before = deltas.items();
                let ghost piece = match obj_get(dm, key@) {
                    Some(d) => if d != cur_val.model() {
                        delta_of(child_path(path@, key@), d, cur_val.model())
                    } else {
                        seq![]
                    },
                    None => seq![(child_path(path@, key@), cur_val.model())],
                };
                proof { lemma_obj_index(dm, key@); }
                match find_key(dv, key.as_str()) {
                    Some(di) => {
                        let def_val = &dv[di].1;
                        if !def_val.equals(cur_val) {
                            compute_json_delta(new_path.as_str(), def_val, cur_val, deltas);
                        } else {
                            assert(piece =~= seq![]);
                            assert(entries_insert_all(before, piece) == before);
                        }
                    },
                    None => {
                        deltas.insert(new_path, cur_val.deep_clone());
                        proof {
                            assert(piece.drop_last() =~= seq![]);
                            assert(entries_insert_all(before, piece.drop_last()) == before);
                        }
                    },
                }
                proof {
                    assert(delta_obj(path@, dm, cm, (k + 1) as nat) == delta_obj(path@, dm, cm, k as nat) + piece);
                    lemma_insert_all_append(old(deltas).items(), delta_obj(path@, dm, cm, k as nat), piece);
                }
                k += 1;
            }
            assert(delta_of(path@, default.model(), current.model()) == delta_obj(path@, dm, cm, cm.len()));
            assert(deltas.items() == entries_insert_all(old(deltas).items(), delta_of(path@, default.model(), current.model())));
        },
        (JsonValue::Array(da), JsonValue::Array(ca)) => {
            let ghost dm = arr_entries(da@);
            let ghost cm = arr_entries(ca@);
            proof {
                lemma_array_model(*da);
                lemma_array_model(*ca);
            }
            let common = if da.len() <= ca.len() { da.len() } else { ca.len() };
            let mut k: usize = 0;
            while k < common
                invariant
                    k <= common,
                    common <= da@.len(),
                    common <= ca@.len(),
                    dm == arr_entries(da@),
                    cm == arr_entries(ca@),
                    *current == JsonValue::Array(*ca),
                    deltas.items() == entries_insert_all(old(deltas).items(), delta_arr(path@, dm, cm, k as nat)),
                decreases common - k,
            {
                proof {
                    vstd::std_specs::vec::axiom_vec_index_decreases(*ca, k as int);
                    assert(decreases_to!(*current => current->Array_0));
                }
                let ghost before = deltas.items();
                let ghost piece = if dm[k as int] != cm[k as int] {
                    delta_of(index_path(path@, k as nat), dm[k as int], cm[k as int])
                } else {
                    seq![]
                };
                if !da[k].equals(&ca[k]) {
                    let new_path = join_index_path(path, k);
                    compute_json_delta(new_path.as_str(), &da[k], &ca[k], deltas);
                } else {
                    assert(piece =~= seq![]);
                    assert(entries_insert_all(before, piece) == before);
                }
                proof {
                    assert(delta_arr(path@, dm, cm, (k + 1) as nat) == delta_arr(path@, dm, cm, k as nat) + piece);
                    lemma_insert_all_append(old(deltas).items(), delta_arr(path@, dm, cm, k as nat), piece);
                }
                k += 1;
            }
            let ghost after_common = delta_arr(path@, dm, cm, common as nat);
            let ghost extras = extra_elements(path@, da@.len() as nat, cm);
            if ca.len() > da.len() {
                let mut i: usize = da.len();
                while i < ca.len()
                    invariant
                        da@.len() <= i <= ca@.len(),
                        cm == arr_entries(ca@),
                        extras == extra_elements(path@, da@.len() as nat, cm),
                        ca@.len() > da@.len(),
                        deltas.items() == entries_insert_all(old(deltas).items(), after_common + extras.take(i - da@.len())),
                    decreases ca@.len() - i,
                {
                    let new_path = join_index_path(path, i);
                    let ghost before = after_common + extras.take(i - da@.len());
                    deltas.insert(new_path, ca[i].deep_clone());
                    proof {
                        assert((after_common + extras.take(i + 1 - da@.len())).drop_last() =~= before);
                        assert(extras[i - da@.len()] == (index_path(path@, i as nat), cm[i as int]));
                    }
                    i += 1;
                }
                proof {
                    assert(extras.take(ca@.len() - da@.len()) =~= extras);
                }
            } else {
                proof {
                    assert(after_common + extras =~= after_common);
                }
            }
            assert(deltas.items() == entries_insert_all(old(deltas).items(), delta_of(path@, default.model(), current.model())));
        },
        _ => {
            let ghost dmod = default.model();
            let ghost cmod = current.model();
            proof {
                assert(!(dmod is Obj && cmod is Obj));
                assert(!(dmod is Arr && cmod is Arr));
                assert(delta_of(path@, dmod, cmod) == if dmod != cmod {
                    seq![(leaf_path(path@), cmod)]
                } else {
                    seq![]
                });
            }
            if !default.equals(current) {
                proof { reveal_strlit("value"); }
                let final_path = if path.unicode_len() == 0 {
                    to_owned_string("value")
                } else {
                    to_owned_string(path)
                };
                deltas.insert(final_path, current.deep_clone());
                proof {
                    let ins = seq![(leaf_path(path@), cmod)];
                    assert(ins.drop_last() =~= seq![]);
                    assert(entries_insert_all(old(deltas).items(), ins.drop_last()) == old(deltas).items());
                    assert(final_path@ == leaf_path(path@));
                }
            } else {
                assert(entries_insert_all(old(deltas).items(), seq![]) == old(deltas).items());
            }
        },
    }
}

} // verus!

verus! {

/// What a step of applying a delta comes to: a value, a refusal with its message,
/// or an abort, for a path piece that closes its bracket before opening it (slicing
/// such a piece out of order panics; the callers' requirements rule it out).
pub enum Outcome<T> {
    Done(T),
    Failed(Seq<char>),
    Aborts,
}

/// What reading `"field[index]"` gives: the field name and the index.
pub open spec fn access_spec(s: Seq<char>) -> Outcome<(Seq<char>, nat)> {
    match find_from(s, '[', 0) {
        None => Outcome::Failed("Expected array index"@),
        Some(start) => match find_from(s, ']', 0) {
            None => Outcome::Failed("Unclosed array bracket"@),
            Some(end) => if end < start {
                Outcome::Aborts
            } else {
                match parse_usize_spec(s.subrange(start + 1, end)) {
                    None => Outcome::Failed("Invalid array index in "@ + s),
                    Some(idx) => Outcome::Done((s.subrange(0, start), idx)),
                }
            },
        },
    }
}

/// The message for an index past the end of an array.
pub open spec fn out_of_bounds_msg(idx: nat) -> Seq<char> {
    "Array index "@ + decimal(idx) + " out of bounds"@
}

/// The message for a field that does not hold an array.
pub open spec fn not_array_msg(field: Seq<char>) -> Seq<char> {
    "Field "@ + field + " is not an array"@
}

/// The message for a field that is missing.
pub open spec fn not_found_msg(field: Seq<char>) -> Seq<char> {
    "Field "@ + field + " not found"@
}

/// An object's entries with the value at position `i` replaced.
pub open spec fn obj_put(m: Seq<(Seq<char>, Json)>, i: int, v: Json) -> Seq<(Seq<char>, Json)> {
    m.update(i, (m[i].0, v))
}

/// Setting `value` at the path whose pieces are `parts` inside `cur`: each piece names
/// an object field or `field[index]` an array element; the last piece is set. A value
/// that is not an object is passed over unchanged by the pieces that would descend
/// into it.
pub open spec fn set_at_spec(cur: Json, parts: Seq<Seq<char>>, value: Json) -> Outcome<Json>
    decreases parts.len(),
{
    if parts.len() == 0 {
        Outcome::Done(cur)
    } else {
        let part = parts[0];
        let last = parts.len() == 1;
        let rest = parts.drop_first();
        if part.contains('[') {
            match access_spec(part) {
                Outcome::Aborts => Outcome::Aborts,
                Outcome::Failed(e) => Outcome::Failed(e),
                Outcome::Done((field, idx)) => match cur {
                    Json::Obj(m) => match obj_index(m, field) {
                        Some(fi) => match m[fi].1 {
                            Json::Arr(a) => if idx < a.len() {
                                if last {
                                    Outcome::Done(Json::Obj(obj_put(m, fi, Json::Arr(a.update(idx as int, value)))))
                                } else {
                                    match set_at_spec(a[idx as int], rest, value) {
                                        Outcome::Done(r) => Outcome::Done(Json::Obj(obj_put(m, fi, Json::Arr(a.update(idx as int, r))))),
                                        Outcome::Failed(e) => Outcome::Failed(e),
                                        Outcome::Aborts => Outcome::Aborts,
                                    }
                                }
                            } else {
                                Outcome::Failed(out_of_bounds_msg(idx))
                            },
                            _ => Outcome::Failed(not_array_msg(field)),
                        },
                        None => Outcome::Failed(not_array_msg(field)),
                    },
                    _ => if last { Outcome::Done(cur) } else { set_at_spec(cur, rest, value) },
                },
            }
        } else {
            match cur {
                Json::Obj(m) => if last {
                    Outcome::Done(Json::Obj(obj_insert(m, part, value)))
                } else {
                    match obj_index(m, part) {
                        Some(fi) => match set_at_spec(m[fi].1, rest, value) {
                            Outcome::Done(r) => Outcome::Done(Json::Obj(obj_put(m, fi, r))),
                            Outcome::Failed(e) => Outcome::Failed(e),
                            Outcome::Aborts => Outcome::Aborts,
                        },
                        None => Outcome::Failed(not_found_msg(part)),
                    }
                },
                _ => if last { Outcome::Done(cur) } else { set_at_spec(cur, rest, value) },
            }
        }
    }
}

/// Setting `value` at the dotted `path` inside `root`.
pub open spec fn set_path_spec(root: Json, path: Seq<char>, value: Json) -> Outcome<Json> {
    set_at_spec(root, split_on(path, '.'), value)
}

/// Reads `"field[index]"` into the field name and the index.
pub fn parse_array_access(s: &str) -> (r: Result<(String, usize), SettingsError>)
    requires
        !(access_spec(s@) is Aborts),
    ensures
        match access_spec(s@) {
            Outcome::Done((f, i)) => r matches Ok((field, idx)) && field@ == f && idx as nat == i,
            Outcome::Failed(e) => r matches Err(SettingsError::DeltaError(msg)) && msg@ == e,
            Outcome::Aborts => false,
        },
{
    let start = match find_char(s, '[', 0) {
        Some(i) => i,
        None => {
            return Err(SettingsError::DeltaError(to_owned_string("Expected array index")));
        },
    };
    let end = match find_char(s, ']', 0) {
        Some(i) => i,
        None => {
            return Err(SettingsError::DeltaError(to_owned_string("Unclosed array bracket")));
        },
    };
    proof {
        lemma_find_from(s@, '[', 0);
        lemma_find_from(s@, ']', 0);
    }
    let field = substring(s, 0, start);
    let digits = substring(s, start + 1, end);
    match parse_usize(digits.as_str()) {
        Some(idx) => Ok((field, idx)),
        None => {
            let mut msg = to_owned_string("Invalid array index in ");
            msg.append(s);
            Err(SettingsError::DeltaError(msg))
        },
    }
}

/// The message for an index past the end of an array.
fn out_of_bounds_error(idx: usize) -> (r: SettingsError)
    ensures
        r matches SettingsError::DeltaError(m) && m@ == out_of_bounds_msg(idx as nat),
{
    let mut msg = to_owned_string("Array index ");
    let d = usize_to_decimal(idx);
    msg.append(d.as_str());
    msg.append(" out of bounds");
    SettingsError::DeltaError(msg)
}

/// The message for a field that does not hold an array.
fn not_array_error(field: &str) -> (r: SettingsError)
    ensures
        r matches SettingsError::DeltaError(m) && m@ == not_array_msg(field@),
{
    let mut msg = to_owned_string("Field ");
    msg.append(field);
    msg.append(" is not an array");
    SettingsError::DeltaError(msg)
}

/// The message for a field that is missing.
fn not_found_error(field: &str) -> (r: SettingsError)
    ensures
        r matches SettingsError::DeltaError(m) && m@ == not_found_msg(field@),
{
    let mut msg = to_owned_string("Field ");
    msg.append(field);
    msg.append(" not found");
    SettingsError::DeltaError(msg)
}

} // verus!

verus! {

/// The pieces of a path as character sequences.
pub open spec fn parts_model(parts: Seq<String>) -> Seq<Seq<char>> {
    parts.map_values(|p: String| p@)
}

/// `cur` with `value` set at the path made of `parts[k..]`; on a refusal, `cur` as it was.
fn set_at(cur: JsonValue, parts: &Vec<String>, k: usize, value: JsonValue) -> (r: (JsonValue, Result<(), SettingsError>))
    requires
        k < parts@.len(),
        !(set_at_spec(cur.model(), parts_model(parts@).skip(k as int), value.model()) is Aborts),
    ensures
        match set_at_spec(cur.model(), parts_model(parts@).skip(k as int), value.model()) {
            Outcome::Done(j) => r.1 is Ok && r.0.model() == j,
            Outcome::Failed(e) => r.1 matches Err(SettingsError::DeltaError(m)) && m@ == e && r.0.model() == cur.model(),
            Outcome::Aborts => false,
        },
    decreases parts@.len() - k,
{
    let ghost ps = parts_model(parts@).skip(k as int);
    let ghost vm = value.model();
    let ghost c0 = cur.model();
    proof {
        assert(ps[0] == parts@[k as int]@);
        assert(ps.drop_first() =~= parts_model(parts@).skip(k + 1));
    }
    let part = &parts[k];
    let last = k == parts.len() - 1;
    if contains_char(part.as_str(), '[') {
        let (field, idx) = match parse_array_access(part.as_str()) {
            Ok(x) => x,
            Err(e) => {
                return (cur, Err(e));
            },
        };
        match cur {
            JsonValue::Object(mut m) => {
                let ghost m_orig = m@;
                let ghost m0 = obj_entries(m@);
                proof {
                    lemma_object_model(m);
                    lemma_obj_index(m0, field@);
                }
                match find_key(&m, field.as_str()) {
                    Some(fi) => {
                        let (key, child) = m.remove(fi);
                        match child {
                            JsonValue::Array(mut arr) => {
                                let ghost arr_orig = arr@;
                                let ghost a0 = arr_entries(arr@);
                                proof { lemma_array_model(arr); }
                                if idx < arr.len() {
                                    if last {
                                        arr.set(idx, value);
                                    } else {
                                        let el = arr.remove(idx);
                                        let (nv, res) = set_at(el, parts, k + 1, value);
                                        let ghost nvm = nv.model();
                                        arr.insert(idx, nv);
                                        match res {
                                            Ok(()) => {
                                                proof { assert(arr_entries(arr@) =~= a0.update(idx as int, nvm)); }
                                            },
                                            Err(e) => {
                                                proof {
                                                    assert(arr_entries(arr@) =~= a0);
                                                    lemma_array_model(arr);
                                                }
                                                m.insert(fi, (key, JsonValue::Array(arr)));
                                                proof {
                                                    assert(obj_entries(m@) =~= obj_put(m0, fi as int, Json::Arr(a0)));
                                                    assert(obj_entries(m@) =~= m0);
                                                    lemma_object_model(m);
                                                }
                                                return (JsonValue::Object(m), Err(e));
                                            },
                                        }
                                    }
                                    let ghost a1 = arr_entries(arr@);
                                    proof {
                                        if last {
                                            assert(a1 =~= a0.update(idx as int, vm));
                                        }
                                        lemma_array_model(arr);
                                    }
                                    m.insert(fi, (key, JsonValue::Array(arr)));
                                    proof {
                                        assert(obj_entries(m@) =~= obj_put(m0, fi as int, Json::Arr(a1)));
                                        lemma_object_model(m);
                                    }
                                    (JsonValue::Object(m), Ok(()))
                                } else {
                                    m.insert(fi, (key, JsonValue::Array(arr)));
                                    proof { assert(m@ =~= m_orig); }
                                    (JsonValue::Object(m), Err(out_of_bounds_error(idx)))
                                }
                            },
                            other => {
                                m.insert(fi, (key, other));
                                proof { assert(m@ =~= m_orig); }
                                (JsonValue::Object(m), Err(not_array_error(field.as_str())))
                            },
                        }
                    },
                    None => (JsonValue::Object(m), Err(not_array_error(field.as_str()))),
                }
            },
            other => {
                if last {
                    (other, Ok(()))
                } else {
                    set_at(other, parts, k + 1, value)
                }
            },
        }
    } else {
        match cur {
            JsonValue::Object(mut m) => {
                let ghost m_orig = m@;
                let ghost m0 = obj_entries(m@);
                proof {
                    lemma_object_model(m);
                    lemma_obj_index(m0, part@);
                }
                if last {
                    insert_key(&mut m, part.clone(), value);
                    proof { lemma_object_model(m); }
                    (JsonValue::Object(m), Ok(()))
                } else {
                    match find_key(&m, part.as_str()) {
                        Some(fi) => {
                            let (key, child) = m.remove(fi);
                            let ghost child_m = child.model();
                            let (nv, res) = set_at(child, parts, k + 1, value);
                            let ghost nvm = nv.model();
                            m.insert(fi, (key, nv));
                            proof {
                                assert(obj_entries(m@) =~= obj_put(m0, fi as int, nvm));
                                if res is Err {
                                    assert(obj_entries(m@) =~= m0);
                                }
                                lemma_object_model(m);
                            }
                            (JsonValue::Object(m), res)
                        },
                        None => (JsonValue::Object(m), Err(not_found_error(part.as_str()))),
                    }
                }
            },
            other => {
                if last {
                    (other, Ok(()))
                } else {
                    set_at(other, parts, k + 1, value)
                }
            },
        }
    }
}

} // verus!

verus! {

pub(crate) proof fn lemma_split_from_nonempty(s: Seq<char>, c: char, start: int)
    requires
        0 <= start <= s.len(),
    ensures
        crate::text::split_from(s, c, start).len() >= 1,
    decreases s.len() - start,
{
    lemma_find_from(s, c, start);
    if let Some(i) = find_from(s, c, start) {
        lemma_split_from_nonempty(s, c, i + 1);
    }
}

/// Applying each entry of a delta in turn, from `cur` on; the first refusal ends it.
pub open spec fn apply_all_spec(cur: Json, es: Seq<(Seq<char>, Json)>) -> Outcome<Json>
    decreases es.len(),
{
    if es.len() == 0 {
        Outcome::Done(cur)
    } else {
        match set_path_spec(cur, es[0].0, es[0].1) {
            Outcome::Done(n) => apply_all_spec(n, es.drop_first()),
            Outcome::Failed(e) => Outcome::Failed(e),
            Outcome::Aborts => Outcome::Aborts,
        }
    }
}

/// The entries that record how `current` differs from `default`: none when they are
/// equal, else those of [`delta_of`] from the top, merged by key.
pub open spec fn delta_spec(default: Json, current: Json) -> Seq<(Seq<char>, Json)> {
    if default == current {
        seq![]
    } else {
        entries_insert_all(seq![], delta_of(seq![], default, current))
    }
}

/// Settings stored as their differences from a default value.
pub struct DeltaStorage {
    default: JsonValue,
}

impl DeltaStorage {
    /// The default value.
    pub closed spec fn default_model(&self) -> Json {
        self.default.model()
    }

    /// A storage whose default is `default`.
    pub fn with_default(default: JsonValue) -> (r: DeltaStorage)
        ensures
            r.default_model() == default.model(),
    {
        DeltaStorage { default }
    }

    /// The default value.
    pub fn default_value(&self) -> (r: &JsonValue)
        ensures
            r.model() == self.default_model(),
    {
        &self.default
    }

    /// True when `current` equals the default.
    pub fn is_equal_to_default(&self, current: &JsonValue) -> (r: bool)
        ensures
            r == (current.model() == self.default_model()),
    {
        self.default.equals(current)
    }

    /// The fields of `current` that differ from the default, by path.
    pub fn compute_delta(&self, current: &JsonValue) -> (r: DeltaMap)
        ensures
            r.items() == delta_spec(self.default_model(), current.model()),
    {
        let mut deltas = DeltaMap::new();
        if self.is_equal_to_default(current) {
            return deltas;
        }
        proof {
            reveal_strlit("");
            assert(""@ =~= Seq::<char>::empty());
        }
        compute_json_delta("", &self.default, current, &mut deltas);
        deltas
    }

    /// The changed fields of `current`, as (path, value) pairs.
    pub fn get_changed_fields(&self, current: &JsonValue) -> (r: Vec<(String, JsonValue)>)
        ensures
            obj_entries(r@) == delta_spec(self.default_model(), current.model()),
    {
        self.compute_delta(current).into_vec()
    }

    /// Sets `value` at the dotted `path` inside `root` (`"a.b"`, `"list[2]"`, `"a.list[0].b"`);
    /// on a refusal `root` stays as it was.
    pub fn set_json_value(&self, root: &mut JsonValue, path: &str, value: JsonValue) -> (r: Result<(), SettingsError>)
        requires
            !(set_path_spec(old(root).model(), path@, value.model()) is Aborts),
        ensures
            match set_path_spec(old(root).model(), path@, value.model()) {
                Outcome::Done(j) => r is Ok && final(root).model() == j,
                Outcome::Failed(e) => r matches Err(SettingsError::DeltaError(m)) && m@ == e
                    && final(root).model() == old(root).model(),
                Outcome::Aborts => false,
            },
    {
        let parts = split_char(path, '.');
        proof {
            lemma_split_from_nonempty(path@, '.', 0);
            assert(parts_model(parts@) == split_on(path@, '.'));
            assert(parts_model(parts@).skip(0) =~= parts_model(parts@));
        }
        let mut owned = JsonValue::Null;
        std::mem::swap(&mut owned, root);
        let (nv, r) = set_at(owned, &parts, 0, value);
        *root = nv;
        r
    }

    /// The default with each entry of `delta` set in turn.
    pub fn apply_delta(&self, delta: &DeltaMap) -> (r: Result<JsonValue, SettingsError>)
        requires
            !(apply_all_spec(self.default_model(), delta.items()) is Aborts),
        ensures
            match apply_all_spec(self.default_model(), delta.items()) {
                Outcome::Done(j) => r matches Ok(v) && v.model() == j,
                Outcome::Failed(e) => r matches Err(SettingsError::DeltaError(m)) && m@ == e,
                Outcome::Aborts => false,
            },
    {
        if delta.is_empty() {
            return Ok(self.default.deep_clone());
        }
        let entries = delta.as_slice();
        let ghost es = delta.items();
        let mut result = self.default.deep_clone();
        let mut i: usize = 0;
        assert(es.skip(0) =~= es);
        while i < entries.len()
            invariant
                i <= entries@.len(),
                es == obj_entries(entries@),
                es == delta.items(),
                apply_all_spec(self.default_model(), es) == apply_all_spec(result.model(), es.skip(i as int)),
                !(apply_all_spec(self.default_model(), es) is Aborts),
            decreases entries@.len() - i,
        {
            let ghost rest = es.skip(i as int);
            proof {
                assert(rest[0] == (entries@[i as int].0@, entries@[i as int].1.model()));
                assert(rest.drop_first() =~= es.skip(i + 1));
                assert(apply_all_spec(result.model(), rest) == match set_path_spec(result.model(), rest[0].0, rest[0].1) {
                    Outcome::Done(n) => apply_all_spec(n, rest.drop_first()),
                    Outcome::Failed(e) => Outcome::Failed(e),
                    Outcome::Aborts => Outcome::<Json>::Aborts,
                });
            }
            let res = self.set_json_value(&mut result, entries[i].0.as_str(), entries[i].1.deep_clone());
            if let Err(e) = res {
                return Err(e);
            }
            i += 1;
        }
        proof { assert(es.skip(i as int).len() == 0); }
        Ok(result)
    }
}

} // verus!
