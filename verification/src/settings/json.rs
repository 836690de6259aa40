//! JSON values as the settings code reads them: the library's own form of a
//! `serde_json::Value` (objects keep their keys sorted, as `serde_json::Map` does).

use vstd::prelude::*;

verus! {

/// A JSON number: a non-negative integer, a negative integer, or a float given by its bits.
#[derive(Debug, Clone, Copy, PartialEq, Eq, Structural)]
pub enum JsonNumber {
    PosInt(u64),
    NegInt(i64),
    Float(u64),
}

/// A JSON value.
#[derive(Debug)]
pub enum JsonValue {
    Null,
    Bool(bool),
    Number(JsonNumber),
    String(String),
    Array(Vec<JsonValue>),
    /// Key/value pairs; well-formed objects have strictly increasing keys.
    Object(Vec<(String, JsonValue)>),
}

/// A JSON number as JSON values compare: floats by value, so that the two zeros
/// (`0.0` and `-0.0`) are one number; every other number is itself.
pub open spec fn number_model(n: JsonNumber) -> JsonNumber {
    match n {
        JsonNumber::Float(bits) => if bits & 0x7fff_ffff_ffff_ffffu64 == 0 { JsonNumber::Float(0) } else { n },
        _ => n,
    }
}

/// True when two numbers are the same number (see [`number_model`]).
fn numbers_equal(a: JsonNumber, b: JsonNumber) -> (r: bool)
    ensures
        r == (number_model(a) == number_model(b)),
{
    let x = match a {
        JsonNumber::Float(bits) => if bits & 0x7fff_ffff_ffff_ffffu64 == 0 { JsonNumber::Float(0) } else { a },
        _ => a,
    };
    let y = match b {
        JsonNumber::Float(bits) => if bits & 0x7fff_ffff_ffff_ffffu64 == 0 { JsonNumber::Float(0) } else { b },
        _ => b,
    };
    x == y
}

/// The mathematical form of a JSON value, as JSON values compare (see [`number_model`]).
pub enum Json {
    Null,
    Bool(bool),
    Number(JsonNumber),
    Str(Seq<char>),
    Arr(Seq<Json>),
    Obj(Seq<(Seq<char>, Json)>),
}

impl JsonValue {
    /// The mathematical form of this value.
    pub open spec fn model(&self) -> Json
        decreases self,
    {
        match self {
            JsonValue::Null => Json::Null,
            JsonValue::Bool(b) => Json::Bool(*b),
            JsonValue::Number(n) => Json::Number(number_model(*n)),
            JsonValue::String(s) => Json::Str(s@),
            JsonValue::Array(v) => Json::Arr(Seq::new(v@.len(), |i: int| if 0 <= i < v@.len() { v@[i].model() } else { Json::Null })),
            JsonValue::Object(v) => Json::Obj(Seq::new(v@.len(), |i: int| if 0 <= i < v@.len() { (v@[i].0@, v@[i].1.model()) } else { (Seq::empty(), Json::Null) })),
        }
    }
}

/// `a` comes before `b` in lexicographic order of characters (by code point, which is
/// also the byte order of their UTF-8 forms).
pub open spec fn str_lt(a: Seq<char>, b: Seq<char>) -> bool
    decreases a.len(),
{
    if a.len() == 0 {
        b.len() > 0
    } else if b.len() == 0 {
        false
    } else if a[0] != b[0] {
        a[0] < b[0]
    } else {
        str_lt(a.drop_first(), b.drop_first())
    }
}

/// Object keys are strictly increasing.
pub open spec fn keys_sorted(m: Seq<(Seq<char>, Json)>) -> bool {
    forall|i: int, j: int| 0 <= i < j < m.len() ==> str_lt(#[trigger] m[i].0, #[trigger] m[j].0)
}

/// Every object in the value has strictly increasing keys.
pub open spec fn json_wf(j: Json) -> bool
    decreases j,
{
    match j {
        Json::Arr(a) => forall|i: int| 0 <= i < a.len() ==> json_wf(#[trigger] a[i]),
        Json::Obj(m) => keys_sorted(m) && forall|i: int| 0 <= i < m.len() ==> json_wf(#[trigger] m[i].1),
        _ => true,
    }
}

/// The position of the first entry of an object whose key is `key`.
pub open spec fn obj_index(m: Seq<(Seq<char>, Json)>, key: Seq<char>) -> Option<int>
    decreases m.len(),
{
    if m.len() == 0 {
        None
    } else if m[0].0 == key {
        Some(0)
    } else {
        match obj_index(m.drop_first(), key) {
            Some(i) => Some(i + 1),
            None => None,
        }
    }
}

/// The value stored under `key` in an object (its first entry with that key).
pub open spec fn obj_get(m: Seq<(Seq<char>, Json)>, key: Seq<char>) -> Option<Json> {
    match obj_index(m, key) {
        Some(i) => Some(m[i].1),
        None => None,
    }
}

/// [`obj_index`] finds the first entry with the key, or says that there is none.
pub proof fn lemma_obj_index(m: Seq<(Seq<char>, Json)>, key: Seq<char>)
    ensures
        match obj_index(m, key) {
            Some(i) => 0 <= i < m.len() && m[i].0 == key && forall|j: int| 0 <= j < i ==> m[j].0 != key,
            None => forall|j: int| 0 <= j < m.len() ==> m[j].0 != key,
        },
    decreases m.len(),
{
    if m.len() > 0 && m[0].0 != key {
        lemma_obj_index(m.drop_first(), key);
        match obj_index(m.drop_first(), key) {
            Some(i) => {
                assert forall|j: int| 0 <= j < i + 1 implies m[j].0 != key by {
                    if j > 0 {
                        assert(m[j] == m.drop_first()[j - 1]);
                    }
                }
            },
            None => {
                assert forall|j: int| 0 <= j < m.len() implies m[j].0 != key by {
                    if j > 0 {
                        assert(m[j] == m.drop_first()[j - 1]);
                    }
                }
            },
        }
    }
}

/// The object with `key` set to `value`, as `serde_json::Map::insert` leaves it: an
/// existing entry for the key gets the new value; otherwise the entry is added at the
/// position that keeps the keys sorted.
pub open spec fn obj_insert(m: Seq<(Seq<char>, Json)>, key: Seq<char>, value: Json) -> Seq<(Seq<char>, Json)>
    decreases m.len(),
{
    if m.len() == 0 {
        seq![(key, value)]
    } else if m[0].0 == key {
        seq![(key, value)] + m.drop_first()
    } else if str_lt(key, m[0].0) {
        seq![(key, value)] + m
    } else {
        seq![m[0]] + obj_insert(m.drop_first(), key, value)
    }
}

/// True when the strings are equal.
pub fn str_eq(a: &str, b: &str) -> (r: bool)
    ensures
        r == (a@ == b@),
{
    let n = a.unicode_len();
    let m = b.unicode_len();
    if n != m {
        return false;
    }
    let mut i: usize = 0;
    while i < n
        invariant
            n == a@.len(),
            m == b@.len(),
            n == m,
            i <= n,
            forall|k: int| 0 <= k < i ==> a@[k] == b@[k],
        decreases n - i,
    {
        if a.get_char(i) != b.get_char(i) {
            return false;
        }
        i += 1;
    }
    proof {
        assert(a@ =~= b@);
    }
    true
}

proof fn lemma_str_lt_skip(a: Seq<char>, b: Seq<char>, k: int)
    requires
        0 <= k <= a.len(),
        k <= b.len(),
        forall|q: int| 0 <= q < k ==> a[q] == b[q],
    ensures
        str_lt(a, b) == str_lt(a.skip(k), b.skip(k)),
    decreases k,
{
    if k > 0 {
        assert(a.skip(1).skip(k - 1) =~= a.skip(k));
        assert(b.skip(1).skip(k - 1) =~= b.skip(k));
        assert(a.drop_first() =~= a.skip(1));
        assert(b.drop_first() =~= b.skip(1));
        lemma_str_lt_skip(a.skip(1), b.skip(1), k - 1);
    } else {
        assert(a.skip(0) =~= a);
        assert(b.skip(0) =~= b);
    }
}

/// True when `a` comes before `b` (see [`str_lt`]).
pub fn str_less(a: &str, b: &str) -> (r: bool)
    ensures
        r == str_lt(a@, b@),
{
    let n = a.unicode_len();
    let m = b.unicode_len();
    let mut i: usize = 0;
    while i < n && i < m
        invariant
            n == a@.len(),
            m == b@.len(),
            i <= n,
            i <= m,
            forall|k: int| 0 <= k < i ==> a@[k] == b@[k],
        decreases n - i,
    {
        let x = a.get_char(i);
        let y = b.get_char(i);
        if x != y {
            proof {
                lemma_str_lt_skip(a@, b@, i as int);
                assert(a@.skip(i as int)[0] == x && b@.skip(i as int)[0] == y);
            }
            return x < y;
        }
        i += 1;
    }
    proof {
        lemma_str_lt_skip(a@, b@, i as int);
    }
    i == n && i < m
}

impl JsonValue {
    /// A deep copy of the value.
    pub fn deep_clone(&self) -> (r: JsonValue)
        ensures
            r.model() == self.model(),
        decreases self,
    {
        match self {
            JsonValue::Null => JsonValue::Null,
            JsonValue::Bool(b) => JsonValue::Bool(*b),
            JsonValue::Number(n) => JsonValue::Number(*n),
            JsonValue::String(s) => JsonValue::String(s.clone()),
            JsonValue::Array(v) => {
                let mut out: Vec<JsonValue> = Vec::new();
                let mut i: usize = 0;
                while i < v.len()
                    invariant
                        i <= v@.len(),
                        out@.len() == i,
                        *self == JsonValue::Array(*v),
                        forall|k: int| 0 <= k < i ==> (#[trigger] out@[k]).model() == v@[k].model(),
                    decreases v@.len() - i,
                {
                    proof {
                        vstd::std_specs::vec::axiom_vec_index_decreases(*v, i as int);
                        assert(decreases_to!(*self => self->Array_0));
                    }
                    let c = v[i].deep_clone();
                    out.push(c);
                    i += 1;
                }
                let r = JsonValue::Array(out);
                proof {
                    assert(r.model() == self.model()) by {
                        if let (Json::Arr(x), Json::Arr(y)) = (r.model(), self.model()) {
                            assert(x =~= y);
                        }
                    }
                }
                r
            },
            JsonValue::Object(v) => {
                let mut out: Vec<(String, JsonValue)> = Vec::new();
                let mut i: usize = 0;
                while i < v.len()
                    invariant
                        i <= v@.len(),
                        out@.len() == i,
                        *self == JsonValue::Object(*v),
                        forall|k: int| 0 <= k < i ==> (#[trigger] out@[k]).0@ == v@[k].0@ && out@[k].1.model() == v@[k].1.model(),
                    decreases v@.len() - i,
                {
                    proof {
                        vstd::std_specs::vec::axiom_vec_index_decreases(*v, i as int);
                        assert(decreases_to!(*self => self->Object_0));
                        assert(decreases_to!(v[i as int] => v[i as int].1));
                    }
                    let c = v[i].1.deep_clone();
                    out.push((v[i].0.clone(), c));
                    i += 1;
                }
                let r = JsonValue::Object(out);
                proof {
                    assert(r.model() == self.model()) by {
                        if let (Json::Obj(x), Json::Obj(y)) = (r.model(), self.model()) {
                            assert(x =~= y);
                        }
                    }
                }
                r
            },
        }
    }

    /// True when the two values are equal.
    pub fn equals(&self, other: &JsonValue) -> (r: bool)
        ensures
            r == (self.model() == other.model()),
        decreases self,
    {
        match (self, other) {
            (JsonValue::Null, JsonValue::Null) => true,
            (JsonValue::Bool(a), JsonValue::Bool(b)) => *a == *b,
            (JsonValue::Number(a), JsonValue::Number(b)) => numbers_equal(*a, *b),
            (JsonValue::String(a), JsonValue::String(b)) => str_eq(a.as_str(), b.as_str()),
            (JsonValue::Array(a), JsonValue::Array(b)) => {
                if a.len() != b.len() {
                    proof {
                        if let (Json::Arr(x), Json::Arr(y)) = (self.model(), other.model()) {
                            assert(x.len() != y.len());
                        }
                    }
                    return false;
                }
                let mut i: usize = 0;
                while i < a.len()
                    invariant
                        i <= a@.len(),
                        a@.len() == b@.len(),
                        *self == JsonValue::Array(*a),
                        *other == JsonValue::Array(*b),
                        forall|k: int| 0 <= k < i ==> (#[trigger] a@[k]).model() == b@[k].model(),
                    decreases a@.len() - i,
                {
                    proof {
                        vstd::std_specs::vec::axiom_vec_index_decreases(*a, i as int);
                        assert(decreases_to!(*self => *a));
                    }
                    if !a[i].equals(&b[i]) {
                        proof {
                            if let (Json::Arr(x), Json::Arr(y)) = (self.model(), other.model()) {
                                assert(x[i as int] != y[i as int]);
                            }
                        }
                        return false;
                    }
                    i += 1;
                }
                proof {
                    if let (Json::Arr(x), Json::Arr(y)) = (self.model(), other.model()) {
                        assert(x =~= y);
                    }
                }
                true
            },
            (JsonValue::Object(a), JsonValue::Object(b)) => {
                if a.len() != b.len() {
                    proof {
                        if let (Json::Obj(x), Json::Obj(y)) = (self.model(), other.model()) {
                            assert(x.len() != y.len());
                        }
                    }
                    return false;
                }
                let mut i: usize = 0;
                while i < a.len()
                    invariant
                        i <= a@.len(),
                        a@.len() == b@.len(),
                        *self == JsonValue::Object(*a),
                        *other == JsonValue::Object(*b),
                        forall|k: int| 0 <= k < i ==> (#[trigger] a@[k]).0@ == b@[k].0@ && a@[k].1.model() == b@[k].1.model(),
                    decreases a@.len() - i,
                {
                    proof {
                        vstd::std_specs::vec::axiom_vec_index_decreases(*a, i as int);
                        assert(decreases_to!(*self => *a));
                        assert(decreases_to!(a[i as int] => a[i as int].1));
                    }
                    if !str_eq(a[i].0.as_str(), b[i].0.as_str()) || !a[i].1.equals(&b[i].1) {
                        proof {
                            if let (Json::Obj(x), Json::Obj(y)) = (self.model(), other.model()) {
                                assert(x[i as int] != y[i as int]);
                            }
                        }
                        return false;
                    }
                    i += 1;
                }
                proof {
                    if let (Json::Obj(x), Json::Obj(y)) = (self.model(), other.model()) {
                        assert(x =~= y);
                    }
                }
                true
            },
            _ => false,
        }
    }
}

} // verus!

verus! {

/// The entries of an object as key/value models.
pub open spec fn obj_entries(v: Seq<(String, JsonValue)>) -> Seq<(Seq<char>, Json)> {
    Seq::new(v.len(), |i: int| (v[i].0@, v[i].1.model()))
}

/// The elements of an array as models.
pub open spec fn arr_entries(v: Seq<JsonValue>) -> Seq<Json> {
    Seq::new(v.len(), |i: int| v[i].model())
}

/// An object value's model holds the models of its entries, in order.
pub proof fn lemma_object_model(v: Vec<(String, JsonValue)>)
    ensures
        JsonValue::Object(v).model() == Json::Obj(obj_entries(v@)),
{
    if let Json::Obj(m) = JsonValue::Object(v).model() {
        assert(m =~= obj_entries(v@));
    }
}

/// An array value's model holds the models of its elements, in order.
pub proof fn lemma_array_model(v: Vec<JsonValue>)
    ensures
        JsonValue::Array(v).model() == Json::Arr(arr_entries(v@)),
{
    if let Json::Arr(m) = JsonValue::Array(v).model() {
        assert(m =~= arr_entries(v@));
    }
}

proof fn lemma_obj_index_first(m: Seq<(Seq<char>, Json)>, key: Seq<char>, i: int)
    requires
        0 <= i < m.len(),
        m[i].0 == key,
        forall|j: int| 0 <= j < i ==> m[j].0 != key,
    ensures
        obj_index(m, key) == Some(i),
    decreases i,
{
    if i > 0 {
        assert forall|j: int| 0 <= j < i - 1 implies m.drop_first()[j].0 != key by {
            assert(m.drop_first()[j] == m[j + 1]);
        }
        lemma_obj_index_first(m.drop_first(), key, i - 1);
    }
}

proof fn lemma_obj_index_none(m: Seq<(Seq<char>, Json)>, key: Seq<char>)
    requires
        forall|j: int| 0 <= j < m.len() ==> m[j].0 != key,
    ensures
        obj_index(m, key) is None,
    decreases m.len(),
{
    if m.len() > 0 {
        assert forall|j: int| 0 <= j < m.len() - 1 implies m.drop_first()[j].0 != key by {
            assert(m.drop_first()[j] == m[j + 1]);
        }
        lemma_obj_index_none(m.drop_first(), key);
    }
}

/// The position of the first entry whose key is `key`.
pub fn find_key(entries: &Vec<(String, JsonValue)>, key: &str) -> (r: Option<usize>)
    ensures
        match r {
            Some(i) => obj_index(obj_entries(entries@), key@) == Some(i as int),
            None => obj_index(obj_entries(entries@), key@) is None,
        },
{
    let ghost m = obj_entries(entries@);
    let mut i: usize = 0;
    while i < entries.len()
        invariant
            i <= entries@.len(),
            m == obj_entries(entries@),
            forall|j: int| 0 <= j < i ==> m[j].0 != key@,
        decreases entries@.len() - i,
    {
        if str_eq(entries[i].0.as_str(), key) {
            proof { lemma_obj_index_first(m, key@, i as int); }
            return Some(i);
        }
        i += 1;
    }
    proof { lemma_obj_index_none(m, key@); }
    None
}

proof fn lemma_obj_insert_prefix(m: Seq<(Seq<char>, Json)>, key: Seq<char>, value: Json, i: int)
    requires
        0 <= i <= m.len(),
        forall|j: int| 0 <= j < i ==> m[j].0 != key && !str_lt(key, #[trigger] m[j].0),
    ensures
        obj_insert(m, key, value) == m.take(i) + obj_insert(m.skip(i), key, value),
    decreases i,
{
    if i == 0 {
        assert(m.skip(0) =~= m);
        assert(m.take(0) + obj_insert(m, key, value) =~= obj_insert(m, key, value));
    } else {
        let t = m.drop_first();
        assert forall|j: int| 0 <= j < i - 1 implies t[j].0 != key && !str_lt(key, #[trigger] t[j].0) by {
            assert(t[j] == m[j + 1]);
        }
        lemma_obj_insert_prefix(t, key, value, i - 1);
        assert(m[0].0 != key && !str_lt(key, m[0].0));
        assert(t.skip(i - 1) =~= m.skip(i));
        assert(seq![m[0]] + t.take(i - 1) =~= m.take(i));
        assert(seq![m[0]] + (t.take(i - 1) + obj_insert(m.skip(i), key, value))
            =~= m.take(i) + obj_insert(m.skip(i), key, value));
    }
}

/// Sets `key` to `value` in an object's entries as [`obj_insert`] describes.
pub fn insert_key(entries: &mut Vec<(String, JsonValue)>, key: String, value: JsonValue)
    ensures
        obj_entries(final(entries)@) == obj_insert(obj_entries(old(entries)@), key@, value.model()),
{
    let ghost m = obj_entries(entries@);
    let mut i: usize = 0;
    while i < entries.len()
        invariant
            i <= entries@.len(),
            m == obj_entries(entries@),
            m == obj_entries(old(entries)@),
            forall|j: int| 0 <= j < i ==> m[j].0 != key@ && !str_lt(key@, #[trigger] m[j].0),
        decreases entries@.len() - i,
    {
        if str_eq(entries[i].0.as_str(), key.as_str()) {
            proof {
                lemma_obj_insert_prefix(m, key@, value.model(), i as int);
                assert(m.skip(i as int)[0] == m[i as int]);
                assert(m.skip(i as int).drop_first() =~= m.skip(i as int + 1));
            }
            let ghost vm = value.model();
            entries[i].1 = value;
            proof {
                assert(obj_entries(entries@) =~= m.take(i as int) + (seq![(key@, vm)] + m.skip(i as int + 1)));
            }
            return;
        }
        if str_less(key.as_str(), entries[i].0.as_str()) {
            proof {
                lemma_obj_insert_prefix(m, key@, value.model(), i as int);
            }
            let ghost vm = value.model();
            entries.insert(i, (key, value));
            proof {
                assert(obj_entries(entries@) =~= m.take(i as int) + (seq![(key@, vm)] + m.skip(i as int)));
            }
            return;
        }
        i += 1;
    }
    proof {
        lemma_obj_insert_prefix(m, key@, value.model(), i as int);
        assert(m.skip(i as int).len() == 0);
    }
    let ghost vm = value.model();
    let ghost k = key@;
    entries.push((key, value));
    proof {
        assert(obj_entries(entries@) =~= m.take(i as int) + seq![(k, vm)]);
    }
}


/// No sequence comes before itself.
pub proof fn lemma_str_lt_irreflexive(a: Seq<char>)
    ensures
        !str_lt(a, a),
    decreases a.len(),
{
    if a.len() > 0 {
        lemma_str_lt_irreflexive(a.drop_first());
    }
}

/// The order is transitive.
pub proof fn lemma_str_lt_trans(a: Seq<char>, b: Seq<char>, c: Seq<char>)
    requires
        str_lt(a, b),
        str_lt(b, c),
    ensures
        str_lt(a, c),
    decreases a.len(),
{
    if a.len() > 0 && b.len() > 0 && c.len() > 0 && a[0] == b[0] && b[0] == c[0] {
        lemma_str_lt_trans(a.drop_first(), b.drop_first(), c.drop_first());
    }
}

/// Any two sequences are equal or ordered one way.
pub proof fn lemma_str_lt_total(a: Seq<char>, b: Seq<char>)
    ensures
        a == b || str_lt(a, b) || str_lt(b, a),
    decreases a.len(),
{
    if a.len() > 0 && b.len() > 0 {
        if a[0] == b[0] {
            lemma_str_lt_total(a.drop_first(), b.drop_first());
            if a.drop_first() == b.drop_first() {
                assert(a.len() == a.drop_first().len() + 1);
                assert(b.len() == b.drop_first().len() + 1);
                assert forall|i: int| 0 <= i < a.len() implies a[i] == b[i] by {
                    if i > 0 {
                        assert(a[i] == a.drop_first()[i - 1]);
                        assert(b[i] == b.drop_first()[i - 1]);
                    }
                }
                assert(a =~= b);
            }
        }
    }
}

/// The order is asymmetric.
pub proof fn lemma_str_lt_asym(a: Seq<char>, b: Seq<char>)
    requires
        str_lt(a, b),
    ensures
        !str_lt(b, a),
    decreases a.len(),
{
    if a.len() > 0 && b.len() > 0 && a[0] == b[0] {
        lemma_str_lt_asym(a.drop_first(), b.drop_first());
    }
}

} // verus!
