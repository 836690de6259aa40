//! What the delta storage promises: applying the delta of a value to the default gives
//! the value back, for settings shaped as nested objects and arrays.

use vstd::prelude::*;
use crate::settings::json::{
    keys_sorted, lemma_obj_index, lemma_str_lt_asym, lemma_str_lt_irreflexive, lemma_str_lt_total,
    lemma_str_lt_trans, obj_get, obj_index, obj_insert, str_lt, Json,
};
use crate::settings::delta::{
    access_spec, apply_all_spec, child_path, delta_arr, delta_obj, delta_of, delta_spec, entries_insert_all,
    entry_insert, extra_elements, index_path, leaf_path, obj_put, set_at_spec, set_path_spec, Outcome,
};
use crate::text::{
    all_digits, decimal, digit_char, digits_value, find_from, is_digit, lemma_find_from, parse_usize_spec,
    split_from, split_on, unsigned_digits,
};

verus! {

/// A key that a field path can hold: not empty, without `.`, `[` or `]`.
pub open spec fn plain_key(k: Seq<char>) -> bool {
    k.len() > 0 && !k.contains('.') && !k.contains('[') && !k.contains(']')
}

/// The path piece of element `i` of the array under key `k`: `k[i]`.
pub open spec fn indexed_key(k: Seq<char>, i: nat) -> Seq<char> {
    k + seq!['['] + decimal(i) + seq![']']
}

/// Path pieces joined with `.`.
pub open spec fn join_parts(q: Seq<Seq<char>>) -> Seq<char>
    decreases q.len(),
{
    if q.len() == 0 {
        seq![]
    } else if q.len() == 1 {
        q[0]
    } else {
        join_parts(q.drop_last()) + seq!['.'] + q.last()
    }
}

proof fn lemma_find_from_append(a: Seq<char>, rest: Seq<char>, c: char, start: int)
    requires
        0 <= start <= a.len(),
    ensures
        find_from(a + rest, c, start) == (match find_from(a, c, start) {
            Some(i) => Some(i),
            None => match find_from(rest, c, 0) {
                Some(j) => Some(a.len() + j),
                None => None,
            },
        }),
    decreases a.len() - start,
{
    let s = a + rest;
    if start < a.len() {
        assert(s[start] == a[start]);
        if a[start] != c {
            lemma_find_from_append(a, rest, c, start + 1);
        }
    } else {
        lemma_find_from_shift(a, rest, c, 0);
    }
}

proof fn lemma_find_from_shift(a: Seq<char>, rest: Seq<char>, c: char, j: int)
    requires
        0 <= j <= rest.len(),
    ensures
        find_from(a + rest, c, a.len() + j) == (match find_from(rest, c, j) {
            Some(i) => Some(a.len() + i),
            None => None,
        }),
    decreases rest.len() - j,
{
    let s = a + rest;
    if j < rest.len() {
        assert(s[a.len() + j] == rest[j]);
        if rest[j] != c {
            lemma_find_from_shift(a, rest, c, j + 1);
        }
    }
}

proof fn lemma_no_char_find(s: Seq<char>, c: char, start: int)
    requires
        !s.contains(c),
    ensures
        find_from(s, c, start) is None,
    decreases s.len() - start,
{
    if 0 <= start < s.len() {
        assert(s[start] != c);
        lemma_no_char_find(s, c, start + 1);
    }
}

proof fn lemma_split_dot(a: Seq<char>, b: Seq<char>, start: int)
    requires
        0 <= start <= a.len(),
        !b.contains('.'),
    ensures
        split_from(a + seq!['.'] + b, '.', start) == split_from(a, '.', start).push(b),
    decreases a.len() - start,
{
    let s = a + seq!['.'] + b;
    let rest = seq!['.'] + b;
    assert(s == a + rest);
    lemma_find_from_append(a, rest, '.', start);
    lemma_find_from(a, '.', start);
    match find_from(a, '.', start) {
        Some(i) => {
            lemma_split_dot(a, b, i + 1);
            assert(s.subrange(start, i) =~= a.subrange(start, i));
            assert(seq![a.subrange(start, i)] + split_from(a, '.', i + 1).push(b)
                =~= (seq![a.subrange(start, i)] + split_from(a, '.', i + 1)).push(b));
        },
        None => {
            assert(find_from(rest, '.', 0) == Some(0int));
            let j: int = a.len() as int + 1;
            lemma_find_from_shift(a + seq!['.'], b, '.', 0);
            assert(a + seq!['.'] + b == (a + seq!['.']) + b);
            lemma_no_char_find(b, '.', 0);
            assert(split_from(s, '.', j) == seq![s.subrange(j, s.len() as int)]);
            assert(s.subrange(j, s.len() as int) =~= b);
            assert(s.subrange(start, a.len() as int) =~= a.subrange(start, a.len() as int));
        },
    }
}

/// Pieces without `.` joined with `.` split back into the same pieces.
pub proof fn lemma_split_join(q: Seq<Seq<char>>)
    requires
        q.len() >= 1,
        forall|i: int| 0 <= i < q.len() ==> !(#[trigger] q[i]).contains('.'),
    ensures
        split_on(join_parts(q), '.') == q,
    decreases q.len(),
{
    if q.len() == 1 {
        lemma_no_char_find(q[0], '.', 0);
        assert(q[0].subrange(0, q[0].len() as int) =~= q[0]);
        assert(seq![q[0]] =~= q);
    } else {
        let p = q.drop_last();
        assert forall|i: int| 0 <= i < p.len() implies !(#[trigger] p[i]).contains('.') by {
            assert(p[i] == q[i]);
        }
        lemma_split_join(p);
        lemma_split_dot(join_parts(p), q.last(), 0);
        assert(p.push(q.last()) =~= q);
    }
}


proof fn lemma_sorted_tail(m: Seq<(Seq<char>, Json)>)
    requires
        keys_sorted(m),
        m.len() > 0,
    ensures
        keys_sorted(m.drop_first()),
        forall|j: int| 0 <= j < m.drop_first().len() ==> str_lt(m[0].0, #[trigger] m.drop_first()[j].0),
{
    let t = m.drop_first();
    assert forall|i: int, j: int| 0 <= i < j < t.len() implies str_lt(#[trigger] t[i].0, #[trigger] t[j].0) by {
        assert(t[i] == m[i + 1] && t[j] == m[j + 1]);
    }
    assert forall|j: int| 0 <= j < t.len() implies str_lt(m[0].0, #[trigger] t[j].0) by {
        assert(t[j] == m[j + 1]);
    }
}

/// In a sorted object, setting an existing key replaces its value in place.
proof fn lemma_insert_existing(m: Seq<(Seq<char>, Json)>, k: Seq<char>, v: Json, i: int)
    requires
        keys_sorted(m),
        obj_index(m, k) == Some(i),
    ensures
        obj_insert(m, k, v) == obj_put(m, i, v),
    decreases m.len(),
{
    lemma_obj_index(m, k);
    if m[0].0 == k {
        assert(i == 0);
        assert(seq![(k, v)] + m.drop_first() =~= obj_put(m, 0, v));
    } else {
        lemma_sorted_tail(m);
        assert(m.drop_first()[i - 1] == m[i]);
        lemma_str_lt_asym(m[0].0, k);
        match obj_index(m.drop_first(), k) {
            Some(j) => {
                assert(j == i - 1);
                lemma_insert_existing(m.drop_first(), k, v, i - 1);
                assert(seq![m[0]] + obj_put(m.drop_first(), i - 1, v) =~= obj_put(m, i, v));
            },
            None => {},
        }
    }
}

/// Setting a key keeps an object sorted.
proof fn lemma_insert_sorted(m: Seq<(Seq<char>, Json)>, k: Seq<char>, v: Json)
    requires
        keys_sorted(m),
    ensures
        keys_sorted(obj_insert(m, k, v)),
        forall|j: int| 0 <= j < obj_insert(m, k, v).len() ==>
            (#[trigger] obj_insert(m, k, v)[j]).0 == k || exists|q: int| 0 <= q < m.len() && m[q].0 == obj_insert(m, k, v)[j].0,
    decreases m.len(),
{
    let r = obj_insert(m, k, v);
    if m.len() == 0 {
    } else if m[0].0 == k {
        lemma_sorted_tail(m);
        assert forall|i: int, j: int| 0 <= i < j < r.len() implies str_lt(#[trigger] r[i].0, #[trigger] r[j].0) by {
            if i == 0 {
                assert(r[j] == m[j]);
            } else {
                assert(r[i] == m[i] && r[j] == m[j]);
            }
        }
        assert forall|j: int| 0 <= j < r.len() implies
            (#[trigger] r[j]).0 == k || exists|q: int| 0 <= q < m.len() && m[q].0 == r[j].0 by {
            if j > 0 { assert(r[j] == m[j]); }
        }
    } else if str_lt(k, m[0].0) {
        assert forall|i: int, j: int| 0 <= i < j < r.len() implies str_lt(#[trigger] r[i].0, #[trigger] r[j].0) by {
            if i == 0 {
                assert(r[j] == m[j - 1]);
                if j - 1 > 0 {
                    lemma_str_lt_trans(k, m[0].0, m[j - 1].0);
                }
            } else {
                assert(r[i] == m[i - 1] && r[j] == m[j - 1]);
            }
        }
        assert forall|j: int| 0 <= j < r.len() implies
            (#[trigger] r[j]).0 == k || exists|q: int| 0 <= q < m.len() && m[q].0 == r[j].0 by {
            if j > 0 { assert(r[j] == m[j - 1]); }
        }
    } else {
        lemma_sorted_tail(m);
        let t = m.drop_first();
        let rt = obj_insert(t, k, v);
        lemma_insert_sorted(t, k, v);
        lemma_str_lt_total(k, m[0].0);
        assert(r == seq![m[0]] + rt);
        assert forall|i: int, j: int| 0 <= i < j < r.len() implies str_lt(#[trigger] r[i].0, #[trigger] r[j].0) by {
            if i == 0 {
                assert(r[j] == rt[j - 1]);
                if rt[j - 1].0 == k {
                } else {
                    let q = choose|q: int| 0 <= q < t.len() && t[q].0 == rt[j - 1].0;
                    assert(str_lt(m[0].0, t[q].0));
                }
            } else {
                assert(r[i] == rt[i - 1] && r[j] == rt[j - 1]);
            }
        }
        assert forall|j: int| 0 <= j < r.len() implies
            (#[trigger] r[j]).0 == k || exists|q: int| 0 <= q < m.len() && m[q].0 == r[j].0 by {
            if j == 0 {
                assert(m[0].0 == r[0].0);
            } else {
                assert(r[j] == rt[j - 1]);
                if rt[j - 1].0 != k {
                    let q = choose|q: int| 0 <= q < t.len() && t[q].0 == rt[j - 1].0;
                    assert(m[q + 1].0 == r[j].0);
                }
            }
        }
    }
}

proof fn lemma_get_tail(m: Seq<(Seq<char>, Json)>, k: Seq<char>)
    requires
        m.len() > 0,
        m[0].0 != k,
    ensures
        obj_get(m, k) == obj_get(m.drop_first(), k),
{
    match obj_index(m.drop_first(), k) {
        Some(i) => {
            lemma_obj_index(m.drop_first(), k);
            assert(m[i + 1] == m.drop_first()[i]);
        },
        None => {},
    }
}

/// Looking a key up after setting one.
proof fn lemma_get_after_insert(m: Seq<(Seq<char>, Json)>, k: Seq<char>, v: Json, k2: Seq<char>)
    ensures
        obj_get(obj_insert(m, k, v), k2) == (if k2 == k { Some(v) } else { obj_get(m, k2) }),
    decreases m.len(),
{
    if m.len() == 0 {
        if k2 != k {
            let r = obj_insert(m, k, v);
            lemma_get_tail(r, k2);
            assert(r.drop_first().len() == 0);
        }
    } else if m[0].0 == k {
        let r = obj_insert(m, k, v);
        assert(r.drop_first() =~= m.drop_first());
        if k2 != k {
            lemma_get_tail(r, k2);
            lemma_get_tail(m, k2);
        }
    } else if str_lt(k, m[0].0) {
        let r = obj_insert(m, k, v);
        assert(r.drop_first() =~= m);
        if k2 != k {
            lemma_get_tail(r, k2);
        }
    } else {
        let r = obj_insert(m, k, v);
        lemma_get_after_insert(m.drop_first(), k, v, k2);
        assert(r.drop_first() =~= obj_insert(m.drop_first(), k, v));
        assert(r[0] == m[0]);
        if k2 != m[0].0 {
            lemma_get_tail(r, k2);
            lemma_get_tail(m, k2);
        }
    }
}

/// Two sorted objects that hold the same value under every key are equal.
proof fn lemma_sorted_equal(m1: Seq<(Seq<char>, Json)>, m2: Seq<(Seq<char>, Json)>)
    requires
        keys_sorted(m1),
        keys_sorted(m2),
        forall|k: Seq<char>| #[trigger] obj_get(m1, k) == obj_get(m2, k),
    ensures
        m1 == m2,
    decreases m1.len() + m2.len(),
{
    if m1.len() == 0 && m2.len() == 0 {
        assert(m1 =~= m2);
    } else if m1.len() == 0 {
        assert(obj_get(m2, m2[0].0) is Some);
        assert(obj_get(m1, m2[0].0) is None);
    } else if m2.len() == 0 {
        assert(obj_get(m1, m1[0].0) is Some);
        assert(obj_get(m2, m1[0].0) is None);
    } else {
        let a = m1[0].0;
        let b = m2[0].0;
        lemma_obj_index(m1, b);
        lemma_obj_index(m2, a);
        assert(obj_get(m1, a) == Some(m1[0].1));
        assert(obj_get(m2, b) == Some(m2[0].1));
        if a != b {
            let i = obj_index(m1, b).unwrap();
            let j = obj_index(m2, a).unwrap();
            assert(str_lt(a, m1[i].0));
            assert(str_lt(b, m2[j].0));
            lemma_str_lt_asym(a, b);
        }
        assert(a == b);
        assert(m1[0].1 == m2[0].1);
        lemma_sorted_tail(m1);
        lemma_sorted_tail(m2);
        let t1 = m1.drop_first();
        let t2 = m2.drop_first();
        assert forall|k: Seq<char>| #[trigger] obj_get(t1, k) == obj_get(t2, k) by {
            if k == a {
                lemma_obj_index(t1, k);
                lemma_obj_index(t2, k);
                if obj_index(t1, k) is Some {
                    let i = obj_index(t1, k).unwrap();
                    lemma_str_lt_irreflexive(a);
                    assert(str_lt(a, t1[i].0));
                }
                if obj_index(t2, k) is Some {
                    let i = obj_index(t2, k).unwrap();
                    lemma_str_lt_irreflexive(a);
                    assert(str_lt(a, t2[i].0));
                }
            } else {
                lemma_get_tail(m1, k);
                lemma_get_tail(m2, k);
            }
        }
        lemma_sorted_equal(t1, t2);
        assert(m1 =~= seq![m1[0]] + t1);
        assert(m2 =~= seq![m2[0]] + t2);
    }
}


proof fn lemma_get_push(s: Seq<(Seq<char>, Json)>, x: (Seq<char>, Json), k: Seq<char>)
    ensures
        obj_get(s.push(x), k) == (match obj_get(s, k) {
            Some(v) => Some(v),
            None => if x.0 == k { Some(x.1) } else { None },
        }),
    decreases s.len(),
{
    let t = s.push(x);
    if s.len() == 0 {
        if x.0 != k {
            lemma_get_tail(t, k);
            assert(t.drop_first().len() == 0);
        }
    } else if s[0].0 == k {
        assert(t[0] == s[0]);
    } else {
        assert(t[0] == s[0]);
        lemma_get_tail(t, k);
        lemma_get_tail(s, k);
        assert(t.drop_first() =~= s.drop_first().push(x));
        lemma_get_push(s.drop_first(), x, k);
    }
}

/// The fields `cm[..n]` set one after the other on `m`.
pub open spec fn fold_fields(m: Seq<(Seq<char>, Json)>, cm: Seq<(Seq<char>, Json)>, n: nat) -> Seq<(Seq<char>, Json)>
    decreases n,
{
    if n == 0 || n > cm.len() {
        m
    } else {
        obj_insert(fold_fields(m, cm, (n - 1) as nat), cm[n - 1].0, cm[n - 1].1)
    }
}

proof fn lemma_fold_fields(dm: Seq<(Seq<char>, Json)>, cm: Seq<(Seq<char>, Json)>, n: nat)
    requires
        keys_sorted(dm),
        keys_sorted(cm),
        n <= cm.len(),
    ensures
        keys_sorted(fold_fields(dm, cm, n)),
        forall|k: Seq<char>| #[trigger] obj_get(fold_fields(dm, cm, n), k) == (match obj_get(cm.take(n as int), k) {
            Some(v) => Some(v),
            None => obj_get(dm, k),
        }),
    decreases n,
{
    if n == 0 {
        assert forall|k: Seq<char>| #[trigger] obj_get(fold_fields(dm, cm, n), k) == (match obj_get(cm.take(n as int), k) {
            Some(v) => Some(v),
            None => obj_get(dm, k),
        }) by {
            assert(cm.take(0).len() == 0);
        }
    } else {
        let p = (n - 1) as nat;
        lemma_fold_fields(dm, cm, p);
        let f = fold_fields(dm, cm, p);
        let x = cm[p as int];
        lemma_insert_sorted(f, x.0, x.1);
        assert(cm.take(n as int) =~= cm.take(p as int).push(x));
        assert forall|k: Seq<char>| #[trigger] obj_get(fold_fields(dm, cm, n), k) == (match obj_get(cm.take(n as int), k) {
            Some(v) => Some(v),
            None => obj_get(dm, k),
        }) by {
            lemma_get_after_insert(f, x.0, x.1, k);
            lemma_get_push(cm.take(p as int), x, k);
            if k == x.0 {
                lemma_obj_index(cm.take(p as int), k);
                if obj_index(cm.take(p as int), k) is Some {
                    let j = obj_index(cm.take(p as int), k).unwrap();
                    assert(cm.take(p as int)[j] == cm[j]);
                    lemma_str_lt_irreflexive(k);
                    assert(str_lt(cm[j].0, cm[p as int].0));
                }
            }
        }
    }
}

/// Setting every field of a sorted object `cm`, in order, on a sorted object whose keys
/// all occur in `cm` gives `cm`.
proof fn lemma_fold_all_fields(dm: Seq<(Seq<char>, Json)>, cm: Seq<(Seq<char>, Json)>)
    requires
        keys_sorted(dm),
        keys_sorted(cm),
        forall|k: Seq<char>| #[trigger] obj_index(dm, k) is Some ==> obj_index(cm, k) is Some,
    ensures
        fold_fields(dm, cm, cm.len()) == cm,
{
    lemma_fold_fields(dm, cm, cm.len());
    assert(cm.take(cm.len() as int) =~= cm);
    let f = fold_fields(dm, cm, cm.len());
    assert forall|k: Seq<char>| #[trigger] obj_get(f, k) == obj_get(cm, k) by {
        if obj_get(cm, k) is None {
            if obj_index(dm, k) is Some {
                assert(obj_index(cm, k) is Some);
            }
        }
    }
    lemma_sorted_equal(f, cm);
}


/// The value at the location `q` inside `root`: each piece is an object key, or
/// `k[i]` for element `i` of the array under key `k` (the pieces walked as
/// [`set_at_spec`] walks them).
pub open spec fn nav(root: Json, q: Seq<Seq<char>>) -> Option<Json>
    decreases q.len(),
{
    if q.len() == 0 {
        Some(root)
    } else if q[0].contains('[') {
        match access_spec(q[0]) {
            Outcome::Done((f, i)) => match root {
                Json::Obj(m) => match obj_index(m, f) {
                    Some(fi) => match m[fi].1 {
                        Json::Arr(a) => if i < a.len() { nav(a[i as int], q.drop_first()) } else { None },
                        _ => None,
                    },
                    None => None,
                },
                _ => None,
            },
            _ => None,
        }
    } else {
        match root {
            Json::Obj(m) => match obj_index(m, q[0]) {
                Some(i) => nav(m[i].1, q.drop_first()),
                None => None,
            },
            _ => None,
        }
    }
}

/// `root` with the value at the location `q` replaced by `v` (see [`nav`]).
pub open spec fn put(root: Json, q: Seq<Seq<char>>, v: Json) -> Json
    decreases q.len(),
{
    if q.len() == 0 {
        v
    } else if q[0].contains('[') {
        match access_spec(q[0]) {
            Outcome::Done((f, i)) => match root {
                Json::Obj(m) => match obj_index(m, f) {
                    Some(fi) => match m[fi].1 {
                        Json::Arr(a) => if i < a.len() {
                            Json::Obj(obj_put(m, fi, Json::Arr(a.update(i as int, put(a[i as int], q.drop_first(), v)))))
                        } else {
                            root
                        },
                        _ => root,
                    },
                    None => root,
                },
                _ => root,
            },
            _ => root,
        }
    } else {
        match root {
            Json::Obj(m) => match obj_index(m, q[0]) {
                Some(i) => Json::Obj(obj_put(m, i, put(m[i].1, q.drop_first(), v))),
                None => root,
            },
            _ => root,
        }
    }
}

/// Every piece is a plain key or `k[i]` with a plain key `k`.
pub open spec fn path_parts(q: Seq<Seq<char>>) -> bool {
    forall|i: int| 0 <= i < q.len() ==> path_part(#[trigger] q[i])
}

/// A plain key, or `k[i]` with a plain key `k` and an index that fits in `usize`.
pub open spec fn path_part(x: Seq<char>) -> bool {
    plain_key(x) || exists|k: Seq<char>, i: nat| plain_key(k) && i <= usize::MAX && x == #[trigger] indexed_key(k, i)
}

/// An outcome at a location, lifted to the whole value.
pub open spec fn lift(o: Outcome<Json>, root: Json, q: Seq<Seq<char>>) -> Outcome<Json> {
    match o {
        Outcome::Done(x) => Outcome::Done(put(root, q, x)),
        Outcome::Failed(e) => Outcome::Failed(e),
        Outcome::Aborts => Outcome::Aborts,
    }
}

/// Setting below an existing location acts on the value there.
proof fn lemma_set_through(root: Json, q: Seq<Seq<char>>, r: Seq<Seq<char>>, v: Json)
    requires
        nav(root, q) is Some,
        r.len() >= 1,
    ensures
        set_at_spec(root, q + r, v) == lift(set_at_spec(nav(root, q).unwrap(), r, v), root, q),
    decreases q.len(),
{
    if q.len() == 0 {
        assert(q + r =~= r);
    } else {
        let qr = q + r;
        assert(qr[0] == q[0]);
        assert(qr.drop_first() =~= q.drop_first() + r);
        let t = q.drop_first();
        if q[0].contains('[') {
            let (f, i) = access_spec(q[0])->Done_0;
            let m = root->Obj_0;
            let fi = obj_index(m, f).unwrap();
            let a = m[fi].1->Arr_0;
            lemma_set_through(a[i as int], t, r, v);
        } else {
            let m = root->Obj_0;
            let fi = obj_index(m, q[0]).unwrap();
            lemma_set_through(m[fi].1, t, r, v);
        }
    }
}

/// Setting a plain key in an object.
proof fn lemma_set_last(parent: Seq<(Seq<char>, Json)>, k: Seq<char>, v: Json)
    requires
        plain_key(k),
    ensures
        set_at_spec(Json::Obj(parent), seq![k], v) == Outcome::Done(Json::Obj(obj_insert(parent, k, v))),
{
    assert(seq![k][0] == k);
}

/// Setting element `i` of the array under key `k` of an object.
proof fn lemma_set_last_indexed(parent: Seq<(Seq<char>, Json)>, k: Seq<char>, i: nat, v: Json)
    requires
        plain_key(k),
        i <= usize::MAX,
        obj_index(parent, k) matches Some(fi) && (parent[fi].1 matches Json::Arr(a) && i < a.len()),
    ensures
        ({
            let fi = obj_index(parent, k).unwrap();
            let a = parent[fi].1->Arr_0;
            set_at_spec(Json::Obj(parent), seq![indexed_key(k, i)], v)
                == Outcome::Done(Json::Obj(obj_put(parent, fi, Json::Arr(a.update(i as int, v)))))
        }),
{
    lemma_access_indexed(k, i);
    assert(seq![indexed_key(k, i)][0] == indexed_key(k, i));
}

proof fn lemma_index_put(m: Seq<(Seq<char>, Json)>, i: int, v: Json, k: Seq<char>)
    requires
        0 <= i < m.len(),
    ensures
        obj_index(obj_put(m, i, v), k) == obj_index(m, k),
    decreases m.len(),
{
    let m2 = obj_put(m, i, v);
    if m.len() > 0 && m[0].0 != k {
        if i > 0 {
            assert(m2.drop_first() =~= obj_put(m.drop_first(), i - 1, v));
            lemma_index_put(m.drop_first(), i - 1, v, k);
        } else {
            assert(m2.drop_first() =~= m.drop_first());
        }
    }
}

/// The location `q` followed by a plain key of the object there.
proof fn lemma_nav_put_snoc(root: Json, q: Seq<Seq<char>>, k: Seq<char>, v: Json)
    requires
        plain_key(k),
        nav(root, q) matches Some(Json::Obj(m)) && obj_index(m, k) is Some,
    ensures
        ({
            let m = nav(root, q).unwrap()->Obj_0;
            let i = obj_index(m, k).unwrap();
            &&& nav(root, q.push(k)) == Some(m[i].1)
            &&& put(root, q.push(k), v) == put(root, q, Json::Obj(obj_put(m, i, v)))
        }),
    decreases q.len(),
{
    if q.len() == 0 {
        assert(q.push(k) =~= seq![k]);
        assert(seq![k].drop_first().len() == 0);
        let m = root->Obj_0;
        let i = obj_index(m, k).unwrap();
        lemma_obj_index(m, k);
        assert(nav(m[i].1, seq![k].drop_first()) == Some(m[i].1));
        assert(put(m[i].1, seq![k].drop_first(), v) == v);
    } else {
        assert(q.push(k)[0] == q[0]);
        assert(q.push(k).drop_first() =~= q.drop_first().push(k));
        if q[0].contains('[') {
            let (f, i) = access_spec(q[0])->Done_0;
            let m0 = root->Obj_0;
            let fi = obj_index(m0, f).unwrap();
            let a = m0[fi].1->Arr_0;
            lemma_nav_put_snoc(a[i as int], q.drop_first(), k, v);
        } else {
            let m0 = root->Obj_0;
            let i0 = obj_index(m0, q[0]).unwrap();
            lemma_nav_put_snoc(m0[i0].1, q.drop_first(), k, v);
        }
    }
}

/// The location `q` followed by element `i` of the array under key `k` of the object there.
proof fn lemma_nav_put_snoc_indexed(root: Json, q: Seq<Seq<char>>, k: Seq<char>, i: nat, v: Json)
    requires
        plain_key(k),
        i <= usize::MAX,
        nav(root, q) matches Some(Json::Obj(m)) && (obj_index(m, k) matches Some(fi)
            && (m[fi].1 matches Json::Arr(a) && i < a.len())),
    ensures
        ({
            let m = nav(root, q).unwrap()->Obj_0;
            let fi = obj_index(m, k).unwrap();
            let a = m[fi].1->Arr_0;
            &&& nav(root, q.push(indexed_key(k, i))) == Some(a[i as int])
            &&& put(root, q.push(indexed_key(k, i)), v) == put(root, q, Json::Obj(obj_put(m, fi, Json::Arr(a.update(i as int, v)))))
        }),
    decreases q.len(),
{
    lemma_access_indexed(k, i);
    let x = indexed_key(k, i);
    if q.len() == 0 {
        assert(q.push(x) =~= seq![x]);
        assert(seq![x].drop_first().len() == 0);
        let m = root->Obj_0;
        lemma_obj_index(m, k);
        let fi = obj_index(m, k).unwrap();
        let a = m[fi].1->Arr_0;
        assert(nav(a[i as int], seq![x].drop_first()) == Some(a[i as int]));
        assert(put(a[i as int], seq![x].drop_first(), v) == v);
    } else {
        assert(q.push(x)[0] == q[0]);
        assert(q.push(x).drop_first() =~= q.drop_first().push(x));
        if q[0].contains('[') {
            let (f, j) = access_spec(q[0])->Done_0;
            let m0 = root->Obj_0;
            let fi = obj_index(m0, f).unwrap();
            let a = m0[fi].1->Arr_0;
            lemma_nav_put_snoc_indexed(a[j as int], q.drop_first(), k, i, v);
        } else {
            let m0 = root->Obj_0;
            let i0 = obj_index(m0, q[0]).unwrap();
            lemma_nav_put_snoc_indexed(m0[i0].1, q.drop_first(), k, i, v);
        }
    }
}

/// After replacing the value at a location, it is there.
proof fn lemma_nav_put(root: Json, q: Seq<Seq<char>>, v: Json)
    requires
        nav(root, q) is Some,
    ensures
        nav(put(root, q, v), q) == Some(v),
    decreases q.len(),
{
    if q.len() > 0 {
        if q[0].contains('[') {
            let (f, i) = access_spec(q[0])->Done_0;
            let m = root->Obj_0;
            lemma_obj_index(m, f);
            let fi = obj_index(m, f).unwrap();
            let a = m[fi].1->Arr_0;
            lemma_nav_put(a[i as int], q.drop_first(), v);
            let a2 = a.update(i as int, put(a[i as int], q.drop_first(), v));
            lemma_index_put(m, fi, Json::Arr(a2), f);
        } else {
            let m = root->Obj_0;
            let i = obj_index(m, q[0]).unwrap();
            lemma_obj_index(m, q[0]);
            lemma_nav_put(m[i].1, q.drop_first(), v);
            lemma_index_put(m, i, put(m[i].1, q.drop_first(), v), q[0]);
        }
    }
}

/// Replacing the value at a location twice keeps the second.
proof fn lemma_put_put(root: Json, q: Seq<Seq<char>>, x: Json, y: Json)
    requires
        nav(root, q) is Some,
    ensures
        put(put(root, q, x), q, y) == put(root, q, y),
    decreases q.len(),
{
    if q.len() > 0 {
        if q[0].contains('[') {
            let (f, i) = access_spec(q[0])->Done_0;
            let m = root->Obj_0;
            lemma_obj_index(m, f);
            let fi = obj_index(m, f).unwrap();
            let a = m[fi].1->Arr_0;
            let a2 = a.update(i as int, put(a[i as int], q.drop_first(), x));
            let m2 = obj_put(m, fi, Json::Arr(a2));
            lemma_index_put(m, fi, Json::Arr(a2), f);
            lemma_put_put(a[i as int], q.drop_first(), x, y);
            assert(a2.update(i as int, put(a2[i as int], q.drop_first(), y)) =~= a.update(i as int, put(a[i as int], q.drop_first(), y)));
            assert(obj_put(m2, fi, Json::Arr(a2.update(i as int, put(a2[i as int], q.drop_first(), y))))
                =~= obj_put(m, fi, Json::Arr(a.update(i as int, put(a[i as int], q.drop_first(), y)))));
        } else {
            let m = root->Obj_0;
            let i = obj_index(m, q[0]).unwrap();
            lemma_obj_index(m, q[0]);
            let m2 = obj_put(m, i, put(m[i].1, q.drop_first(), x));
            lemma_index_put(m, i, put(m[i].1, q.drop_first(), x), q[0]);
            lemma_put_put(m[i].1, q.drop_first(), x, y);
            assert(obj_put(m2, i, put(m2[i].1, q.drop_first(), y)) =~= obj_put(m, i, put(m[i].1, q.drop_first(), y)));
        }
    }
}

/// Replacing the value at a location by the value already there changes nothing.
proof fn lemma_put_same(root: Json, q: Seq<Seq<char>>)
    requires
        nav(root, q) is Some,
    ensures
        put(root, q, nav(root, q).unwrap()) == root,
    decreases q.len(),
{
    if q.len() > 0 {
        if q[0].contains('[') {
            let (f, i) = access_spec(q[0])->Done_0;
            let m = root->Obj_0;
            lemma_obj_index(m, f);
            let fi = obj_index(m, f).unwrap();
            let a = m[fi].1->Arr_0;
            lemma_put_same(a[i as int], q.drop_first());
            assert(a.update(i as int, a[i as int]) =~= a);
            assert(obj_put(m, fi, Json::Arr(a)) =~= m);
        } else {
            let m = root->Obj_0;
            let i = obj_index(m, q[0]).unwrap();
            lemma_obj_index(m, q[0]);
            lemma_put_same(m[i].1, q.drop_first());
            assert(obj_put(m, i, m[i].1) =~= m);
        }
    }
}

/// Applying two runs of entries one after the other.
proof fn lemma_apply_append(root: Json, a: Seq<(Seq<char>, Json)>, b: Seq<(Seq<char>, Json)>)
    ensures
        apply_all_spec(root, a + b) == (match apply_all_spec(root, a) {
            Outcome::Done(r) => apply_all_spec(r, b),
            o => o,
        }),
    decreases a.len(),
{
    if a.len() == 0 {
        assert(a + b =~= b);
    } else {
        assert((a + b)[0] == a[0]);
        assert((a + b).drop_first() =~= a.drop_first() + b);
        match set_path_spec(root, a[0].0, a[0].1) {
            Outcome::Done(n) => lemma_apply_append(n, a.drop_first(), b),
            _ => {},
        }
    }
}

/// Merging entries with distinct keys into nothing keeps them as they are.
proof fn lemma_insert_all_distinct(e: Seq<(Seq<char>, Json)>)
    requires
        forall|i: int, j: int| 0 <= i < j < e.len() ==> (#[trigger] e[i]).0 != (#[trigger] e[j]).0,
    ensures
        entries_insert_all(seq![], e) == e,
    decreases e.len(),
{
    if e.len() > 0 {
        let p = e.drop_last();
        assert forall|i: int, j: int| 0 <= i < j < p.len() implies (#[trigger] p[i]).0 != (#[trigger] p[j]).0 by {
            assert(p[i] == e[i] && p[j] == e[j]);
        }
        lemma_insert_all_distinct(p);
        assert(!(exists|i: int| 0 <= i < p.len() && (#[trigger] p[i]).0 == e.last().0)) by {
            if exists|i: int| 0 <= i < p.len() && (#[trigger] p[i]).0 == e.last().0 {
                let i = choose|i: int| 0 <= i < p.len() && (#[trigger] p[i]).0 == e.last().0;
                assert(e[i].0 != e[e.len() - 1].0);
            }
        }
        assert(p.push((e.last().0, e.last().1)) =~= e);
    }
}

/// The path of key `k` under the location `q`.
proof fn lemma_child_path_join(q: Seq<Seq<char>>, k: Seq<char>)
    requires
        path_parts(q),
    ensures
        child_path(join_parts(q), k) == join_parts(q.push(k)),
{
    assert(q.push(k).drop_last() =~= q);
    if q.len() > 0 {
        lemma_join_nonempty(q);
    }
}

proof fn lemma_join_nonempty(q: Seq<Seq<char>>)
    requires
        path_parts(q),
        q.len() > 0,
    ensures
        join_parts(q).len() > 0,
    decreases q.len(),
{
    assert(path_part(q[0]));
    lemma_path_part(q[0]);
    if q.len() > 1 {
        assert(path_part(q.last()));
        lemma_path_part(q.last());
    }
}


/// The current value `c` can be restored from its delta against `d`: both are objects
/// with sorted keys, every key of `d` is also a key of `c`, and each field of `c` has a
/// plain key and is new, unchanged, changed into or from a non-container, an object
/// that differs from the default's object restorably, or an array of the default's
/// length whose elements are restorable (see [`restorable_elems`]).
pub open spec fn restorable(d: Json, c: Json) -> bool
    decreases c, 0nat,
{
    match (d, c) {
        (Json::Obj(dm), Json::Obj(cm)) => keys_sorted(dm) && keys_sorted(cm)
            && (forall|k: Seq<char>| #[trigger] obj_index(dm, k) is Some ==> obj_index(cm, k) is Some)
            && restorable_fields(dm, cm, cm.len()),
        _ => false,
    }
}

/// The first `n` fields of `cm` are restorable against the object `dm` (see [`restorable`]).
pub open spec fn restorable_fields(dm: Seq<(Seq<char>, Json)>, cm: Seq<(Seq<char>, Json)>, n: nat) -> bool
    decreases cm, n,
{
    if n == 0 || n > cm.len() {
        true
    } else {
        let k = cm[n - 1].0;
        let cv = cm[n - 1].1;
        restorable_fields(dm, cm, (n - 1) as nat) && plain_key(k) && match obj_get(dm, k) {
            None => true,
            Some(dv) => dv == cv || match (dv, cv) {
                (Json::Obj(_), Json::Obj(_)) => restorable(dv, cv),
                (Json::Arr(da), Json::Arr(ca)) => da.len() == ca.len() && ca.len() <= usize::MAX
                    && restorable_elems(da, ca, ca.len()),
                _ => true,
            },
        }
    }
}

/// The first `n` elements of the array `ca` are restorable against the array `da` of the
/// same length: each is unchanged, an object restorable against the default's element,
/// or changed into or from a non-container (an array element that changed into another
/// array is left out).
pub open spec fn restorable_elems(da: Seq<Json>, ca: Seq<Json>, n: nat) -> bool
    decreases ca, n,
{
    if n == 0 || n > ca.len() || n > da.len() {
        true
    } else {
        let dx = da[n - 1];
        let cx = ca[n - 1];
        restorable_elems(da, ca, (n - 1) as nat) && (dx == cx || match (dx, cx) {
            (Json::Obj(_), Json::Obj(_)) => restorable(dx, cx),
            (Json::Arr(_), Json::Arr(_)) => false,
            _ => true,
        })
    }
}

/// The path lies strictly below the location `q`.
pub open spec fn under(p: Seq<char>, q: Seq<Seq<char>>) -> bool {
    split_on(p, '.').len() > q.len() && split_on(p, '.').take(q.len() as int) == q
}

/// The key that a path piece names: the part before `[`, or the whole piece.
pub open spec fn part_key(x: Seq<char>) -> Seq<char> {
    match find_from(x, '[', 0) {
        Some(s) => x.subrange(0, s),
        None => x,
    }
}

proof fn lemma_part_key_plain(k: Seq<char>)
    requires
        plain_key(k),
    ensures
        part_key(k) == k,
{
    lemma_no_char_find(k, '[', 0);
    assert(k.subrange(0, k.len() as int) =~= k);
}

proof fn lemma_part_key_indexed(k: Seq<char>, i: nat)
    requires
        plain_key(k),
        i <= usize::MAX,
    ensures
        part_key(indexed_key(k, i)) == k,
{
    lemma_access_indexed(k, i);
}

/// No two entries share a path.
pub open spec fn distinct_paths(e: Seq<(Seq<char>, Json)>) -> bool {
    forall|i: int, j: int| 0 <= i < j < e.len() ==> (#[trigger] e[i]).0 != (#[trigger] e[j]).0
}

proof fn lemma_not_in_prefix(cm: Seq<(Seq<char>, Json)>, n: int)
    requires
        keys_sorted(cm),
        0 <= n < cm.len(),
    ensures
        obj_get(cm.take(n), cm[n].0) is None,
        forall|j: int| 0 <= j < n ==> (#[trigger] cm[j]).0 != cm[n].0,
{
    lemma_obj_index(cm.take(n), cm[n].0);
    assert forall|j: int| 0 <= j < n implies (#[trigger] cm[j]).0 != cm[n].0 by {
        assert(str_lt(cm[j].0, cm[n].0));
        lemma_str_lt_irreflexive(cm[n].0);
    }
    if obj_index(cm.take(n), cm[n].0) is Some {
        let j = obj_index(cm.take(n), cm[n].0).unwrap();
        assert(cm.take(n)[j] == cm[j]);
    }
}

/// The single entry that sets the plain key `k` below the location `q` restores the
/// field (the object at `q` gets `k` set to `v`).
proof fn lemma_restore_leaf(root: Json, q: Seq<Seq<char>>, f: Seq<(Seq<char>, Json)>, k: Seq<char>, v: Json)
    requires
        path_parts(q),
        plain_key(k),
        nav(root, q) == Some(Json::Obj(f)),
    ensures
        apply_all_spec(root, seq![(join_parts(q.push(k)), v)]) == Outcome::Done(put(root, q, Json::Obj(obj_insert(f, k, v)))),
        under(join_parts(q.push(k)), q),
        split_on(join_parts(q.push(k)), '.') == q.push(k),
{
    let qk = q.push(k);
    assert forall|i: int| 0 <= i < qk.len() implies !(#[trigger] qk[i]).contains('.') by {
        if i < q.len() { assert(qk[i] == q[i]); assert(path_part(q[i])); lemma_path_part(q[i]); }
    }
    lemma_split_join(qk);
    assert(qk =~= q + seq![k]);
    lemma_set_through(root, q, seq![k], v);
    lemma_set_last(f, k, v);
    let e = seq![(join_parts(qk), v)];
    assert(e[0] == (join_parts(qk), v));
    assert(e.drop_first().len() == 0);
    assert(qk.take(q.len() as int) =~= q);
    assert(set_at_spec(root, qk, v) == Outcome::Done(put(root, q, Json::Obj(obj_insert(f, k, v)))));
    assert(set_path_spec(root, join_parts(qk), v) == Outcome::Done(put(root, q, Json::Obj(obj_insert(f, k, v)))));
    let n = put(root, q, Json::Obj(obj_insert(f, k, v)));
    assert(apply_all_spec(n, e.drop_first()) == Outcome::Done(n));
}


proof fn lemma_restore(root: Json, q: Seq<Seq<char>>, d: Json, c: Json)
    requires
        path_parts(q),
        nav(root, q) == Some(d),
        restorable(d, c),
    ensures
        apply_all_spec(root, delta_of(join_parts(q), d, c)) == Outcome::Done(put(root, q, c)),
        forall|i: int| 0 <= i < delta_of(join_parts(q), d, c).len() ==> under(#[trigger] delta_of(join_parts(q), d, c)[i].0, q),
        distinct_paths(delta_of(join_parts(q), d, c)),
    decreases c, 0nat,
{
    let dm = d->Obj_0;
    let cm = c->Obj_0;
    lemma_restore_fields(root, q, dm, cm, cm.len());
    lemma_fold_all_fields(dm, cm);
    assert forall|i: int| 0 <= i < delta_of(join_parts(q), d, c).len() implies under(#[trigger] delta_of(join_parts(q), d, c)[i].0, q) by {
        let e = delta_of(join_parts(q), d, c)[i].0;
        let j = choose|j: int| 0 <= j < cm.len() && split_on(e, '.').len() > q.len()
            && split_on(e, '.').take(q.len() as int) == q && part_key(split_on(e, '.')[q.len() as int]) == #[trigger] cm[j].0;
    }
}

proof fn lemma_restore_fields(root: Json, q: Seq<Seq<char>>, dm: Seq<(Seq<char>, Json)>, cm: Seq<(Seq<char>, Json)>, n: nat)
    requires
        path_parts(q),
        nav(root, q) == Some(Json::Obj(dm)),
        keys_sorted(dm),
        keys_sorted(cm),
        n <= cm.len(),
        restorable_fields(dm, cm, n),
    ensures
        apply_all_spec(root, delta_obj(join_parts(q), dm, cm, n)) == Outcome::Done(put(root, q, Json::Obj(fold_fields(dm, cm, n)))),
        forall|i: int| 0 <= i < delta_obj(join_parts(q), dm, cm, n).len() ==> exists|j: int| 0 <= j < n
            && split_on(#[trigger] delta_obj(join_parts(q), dm, cm, n)[i].0, '.').len() > q.len()
            && split_on(delta_obj(join_parts(q), dm, cm, n)[i].0, '.').take(q.len() as int) == q
            && part_key(split_on(delta_obj(join_parts(q), dm, cm, n)[i].0, '.')[q.len() as int]) == #[trigger] cm[j].0,
        distinct_paths(delta_obj(join_parts(q), dm, cm, n)),
    decreases cm, n,
{
    let p = join_parts(q);
    if n == 0 {
        lemma_put_same(root, q);
    } else {
        let m1 = (n - 1) as nat;
        lemma_restore_fields(root, q, dm, cm, m1);
        lemma_fold_fields(dm, cm, m1);
        let f = fold_fields(dm, cm, m1);
        let root1 = put(root, q, Json::Obj(f));
        lemma_nav_put(root, q, Json::Obj(f));
        let k = cm[m1 as int].0;
        let cv = cm[m1 as int].1;
        lemma_part_key_plain(k);
        lemma_not_in_prefix(cm, m1 as int);
        assert(obj_get(f, k) == obj_get(dm, k));
        let a = delta_obj(p, dm, cm, m1);
        let piece = match obj_get(dm, k) {
            Some(dv) => if dv != cv { delta_of(child_path(p, k), dv, cv) } else { seq![] },
            None => seq![(child_path(p, k), cv)],
        };
        assert(delta_obj(p, dm, cm, n) == a + piece);
        lemma_apply_append(root, a, piece);
        lemma_child_path_join(q, k);
        let qk = q.push(k);
        lemma_insert_sorted(f, k, cv);
        let target = put(root, q, Json::Obj(obj_insert(f, k, cv)));
        assert(fold_fields(dm, cm, n) == obj_insert(f, k, cv));
        lemma_obj_index(f, k);
        // what the piece does, and where its entries lie
        match obj_get(dm, k) {
            Some(dv) => {
                let fi = obj_index(f, k).unwrap();
                lemma_insert_existing(f, k, cv, fi);
                lemma_nav_put_snoc(root1, q, k, cv);
                lemma_put_put(root, q, Json::Obj(f), Json::Obj(obj_put(f, fi, cv)));
                if dv == cv {
                    assert(obj_put(f, fi, cv) =~= f);
                    assert(apply_all_spec(root1, piece) == Outcome::Done(root1));
                } else {
                    match (dv, cv) {
                        (Json::Obj(_), Json::Obj(_)) => {
                            assert forall|i: int| 0 <= i < qk.len() implies path_part(#[trigger] qk[i]) by {
                                if i < q.len() { assert(qk[i] == q[i]); }
                            }
                            lemma_restore(root1, qk, dv, cv);
                        },
                        (Json::Arr(da), Json::Arr(ca)) => {
                            let fi = obj_index(f, k).unwrap();
                            lemma_restore_elems(root1, q, k, da, ca, ca.len());
                            assert(ca.take(ca.len() as int) + da.skip(ca.len() as int) =~= ca);
                            assert(extra_elements(join_parts(qk), da.len(), ca).len() == 0);
                            assert(piece =~= delta_arr(join_parts(qk), da, ca, ca.len()));
                            lemma_put_put(root, q, Json::Obj(f), Json::Obj(obj_put(f, fi, cv)));
                        },
                        _ => {
                            assert forall|i: int| 0 <= i < qk.len() implies path_part(#[trigger] qk[i]) by {
                                if i < q.len() { assert(qk[i] == q[i]); }
                            }
                            lemma_join_nonempty(qk);
                            assert(leaf_path(join_parts(qk)) == join_parts(qk));
                            assert(piece == seq![(join_parts(qk), cv)]);
                            lemma_restore_leaf(root1, q, f, k, cv);
                        },
                    }
                }
            },
            None => {
                lemma_restore_leaf(root1, q, f, k, cv);
                lemma_put_put(root, q, Json::Obj(f), Json::Obj(obj_insert(f, k, cv)));
            },
        }

    }
}


/// The elements of the array under key `k` at the location `q` are restored one by one.
proof fn lemma_restore_elems(root: Json, q: Seq<Seq<char>>, k: Seq<char>, da: Seq<Json>, ca: Seq<Json>, n: nat)
    requires
        path_parts(q),
        plain_key(k),
        nav(root, q) matches Some(Json::Obj(m)) && (obj_index(m, k) matches Some(fi) && m[fi].1 == Json::Arr(da)),
        da.len() == ca.len(),
        ca.len() <= usize::MAX,
        n <= ca.len(),
        restorable_elems(da, ca, n),
    ensures
        ({
            let m = nav(root, q).unwrap()->Obj_0;
            let fi = obj_index(m, k).unwrap();
            apply_all_spec(root, delta_arr(join_parts(q.push(k)), da, ca, n))
                == Outcome::Done(put(root, q, Json::Obj(obj_put(m, fi, Json::Arr(ca.take(n as int) + da.skip(n as int))))))
        }),
        forall|i: int| 0 <= i < delta_arr(join_parts(q.push(k)), da, ca, n).len() ==> exists|j: nat| j < n
            && split_on(#[trigger] delta_arr(join_parts(q.push(k)), da, ca, n)[i].0, '.').len() > q.len()
            && split_on(delta_arr(join_parts(q.push(k)), da, ca, n)[i].0, '.').take(q.len() as int) == q
            && split_on(delta_arr(join_parts(q.push(k)), da, ca, n)[i].0, '.')[q.len() as int] == #[trigger] indexed_key(k, j)
            && part_key(split_on(delta_arr(join_parts(q.push(k)), da, ca, n)[i].0, '.')[q.len() as int]) == k,
        distinct_paths(delta_arr(join_parts(q.push(k)), da, ca, n)),
    decreases ca, n,
{
    let m = nav(root, q).unwrap()->Obj_0;
    let fi = obj_index(m, k).unwrap();
    let pk = join_parts(q.push(k));
    lemma_obj_index(m, k);
    if n == 0 {
        assert(ca.take(0) + da.skip(0) =~= da);
        assert(obj_put(m, fi, Json::Arr(da)) =~= m);
        lemma_put_same(root, q);
    } else {
        let j = (n - 1) as nat;
        lemma_restore_elems(root, q, k, da, ca, j);
        let mix = ca.take(j as int) + da.skip(j as int);
        let m1 = obj_put(m, fi, Json::Arr(mix));
        let root1 = put(root, q, Json::Obj(m1));
        lemma_nav_put(root, q, Json::Obj(m1));
        lemma_index_put(m, fi, Json::Arr(mix), k);
        assert(m1[fi].1 == Json::Arr(mix));
        assert(mix[j as int] == da[j as int]);
        let mix2 = ca.take(n as int) + da.skip(n as int);
        assert(mix2 =~= mix.update(j as int, ca[j as int]));
        let a = delta_arr(pk, da, ca, j);
        let piece = if da[j as int] != ca[j as int] {
            delta_of(index_path(pk, j), da[j as int], ca[j as int])
        } else {
            seq![]
        };
        assert(delta_arr(pk, da, ca, n) == a + piece);
        lemma_apply_append(root, a, piece);
        let x = indexed_key(k, j);
        let qj = q.push(x);
        lemma_access_indexed(k, j);
        lemma_part_key_indexed(k, j);
        lemma_nav_put_snoc_indexed(root1, q, k, j, ca[j as int]);
        lemma_put_put(root, q, Json::Obj(m1), Json::Obj(obj_put(m1, fi, Json::Arr(mix2))));
        assert(obj_put(m1, fi, Json::Arr(mix2)) =~= obj_put(m, fi, Json::Arr(mix2)));
        lemma_index_path_join(q, k, j);
        assert(path_part(x));
        assert forall|i: int| 0 <= i < qj.len() implies path_part(#[trigger] qj[i]) by {
            if i < q.len() { assert(qj[i] == q[i]); }
        }
        // what the piece does, and where its entries lie
        if da[j as int] == ca[j as int] {
            assert(mix2 =~= mix);
            assert(apply_all_spec(root1, piece) == Outcome::Done(root1));
        } else {
            match (da[j as int], ca[j as int]) {
                (Json::Obj(_), Json::Obj(_)) => {
                    lemma_restore(root1, qj, da[j as int], ca[j as int]);
                    assert forall|i: int| 0 <= i < piece.len() implies split_on(#[trigger] piece[i].0, '.')[q.len() as int] == x
                        && split_on(piece[i].0, '.').take(q.len() as int) == q
                        && split_on(piece[i].0, '.').len() > q.len() by {
                        let sp = split_on(piece[i].0, '.');
                        assert(under(piece[i].0, qj));
                        assert(sp.take(qj.len() as int)[q.len() as int] == qj[q.len() as int]);
                        assert(sp.take(q.len() as int) =~= sp.take(qj.len() as int).take(q.len() as int));
                        assert(qj.take(q.len() as int) =~= q);
                    }
                },
                _ => {
                    lemma_join_nonempty(qj);
                    assert(piece == seq![(join_parts(qj), ca[j as int])]);
                    lemma_restore_leaf_indexed(root1, q, m1, k, j, ca[j as int]);
                    assert(piece[0].0 == join_parts(qj));
                    assert(qj.take(q.len() as int) =~= q);
                },
            }
        }
        let e = a + piece;
        assert forall|i: int| 0 <= i < e.len() implies exists|jj: nat| jj < n
            && split_on(#[trigger] e[i].0, '.').len() > q.len()
            && split_on(e[i].0, '.').take(q.len() as int) == q
            && split_on(e[i].0, '.')[q.len() as int] == #[trigger] indexed_key(k, jj)
            && part_key(split_on(e[i].0, '.')[q.len() as int]) == k by {
            if i < a.len() {
                assert(e[i] == a[i]);
            } else {
                assert(e[i] == piece[i - a.len()]);
            }
        }
        assert forall|x1: int, y1: int| 0 <= x1 < y1 < e.len() implies (#[trigger] e[x1]).0 != (#[trigger] e[y1]).0 by {
            if y1 < a.len() {
                assert(e[x1] == a[x1] && e[y1] == a[y1]);
            } else if x1 >= a.len() {
                assert(e[x1] == piece[x1 - a.len()] && e[y1] == piece[y1 - a.len()]);
            } else {
                assert(e[x1] == a[x1] && e[y1] == piece[y1 - a.len()]);
                let jx = choose|jj: nat| jj < j
                    && split_on(#[trigger] a[x1].0, '.').len() > q.len()
                    && split_on(a[x1].0, '.').take(q.len() as int) == q
                    && split_on(a[x1].0, '.')[q.len() as int] == #[trigger] indexed_key(k, jj)
                    && part_key(split_on(a[x1].0, '.')[q.len() as int]) == k;
                lemma_indexed_key_injective(k, jx, j);
            }
        }
    }
}

/// Setting element `i` of the array under key `k` at the location `q` with the single
/// entry for its path.
proof fn lemma_restore_leaf_indexed(root: Json, q: Seq<Seq<char>>, f: Seq<(Seq<char>, Json)>, k: Seq<char>, i: nat, v: Json)
    requires
        path_parts(q),
        plain_key(k),
        i <= usize::MAX,
        nav(root, q) == Some(Json::Obj(f)),
        obj_index(f, k) matches Some(fi) && (f[fi].1 matches Json::Arr(a) && i < a.len()),
    ensures
        apply_all_spec(root, seq![(join_parts(q.push(indexed_key(k, i))), v)]) == Outcome::Done(put(root, q.push(indexed_key(k, i)), v)),
        split_on(join_parts(q.push(indexed_key(k, i))), '.') == q.push(indexed_key(k, i)),
{
    let x = indexed_key(k, i);
    let qk = q.push(x);
    lemma_access_indexed(k, i);
    assert forall|j: int| 0 <= j < qk.len() implies !(#[trigger] qk[j]).contains('.') by {
        if j < q.len() { assert(qk[j] == q[j]); assert(path_part(q[j])); lemma_path_part(q[j]); }
    }
    lemma_split_join(qk);
    assert(qk =~= q + seq![x]);
    lemma_set_through(root, q, seq![x], v);
    lemma_set_last_indexed(f, k, i, v);
    lemma_nav_put_snoc_indexed(root, q, k, i, v);
    let e = seq![(join_parts(qk), v)];
    assert(e[0] == (join_parts(qk), v));
    assert(e.drop_first().len() == 0);
    let n = put(root, qk, v);
    assert(set_path_spec(root, join_parts(qk), v) == Outcome::Done(n));
    assert(apply_all_spec(n, e.drop_first()) == Outcome::Done(n));
}

/// The path of element `i` of the array under key `k` at the location `q`.
proof fn lemma_index_path_join(q: Seq<Seq<char>>, k: Seq<char>, i: nat)
    requires
        path_parts(q),
        plain_key(k),
    ensures
        index_path(join_parts(q.push(k)), i) == join_parts(q.push(indexed_key(k, i))),
{
    assert(q.push(k).drop_last() =~= q);
    assert(q.push(indexed_key(k, i)).drop_last() =~= q);
    if q.len() > 0 {
        lemma_join_nonempty(q);
    }
    let d = decimal(i);
    if q.len() == 0 {
        assert(index_path(join_parts(q.push(k)), i) =~= indexed_key(k, i));
    } else {
        assert(index_path(join_parts(q.push(k)), i) =~= join_parts(q) + seq!['.'] + indexed_key(k, i));
    }
}

/// Different indexes give different pieces.
proof fn lemma_indexed_key_injective(k: Seq<char>, i: nat, j: nat)
    requires
        plain_key(k),
        i <= usize::MAX,
        j <= usize::MAX,
        i != j,
    ensures
        indexed_key(k, i) != indexed_key(k, j),
{
    lemma_access_indexed(k, i);
    lemma_access_indexed(k, j);
}

/// Round trip: the delta of a value against the default, applied to the default, gives
/// the value back — for values that are [`restorable`] against the default (objects with
/// sorted plain keys, no field of the default missing from the value, arrays that keep
/// their length and hold no array that changed).
pub proof fn delta_roundtrip(default: Json, current: Json)
    requires
        restorable(default, current),
    ensures
        apply_all_spec(default, delta_spec(default, current)) == Outcome::Done(current),
{
    if default != current {
        let e = delta_of(seq![], default, current);
        assert(join_parts(seq![]) == Seq::<char>::empty());
        lemma_restore(default, seq![], default, current);
        lemma_insert_all_distinct(e);
        assert(delta_spec(default, current) == e);
    }
}


/// The decimal form of a number is a run of digits that reads back as the number.
proof fn lemma_decimal_digits(n: nat)
    ensures
        decimal(n).len() >= 1,
        all_digits(decimal(n)),
        digits_value(decimal(n)) == n,
    decreases n,
{
    if n < 10 {
        let s = decimal(n);
        assert(s.drop_last().len() == 0);
        assert(digits_value(s.drop_last()) == 0);
        assert(is_digit(digit_char(n)));
        assert((digit_char(n) as u32 - '0' as u32) as nat == n);
    } else {
        lemma_decimal_digits(n / 10);
        let s = decimal(n);
        assert(s.drop_last() =~= decimal(n / 10));
        assert(s.last() == digit_char(n % 10));
        assert((digit_char(n % 10) as u32 - '0' as u32) as nat == n % 10);
        assert forall|i: int| 0 <= i < s.len() implies is_digit(#[trigger] s[i]) by {
            if i < s.len() - 1 {
                assert(s[i] == decimal(n / 10)[i]);
            }
        }
    }
}

/// `str::parse::<usize>` reads the decimal form of a `usize` back.
proof fn lemma_parse_decimal(n: nat)
    requires
        n <= usize::MAX,
    ensures
        parse_usize_spec(decimal(n)) == Some(n),
        !decimal(n).contains('.'),
        !decimal(n).contains('['),
        !decimal(n).contains(']'),
{
    lemma_decimal_digits(n);
    let s = decimal(n);
    assert(is_digit(s[0]));
    assert(unsigned_digits(s) == s);
    assert forall|i: int| 0 <= i < s.len() implies s[i] != '.' && s[i] != '[' && s[i] != ']' by {
        assert(is_digit(s[i]));
    }
}


/// `k[i]` reads as key `k` and index `i`.
proof fn lemma_access_indexed(k: Seq<char>, i: nat)
    requires
        plain_key(k),
        i <= usize::MAX,
    ensures
        access_spec(indexed_key(k, i)) == Outcome::Done((k, i)),
        indexed_key(k, i).contains('['),
        !indexed_key(k, i).contains('.'),
        indexed_key(k, i).len() > k.len(),
        indexed_key(k, i).take(k.len() as int) == k,
        indexed_key(k, i)[k.len() as int] == '[',
{
    lemma_parse_decimal(i);
    let d = decimal(i);
    let s = indexed_key(k, i);
    let rest = seq!['['] + d + seq![']'];
    assert(s =~= k + rest);
    lemma_no_char_find(k, '[', 0);
    lemma_no_char_find(k, ']', 0);
    lemma_find_from_append(k, rest, '[', 0);
    assert(rest[0] == '[');
    assert(find_from(rest, '[', 0) == Some(0int));
    let a = seq!['['] + d;
    assert(rest =~= a + seq![']']);
    assert(!a.contains(']')) by {
        assert forall|j: int| 0 <= j < a.len() implies a[j] != ']' by {
            if j > 0 { assert(a[j] == d[j - 1]); }
        }
    }
    lemma_no_char_find(a, ']', 0);
    lemma_find_from_append(a, seq![']'], ']', 0);
    assert(find_from(seq![']'], ']', 0) == Some(0int));
    lemma_find_from_append(k, rest, ']', 0);
    let start = k.len() as int;
    let end: int = k.len() as int + 1 + d.len() as int;
    assert(find_from(s, '[', 0) == Some(start));
    assert(find_from(s, ']', 0) == Some(end));
    assert(s.subrange(start + 1, end) =~= d);
    assert(s.subrange(0, start) =~= k);
    assert(s[start] == '[');
    assert forall|j: int| 0 <= j < s.len() implies s[j] != '.' by {
        if j < k.len() {
            assert(s[j] == k[j]);
        } else if j > k.len() && j < end {
            assert(s[j] == d[j - k.len() - 1]);
        }
    }
    assert(s.take(start) =~= k);
}

/// A path piece is not empty and holds no `.`.
proof fn lemma_path_part(x: Seq<char>)
    requires
        path_part(x),
    ensures
        x.len() > 0,
        !x.contains('.'),
{
    if !plain_key(x) {
        let (k, i) = choose|k: Seq<char>, i: nat| plain_key(k) && i <= usize::MAX && x == #[trigger] indexed_key(k, i);
        lemma_access_indexed(k, i);
    }
}

} // verus!
