//! What the surgical editor promises of the documents it writes: an update puts the
//! value at its key path, keeping the comments and spacing of the value it replaces,
//! and leaves every unrelated key as it was, comments and spacing included; a removal
//! succeeds exactly when the key path names an entry, and takes away that entry alone.

use vstd::prelude::*;
use crate::edit::{no_decor, placed_value, remove_spec, table_put, update_spec, TomlDecor, TomlItem, TomlValue};
use crate::text::parse_usize_spec;

verus! {

/// The item that `keys` names below `cur`, going through tables only.
pub open spec fn lookup(cur: TomlItem, keys: Seq<Seq<char>>) -> Option<TomlItem>
    decreases keys.len(),
{
    if keys.len() == 0 {
        Some(cur)
    } else {
        match cur {
            TomlItem::Table(m, _) => if m.contains_key(keys[0]) {
                lookup(m[keys[0]], keys.drop_first())
            } else {
                None
            },
            _ => None,
        }
    }
}

/// Neither key path is a prefix of the other: they name unrelated entries.
pub open spec fn unrelated(p: Seq<Seq<char>>, q: Seq<Seq<char>>) -> bool {
    !p.is_prefix_of(q) && !q.is_prefix_of(p)
}

/// An update along `keys` (not empty) meets only tables: `cur` is a table, and each key
/// but the last names a table or nothing.
pub open spec fn tables_along(cur: TomlItem, keys: Seq<Seq<char>>) -> bool
    decreases keys.len(),
{
    match cur {
        TomlItem::Table(m, _) => keys.len() <= 1 || !m.contains_key(keys[0])
            || tables_along(m[keys[0]], keys.drop_first()),
        _ => false,
    }
}

/// The key path (not empty) names an entry: each key but the last names a table, and
/// the last is a key of the table reached or an index within the array reached.
pub open spec fn entry_present(cur: TomlItem, keys: Seq<Seq<char>>) -> bool
    decreases keys.len(),
{
    if keys.len() <= 1 {
        match cur {
            TomlItem::Table(m, _) => m.contains_key(keys[0]),
            TomlItem::Value(TomlValue::Array(el, _, _)) => match parse_usize_spec(keys[0]) {
                Some(i) => i < el.len(),
                None => false,
            },
            _ => false,
        }
    } else {
        match cur {
            TomlItem::Table(m, _) => m.contains_key(keys[0]) && entry_present(m[keys[0]], keys.drop_first()),
            _ => false,
        }
    }
}

/// Paths that share their first key and are unrelated stay unrelated without it.
proof fn lemma_unrelated_tail(p: Seq<Seq<char>>, q: Seq<Seq<char>>)
    requires
        p.len() > 0,
        q.len() > 0,
        p[0] == q[0],
        unrelated(p, q),
    ensures
        unrelated(p.drop_first(), q.drop_first()),
{
    if p.drop_first().is_prefix_of(q.drop_first()) {
        assert forall|i: int| 0 <= i < p.len() implies p[i] == q[i] by {
            if i > 0 {
                assert(p.drop_first()[i - 1] == q.drop_first()[i - 1]);
            }
        }
    }
    if q.drop_first().is_prefix_of(p.drop_first()) {
        assert forall|i: int| 0 <= i < q.len() implies q[i] == p[i] by {
            if i > 0 {
                assert(q.drop_first()[i - 1] == p.drop_first()[i - 1]);
            }
        }
    }
}

/// Nothing is found below an empty table, and an update along a path in it meets
/// only tables.
proof fn lemma_empty_table(keys: Seq<Seq<char>>)
    ensures
        keys.len() > 0 ==> lookup(TomlItem::Table(Map::empty(), no_decor()), keys) is None,
        tables_along(TomlItem::Table(Map::empty(), no_decor()), keys),
{
}

/// The decoration of the table that `keys` names below `cur`, if it names a table.
pub open spec fn table_decor_at(cur: TomlItem, keys: Seq<Seq<char>>) -> Option<TomlDecor> {
    match lookup(cur, keys) {
        Some(TomlItem::Table(_, d)) => Some(d),
        _ => None,
    }
}

/// Updating along `keys` with a value: when the path meets only tables and its last key
/// is not an array index, the update succeeds; the path then names the value, with the
/// decoration (comments and spacing) of the value it replaces when that was a value of
/// the same kind; every unrelated key path names what it named before, decoration
/// included; and each table on the way keeps its own decoration.
pub proof fn update_sets_the_value(cur: TomlItem, keys: Seq<Seq<char>>, v: TomlValue)
    requires
        keys.len() > 0,
        tables_along(cur, keys),
        parse_usize_spec(keys.last()) is None,
    ensures
        update_spec(cur, keys, Ok(v)) is Ok,
        lookup(update_spec(cur, keys, Ok(v))->Ok_0, keys) == Some(TomlItem::Value(placed_value(lookup(cur, keys), v))),
        forall|q: Seq<Seq<char>>| unrelated(keys, q) ==>
            #[trigger] lookup(update_spec(cur, keys, Ok(v))->Ok_0, q) == lookup(cur, q),
        forall|n: int| 0 <= n < keys.len() && table_decor_at(cur, keys.take(n)) is Some ==>
            #[trigger] table_decor_at(update_spec(cur, keys, Ok(v))->Ok_0, keys.take(n)) == table_decor_at(cur, keys.take(n)),
    decreases keys.len(),
{
    let m = cur->Table_0;
    assert(keys.take(0).len() == 0);
    let d = cur->Table_1;
    let k = keys[0];
    if keys.len() == 1 {
        let pv = placed_value(if m.contains_key(k) { Some(m[k]) } else { None }, v);
        let t = TomlItem::Table(m.insert(k, TomlItem::Value(pv)), d);
        assert(lookup(cur, keys) == (if m.contains_key(k) { Some(m[k]) } else { None::<TomlItem> }));
        assert(update_spec(cur, keys, Ok(v)) == Ok::<TomlItem, Seq<char>>(t));
        assert(keys.drop_first().len() == 0);
        assert(lookup(TomlItem::Value(pv), keys.drop_first()) == Some(TomlItem::Value(pv)));
        assert(lookup(t, keys) == lookup(TomlItem::Value(pv), keys.drop_first()));
        assert forall|q: Seq<Seq<char>>| unrelated(keys, q) implies #[trigger] lookup(t, q) == lookup(cur, q) by {
            if q.len() == 0 {
                assert(q.is_prefix_of(keys));
            } else if q[0] == k {
                assert(keys.is_prefix_of(q));
            }
        }
    } else {
        let child = if m.contains_key(k) { m[k] } else { TomlItem::Table(Map::empty(), no_decor()) };
        let rest = keys.drop_first();
        lemma_empty_table(rest);
        assert(rest.last() == keys.last());
        update_sets_the_value(child, rest, v);
        let c = update_spec(child, rest, Ok(v))->Ok_0;
        crate::edit::lemma_update_spec(child, rest, Ok(v));
        let t = TomlItem::Table(table_put(m, k, c), d);
        assert(update_spec(cur, keys, Ok(v)) == Ok::<TomlItem, Seq<char>>(t));
        assert(lookup(cur, keys) == lookup(child, rest));
        assert(table_put(m, k, c) == m.insert(k, c));
        assert(lookup(t, keys) == lookup(c, rest));
        assert forall|n: int| 0 <= n < keys.len() && table_decor_at(cur, keys.take(n)) is Some implies
            #[trigger] table_decor_at(t, keys.take(n)) == table_decor_at(cur, keys.take(n)) by {
            if n > 0 {
                let p = keys.take(n);
                assert(p[0] == k);
                assert(p.drop_first() =~= rest.take(n - 1));
                assert(lookup(t, p) == lookup(c, rest.take(n - 1)));
                assert(lookup(cur, p) == lookup(child, rest.take(n - 1)));
                assert(table_decor_at(c, rest.take(n - 1)) == table_decor_at(child, rest.take(n - 1)));
            } else {
                assert(keys.take(n).len() == 0);
            }
        }
        assert forall|q: Seq<Seq<char>>| unrelated(keys, q) implies #[trigger] lookup(t, q) == lookup(cur, q) by {
            if q.len() == 0 {
                assert(q.is_prefix_of(keys));
            } else if q[0] == k {
                lemma_unrelated_tail(keys, q);
                let qr = q.drop_first();
                assert(lookup(c, qr) == lookup(child, qr));
                if qr.len() == 0 {
                    assert(q.is_prefix_of(keys));
                }
            }
        }
    }
}

/// A removal never leaves an item that holds nothing.
proof fn lemma_remove_not_nothing(cur: TomlItem, keys: Seq<Seq<char>>)
    ensures
        remove_spec(cur, keys) matches Ok(t) ==> !(t is Nothing),
    decreases keys.len(),
{
    if keys.len() > 1 {
        if let TomlItem::Table(m, _) = cur {
            if m.contains_key(keys[0]) {
                lemma_remove_not_nothing(m[keys[0]], keys.drop_first());
            }
        }
    }
}

/// Removing along `keys` (not empty) succeeds exactly when the path names an entry.
/// Then a key of a table that the path named is gone, every unrelated key path names
/// what it named before, decoration included, and each table on the way keeps its own
/// decoration.
pub proof fn remove_takes_the_entry(cur: TomlItem, keys: Seq<Seq<char>>)
    requires
        keys.len() > 0,
    ensures
        remove_spec(cur, keys) is Ok <==> entry_present(cur, keys),
        remove_spec(cur, keys) is Ok && lookup(cur, keys) is Some ==>
            lookup(remove_spec(cur, keys)->Ok_0, keys) is None,
        remove_spec(cur, keys) is Ok ==> forall|q: Seq<Seq<char>>| unrelated(keys, q) ==>
            #[trigger] lookup(remove_spec(cur, keys)->Ok_0, q) == lookup(cur, q),
        remove_spec(cur, keys) is Ok ==> forall|n: int| 0 <= n < keys.len() && table_decor_at(cur, keys.take(n)) is Some ==>
            #[trigger] table_decor_at(remove_spec(cur, keys)->Ok_0, keys.take(n)) == table_decor_at(cur, keys.take(n)),
    decreases keys.len(),
{
    let k = keys[0];
    assert(keys.take(0).len() == 0);
    if keys.len() == 1 {
        assert(keys.drop_first().len() == 0);
        if let TomlItem::Table(m, _) = cur {
            if m.contains_key(k) {
                let t = TomlItem::Table(m.remove(k), cur->Table_1);
                assert forall|q: Seq<Seq<char>>| unrelated(keys, q) implies #[trigger] lookup(t, q) == lookup(cur, q) by {
                    if q.len() == 0 {
                        assert(q.is_prefix_of(keys));
                    } else if q[0] == k {
                        assert(keys.is_prefix_of(q));
                    }
                }
            }
        } else if let TomlItem::Value(TomlValue::Array(el, sp, _)) = cur {
            if remove_spec(cur, keys) is Ok {
                let t = remove_spec(cur, keys)->Ok_0;
                assert forall|q: Seq<Seq<char>>| unrelated(keys, q) implies #[trigger] lookup(t, q) == lookup(cur, q) by {
                    if q.len() == 0 {
                        assert(q.is_prefix_of(keys));
                    }
                }
            }
        }
    } else {
        if let TomlItem::Table(m, _) = cur {
            if m.contains_key(k) {
                let child = m[k];
                let rest = keys.drop_first();
                remove_takes_the_entry(child, rest);
                lemma_remove_not_nothing(child, rest);
                if remove_spec(child, rest) is Ok {
                    let c = remove_spec(child, rest)->Ok_0;
                    let t = TomlItem::Table(table_put(m, k, c), cur->Table_1);
                    assert(table_put(m, k, c) == m.insert(k, c));
                    assert(remove_spec(cur, keys) == Ok::<TomlItem, Seq<char>>(t));
                    assert forall|n: int| 0 <= n < keys.len() && table_decor_at(cur, keys.take(n)) is Some implies
                        #[trigger] table_decor_at(t, keys.take(n)) == table_decor_at(cur, keys.take(n)) by {
                        if n > 0 {
                            let p = keys.take(n);
                            assert(p[0] == k);
                            assert(p.drop_first() =~= rest.take(n - 1));
                            assert(lookup(t, p) == lookup(c, rest.take(n - 1)));
                            assert(lookup(cur, p) == lookup(child, rest.take(n - 1)));
                            assert(table_decor_at(c, rest.take(n - 1)) == table_decor_at(child, rest.take(n - 1)));
                        } else {
                            assert(keys.take(n).len() == 0);
                        }
                    }
                    assert forall|q: Seq<Seq<char>>| unrelated(keys, q) implies #[trigger] lookup(t, q) == lookup(cur, q) by {
                        if q.len() == 0 {
                            assert(q.is_prefix_of(keys));
                        } else if q[0] == k {
                            lemma_unrelated_tail(keys, q);
                            let qr = q.drop_first();
                            assert(lookup(c, qr) == lookup(child, qr));
                            if qr.len() == 0 {
                                assert(q.is_prefix_of(keys));
                            }
                        }
                    }
                }
            }
        }
    }
}

} // verus!
