use vstd::prelude::*;

verus! {

/// An ECS entity, by its bit representation.
#[derive(Debug, Clone, Copy, PartialEq, Eq, Structural, Hash)]
pub struct EntityId(pub u64);

impl EntityId {
    /// The entity id that stands for "no entity".
    pub fn placeholder() -> (r: EntityId)
        ensures
            r == placeholder_entity(),
    {
        EntityId(u64::MAX)
    }
}

/// The entity id that stands for "no entity".
pub open spec fn placeholder_entity() -> EntityId {
    EntityId(u64::MAX)
}

/// A replication client: the listen server itself, or a connected client's session entity.
#[derive(Debug, Clone, Copy, PartialEq, Eq, Structural, Hash)]
pub enum ClientId {
    Server,
    Client(EntityId),
}

impl ClientId {
    /// The session entity of a connected client; `None` for the server.
    pub fn entity(&self) -> (r: Option<EntityId>)
        ensures
            r == (match *self { ClientId::Server => None, ClientId::Client(e) => Some(e) }),
    {
        match self {
            ClientId::Server => None,
            ClientId::Client(e) => Some(*e),
        }
    }
}

/// A map keyed by client, with at most one entry per client.
pub struct ClientMap<V> {
    entries: Vec<(ClientId, V)>,
}

/// The entries as a map.
pub open spec fn entries_map<V>(entries: Seq<(ClientId, V)>) -> Map<ClientId, V> {
    Map::new(
        |k: ClientId| exists|i: int| 0 <= i < entries.len() && #[trigger] entries[i].0 == k,
        |k: ClientId| entries[choose|i: int| 0 <= i < entries.len() && #[trigger] entries[i].0 == k].1,
    )
}

/// No two entries share a key.
pub open spec fn unique_keys<V>(entries: Seq<(ClientId, V)>) -> bool {
    forall|i: int, j: int| 0 <= i < j < entries.len() ==> #[trigger] entries[i].0 != #[trigger] entries[j].0
}

proof fn lemma_entry_in_map<V>(entries: Seq<(ClientId, V)>, i: int)
    requires
        unique_keys(entries),
        0 <= i < entries.len(),
    ensures
        entries_map(entries).contains_key(entries[i].0),
        entries_map(entries)[entries[i].0] == entries[i].1,
{
    let k = entries[i].0;
    assert(entries[i].0 == k);
    let c = choose|q: int| 0 <= q < entries.len() && #[trigger] entries[q].0 == k;
    if c != i {
        if c < i { assert(entries[c].0 != entries[i].0); } else { assert(entries[i].0 != entries[c].0); }
    }
}

proof fn lemma_map_key_has_entry<V>(entries: Seq<(ClientId, V)>, k: ClientId)
    requires
        unique_keys(entries),
        entries_map(entries).contains_key(k),
    ensures
        exists|i: int| 0 <= i < entries.len() && #[trigger] entries[i].0 == k && entries[i].1 == entries_map(entries)[k],
{
    let c = choose|q: int| 0 <= q < entries.len() && #[trigger] entries[q].0 == k;
    lemma_entry_in_map(entries, c);
}

impl<V> View for ClientMap<V> {
    type V = Map<ClientId, V>;

    closed spec fn view(&self) -> Map<ClientId, V> {
        entries_map(self.entries@)
    }
}

impl<V> ClientMap<V> {
    /// Well-formedness: at most one entry per client.
    pub closed spec fn wf(&self) -> bool {
        unique_keys(self.entries@)
    }

    /// The number of entries (one per client in the map).
    pub closed spec fn count(&self) -> nat {
        self.entries@.len()
    }

    /// The entry at position `i`, in storage order.
    pub closed spec fn entry_at(&self, i: int) -> (ClientId, V) {
        self.entries@[i]
    }

    /// Positions and keys correspond: each position holds a key of the map with its
    /// value, and each key of the map is held at some position.
    pub proof fn lemma_entries(&self)
        requires
            self.wf(),
        ensures
            forall|i: int| 0 <= i < self.count() ==> #[trigger] self@.contains_key(self.entry_at(i).0)
                && self@[self.entry_at(i).0] == self.entry_at(i).1,
            forall|k: ClientId| #[trigger] self@.contains_key(k) ==> exists|i: int|
                0 <= i < self.count() && #[trigger] self.entry_at(i).0 == k,
            forall|i: int, j: int| 0 <= i < j < self.count() ==> #[trigger] self.entry_at(i).0 != #[trigger] self.entry_at(j).0,
    {
        assert forall|i: int| 0 <= i < self.count() implies #[trigger] self@.contains_key(self.entry_at(i).0)
            && self@[self.entry_at(i).0] == self.entry_at(i).1 by {
            lemma_entry_in_map(self.entries@, i);
        }
        assert forall|k: ClientId| #[trigger] self@.contains_key(k) implies exists|i: int|
            0 <= i < self.count() && #[trigger] self.entry_at(i).0 == k by {
            lemma_map_key_has_entry(self.entries@, k);
            let c = choose|q: int| 0 <= q < self.entries@.len() && #[trigger] self.entries@[q].0 == k
                && self.entries@[q].1 == entries_map(self.entries@)[k];
            assert(self.entry_at(c).0 == k);
        }
    }

    /// An empty map.
    pub fn new() -> (r: Self)
        ensures
            r@ == Map::<ClientId, V>::empty(),
            r.count() == 0,
            r.wf(),
    {
        let r = ClientMap { entries: Vec::new() };
        assert(r@ =~= Map::<ClientId, V>::empty());
        r
    }

    /// The number of entries.
    pub fn len(&self) -> (r: usize)
        ensures
            r == self.count(),
    {
        self.entries.len()
    }

    /// The entry at position `i`.
    pub fn entry(&self, i: usize) -> (r: (&ClientId, &V))
        requires
            i < self.count(),
        ensures
            *r.0 == self.entry_at(i as int).0,
            *r.1 == self.entry_at(i as int).1,
    {
        let e = &self.entries[i];
        (&e.0, &e.1)
    }

    fn position(&self, k: &ClientId) -> (r: Option<usize>)
        ensures
            match r {
                Some(i) => i < self.entries@.len() && self.entries@[i as int].0 == *k,
                None => forall|i: int| 0 <= i < self.entries@.len() ==> #[trigger] self.entries@[i].0 != *k,
            },
    {
        let mut i: usize = 0;
        while i < self.entries.len()
            invariant
                i <= self.entries@.len(),
                forall|q: int| 0 <= q < i ==> #[trigger] self.entries@[q].0 != *k,
            decreases self.entries@.len() - i,
        {
            if self.entries[i].0 == *k {
                return Some(i);
            }
            i += 1;
        }
        None
    }

    /// The value stored for a client.
    pub fn get(&self, k: &ClientId) -> (r: Option<&V>)
        requires
            self.wf(),
        ensures
            match r {
                Some(v) => self@.contains_key(*k) && self@[*k] == *v,
                None => !self@.contains_key(*k),
            },
    {
        match self.position(k) {
            Some(i) => {
                proof { lemma_entry_in_map(self.entries@, i as int); }
                Some(&self.entries[i].1)
            },
            None => {
                proof {
                    if self@.contains_key(*k) {
                        lemma_map_key_has_entry(self.entries@, *k);
                    }
                }
                None
            },
        }
    }

    /// Stores a value for a client, replacing any earlier one.
    pub fn insert(&mut self, k: ClientId, v: V)
        requires
            old(self).wf(),
        ensures
            final(self).wf(),
            final(self)@ == old(self)@.insert(k, v),
            final(self).count() == old(self).count() + (if old(self)@.contains_key(k) { 0int } else { 1int }),
    {
        let pos = self.position(&k);
        let mut entries: Vec<(ClientId, V)> = Vec::new();
        std::mem::swap(&mut entries, &mut self.entries);
        let ghost old_e = entries@;
        assert(old_e == old(self).entries@);
        match pos {
            Some(i) => {
                proof { lemma_entry_in_map(old_e, i as int); }
                entries.set(i, (k, v));
                proof {
                    assert forall|a: int, b: int| 0 <= a < b < entries@.len() implies
                        #[trigger] entries@[a].0 != #[trigger] entries@[b].0 by {
                        assert(old_e[a].0 != old_e[b].0);
                    }
                    lemma_replace_view(old_e, entries@, i as int, k, v);
                }
            },
            None => {
                proof {
                    if old_e.len() > 0 && entries_map(old_e).contains_key(k) {
                        lemma_map_key_has_entry(old_e, k);
                    }
                }
                entries.push((k, v));
                proof {
                    lemma_append_view(old_e, entries@, k, v);
                }
            },
        }
        self.entries = entries;
    }

    /// Removes the entry of a client and gives back its value.
    pub fn remove(&mut self, k: &ClientId) -> (r: Option<V>)
        requires
            old(self).wf(),
        ensures
            final(self).wf(),
            r == (if old(self)@.contains_key(*k) { Some(old(self)@[*k]) } else { None::<V> }),
            final(self)@ == old(self)@.remove(*k),
            final(self).count() == old(self).count() - (if old(self)@.contains_key(*k) { 1int } else { 0int }),
    {
        let pos = self.position(k);
        match pos {
            None => {
                proof {
                    if self@.contains_key(*k) {
                        lemma_map_key_has_entry(self.entries@, *k);
                    }
                    assert(self@ =~= self@.remove(*k));
                }
                None
            },
            Some(i) => {
                let mut entries: Vec<(ClientId, V)> = Vec::new();
                std::mem::swap(&mut entries, &mut self.entries);
                let ghost old_e = entries@;
                proof { lemma_entry_in_map(old_e, i as int); }
                let (_, v) = entries.remove(i);
                proof {
                    assert forall|a: int, b: int| 0 <= a < b < entries@.len() implies
                        #[trigger] entries@[a].0 != #[trigger] entries@[b].0 by {
                        let a2 = if a < i { a } else { a + 1 };
                        let b2 = if b < i { b } else { b + 1 };
                        assert(old_e[a2].0 != old_e[b2].0);
                    }
                    lemma_remove_view(old_e, entries@, i as int, *k);
                }
                self.entries = entries;
                Some(v)
            },
        }
    }
}

proof fn lemma_replace_view<V>(old_e: Seq<(ClientId, V)>, new_e: Seq<(ClientId, V)>, i: int, k: ClientId, v: V)
    requires
        unique_keys(old_e),
        unique_keys(new_e),
        0 <= i < old_e.len(),
        old_e[i].0 == k,
        new_e == old_e.update(i, (k, v)),
    ensures
        entries_map(new_e) == entries_map(old_e).insert(k, v),
{
    let m1 = entries_map(new_e);
    let m2 = entries_map(old_e).insert(k, v);
    assert forall|key: ClientId| m1.contains_key(key) == m2.contains_key(key) by {
        if key == k {
            lemma_entry_in_map(new_e, i);
        } else if m2.contains_key(key) {
            lemma_map_key_has_entry(old_e, key);
            let c = choose|q: int| 0 <= q < old_e.len() && #[trigger] old_e[q].0 == key && old_e[q].1 == entries_map(old_e)[key];
            lemma_entry_in_map(new_e, c);
        } else if m1.contains_key(key) {
            lemma_map_key_has_entry(new_e, key);
            let c = choose|q: int| 0 <= q < new_e.len() && #[trigger] new_e[q].0 == key && new_e[q].1 == entries_map(new_e)[key];
            lemma_entry_in_map(old_e, c);
        }
    }
    assert forall|key: ClientId| m1.contains_key(key) implies m1[key] == m2[key] by {
        if key == k {
            lemma_entry_in_map(new_e, i);
        } else {
            lemma_map_key_has_entry(new_e, key);
            let c = choose|q: int| 0 <= q < new_e.len() && #[trigger] new_e[q].0 == key && new_e[q].1 == entries_map(new_e)[key];
            lemma_entry_in_map(old_e, c);
        }
    }
    assert(m1 =~= m2);
}

proof fn lemma_append_view<V>(old_e: Seq<(ClientId, V)>, new_e: Seq<(ClientId, V)>, k: ClientId, v: V)
    requires
        unique_keys(old_e),
        forall|q: int| 0 <= q < old_e.len() ==> #[trigger] old_e[q].0 != k,
        new_e == old_e.push((k, v)),
    ensures
        unique_keys(new_e),
        entries_map(new_e) == entries_map(old_e).insert(k, v),
        !entries_map(old_e).contains_key(k),
{
    let n = old_e.len() as int;
    assert forall|a: int, b: int| 0 <= a < b < new_e.len() implies #[trigger] new_e[a].0 != #[trigger] new_e[b].0 by {
        if b < n {
            assert(old_e[a].0 != old_e[b].0);
        }
    }
    if entries_map(old_e).contains_key(k) {
        lemma_map_key_has_entry(old_e, k);
    }
    let m1 = entries_map(new_e);
    let m2 = entries_map(old_e).insert(k, v);
    assert forall|key: ClientId| m1.contains_key(key) == m2.contains_key(key) by {
        if key == k {
            lemma_entry_in_map(new_e, n);
        } else if m2.contains_key(key) {
            lemma_map_key_has_entry(old_e, key);
            let c = choose|q: int| 0 <= q < old_e.len() && #[trigger] old_e[q].0 == key && old_e[q].1 == entries_map(old_e)[key];
            lemma_entry_in_map(new_e, c);
        } else if m1.contains_key(key) {
            lemma_map_key_has_entry(new_e, key);
            let c = choose|q: int| 0 <= q < new_e.len() && #[trigger] new_e[q].0 == key && new_e[q].1 == entries_map(new_e)[key];
            lemma_entry_in_map(old_e, c);
        }
    }
    assert forall|key: ClientId| m1.contains_key(key) implies m1[key] == m2[key] by {
        if key == k {
            lemma_entry_in_map(new_e, n);
        } else {
            lemma_map_key_has_entry(new_e, key);
            let c = choose|q: int| 0 <= q < new_e.len() && #[trigger] new_e[q].0 == key && new_e[q].1 == entries_map(new_e)[key];
            lemma_entry_in_map(old_e, c);
        }
    }
    assert(m1 =~= m2);
}

proof fn lemma_remove_view<V>(old_e: Seq<(ClientId, V)>, new_e: Seq<(ClientId, V)>, i: int, k: ClientId)
    requires
        unique_keys(old_e),
        unique_keys(new_e),
        0 <= i < old_e.len(),
        old_e[i].0 == k,
        new_e == old_e.remove(i),
    ensures
        entries_map(new_e) == entries_map(old_e).remove(k),
{
    let m1 = entries_map(new_e);
    let m2 = entries_map(old_e).remove(k);
    assert forall|key: ClientId| m1.contains_key(key) == m2.contains_key(key) by {
        if key == k {
            if m1.contains_key(key) {
                lemma_map_key_has_entry(new_e, key);
                let c = choose|q: int| 0 <= q < new_e.len() && #[trigger] new_e[q].0 == key && new_e[q].1 == entries_map(new_e)[key];
                let c2 = if c < i { c } else { c + 1 };
                assert(old_e[c2].0 == key);
                if c2 < i { assert(old_e[c2].0 != old_e[i].0); } else { assert(old_e[i].0 != old_e[c2].0); }
            }
        } else if m2.contains_key(key) {
            lemma_map_key_has_entry(old_e, key);
            let c = choose|q: int| 0 <= q < old_e.len() && #[trigger] old_e[q].0 == key && old_e[q].1 == entries_map(old_e)[key];
            assert(c != i);
            let c2 = if c < i { c } else { c - 1 };
            assert(new_e[c2] == old_e[c]);
            lemma_entry_in_map(new_e, c2);
        } else if m1.contains_key(key) {
            lemma_map_key_has_entry(new_e, key);
            let c = choose|q: int| 0 <= q < new_e.len() && #[trigger] new_e[q].0 == key && new_e[q].1 == entries_map(new_e)[key];
            let c2 = if c < i { c } else { c + 1 };
            assert(old_e[c2] == new_e[c]);
            lemma_entry_in_map(old_e, c2);
        }
    }
    assert forall|key: ClientId| m1.contains_key(key) implies m1[key] == m2[key] by {
        lemma_map_key_has_entry(new_e, key);
        let c = choose|q: int| 0 <= q < new_e.len() && #[trigger] new_e[q].0 == key && new_e[q].1 == entries_map(new_e)[key];
        let c2 = if c < i { c } else { c + 1 };
        assert(old_e[c2] == new_e[c]);
        lemma_entry_in_map(old_e, c2);
    }
    assert(m1 =~= m2);
}

} // verus!
