use vstd::prelude::*;
use crate::text::to_owned_string;

verus! {

/// A player's role on a server, in ascending order of rights:
/// `Player < Moderator < Admin < Owner`.
#[derive(Debug, Clone, Copy, PartialEq, Eq, Structural, PartialOrd, Ord, Hash)]
pub enum PlayerRole {
    /// Default role without moderation rights.
    Player,
    /// May kick and temp-ban.
    Moderator,
    /// May kick, ban, temp-ban and promote up to moderator.
    Admin,
    /// Full control; given to the first player (the server's creator).
    Owner,
}

/// The position of a role in the order `Player < Moderator < Admin < Owner`.
pub open spec fn role_rank(role: PlayerRole) -> int {
    match role {
        PlayerRole::Player => 0,
        PlayerRole::Moderator => 1,
        PlayerRole::Admin => 2,
        PlayerRole::Owner => 3,
    }
}

impl PlayerRole {
    /// The position of the role in the order `Player < Moderator < Admin < Owner`.
    pub fn rank(&self) -> (r: u8)
        ensures
            r == role_rank(*self),
    {
        match self {
            PlayerRole::Player => 0,
            PlayerRole::Moderator => 1,
            PlayerRole::Admin => 2,
            PlayerRole::Owner => 3,
        }
    }

    /// True when `self` is at least `other` in the role order.
    pub fn at_least(&self, other: PlayerRole) -> (r: bool)
        ensures
            r == (role_rank(*self) >= role_rank(other)),
    {
        self.rank() >= other.rank()
    }
}

impl Default for PlayerRole {
    fn default() -> (r: Self)
        ensures
            r == PlayerRole::Player,
    {
        PlayerRole::Player
    }
}

/// The role that a table gives a player: the stored one, or `Player` when there is none.
pub open spec fn role_in(table: Map<Seq<char>, PlayerRole>, player_id: Seq<char>) -> PlayerRole {
    if table.contains_key(player_id) { table[player_id] } else { PlayerRole::Player }
}

/// Reading a role back after setting it gives the role set, and setting one player's
/// role leaves every other player's role as it was.
pub proof fn role_read_after_write(table: Map<Seq<char>, PlayerRole>, player_id: Seq<char>, role: PlayerRole, other: Seq<char>)
    ensures
        role_in(table.insert(player_id, role), player_id) == role,
        other != player_id ==> role_in(table.insert(player_id, role), other) == role_in(table, other),
{
}

/// The persisted role table: player id (the hex SHA-256 of the player's public key) to role.
pub struct PlayerRoles {
    entries: Vec<(String, PlayerRole)>,
}

/// No two entries share a player id.
pub open spec fn unique_ids(entries: Seq<(String, PlayerRole)>) -> bool {
    forall|i: int, j: int| 0 <= i < j < entries.len() ==> #[trigger] entries[i].0@ != #[trigger] entries[j].0@
}

/// The role table as a map.
pub open spec fn roles_map(entries: Seq<(String, PlayerRole)>) -> Map<Seq<char>, PlayerRole> {
    Map::new(
        |k: Seq<char>| exists|i: int| 0 <= i < entries.len() && #[trigger] entries[i].0@ == k,
        |k: Seq<char>| entries[choose|i: int| 0 <= i < entries.len() && #[trigger] entries[i].0@ == k].1,
    )
}

impl View for PlayerRoles {
    type V = Map<Seq<char>, PlayerRole>;

    closed spec fn view(&self) -> Map<Seq<char>, PlayerRole> {
        roles_map(self.entries@)
    }
}

impl PlayerRoles {
    #[verifier::type_invariant]
    closed spec fn ids_unique(&self) -> bool {
        unique_ids(self.entries@)
    }

    /// An empty table.
    pub fn new() -> (r: Self)
        ensures
            r@ == Map::<Seq<char>, PlayerRole>::empty(),
    {
        let r = PlayerRoles { entries: Vec::new() };
        assert(r@ =~= Map::<Seq<char>, PlayerRole>::empty());
        r
    }

    /// The position of `player_id` in the table, if present.
    fn position(&self, player_id: &str) -> (r: Option<usize>)
        ensures
            match r {
                Some(i) => i < self.entries@.len() && self.entries@[i as int].0@ == player_id@,
                None => forall|i: int| 0 <= i < self.entries@.len() ==> #[trigger] self.entries@[i].0@ != player_id@,
            },
    {
        let key = to_owned_string(player_id);
        let mut i: usize = 0;
        while i < self.entries.len()
            invariant
                i <= self.entries@.len(),
                key@ == player_id@,
                forall|q: int| 0 <= q < i ==> #[trigger] self.entries@[q].0@ != player_id@,
            decreases self.entries@.len() - i,
        {
            if self.entries[i].0 == key {
                return Some(i);
            }
            i += 1;
        }
        None
    }

    /// The stored role of a player, if any.
    pub fn stored(&self, player_id: &str) -> (r: Option<PlayerRole>)
        ensures
            match r {
                Some(role) => self@.contains_key(player_id@) && self@[player_id@] == role,
                None => !self@.contains_key(player_id@),
            },
    {
        proof { use_type_invariant(self); }
        match self.position(player_id) {
            Some(i) => {
                proof {
                    let k = player_id@;
                    assert(self.entries@[i as int].0@ == k);
                    let c = choose|q: int| 0 <= q < self.entries@.len() && #[trigger] self.entries@[q].0@ == k;
                    if c != i {
                        if c < i { assert(self.entries@[c].0@ != self.entries@[i as int].0@); }
                        else { assert(self.entries@[i as int].0@ != self.entries@[c].0@); }
                    }
                }
                Some(self.entries[i].1)
            },
            None => None,
        }
    }

    /// The role of a player; `Player` when the player is not in the table.
    pub fn get(&self, player_id: &str) -> (r: PlayerRole)
        ensures
            r == role_in(self@, player_id@),
    {
        match self.stored(player_id) {
            Some(role) => role,
            None => PlayerRole::Player,
        }
    }

    /// True when no player has the role `Owner`.
    pub fn has_no_owner(&self) -> (r: bool)
        ensures
            r == (forall|k: Seq<char>| #[trigger] self@.contains_key(k) ==> self@[k] != PlayerRole::Owner),
    {
        proof { use_type_invariant(self); }
        let mut i: usize = 0;
        while i < self.entries.len()
            invariant
                i <= self.entries@.len(),
                unique_ids(self.entries@),
                forall|q: int| 0 <= q < i ==> #[trigger] self.entries@[q].1 != PlayerRole::Owner,
            decreases self.entries@.len() - i,
        {
            if self.entries[i].1 == PlayerRole::Owner {
                proof {
                    let k = self.entries@[i as int].0@;
                    assert(self@.contains_key(k));
                    let c = choose|q: int| 0 <= q < self.entries@.len() && #[trigger] self.entries@[q].0@ == k;
                    if c != i {
                        if c < i { assert(self.entries@[c].0@ != self.entries@[i as int].0@); }
                        else { assert(self.entries@[i as int].0@ != self.entries@[c].0@); }
                    }
                }
                return false;
            }
            i += 1;
        }
        proof {
            assert forall|k: Seq<char>| #[trigger] self@.contains_key(k) implies self@[k] != PlayerRole::Owner by {
                let c = choose|q: int| 0 <= q < self.entries@.len() && #[trigger] self.entries@[q].0@ == k;
                assert(self.entries@[c].1 != PlayerRole::Owner);
            }
        }
        true
    }

    /// The stored roles, one entry per player, in the order in which the players were
    /// first given a role.
    pub fn roles(&self) -> (r: &[(String, PlayerRole)])
        ensures
            roles_map(r@) == self@,
            unique_ids(r@),
    {
        proof { use_type_invariant(self); }
        self.entries.as_slice()
    }

    /// Sets the role of a player, replacing any earlier one.
    pub fn insert(&mut self, player_id: String, role: PlayerRole)
        ensures
            final(self)@ == old(self)@.insert(player_id@, role),
    {
        proof { use_type_invariant(&*self); }
        let ghost k = player_id@;
        let pos = self.position(player_id.as_str());
        let mut entries: Vec<(String, PlayerRole)> = Vec::new();
        std::mem::swap(&mut entries, &mut self.entries);
        let ghost old_entries = entries@;
        assert(old_entries == old(self).entries@);
        match pos {
            Some(i) => {
                entries.set(i, (player_id, role));
                proof {
                    assert(unique_ids(entries@)) by {
                        assert forall|a: int, b: int| 0 <= a < b < entries@.len() implies
                            #[trigger] entries@[a].0@ != #[trigger] entries@[b].0@ by {
                            assert(old_entries[a].0@ != old_entries[b].0@);
                        }
                    }
                    lemma_set_view(old_entries, entries@, i as int, k, role);
                }
            },
            None => {
                entries.push((player_id, role));
                proof {
                    lemma_push_view(old_entries, entries@, k, role);
                }
            },
        }
        self.entries = entries;
    }
}

proof fn lemma_set_view(old_e: Seq<(String, PlayerRole)>, new_e: Seq<(String, PlayerRole)>, i: int, k: Seq<char>, role: PlayerRole)
    requires
        unique_ids(old_e),
        unique_ids(new_e),
        0 <= i < old_e.len(),
        old_e[i].0@ == k,
        new_e.len() == old_e.len(),
        new_e[i].0@ == k,
        new_e[i].1 == role,
        forall|q: int| 0 <= q < old_e.len() && q != i ==> #[trigger] new_e[q] == old_e[q],
    ensures
        roles_map(new_e) == roles_map(old_e).insert(k, role),
{
    let m1 = roles_map(new_e);
    let m2 = roles_map(old_e).insert(k, role);
    assert forall|key: Seq<char>| m1.contains_key(key) == m2.contains_key(key) by {
        if key == k {
            assert(new_e[i].0@ == key);
        } else if m2.contains_key(key) {
            let c = choose|q: int| 0 <= q < old_e.len() && #[trigger] old_e[q].0@ == key;
            assert(new_e[c] == old_e[c]);
        } else if m1.contains_key(key) {
            let c = choose|q: int| 0 <= q < new_e.len() && #[trigger] new_e[q].0@ == key;
            assert(c != i);
            assert(new_e[c] == old_e[c]);
        }
    }
    assert forall|key: Seq<char>| m1.contains_key(key) implies m1[key] == m2[key] by {
        let c = choose|q: int| 0 <= q < new_e.len() && #[trigger] new_e[q].0@ == key;
        if key == k {
            if c != i {
                if c < i { assert(new_e[c].0@ != new_e[i].0@); } else { assert(new_e[i].0@ != new_e[c].0@); }
            }
        } else {
            assert(c != i);
            assert(new_e[c] == old_e[c]);
            let d = choose|q: int| 0 <= q < old_e.len() && #[trigger] old_e[q].0@ == key;
            if d != c {
                if d < c { assert(old_e[d].0@ != old_e[c].0@); } else { assert(old_e[c].0@ != old_e[d].0@); }
            }
        }
    }
    assert(m1 =~= m2);
}

proof fn lemma_push_view(old_e: Seq<(String, PlayerRole)>, new_e: Seq<(String, PlayerRole)>, k: Seq<char>, role: PlayerRole)
    requires
        unique_ids(old_e),
        forall|q: int| 0 <= q < old_e.len() ==> #[trigger] old_e[q].0@ != k,
        new_e.len() == old_e.len() + 1,
        new_e[old_e.len() as int].0@ == k,
        new_e[old_e.len() as int].1 == role,
        forall|q: int| 0 <= q < old_e.len() ==> #[trigger] new_e[q] == old_e[q],
    ensures
        unique_ids(new_e),
        roles_map(new_e) == roles_map(old_e).insert(k, role),
{
    let n = old_e.len() as int;
    assert forall|a: int, b: int| 0 <= a < b < new_e.len() implies #[trigger] new_e[a].0@ != #[trigger] new_e[b].0@ by {
        if b == n {
            assert(new_e[a] == old_e[a]);
        } else {
            assert(new_e[a] == old_e[a] && new_e[b] == old_e[b]);
        }
    }
    let m1 = roles_map(new_e);
    let m2 = roles_map(old_e).insert(k, role);
    assert forall|key: Seq<char>| m1.contains_key(key) == m2.contains_key(key) by {
        if key == k {
            assert(new_e[n].0@ == key);
        } else if m2.contains_key(key) {
            let c = choose|q: int| 0 <= q < old_e.len() && #[trigger] old_e[q].0@ == key;
            assert(new_e[c] == old_e[c]);
        } else if m1.contains_key(key) {
            let c = choose|q: int| 0 <= q < new_e.len() && #[trigger] new_e[q].0@ == key;
            assert(new_e[c] == old_e[c]);
        }
    }
    assert forall|key: Seq<char>| m1.contains_key(key) implies m1[key] == m2[key] by {
        let c = choose|q: int| 0 <= q < new_e.len() && #[trigger] new_e[q].0@ == key;
        if key == k {
            if c != n {
                assert(new_e[c] == old_e[c]);
            }
        } else {
            assert(c != n);
            assert(new_e[c] == old_e[c]);
            let d = choose|q: int| 0 <= q < old_e.len() && #[trigger] old_e[q].0@ == key;
            if d != c {
                if d < c { assert(old_e[d].0@ != old_e[c].0@); } else { assert(old_e[c].0@ != old_e[d].0@); }
            }
        }
    }
    assert(m1 =~= m2);
}

} // verus!
