use vstd::prelude::*;

verus! {

/// An entry of the server's blacklist.
#[derive(Debug, Clone)]
pub struct BlacklistEntry {
    /// The hex SHA-256 of the player's public Ed25519 key (the stable player id).
    pub player_id: String,
    /// Optional Steam id that is banned as well.
    pub steam_id: Option<u64>,
    /// Readable name, for orientation only; never matched.
    pub display_name: Option<String>,
}

/// Server access control: password, whitelist, blacklist, capacity.
#[derive(Debug, Clone)]
pub struct ServerAccessSettings {
    /// Whether the server is password protected.
    pub password_protected: bool,
    /// Hex SHA-256 of the server password, if one is set.
    pub password_hash: Option<String>,
    /// Maximal number of players; -1 means unlimited.
    pub max_players: i32,
    /// Display names that may join; empty means everybody may.
    pub whitelist: Vec<String>,
    /// Banned players.
    pub blacklist: Vec<BlacklistEntry>,
}

impl Default for ServerAccessSettings {
    fn default() -> (r: Self)
        ensures
            !r.password_protected,
            r.password_hash is None,
            r.max_players == -1,
            r.whitelist@.len() == 0,
            r.blacklist@.len() == 0,
    {
        ServerAccessSettings {
            password_protected: false,
            password_hash: None,
            max_players: -1,
            whitelist: Vec::new(),
            blacklist: Vec::new(),
        }
    }
}

} // verus!
