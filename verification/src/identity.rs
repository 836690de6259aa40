//! The player's identity as the other crates see it: a display name, an optional
//! Steam id and a unique player id.

use vstd::prelude::*;
use crate::text::{decimal, to_owned_string, usize_to_decimal};

verus! {

/// The player's identity.
#[derive(Clone, Debug)]
pub struct PlayerIdentity {
    /// The display name (from Steam, or set by hand).
    pub display_name: String,
    /// The Steam id, if any.
    pub steam_id: Option<u64>,
    /// The unique player id.
    pub player_id: String,
}

/// The decimal form of a `u64`.
pub fn u64_to_decimal(n: u64) -> (r: String)
    ensures
        r@ == decimal(n as nat),
    decreases n,
{
    if n < 10 {
        usize_to_decimal(n as usize)
    } else {
        let mut s = u64_to_decimal(n / 10);
        let d = usize_to_decimal((n % 10) as usize);
        proof {
            assert(decimal((n % 10) as nat) == seq![crate::text::digit_char((n % 10) as nat)]);
        }
        s.append(d.as_str());
        s
    }
}

impl PlayerIdentity {
    /// A local identity without Steam: the player id is `local:` and the name.
    pub fn local(name: String) -> (r: PlayerIdentity)
        ensures
            r.display_name@ == name@,
            r.steam_id is None,
            r.player_id@ == "local:"@ + name@,
    {
        let mut id = to_owned_string("local:");
        id.append(name.as_str());
        PlayerIdentity { display_name: name, steam_id: None, player_id: id }
    }

    /// A Steam identity: the player id is `steam:` and the Steam id.
    pub fn steam(steam_id: u64, name: String) -> (r: PlayerIdentity)
        ensures
            r.display_name@ == name@,
            r.steam_id == Some(steam_id),
            r.player_id@ == "steam:"@ + decimal(steam_id as nat),
    {
        let mut id = to_owned_string("steam:");
        let d = u64_to_decimal(steam_id);
        id.append(d.as_str());
        PlayerIdentity { display_name: name, steam_id: Some(steam_id), player_id: id }
    }

    /// True when the identity comes from Steam.
    pub fn is_steam(&self) -> (r: bool)
        ensures
            r == self.steam_id is Some,
    {
        self.steam_id.is_some()
    }
}

impl Default for PlayerIdentity {
    fn default() -> (r: PlayerIdentity)
        ensures
            r.display_name@.len() == 0,
            r.steam_id is None,
            r.player_id@.len() == 0,
    {
        PlayerIdentity { display_name: String::new(), steam_id: None, player_id: String::new() }
    }
}

/// Fired when the identity changes.
#[derive(Clone, Debug)]
pub struct IdentityChanged {
    pub old: PlayerIdentity,
    pub new: PlayerIdentity,
}

} // verus!
