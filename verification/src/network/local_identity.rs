//! The client's own Ed25519 identity: its key, the player id derived from it, and the
//! answers it gives in the authentication handshake.

use vstd::prelude::*;
use crate::identity::PlayerIdentity;
use crate::network::crypto::{
    ed25519_accepts, ed25519_public, ed25519_public_key, ed25519_sign, ed25519_signature,
    player_id_for, player_id_of, random_nonce,
};
use crate::network::session::hello_display_name;
use crate::protocols::auth::{ClientAuthResponse, ClientIdentityHello};

verus! {

/// The local player's Ed25519 identity. Only the public key ever leaves the machine.
pub struct LocalIdentity {
    secret: [u8; 32],
    player_id: String,
}

impl LocalIdentity {
    /// The secret key bytes.
    pub closed spec fn secret_key(&self) -> Seq<u8> {
        self.secret@
    }

    /// The stable player id: the hex SHA-256 of the public key.
    pub closed spec fn id(&self) -> Seq<char> {
        self.player_id@
    }

    /// The stable player id: the hex SHA-256 of the public key.
    pub fn player_id(&self) -> (r: &str)
        ensures
            r@ == self.id(),
    {
        self.player_id.as_str()
    }

    /// The public key bytes.
    pub open spec fn public_key(&self) -> Seq<u8> {
        ed25519_public(self.secret_key())
    }

    /// The identity with the given secret key bytes.
    pub fn from_secret(secret: [u8; 32]) -> (r: LocalIdentity)
        ensures
            r.secret_key() == secret@,
            r.id() == player_id_of(ed25519_public(secret@)),
            r.id().len() == 64,
    {
        let public = ed25519_public_key(&secret);
        let player_id = player_id_for(&public);
        LocalIdentity { secret, player_id }
    }

    /// A new identity with a random secret key.
    pub fn generate() -> (r: LocalIdentity)
        ensures
            r.id() == player_id_of(r.public_key()),
            r.id().len() == 64,
    {
        LocalIdentity::from_secret(random_nonce())
    }

    /// The secret key bytes, for storing them.
    pub fn secret_bytes(&self) -> (r: [u8; 32])
        ensures
            r@ == self.secret_key(),
    {
        self.secret
    }

    /// The public key (32 bytes).
    pub fn verifying_key_bytes(&self) -> (r: [u8; 32])
        ensures
            r@ == self.public_key(),
    {
        ed25519_public_key(&self.secret)
    }

    /// The answer to a server challenge: the signature of the nonce, which the server's
    /// check accepts under this identity's public key.
    pub fn answer_challenge(&self, nonce: &[u8; 32]) -> (r: ClientAuthResponse)
        ensures
            r.signature@ == ed25519_signature(self.secret_key(), nonce@),
            r.signature@.len() == 64,
            ed25519_accepts(self.public_key(), nonce@, r.signature@),
    {
        let sig = ed25519_sign(&self.secret, nonce.as_slice());
        let mut v: Vec<u8> = Vec::new();
        let mut i: usize = 0;
        while i < 64
            invariant
                i <= 64,
                v@ == sig@.take(i as int),
            decreases 64 - i,
        {
            v.push(sig[i]);
            proof { assert(v@ =~= sig@.take(i + 1)); }
            i += 1;
        }
        proof { assert(sig@.take(64) =~= sig@); }
        ClientAuthResponse { signature: v }
    }

    /// The hello the client sends after connecting: its public key, its display name
    /// (the player's own, else `Player-` and the first eight characters of the player
    /// id), its Steam id, and no password.
    pub fn hello(&self, player: Option<&PlayerIdentity>) -> (r: ClientIdentityHello)
        requires
            self.id().len() >= 8,
        ensures
            r.public_key@ == self.public_key(),
            r.display_name@ == match player {
                Some(p) => p.display_name@,
                None => "Player-"@ + self.id().take(8),
            },
            r.steam_id == match player {
                Some(p) => p.steam_id,
                None => None,
            },
            r.password is None,
    {
        let own = match player {
            Some(p) => Some(p.display_name.clone()),
            None => None,
        };
        let steam_id = match player {
            Some(p) => p.steam_id,
            None => None,
        };
        ClientIdentityHello {
            public_key: self.verifying_key_bytes(),
            display_name: hello_display_name(own, self.player_id.as_str()),
            steam_id,
            password: None,
        }
    }
}

/// The secret key stored in a key file: exactly 32 bytes, else none.
pub fn secret_from_stored(bytes: &[u8]) -> (r: Option<[u8; 32]>)
    ensures
        match r {
            Some(s) => bytes@.len() == 32 && s@ == bytes@,
            None => bytes@.len() != 32,
        },
{
    if bytes.len() != 32 {
        return None;
    }
    let mut arr = [0u8; 32];
    let mut i: usize = 0;
    while i < 32
        invariant
            i <= 32,
            bytes@.len() == 32,
            forall|k: int| 0 <= k < i ==> arr@[k] == bytes@[k],
        decreases 32 - i,
    {
        arr[i] = bytes[i];
        i += 1;
    }
    assert(arr@ =~= bytes@);
    Some(arr)
}

} // verus!
