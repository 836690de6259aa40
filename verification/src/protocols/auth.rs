use vstd::prelude::*;

verus! {

/// The client's first message after the transport handshake: its public Ed25519 key.
#[derive(Debug, Clone)]
pub struct ClientIdentityHello {
    /// Ed25519 verifying key (32 bytes).
    pub public_key: [u8; 32],
    /// The player's display name.
    pub display_name: String,
    /// Steam id, when the player connects through Steam.
    pub steam_id: Option<u64>,
    /// The server password the player entered, if any.
    pub password: Option<String>,
}

/// The client's signature over the server's challenge nonce.
#[derive(Debug, Clone)]
pub struct ClientAuthResponse {
    /// Ed25519 signature (64 bytes when well formed).
    pub signature: Vec<u8>,
}

/// The server's challenge: random bytes that the client must sign.
#[derive(Debug, Clone)]
pub struct ServerAuthChallenge {
    pub nonce: [u8; 32],
}

/// The server's final verdict on an authentication attempt.
#[derive(Debug, Clone)]
pub struct ServerAuthResult {
    /// Whether the player was accepted.
    pub accepted: bool,
    /// The stable player id (hex SHA-256 of the public key); empty when rejected.
    pub player_id: String,
    /// Why the player was rejected; `None` when accepted.
    pub reason: Option<String>,
}

} // verus!
