use vstd::prelude::*;
use crate::content::access::{BlacklistEntry, ServerAccessSettings};
use crate::content::roles::{PlayerRole, PlayerRoles};
use crate::network::crypto::{ed25519_accepts, ed25519_verify, hex_encode, hex_lower, player_id_for,
    player_id_of, random_nonce, sha256, sha256_digest};
use crate::network::ids::{ClientId, ClientMap, EntityId, placeholder_entity};
use crate::protocols::auth::{ClientAuthResponse, ClientIdentityHello, ServerAuthChallenge, ServerAuthResult};
use crate::text::to_owned_string;

verus! {

/// An authentication handshake in progress: what the client said and the challenge it got.
#[derive(Debug, Clone)]
pub struct PendingAuthData {
    pub public_key: [u8; 32],
    pub display_name: String,
    pub steam_id: Option<u64>,
    pub nonce: [u8; 32],
    /// The password the client gave in its hello, if any.
    pub password: Option<String>,
}

/// Open handshakes, by client.
pub struct PendingAuths(pub ClientMap<PendingAuthData>);

/// A player that passed authentication in this session.
#[derive(Debug, Clone)]
pub struct AuthenticatedPlayer {
    /// The hex SHA-256 of the public key.
    pub player_id: String,
    pub display_name: String,
    pub steam_id: Option<u64>,
    pub public_key: [u8; 32],
    /// The client's session entity (used to disconnect it).
    pub entity: EntityId,
    /// The player's role on this server.
    pub role: PlayerRole,
}

/// All players authenticated in this session, by client.
pub struct PlayerRegistry(pub ClientMap<AuthenticatedPlayer>);

/// Fired when a player gets a role (new or changed).
#[derive(Debug, Clone)]
pub struct PlayerRoleAssigned {
    pub client_id: ClientId,
    pub player_id: String,
    pub entity: EntityId,
    pub role: PlayerRole,
}

/// Why an authentication attempt was rejected.
#[derive(Debug, Clone, Copy, PartialEq, Eq, Structural)]
pub enum AuthRejection {
    /// The client answered without an open handshake.
    NoPendingHandshake,
    /// The signature is malformed or does not verify under the client's key.
    InvalidSignature,
    /// The player is already connected in another session.
    AlreadyConnected,
    /// The server has reached its player limit.
    ServerFull,
    /// The player is on the blacklist.
    Banned,
    /// A whitelist is active and the player's name is not on it.
    NotWhitelisted,
    /// The server is password protected and the password is missing or wrong.
    WrongPassword,
}

/// The reason text sent to a rejected client.
pub open spec fn rejection_text(r: AuthRejection) -> Seq<char> {
    match r {
        AuthRejection::NoPendingHandshake => "Kein offener Auth-Handshake für diesen Client"@,
        AuthRejection::InvalidSignature => "Ungültige Signatur"@,
        AuthRejection::AlreadyConnected => "Bereits von einer anderen Session verbunden"@,
        AuthRejection::ServerFull => "Server ist voll."@,
        AuthRejection::Banned => "Du bist von diesem Server gesperrt."@,
        AuthRejection::NotWhitelisted => "Du bist nicht auf der Whitelist dieses Servers."@,
        AuthRejection::WrongPassword => "Falsches Server-Passwort."@,
    }
}

impl AuthRejection {
    /// The reason text sent to the rejected client.
    pub fn message(&self) -> (r: String)
        ensures
            r@ == rejection_text(*self),
    {
        match self {
            AuthRejection::NoPendingHandshake => {
                proof { reveal_strlit("Kein offener Auth-Handshake für diesen Client"); }
                to_owned_string("Kein offener Auth-Handshake für diesen Client")
            },
            AuthRejection::InvalidSignature => {
                proof { reveal_strlit("Ungültige Signatur"); }
                to_owned_string("Ungültige Signatur")
            },
            AuthRejection::AlreadyConnected => {
                proof { reveal_strlit("Bereits von einer anderen Session verbunden"); }
                to_owned_string("Bereits von einer anderen Session verbunden")
            },
            AuthRejection::ServerFull => {
                proof { reveal_strlit("Server ist voll."); }
                to_owned_string("Server ist voll.")
            },
            AuthRejection::Banned => {
                proof { reveal_strlit("Du bist von diesem Server gesperrt."); }
                to_owned_string("Du bist von diesem Server gesperrt.")
            },
            AuthRejection::NotWhitelisted => {
                proof { reveal_strlit("Du bist nicht auf der Whitelist dieses Servers."); }
                to_owned_string("Du bist nicht auf der Whitelist dieses Servers.")
            },
            AuthRejection::WrongPassword => {
                proof { reveal_strlit("Falsches Server-Passwort."); }
                to_owned_string("Falsches Server-Passwort.")
            },
        }
    }
}

/// The result message for a rejection: not accepted, empty player id, the reason text.
pub open spec fn is_rejection_result(r: ServerAuthResult, why: AuthRejection) -> bool {
    &&& !r.accepted
    &&& r.player_id@ == Seq::<char>::empty()
    &&& r.reason matches Some(m) && m@ == rejection_text(why)
}

fn rejection_result(why: AuthRejection) -> (r: ServerAuthResult)
    ensures
        is_rejection_result(r, why),
{
    ServerAuthResult { accepted: false, player_id: String::new(), reason: Some(why.message()) }
}

/// A blacklist entry matches a player by id, or by Steam id when the entry has one.
pub open spec fn entry_matches(e: BlacklistEntry, player_id: Seq<char>, steam_id: Option<u64>) -> bool {
    e.player_id@ == player_id || (e.steam_id is Some && e.steam_id == steam_id)
}

/// Some blacklist entry matches the player.
pub open spec fn is_blacklisted(blacklist: Seq<BlacklistEntry>, player_id: Seq<char>, steam_id: Option<u64>) -> bool {
    exists|i: int| 0 <= i < blacklist.len() && entry_matches(#[trigger] blacklist[i], player_id, steam_id)
}

/// True when some blacklist entry matches the player.
pub fn blacklisted(blacklist: &Vec<BlacklistEntry>, player_id: &str, steam_id: Option<u64>) -> (r: bool)
    ensures
        r == is_blacklisted(blacklist@, player_id@, steam_id),
{
    let id = to_owned_string(player_id);
    let mut i: usize = 0;
    while i < blacklist.len()
        invariant
            i <= blacklist@.len(),
            id@ == player_id@,
            forall|q: int| 0 <= q < i ==> !entry_matches(#[trigger] blacklist@[q], player_id@, steam_id),
        decreases blacklist@.len() - i,
    {
        let e = &blacklist[i];
        let steam_match = match (e.steam_id, steam_id) {
            (Some(a), Some(b)) => a == b,
            _ => false,
        };
        if e.player_id == id || steam_match {
            proof { assert(entry_matches(blacklist@[i as int], player_id@, steam_id)); }
            return true;
        }
        i += 1;
    }
    false
}

/// Some player of the registry has the given player id.
pub open spec fn registry_has_id(registry: Map<ClientId, AuthenticatedPlayer>, player_id: Seq<char>) -> bool {
    exists|k: ClientId| #[trigger] registry.contains_key(k) && registry[k].player_id@ == player_id
}

/// The password check: the server is unprotected, or the client gave a password whose
/// hex SHA-256 equals the stored hash.
pub open spec fn password_accepted(settings: ServerAccessSettings, password: Option<String>) -> bool {
    !settings.password_protected || match (password, settings.password_hash) {
        (Some(pw), Some(hash)) => hex_lower(sha256_digest(vstd::utf8::encode_utf8(pw@))) == hash@,
        _ => false,
    }
}

/// The first access rule that refuses a verified player, in the order: one session per
/// player (when duplicates are refused), capacity, blacklist, whitelist, password.
pub open spec fn access_verdict(
    registry: Map<ClientId, AuthenticatedPlayer>,
    count: nat,
    settings: ServerAccessSettings,
    pending: PendingAuthData,
    player_id: Seq<char>,
    reject_duplicate_sessions: bool,
) -> Option<AuthRejection> {
    if reject_duplicate_sessions && registry_has_id(registry, player_id) {
        Some(AuthRejection::AlreadyConnected)
    } else if settings.max_players != -1 && (count as i32) >= settings.max_players {
        Some(AuthRejection::ServerFull)
    } else if is_blacklisted(settings.blacklist@, player_id, pending.steam_id) {
        Some(AuthRejection::Banned)
    } else if settings.whitelist@.len() != 0 && !settings.whitelist@.map_values(|n: String| n@).contains(pending.display_name@) {
        Some(AuthRejection::NotWhitelisted)
    } else if !password_accepted(settings, pending.password) {
        Some(AuthRejection::WrongPassword)
    } else {
        None
    }
}

/// The name is one of the whitelist's names.
pub open spec fn on_whitelist(whitelist: Seq<String>, name: Seq<char>) -> bool {
    exists|i: int| 0 <= i < whitelist.len() && #[trigger] whitelist[i]@ == name
}

/// A verified player is admitted exactly when every access rule lets it in: it has no
/// other session (where those are refused), the server has room, no blacklist entry
/// matches it, the whitelist is empty or names it, and its password is accepted. A
/// refusal names a rule that the player fails: in particular a player whose name a
/// non-empty whitelist lacks is never admitted.
pub proof fn admission_follows_the_rules(
    registry: Map<ClientId, AuthenticatedPlayer>,
    count: nat,
    settings: ServerAccessSettings,
    pending: PendingAuthData,
    player_id: Seq<char>,
    reject_duplicate_sessions: bool,
)
    ensures
        access_verdict(registry, count, settings, pending, player_id, reject_duplicate_sessions) is None <==> {
            &&& !(reject_duplicate_sessions && registry_has_id(registry, player_id))
            &&& (settings.max_players == -1 || (count as i32) < settings.max_players)
            &&& !is_blacklisted(settings.blacklist@, player_id, pending.steam_id)
            &&& (settings.whitelist@.len() == 0 || on_whitelist(settings.whitelist@, pending.display_name@))
            &&& password_accepted(settings, pending.password)
        },
        settings.whitelist@.len() != 0 && !on_whitelist(settings.whitelist@, pending.display_name@) ==>
            access_verdict(registry, count, settings, pending, player_id, reject_duplicate_sessions) is Some,
        access_verdict(registry, count, settings, pending, player_id, reject_duplicate_sessions)
            == Some(AuthRejection::NotWhitelisted) ==>
            settings.whitelist@.len() != 0 && !on_whitelist(settings.whitelist@, pending.display_name@),
        access_verdict(registry, count, settings, pending, player_id, reject_duplicate_sessions)
            == Some(AuthRejection::Banned) ==> is_blacklisted(settings.blacklist@, player_id, pending.steam_id),
        access_verdict(registry, count, settings, pending, player_id, reject_duplicate_sessions)
            == Some(AuthRejection::WrongPassword) ==> !password_accepted(settings, pending.password),
        access_verdict(registry, count, settings, pending, player_id, reject_duplicate_sessions)
            == Some(AuthRejection::ServerFull) ==> settings.max_players != -1 && (count as i32) >= settings.max_players,
        access_verdict(registry, count, settings, pending, player_id, reject_duplicate_sessions)
            == Some(AuthRejection::AlreadyConnected) ==> reject_duplicate_sessions && registry_has_id(registry, player_id),
{
    let names = settings.whitelist@.map_values(|n: String| n@);
    let name = pending.display_name@;
    assert(names.contains(name) <==> on_whitelist(settings.whitelist@, name)) by {
        if names.contains(name) {
            let i = choose|i: int| 0 <= i < names.len() && names[i] == name;
            assert(settings.whitelist@[i]@ == name);
        }
        if on_whitelist(settings.whitelist@, name) {
            let i = choose|i: int| 0 <= i < settings.whitelist@.len() && #[trigger] settings.whitelist@[i]@ == name;
            assert(names[i] == name);
        }
    }
}

/// The role a newly accepted player gets: the stored one; `Owner` when the table has
/// no owner yet (the table then records it); else `Player`.
pub open spec fn assigned_role(roles: Map<Seq<char>, PlayerRole>, player_id: Seq<char>) -> PlayerRole {
    if roles.contains_key(player_id) {
        roles[player_id]
    } else if forall|k: Seq<char>| #[trigger] roles.contains_key(k) ==> roles[k] != PlayerRole::Owner {
        PlayerRole::Owner
    } else {
        PlayerRole::Player
    }
}

/// Whether accepting the player adds it to the role table (as the first owner).
pub open spec fn role_table_grows(roles: Map<Seq<char>, PlayerRole>, player_id: Seq<char>) -> bool {
    !roles.contains_key(player_id) && forall|k: Seq<char>| #[trigger] roles.contains_key(k) ==> roles[k] != PlayerRole::Owner
}

/// What the server does with a client's answer to its challenge.
pub struct AuthOutcome {
    /// The verdict to send back to the client.
    pub result: ServerAuthResult,
    /// The role given to an accepted player (to attach to its entity and announce).
    pub assigned: Option<PlayerRoleAssigned>,
    /// Whether the role table changed and must be saved.
    pub roles_changed: bool,
}

fn names_contain(names: &Vec<String>, name: &String) -> (r: bool)
    ensures
        r == names@.map_values(|n: String| n@).contains(name@),
{
    let mut i: usize = 0;
    while i < names.len()
        invariant
            i <= names@.len(),
            forall|q: int| 0 <= q < i ==> #[trigger] names@[q]@ != name@,
        decreases names@.len() - i,
    {
        if names[i] == *name {
            proof { assert(names@.map_values(|n: String| n@)[i as int] == name@); }
            return true;
        }
        i += 1;
    }
    proof {
        if names@.map_values(|n: String| n@).contains(name@) {
            let vs = names@.map_values(|n: String| n@);
            let q = choose|q: int| 0 <= q < vs.len() && #[trigger] vs[q] == name@;
            assert(names@[q]@ == name@);
        }
    }
    false
}

fn registry_contains_id(registry: &PlayerRegistry, player_id: &String) -> (r: bool)
    requires
        registry.0.wf(),
    ensures
        r == registry_has_id(registry.0@, player_id@),
{
    proof { registry.0.lemma_entries(); }
    let mut i: usize = 0;
    while i < registry.0.len()
        invariant
            registry.0.wf(),
            i <= registry.0.count(),
            forall|q: int| 0 <= q < i ==> #[trigger] registry.0.entry_at(q).1.player_id@ != player_id@,
        decreases registry.0.count() - i,
    {
        let (_, p) = registry.0.entry(i);
        if p.player_id == *player_id {
            proof {
                registry.0.lemma_entries();
                let k = registry.0.entry_at(i as int).0;
                assert(registry.0@.contains_key(k));
            }
            return true;
        }
        i += 1;
    }
    proof {
        registry.0.lemma_entries();
        if registry_has_id(registry.0@, player_id@) {
            let k = choose|k: ClientId| #[trigger] registry.0@.contains_key(k) && registry.0@[k].player_id@ == player_id@;
            let q = choose|q: int| 0 <= q < registry.0.count() && #[trigger] registry.0.entry_at(q).0 == k;
            assert(registry.0.entry_at(q).1.player_id@ != player_id@);
        }
    }
    false
}

/// Whether the password check passes for the given client password.
pub fn check_password(settings: &ServerAccessSettings, password: &Option<String>) -> (r: bool)
    ensures
        r == password_accepted(*settings, *password),
{
    if !settings.password_protected {
        return true;
    }
    match (password, &settings.password_hash) {
        (Some(pw), Some(hash)) => {
            let digest = sha256(pw.as_str().as_bytes());
            let client_hash = hex_encode(&digest);
            client_hash == *hash
        },
        _ => false,
    }
}

/// Applies the access rules to a player whose signature verified: the first rule that
/// refuses it (see [`access_verdict`]), or `None` when it may join.
pub fn check_access(
    registry: &PlayerRegistry,
    settings: &ServerAccessSettings,
    pending: &PendingAuthData,
    player_id: &String,
    reject_duplicate_sessions: bool,
) -> (r: Option<AuthRejection>)
    requires
        registry.0.wf(),
    ensures
        r == access_verdict(registry.0@, registry.0.count(), *settings, *pending, player_id@, reject_duplicate_sessions),
{
    if reject_duplicate_sessions && registry_contains_id(registry, player_id) {
        return Some(AuthRejection::AlreadyConnected);
    }
    if settings.max_players != -1 && (registry.0.len() as i32) >= settings.max_players {
        return Some(AuthRejection::ServerFull);
    }
    if blacklisted(&settings.blacklist, player_id.as_str(), pending.steam_id) {
        return Some(AuthRejection::Banned);
    }
    if settings.whitelist.len() != 0 && !names_contain(&settings.whitelist, &pending.display_name) {
        return Some(AuthRejection::NotWhitelisted);
    }
    if !check_password(settings, &pending.password) {
        return Some(AuthRejection::WrongPassword);
    }
    None
}

/// The player a successful handshake registers.
pub open spec fn registered_player(
    client_id: ClientId,
    pending: PendingAuthData,
    player_id: Seq<char>,
    role: PlayerRole,
    p: AuthenticatedPlayer,
) -> bool {
    &&& p.player_id@ == player_id
    &&& p.display_name == pending.display_name
    &&& p.steam_id == pending.steam_id
    &&& p.public_key == pending.public_key
    &&& p.entity == (match client_id { ClientId::Client(e) => e, ClientId::Server => placeholder_entity() })
    &&& p.role == role
}

/// Phase 2, step 1: a client sent its public key; records the handshake with the given
/// nonce and gives the challenge to send back.
pub fn register_hello(
    pending: &mut PendingAuths,
    client_id: ClientId,
    hello: &ClientIdentityHello,
    nonce: [u8; 32],
) -> (r: ServerAuthChallenge)
    requires
        old(pending).0.wf(),
    ensures
        final(pending).0.wf(),
        final(pending).0@.contains_key(client_id),
        final(pending).0@ == old(pending).0@.insert(client_id, final(pending).0@[client_id]),
        final(pending).0@[client_id].public_key == hello.public_key,
        final(pending).0@[client_id].display_name@ == hello.display_name@,
        final(pending).0@[client_id].steam_id == hello.steam_id,
        final(pending).0@[client_id].nonce == nonce,
        final(pending).0@[client_id].password == hello.password,
        r.nonce == nonce,
{
    let data = PendingAuthData {
        public_key: hello.public_key,
        display_name: to_owned_string(hello.display_name.as_str()),
        steam_id: hello.steam_id,
        nonce,
        password: hello.password.clone(),
    };
    pending.0.insert(client_id, data);
    ServerAuthChallenge { nonce }
}

/// Phase 2, step 1, with a fresh random nonce from the operating system.
pub fn handle_client_identity_hello(
    pending: &mut PendingAuths,
    client_id: ClientId,
    hello: &ClientIdentityHello,
) -> (r: ServerAuthChallenge)
    requires
        old(pending).0.wf(),
    ensures
        final(pending).0.wf(),
        final(pending).0@.contains_key(client_id),
        final(pending).0@ == old(pending).0@.insert(client_id, final(pending).0@[client_id]),
        final(pending).0@[client_id].public_key == hello.public_key,
        final(pending).0@[client_id].display_name@ == hello.display_name@,
        final(pending).0@[client_id].steam_id == hello.steam_id,
        final(pending).0@[client_id].password == hello.password,
        final(pending).0@[client_id].nonce == r.nonce,
{
    let nonce = random_nonce();
    register_hello(pending, client_id, hello, nonce)
}

/// Phase 2, step 2: the client answered the challenge. Ends the client's handshake and
/// decides: no open handshake, an invalid signature, or the first refusing access rule
/// reject it; otherwise the player is registered with its role (the first player of a
/// table without owner becomes `Owner`, and the table records it).
pub fn handle_client_auth_response(
    client_id: ClientId,
    response: &ClientAuthResponse,
    pending: &mut PendingAuths,
    registry: &mut PlayerRegistry,
    roles: &mut PlayerRoles,
    settings: &ServerAccessSettings,
    reject_duplicate_sessions: bool,
) -> (r: AuthOutcome)
    requires
        old(pending).0.wf(),
        old(registry).0.wf(),
    ensures
        final(pending).0.wf(),
        final(registry).0.wf(),
        final(pending).0@ == old(pending).0@.remove(client_id),
        !old(pending).0@.contains_key(client_id) ==> {
            &&& is_rejection_result(r.result, AuthRejection::NoPendingHandshake)
            &&& r.assigned is None && !r.roles_changed
            &&& final(registry).0@ == old(registry).0@ && final(roles)@ == old(roles)@
        },
        old(pending).0@.contains_key(client_id) ==> {
            let p = old(pending).0@[client_id];
            let id = player_id_of(p.public_key@);
            let verified = response.signature@.len() == 64 && ed25519_accepts(p.public_key@, p.nonce@, response.signature@);
            let verdict = access_verdict(old(registry).0@, old(registry).0.count(), *settings, p, id, reject_duplicate_sessions);
            let role = assigned_role(old(roles)@, id);
            if !verified {
                &&& is_rejection_result(r.result, AuthRejection::InvalidSignature)
                &&& r.assigned is None && !r.roles_changed
                &&& final(registry).0@ == old(registry).0@ && final(roles)@ == old(roles)@
            } else if verdict is Some {
                &&& is_rejection_result(r.result, verdict.unwrap())
                &&& r.assigned is None && !r.roles_changed
                &&& final(registry).0@ == old(registry).0@ && final(roles)@ == old(roles)@
            } else {
                &&& r.result.accepted && r.result.player_id@ == id && r.result.reason is None
                &&& r.roles_changed == role_table_grows(old(roles)@, id)
                &&& final(roles)@ == (if role_table_grows(old(roles)@, id) { old(roles)@.insert(id, PlayerRole::Owner) } else { old(roles)@ })
                &&& final(registry).0@.contains_key(client_id)
                &&& final(registry).0@ == old(registry).0@.insert(client_id, final(registry).0@[client_id])
                &&& registered_player(client_id, p, id, role, final(registry).0@[client_id])
                &&& (r.assigned matches Some(a) && a.client_id == client_id && a.player_id@ == id
                    && a.role == role && a.entity == final(registry).0@[client_id].entity)
            }
        },
{
    let pending_data = match pending.0.remove(&client_id) {
        Some(p) => p,
        None => {
            return AuthOutcome {
                result: rejection_result(AuthRejection::NoPendingHandshake),
                assigned: None,
                roles_changed: false,
            };
        },
    };
    if !ed25519_verify(&pending_data.public_key, &pending_data.nonce, response.signature.as_slice()) {
        return AuthOutcome {
            result: rejection_result(AuthRejection::InvalidSignature),
            assigned: None,
            roles_changed: false,
        };
    }
    let player_id = player_id_for(&pending_data.public_key);
    match check_access(registry, settings, &pending_data, &player_id, reject_duplicate_sessions) {
        Some(why) => {
            return AuthOutcome { result: rejection_result(why), assigned: None, roles_changed: false };
        },
        None => {},
    }
    let entity = match client_id.entity() {
        Some(e) => e,
        None => EntityId::placeholder(),
    };
    let mut roles_changed = false;
    let role = match roles.stored(player_id.as_str()) {
        Some(stored) => stored,
        None => {
            if roles.has_no_owner() {
                roles.insert(to_owned_string(player_id.as_str()), PlayerRole::Owner);
                roles_changed = true;
                PlayerRole::Owner
            } else {
                PlayerRole::Player
            }
        },
    };
    let player = AuthenticatedPlayer {
        player_id: to_owned_string(player_id.as_str()),
        display_name: pending_data.display_name,
        steam_id: pending_data.steam_id,
        public_key: pending_data.public_key,
        entity,
        role,
    };
    registry.0.insert(client_id, player);
    let assigned = PlayerRoleAssigned { client_id, player_id: to_owned_string(player_id.as_str()), entity, role };
    AuthOutcome {
        result: ServerAuthResult { accepted: true, player_id, reason: None },
        assigned: Some(assigned),
        roles_changed,
    }
}

/// The session entities of all registered players that the blacklist now matches
/// (they are to be disconnected), in registry order.
pub fn banned_players(settings: &ServerAccessSettings, registry: &PlayerRegistry) -> (r: Vec<EntityId>)
    requires
        registry.0.wf(),
    ensures
        forall|e: EntityId| r@.contains(e) <==> exists|k: ClientId| #[trigger] registry.0@.contains_key(k)
            && registry.0@[k].entity == e
            && is_blacklisted(settings.blacklist@, registry.0@[k].player_id@, registry.0@[k].steam_id),
{
    let mut out: Vec<EntityId> = Vec::new();
    let mut i: usize = 0;
    proof { registry.0.lemma_entries(); }
    while i < registry.0.len()
        invariant
            registry.0.wf(),
            i <= registry.0.count(),
            forall|e: EntityId| out@.contains(e) <==> exists|q: int| 0 <= q < i
                && (#[trigger] registry.0.entry_at(q)).1.entity == e
                && is_blacklisted(settings.blacklist@, registry.0.entry_at(q).1.player_id@, registry.0.entry_at(q).1.steam_id),
        decreases registry.0.count() - i,
    {
        let (_, p) = registry.0.entry(i);
        if blacklisted(&settings.blacklist, p.player_id.as_str(), p.steam_id) {
            let ghost before = out@;
            out.push(p.entity);
            proof {
                assert forall|e: EntityId| out@.contains(e) <==> exists|q: int| 0 <= q < i + 1
                    && (#[trigger] registry.0.entry_at(q)).1.entity == e
                    && is_blacklisted(settings.blacklist@, registry.0.entry_at(q).1.player_id@, registry.0.entry_at(q).1.steam_id) by {
                    if out@.contains(e) {
                        let w = choose|w: int| 0 <= w < out@.len() && out@[w] == e;
                        if w < before.len() {
                            assert(before.contains(e));
                        } else {
                            assert(registry.0.entry_at(i as int).1.entity == e);
                        }
                    }
                    if exists|q: int| 0 <= q < i + 1 && (#[trigger] registry.0.entry_at(q)).1.entity == e
                        && is_blacklisted(settings.blacklist@, registry.0.entry_at(q).1.player_id@, registry.0.entry_at(q).1.steam_id) {
                        let q = choose|q: int| 0 <= q < i + 1 && (#[trigger] registry.0.entry_at(q)).1.entity == e
                            && is_blacklisted(settings.blacklist@, registry.0.entry_at(q).1.player_id@, registry.0.entry_at(q).1.steam_id);
                        if q < i {
                            assert(before.contains(e));
                            let w = choose|w: int| 0 <= w < before.len() && before[w] == e;
                            assert(out@[w] == e);
                        } else {
                            assert(out@[before.len() as int] == e);
                        }
                    }
                }
            }
        }
        i += 1;
    }
    proof {
        registry.0.lemma_entries();
        assert forall|e: EntityId| out@.contains(e) <==> exists|k: ClientId| #[trigger] registry.0@.contains_key(k)
            && registry.0@[k].entity == e
            && is_blacklisted(settings.blacklist@, registry.0@[k].player_id@, registry.0@[k].steam_id) by {
            if out@.contains(e) {
                let q = choose|q: int| 0 <= q < registry.0.count()
                    && (#[trigger] registry.0.entry_at(q)).1.entity == e
                    && is_blacklisted(settings.blacklist@, registry.0.entry_at(q).1.player_id@, registry.0.entry_at(q).1.steam_id);
                let k = registry.0.entry_at(q).0;
                assert(registry.0@.contains_key(k));
            }
            if exists|k: ClientId| #[trigger] registry.0@.contains_key(k) && registry.0@[k].entity == e
                && is_blacklisted(settings.blacklist@, registry.0@[k].player_id@, registry.0@[k].steam_id) {
                let k = choose|k: ClientId| #[trigger] registry.0@.contains_key(k) && registry.0@[k].entity == e
                    && is_blacklisted(settings.blacklist@, registry.0@[k].player_id@, registry.0@[k].steam_id);
                let q = choose|q: int| 0 <= q < registry.0.count() && #[trigger] registry.0.entry_at(q).0 == k;
                assert(registry.0.entry_at(q).1 == registry.0@[k]);
            }
        }
    }
    out
}

} // verus!
