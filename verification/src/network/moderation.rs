//! Who may moderate whom, and the hosting player's ownership of a new server.

use vstd::prelude::*;
use crate::content::roles::{role_rank, PlayerRole, PlayerRoles};

verus! {

/// A moderation action.
#[derive(Debug, Clone, Copy, PartialEq, Eq, Structural)]
pub enum ModAction {
    Kick,
    TempBan,
    Ban,
    Promote,
}

/// The least role that may take `action`: moderators kick and temp-ban, admins ban and
/// promote.
pub open spec fn required_rank(action: ModAction) -> int {
    match action {
        ModAction::Kick => role_rank(PlayerRole::Moderator),
        ModAction::TempBan => role_rank(PlayerRole::Moderator),
        ModAction::Ban => role_rank(PlayerRole::Admin),
        ModAction::Promote => role_rank(PlayerRole::Admin),
    }
}

/// True when a player with `role` may take `action`.
pub fn can(role: PlayerRole, action: ModAction) -> (r: bool)
    ensures
        r == (role_rank(role) >= required_rank(action)),
{
    match action {
        ModAction::Kick => role.at_least(PlayerRole::Moderator),
        ModAction::TempBan => role.at_least(PlayerRole::Moderator),
        ModAction::Ban => role.at_least(PlayerRole::Admin),
        ModAction::Promote => role.at_least(PlayerRole::Admin),
    }
}

/// A higher role may do everything a lower one may.
pub proof fn lemma_can_monotone(low: PlayerRole, high: PlayerRole, action: ModAction)
    requires
        role_rank(low) <= role_rank(high),
        role_rank(low) >= required_rank(action),
    ensures
        role_rank(high) >= required_rank(action),
{
}

/// Who may take each action: moderators and above kick and temp-ban; only admins and
/// the owner ban and promote; players take none of them.
pub proof fn moderation_rights(role: PlayerRole, action: ModAction)
    ensures
        role_rank(role) >= required_rank(action) <==> match action {
            ModAction::Kick | ModAction::TempBan => role != PlayerRole::Player,
            ModAction::Ban | ModAction::Promote => role == PlayerRole::Admin || role == PlayerRole::Owner,
        },
{
}

/// When a hosted server starts: the hosting player becomes `Owner` if the role table
/// has no owner yet; the result says whether the table changed (and must be saved).
pub fn assign_local_player_as_owner(roles: &mut PlayerRoles, player_id: &str) -> (r: bool)
    ensures
        r == (forall|k: Seq<char>| #[trigger] old(roles)@.contains_key(k) ==> old(roles)@[k] != PlayerRole::Owner),
        r ==> final(roles)@ == old(roles)@.insert(player_id@, PlayerRole::Owner),
        !r ==> final(roles)@ == old(roles)@,
{
    if roles.has_no_owner() {
        roles.insert(crate::text::to_owned_string(player_id), PlayerRole::Owner);
        true
    } else {
        false
    }
}

} // verus!
