//! The session step machines: for each step of connecting, syncing, disconnecting,
//! starting, stopping and changing visibility, what the game does given what exists.
//! Each function takes the state and what it observes, and gives the commands to run
//! and the step event to fire.

use vstd::prelude::*;
use crate::network::ids::EntityId;
use crate::text::{decimal, to_owned_string, usize_to_decimal};

verus! {

/// A step event of a step machine.
#[derive(Debug, Clone, Copy, PartialEq, Eq, Structural)]
pub enum StepEvent {
    Start,
    Next,
    Done,
    Failed,
}

/// A notification for the player.
#[derive(Debug, Clone)]
pub enum Notification {
    Info(String),
    Error(String),
}

/// A command of the session logic.
#[derive(Debug, Clone)]
pub enum SessionCommand {
    /// Disconnect a client, with a reason.
    Disconnect(EntityId, String),
    /// Close a server, with a reason.
    Close(EntityId, String),
    /// Remove an entity.
    Despawn(EntityId),
    /// Show a notification.
    Notify(Notification),
}

/// The model of a command: its kind, entity and text.
pub enum CommandView {
    Disconnect(EntityId, Seq<char>),
    Close(EntityId, Seq<char>),
    Despawn(EntityId),
    NotifyInfo(Seq<char>),
    NotifyError(Seq<char>),
}

impl View for SessionCommand {
    type V = CommandView;

    open spec fn view(&self) -> CommandView {
        match self {
            SessionCommand::Disconnect(e, r) => CommandView::Disconnect(*e, r@),
            SessionCommand::Close(e, r) => CommandView::Close(*e, r@),
            SessionCommand::Despawn(e) => CommandView::Despawn(*e),
            SessionCommand::Notify(Notification::Info(m)) => CommandView::NotifyInfo(m@),
            SessionCommand::Notify(Notification::Error(m)) => CommandView::NotifyError(m@),
        }
    }
}

/// What a step does: the commands, in order, and the step event, if any.
pub struct StepOutcome {
    pub commands: Vec<SessionCommand>,
    pub event: Option<StepEvent>,
}

/// The commands of an outcome, as models.
pub open spec fn commands_view(v: Seq<SessionCommand>) -> Seq<CommandView> {
    v.map_values(|c: SessionCommand| c@)
}

/// A disconnect of each of `clients`, in order, with `reason`.
pub open spec fn disconnect_all(clients: Seq<EntityId>, reason: Seq<char>) -> Seq<CommandView> {
    clients.map_values(|e: EntityId| CommandView::Disconnect(e, reason))
}

/// A close of each of `servers`, in order, with `reason`.
pub open spec fn close_all(servers: Seq<EntityId>, reason: Seq<char>) -> Seq<CommandView> {
    servers.map_values(|e: EntityId| CommandView::Close(e, reason))
}

/// A despawn of each of `entities`, in order.
pub open spec fn despawn_all(entities: Seq<EntityId>) -> Seq<CommandView> {
    entities.map_values(|e: EntityId| CommandView::Despawn(e))
}

fn disconnect_each(clients: &Vec<EntityId>, reason: &str, out: &mut Vec<SessionCommand>)
    ensures
        commands_view(final(out)@) == commands_view(old(out)@) + disconnect_all(clients@, reason@),
{
    let ghost start = commands_view(out@);
    let mut i: usize = 0;
    while i < clients.len()
        invariant
            i <= clients@.len(),
            commands_view(out@) == start + disconnect_all(clients@.take(i as int), reason@),
        decreases clients@.len() - i,
    {
        let ghost b = commands_view(out@);
        out.push(SessionCommand::Disconnect(clients[i], to_owned_string(reason)));
        proof {
            assert(commands_view(out@) =~= b.push(CommandView::Disconnect(clients@[i as int], reason@)));
            assert(disconnect_all(clients@.take(i + 1), reason@)
                =~= disconnect_all(clients@.take(i as int), reason@).push(CommandView::Disconnect(clients@[i as int], reason@)));
            assert(commands_view(out@) =~= start + disconnect_all(clients@.take(i + 1), reason@));
        }
        i += 1;
    }
    proof { assert(clients@.take(i as int) =~= clients@); }
}

fn close_each(servers: &Vec<EntityId>, reason: &str, out: &mut Vec<SessionCommand>)
    ensures
        commands_view(final(out)@) == commands_view(old(out)@) + close_all(servers@, reason@),
{
    let ghost start = commands_view(out@);
    let mut i: usize = 0;
    while i < servers.len()
        invariant
            i <= servers@.len(),
            commands_view(out@) == start + close_all(servers@.take(i as int), reason@),
        decreases servers@.len() - i,
    {
        let ghost b = commands_view(out@);
        out.push(SessionCommand::Close(servers[i], to_owned_string(reason)));
        proof {
            assert(commands_view(out@) =~= b.push(CommandView::Close(servers@[i as int], reason@)));
            assert(close_all(servers@.take(i + 1), reason@)
                =~= close_all(servers@.take(i as int), reason@).push(CommandView::Close(servers@[i as int], reason@)));
            assert(commands_view(out@) =~= start + close_all(servers@.take(i + 1), reason@));
        }
        i += 1;
    }
    proof { assert(servers@.take(i as int) =~= servers@); }
}

fn despawn_each(entities: &Vec<EntityId>, out: &mut Vec<SessionCommand>)
    ensures
        commands_view(final(out)@) == commands_view(old(out)@) + despawn_all(entities@),
{
    let ghost start = commands_view(out@);
    let mut i: usize = 0;
    while i < entities.len()
        invariant
            i <= entities@.len(),
            commands_view(out@) == start + despawn_all(entities@.take(i as int)),
        decreases entities@.len() - i,
    {
        let ghost b = commands_view(out@);
        out.push(SessionCommand::Despawn(entities[i]));
        proof {
            assert(commands_view(out@) =~= b.push(CommandView::Despawn(entities@[i as int])));
            assert(despawn_all(entities@.take(i + 1))
                =~= despawn_all(entities@.take(i as int)).push(CommandView::Despawn(entities@[i as int])));
            assert(commands_view(out@) =~= start + despawn_all(entities@.take(i + 1)));
        }
        i += 1;
    }
    proof { assert(entities@.take(i as int) =~= entities@); }
}

// ─── Client ─────────────────────────────────────────────────────────────────

/// The steps of connecting to a server.
#[derive(Debug, Clone, Copy, PartialEq, Eq, Structural)]
pub enum ConnectingStep {
    OpeningConnection,
    Authenticating,
    WaitingForAccept,
    Ready,
}

/// The steps of syncing the world after connecting.
#[derive(Debug, Clone, Copy, PartialEq, Eq, Structural)]
pub enum SyncingStep {
    RequestWorld,
    ReceiveChunks,
    SpawnEntities,
    Ready,
}

/// The steps of disconnecting from a server.
#[derive(Debug, Clone, Copy, PartialEq, Eq, Structural)]
pub enum DisconnectingStep {
    SendDisconnect,
    WaitForAck,
    Cleanup,
    Ready,
}

/// Where the client's connection stands.
#[derive(Debug, Clone, Copy, PartialEq, Eq, Structural)]
pub enum ClientConnectionStatus {
    Disconnected,
    Connecting,
    Syncing,
    Connected,
    Playing,
    Disconnecting,
}

/// The connecting steps advance by themselves only from `Ready`, which finishes; the
/// others wait for the connection and the handshake.
pub fn advance_connecting_steps(step: ConnectingStep) -> (r: Option<StepEvent>)
    ensures
        r == (if step == ConnectingStep::Ready { Some(StepEvent::Done) } else { None::<StepEvent> }),
{
    match step {
        ConnectingStep::Ready => Some(StepEvent::Done),
        _ => None,
    }
}

/// Syncing advances one step per frame and finishes from `Ready`.
pub fn client_syncing(step: SyncingStep) -> (r: StepEvent)
    ensures
        r == (if step == SyncingStep::Ready { StepEvent::Done } else { StepEvent::Next }),
{
    match step {
        SyncingStep::Ready => StepEvent::Done,
        _ => StepEvent::Next,
    }
}

/// The reason given when the client disconnects.
pub open spec fn client_disconnect_reason() -> Seq<char> {
    "client disconnecting"@
}

/// One frame of disconnecting, given the local client entities: send the disconnect
/// (to the one client, when there is exactly one) and go on; go on after the
/// acknowledgement step; despawn the one client, or go on once there is none; finish.
pub fn client_disconnecting(step: DisconnectingStep, local_clients: &Vec<EntityId>) -> (r: StepOutcome)
    ensures
        match step {
            DisconnectingStep::SendDisconnect => r.event == Some(StepEvent::Next)
                && commands_view(r.commands@) == (if local_clients@.len() == 1 {
                    seq![CommandView::Disconnect(local_clients@[0], client_disconnect_reason())]
                } else {
                    seq![]
                }),
            DisconnectingStep::WaitForAck => r.event == Some(StepEvent::Next) && r.commands@.len() == 0,
            DisconnectingStep::Cleanup => if local_clients@.len() == 1 {
                r.event is None && commands_view(r.commands@) == seq![CommandView::Despawn(local_clients@[0])]
            } else if local_clients@.len() == 0 {
                r.event == Some(StepEvent::Next) && r.commands@.len() == 0
            } else {
                r.event is None && r.commands@.len() == 0
            },
            DisconnectingStep::Ready => r.event == Some(StepEvent::Done) && r.commands@.len() == 0,
        },
{
    let mut commands: Vec<SessionCommand> = Vec::new();
    match step {
        DisconnectingStep::SendDisconnect => {
            if local_clients.len() == 1 {
                commands.push(SessionCommand::Disconnect(local_clients[0], to_owned_string("client disconnecting")));
                proof { assert(commands_view(commands@) =~= seq![CommandView::Disconnect(local_clients@[0], client_disconnect_reason())]); }
            } else {
                proof { assert(commands_view(commands@) =~= seq![]); }
            }
            StepOutcome { commands, event: Some(StepEvent::Next) }
        },
        DisconnectingStep::WaitForAck => StepOutcome { commands, event: Some(StepEvent::Next) },
        DisconnectingStep::Cleanup => {
            if local_clients.len() == 1 {
                commands.push(SessionCommand::Despawn(local_clients[0]));
                proof { assert(commands_view(commands@) =~= seq![CommandView::Despawn(local_clients@[0])]); }
                StepOutcome { commands, event: None }
            } else if local_clients.len() == 0 {
                StepOutcome { commands, event: Some(StepEvent::Next) }
            } else {
                StepOutcome { commands, event: None }
            }
        },
        DisconnectingStep::Ready => StepOutcome { commands, event: Some(StepEvent::Done) },
    }
}

/// Why a connection ended, with its text.
#[derive(Debug, Clone)]
pub enum DisconnectCause {
    /// This side closed it.
    ByUser(String),
    /// The other side closed it.
    ByPeer(String),
    /// It failed.
    ByError(String),
}

/// The notification for a lost connection: none when this side closed it.
pub open spec fn disconnect_notice(cause: DisconnectCause) -> Option<CommandView> {
    match cause {
        DisconnectCause::ByPeer(m) => Some(CommandView::NotifyInfo("Server closed connection: "@ + m@)),
        DisconnectCause::ByError(m) => Some(CommandView::NotifyError("Connection lost: "@ + m@)),
        DisconnectCause::ByUser(_) => None,
    }
}

/// The notification for a lost connection.
pub fn notify_disconnect(cause: &DisconnectCause) -> (r: Option<SessionCommand>)
    ensures
        match r {
            Some(c) => disconnect_notice(*cause) == Some(c@),
            None => disconnect_notice(*cause) is None,
        },
{
    match cause {
        DisconnectCause::ByPeer(m) => {
            let mut s = to_owned_string("Server closed connection: ");
            s.append(m.as_str());
            Some(SessionCommand::Notify(Notification::Info(s)))
        },
        DisconnectCause::ByError(m) => {
            let mut s = to_owned_string("Connection lost: ");
            s.append(m.as_str());
            Some(SessionCommand::Notify(Notification::Error(s)))
        },
        DisconnectCause::ByUser(_) => None,
    }
}

/// Which step machine reacts to a lost connection, and how.
#[derive(Debug, Clone, Copy, PartialEq, Eq, Structural)]
pub enum DisconnectReaction {
    /// Nothing happens.
    Ignore,
    /// The connecting machine fails.
    ConnectingFailed,
    /// The disconnecting machine starts.
    DisconnectingStart,
}

/// A lost connection while connected or syncing fails the connection; while playing it
/// starts disconnecting; otherwise nothing happens. In the first two cases the player
/// is told (see [`disconnect_notice`]).
pub fn on_client_disconnected(status: ClientConnectionStatus, cause: &DisconnectCause) -> (r: (DisconnectReaction, Option<SessionCommand>))
    ensures
        (status == ClientConnectionStatus::Connected || status == ClientConnectionStatus::Syncing) ==>
            r.0 == DisconnectReaction::ConnectingFailed,
        status == ClientConnectionStatus::Playing ==> r.0 == DisconnectReaction::DisconnectingStart,
        (status != ClientConnectionStatus::Connected && status != ClientConnectionStatus::Syncing
            && status != ClientConnectionStatus::Playing) ==> (r.0 == DisconnectReaction::Ignore && r.1 is None),
        r.0 != DisconnectReaction::Ignore ==> match r.1 {
            Some(c) => disconnect_notice(*cause) == Some(c@),
            None => disconnect_notice(*cause) is None,
        },
{
    match status {
        ClientConnectionStatus::Connected | ClientConnectionStatus::Syncing => {
            (DisconnectReaction::ConnectingFailed, notify_disconnect(cause))
        },
        ClientConnectionStatus::Playing => (DisconnectReaction::DisconnectingStart, notify_disconnect(cause)),
        _ => (DisconnectReaction::Ignore, None),
    }
}

/// A failed connection attempt, while connecting: the player is told
/// `Connection Error: ` and the cause's text, the target is marked invalid, and
/// connecting fails. Otherwise nothing happens (`None`).
pub fn on_client_connection_failed(status: ClientConnectionStatus, cause: &DisconnectCause) -> (r: Option<SessionCommand>)
    ensures
        status != ClientConnectionStatus::Connecting ==> r is None,
        status == ClientConnectionStatus::Connecting ==> (r matches Some(c) && c@ == CommandView::NotifyError(
            "Connection Error: "@ + match *cause {
                DisconnectCause::ByUser(m) => m@,
                DisconnectCause::ByPeer(m) => m@,
                DisconnectCause::ByError(m) => m@,
            })),
{
    if status != ClientConnectionStatus::Connecting {
        return None;
    }
    let m = match cause {
        DisconnectCause::ByUser(m) => m,
        DisconnectCause::ByPeer(m) => m,
        DisconnectCause::ByError(m) => m,
    };
    let mut s = to_owned_string("Connection Error: ");
    s.append(m.as_str());
    Some(SessionCommand::Notify(Notification::Error(s)))
}

/// The reaction to the server's verdict on authentication: on acceptance the next
/// connecting step; otherwise the player is told `Verbindung abgelehnt: ` and the reason
/// (`Unbekannter Grund` when none was given) and connecting fails.
pub fn on_auth_result_received(accepted: bool, reason: &Option<String>) -> (r: (StepEvent, Option<SessionCommand>))
    ensures
        accepted ==> r.0 == StepEvent::Next && r.1 is None,
        !accepted ==> r.0 == StepEvent::Failed && (r.1 matches Some(c) && c@ == CommandView::NotifyError(
            "Verbindung abgelehnt: "@ + match *reason {
                Some(m) => m@,
                None => "Unbekannter Grund"@,
            })),
{
    if accepted {
        return (StepEvent::Next, None);
    }
    let mut s = to_owned_string("Verbindung abgelehnt: ");
    match reason {
        Some(m) => s.append(m.as_str()),
        None => s.append("Unbekannter Grund"),
    }
    (StepEvent::Failed, Some(SessionCommand::Notify(Notification::Error(s))))
}

/// The display name the client announces: the player's own, or `Player-` and the first
/// eight characters of the player id.
pub fn hello_display_name(own_name: Option<String>, player_id: &str) -> (r: String)
    requires
        player_id@.len() >= 8,
    ensures
        r@ == match own_name {
            Some(n) => n@,
            None => "Player-"@ + player_id@.take(8),
        },
{
    match own_name {
        Some(n) => n,
        None => {
            let mut s = to_owned_string("Player-");
            s.append(player_id.substring_char(0, 8));
            s
        },
    }
}

// ─── Singleplayer ───────────────────────────────────────────────────────────

/// The steps of shutting down a singleplayer session.
#[derive(Debug, Clone, Copy, PartialEq, Eq, Structural)]
pub enum SingleplayerShutdownStep {
    DisconnectRemoteClients,
    CloseRemoteServer,
    DespawnBots,
    DespawnLocalClient,
    DespawnLocalServer,
}

/// The reason given when a singleplayer session closes.
pub open spec fn singleplayer_reason() -> Seq<char> {
    "Singleplayer closing"@
}

/// What exists while a session shuts down.
pub struct SessionEntities {
    pub remote_clients: Vec<EntityId>,
    pub remote_servers: Vec<EntityId>,
    pub bots: Vec<EntityId>,
    pub local_clients: Vec<EntityId>,
    pub local_servers: Vec<EntityId>,
}

/// One frame of shutting down a singleplayer session: disconnect the remote clients
/// (on once there are none), close the one remote server (on once there is none),
/// despawn the bots (on once there are none), despawn the one local client (on once
/// there is none), despawn the one local server (done once there is none).
pub fn singleplayer_stopping(step: SingleplayerShutdownStep, e: &SessionEntities) -> (r: StepOutcome)
    ensures
        match step {
            SingleplayerShutdownStep::DisconnectRemoteClients =>
                commands_view(r.commands@) == disconnect_all(e.remote_clients@, singleplayer_reason())
                && r.event == (if e.remote_clients@.len() == 0 { Some(StepEvent::Next) } else { None::<StepEvent> }),
            SingleplayerShutdownStep::CloseRemoteServer => if e.remote_servers@.len() == 1 {
                commands_view(r.commands@) == seq![CommandView::Close(e.remote_servers@[0], singleplayer_reason())] && r.event is None
            } else {
                r.commands@.len() == 0 && r.event == (if e.remote_servers@.len() == 0 { Some(StepEvent::Next) } else { None::<StepEvent> })
            },
            SingleplayerShutdownStep::DespawnBots =>
                commands_view(r.commands@) == despawn_all(e.bots@)
                && r.event == (if e.bots@.len() == 0 { Some(StepEvent::Next) } else { None::<StepEvent> }),
            SingleplayerShutdownStep::DespawnLocalClient => if e.local_clients@.len() == 1 {
                commands_view(r.commands@) == seq![CommandView::Despawn(e.local_clients@[0])] && r.event is None
            } else {
                r.commands@.len() == 0 && r.event == (if e.local_clients@.len() == 0 { Some(StepEvent::Next) } else { None::<StepEvent> })
            },
            SingleplayerShutdownStep::DespawnLocalServer => if e.local_servers@.len() == 1 {
                commands_view(r.commands@) == seq![CommandView::Despawn(e.local_servers@[0])] && r.event is None
            } else {
                r.commands@.len() == 0 && r.event == (if e.local_servers@.len() == 0 { Some(StepEvent::Done) } else { None::<StepEvent> })
            },
        },
{
    let mut commands: Vec<SessionCommand> = Vec::new();
    proof { assert(commands_view(commands@) =~= seq![]); }
    match step {
        SingleplayerShutdownStep::DisconnectRemoteClients => {
            disconnect_each(&e.remote_clients, "Singleplayer closing", &mut commands);
            proof { assert(commands_view(commands@) =~= disconnect_all(e.remote_clients@, singleplayer_reason())); }
            let event = if e.remote_clients.len() == 0 { Some(StepEvent::Next) } else { None };
            StepOutcome { commands, event }
        },
        SingleplayerShutdownStep::CloseRemoteServer => {
            if e.remote_servers.len() == 1 {
                commands.push(SessionCommand::Close(e.remote_servers[0], to_owned_string("Singleplayer closing")));
                proof { assert(commands_view(commands@) =~= seq![CommandView::Close(e.remote_servers@[0], singleplayer_reason())]); }
                StepOutcome { commands, event: None }
            } else if e.remote_servers.len() == 0 {
                StepOutcome { commands, event: Some(StepEvent::Next) }
            } else {
                StepOutcome { commands, event: None }
            }
        },
        SingleplayerShutdownStep::DespawnBots => {
            despawn_each(&e.bots, &mut commands);
            proof { assert(commands_view(commands@) =~= despawn_all(e.bots@)); }
            let event = if e.bots.len() == 0 { Some(StepEvent::Next) } else { None };
            StepOutcome { commands, event }
        },
        SingleplayerShutdownStep::DespawnLocalClient => {
            if e.local_clients.len() == 1 {
                commands.push(SessionCommand::Despawn(e.local_clients[0]));
                proof { assert(commands_view(commands@) =~= seq![CommandView::Despawn(e.local_clients@[0])]); }
                StepOutcome { commands, event: None }
            } else if e.local_clients.len() == 0 {
                StepOutcome { commands, event: Some(StepEvent::Next) }
            } else {
                StepOutcome { commands, event: None }
            }
        },
        SingleplayerShutdownStep::DespawnLocalServer => {
            if e.local_servers.len() == 1 {
                commands.push(SessionCommand::Despawn(e.local_servers[0]));
                proof { assert(commands_view(commands@) =~= seq![CommandView::Despawn(e.local_servers@[0])]); }
                StepOutcome { commands, event: None }
            } else if e.local_servers.len() == 0 {
                StepOutcome { commands, event: Some(StepEvent::Done) }
            } else {
                StepOutcome { commands, event: None }
            }
        },
    }
}

// ─── Local server ───────────────────────────────────────────────────────────

/// The steps of starting a server.
#[derive(Debug, Clone, Copy, PartialEq, Eq, Structural)]
pub enum ServerStartupStep {
    Init,
    LoadWorld,
    SpawnEntities,
    Ready,
}

/// The steps of shutting a server down.
#[derive(Debug, Clone, Copy, PartialEq, Eq, Structural)]
pub enum ServerShutdownStep {
    SaveWorld,
    DisconnectClients,
    DespawnLocalClient,
    Cleanup,
    Ready,
}

/// Loading the world needs exactly one local server: then on; with none or several the
/// player is told of the bug and starting fails.
pub fn server_starting_load_world(local_servers: usize) -> (r: (StepEvent, Option<SessionCommand>))
    ensures
        local_servers == 1 ==> r.0 == StepEvent::Next && r.1 is None,
        local_servers == 0 ==> r.0 == StepEvent::Failed && (r.1 matches Some(c)
            && c@ == CommandView::NotifyError("There is no LocalServer right now! - this is a bug"@)),
        local_servers > 1 ==> r.0 == StepEvent::Failed && (r.1 matches Some(c)
            && c@ == CommandView::NotifyError("There is more than one LocalServer! - this is a bug"@)),
{
    if local_servers == 1 {
        (StepEvent::Next, None)
    } else if local_servers == 0 {
        (StepEvent::Failed, Some(SessionCommand::Notify(Notification::Error(
            to_owned_string("There is no LocalServer right now! - this is a bug")))))
    } else {
        (StepEvent::Failed, Some(SessionCommand::Notify(Notification::Error(
            to_owned_string("There is more than one LocalServer! - this is a bug")))))
    }
}

/// Spawning the local client needs exactly one local server to connect it to: then on;
/// otherwise the player is told of the bug and starting fails.
pub fn server_starting_spawn_entities(local_servers: usize) -> (r: (StepEvent, Option<SessionCommand>))
    ensures
        local_servers == 1 ==> r.0 == StepEvent::Next && r.1 is None,
        local_servers != 1 ==> r.0 == StepEvent::Failed && (r.1 matches Some(c) && c@ == CommandView::NotifyError(
            "To spawn the local entity, no local server was found! - this is a bug"@)),
{
    if local_servers == 1 {
        (StepEvent::Next, None)
    } else {
        (StepEvent::Failed, Some(SessionCommand::Notify(Notification::Error(
            to_owned_string("To spawn the local entity, no local server was found! - this is a bug")))))
    }
}

/// Starting is done once there is exactly one local client (in a build with a client)
/// or exactly one local server (in a build with a server); each that holds fires `Done`.
pub fn server_starting_ready(client_build: bool, local_clients: usize, server_build: bool, local_servers: usize) -> (r: Vec<StepEvent>)
    ensures
        r@ == (if client_build && local_clients == 1 { seq![StepEvent::Done] } else { seq![] })
            + (if server_build && local_servers == 1 { seq![StepEvent::Done] } else { seq![] }),
{
    let mut v: Vec<StepEvent> = Vec::new();
    if client_build && local_clients == 1 {
        v.push(StepEvent::Done);
    }
    if server_build && local_servers == 1 {
        v.push(StepEvent::Done);
    }
    proof {
        assert(v@ =~= (if client_build && local_clients == 1 { seq![StepEvent::Done] } else { seq![] })
            + (if server_build && local_servers == 1 { seq![StepEvent::Done] } else { seq![] }));
    }
    v
}

/// Once running, a server that was asked to go public starts going public.
pub fn server_running(pending_going_public: bool) -> (r: Option<StepEvent>)
    ensures
        r == (if pending_going_public { Some(StepEvent::Start) } else { None::<StepEvent> }),
{
    if pending_going_public { Some(StepEvent::Start) } else { None }
}

/// Disconnecting the clients of a server that shuts down: each is disconnected; on once
/// there are none.
pub fn server_stopping_disconnect_clients(remote_clients: &Vec<EntityId>) -> (r: StepOutcome)
    ensures
        commands_view(r.commands@) == disconnect_all(remote_clients@, singleplayer_reason()),
        r.event == (if remote_clients@.len() == 0 { Some(StepEvent::Next) } else { None::<StepEvent> }),
{
    let mut commands: Vec<SessionCommand> = Vec::new();
    proof { assert(commands_view(commands@) =~= seq![]); }
    disconnect_each(remote_clients, "Singleplayer closing", &mut commands);
    proof { assert(commands_view(commands@) =~= disconnect_all(remote_clients@, singleplayer_reason())); }
    let event = if remote_clients.len() == 0 { Some(StepEvent::Next) } else { None };
    StepOutcome { commands, event }
}

/// Removing the local client and bots of a server that shuts down: the bots are
/// despawned, then the one local client; on once neither is left.
pub fn server_stopping_despawn_local_client(local_clients: &Vec<EntityId>, bots: &Vec<EntityId>) -> (r: StepOutcome)
    ensures
        commands_view(r.commands@) == despawn_all(bots@) + (if local_clients@.len() == 1 {
            seq![CommandView::Despawn(local_clients@[0])]
        } else {
            seq![]
        }),
        r.event == (if local_clients@.len() != 1 && local_clients@.len() == 0 && bots@.len() == 0 {
            Some(StepEvent::Next)
        } else {
            None::<StepEvent>
        }),
{
    let mut commands: Vec<SessionCommand> = Vec::new();
    proof { assert(commands_view(commands@) =~= seq![]); }
    despawn_each(bots, &mut commands);
    proof { assert(commands_view(commands@) =~= despawn_all(bots@)); }
    if local_clients.len() == 1 {
        commands.push(SessionCommand::Despawn(local_clients[0]));
        proof { assert(commands_view(commands@) =~= despawn_all(bots@) + seq![CommandView::Despawn(local_clients@[0])]); }
        StepOutcome { commands, event: None }
    } else {
        proof { assert(commands_view(commands@) =~= despawn_all(bots@) + seq![]); }
        let event = if local_clients.len() == 0 && bots.len() == 0 { Some(StepEvent::Next) } else { None };
        StepOutcome { commands, event }
    }
}

/// The last clean-up of a server that shuts down: close the one remote server, else
/// despawn the one local server, else go on once neither exists.
pub fn server_stopping_cleanup(remote_servers: &Vec<EntityId>, local_servers: &Vec<EntityId>) -> (r: StepOutcome)
    ensures
        if remote_servers@.len() == 1 {
            commands_view(r.commands@) == seq![CommandView::Close(remote_servers@[0], singleplayer_reason())] && r.event is None
        } else if local_servers@.len() == 1 {
            commands_view(r.commands@) == seq![CommandView::Despawn(local_servers@[0])] && r.event is None
        } else {
            r.commands@.len() == 0 && r.event == (if remote_servers@.len() == 0 && local_servers@.len() == 0 {
                Some(StepEvent::Next)
            } else {
                None::<StepEvent>
            })
        },
{
    let mut commands: Vec<SessionCommand> = Vec::new();
    if remote_servers.len() == 1 {
        commands.push(SessionCommand::Close(remote_servers[0], to_owned_string("Singleplayer closing")));
        proof { assert(commands_view(commands@) =~= seq![CommandView::Close(remote_servers@[0], singleplayer_reason())]); }
        StepOutcome { commands, event: None }
    } else if local_servers.len() == 1 {
        commands.push(SessionCommand::Despawn(local_servers[0]));
        proof { assert(commands_view(commands@) =~= seq![CommandView::Despawn(local_servers@[0])]); }
        StepOutcome { commands, event: None }
    } else if remote_servers.len() == 0 && local_servers.len() == 0 {
        StepOutcome { commands, event: Some(StepEvent::Next) }
    } else {
        StepOutcome { commands, event: None }
    }
}

// ─── Visibility ─────────────────────────────────────────────────────────────

/// The steps of making a server public.
#[derive(Debug, Clone, Copy, PartialEq, Eq, Structural)]
pub enum GoingPublicStep {
    Validating,
    StartingServer,
    StartingDiscovery,
    Ready,
}

/// The steps of making a server private.
#[derive(Debug, Clone, Copy, PartialEq, Eq, Structural)]
pub enum GoingPrivateStep {
    DisconnectingClients,
    ClosingServer,
    Cleanup,
    Ready,
}

/// The ports tried after `start`: `start`, `start + 1`, ... for `attempts` ports, as far
/// as they stay within `u16`.
pub open spec fn port_candidates_spec(start: u16, attempts: nat) -> Seq<u16> {
    let n: int = if start + attempts > u16::MAX + 1 { u16::MAX + 1 - start } else { attempts as int };
    Seq::new(n as nat, |i: int| (start + i) as u16)
}

/// The ports to try, in order (see [`port_candidates_spec`]).
pub fn port_candidates(start: u16, attempts: usize) -> (r: Vec<u16>)
    ensures
        r@ == port_candidates_spec(start, attempts as nat),
{
    let mut v: Vec<u16> = Vec::new();
    let mut i: usize = 0;
    let ghost n: int = if start + attempts > u16::MAX + 1 { u16::MAX + 1 - start } else { attempts as int };
    while i < attempts && (start as usize) + i <= 65535
        invariant
            i <= attempts,
            i <= n,
            n == (if start + attempts > u16::MAX + 1 { u16::MAX + 1 - start } else { attempts as int }),
            v@ == Seq::new(i as nat, |k: int| (start + k) as u16),
        decreases attempts - i,
    {
        let p: u16 = ((start as usize) + i) as u16;
        v.push(p);
        proof {
            assert(v@ =~= Seq::new((i + 1) as nat, |k: int| (start + k) as u16));
        }
        i += 1;
    }
    proof {
        assert(i == n);
        assert(v@ =~= port_candidates_spec(start, attempts as nat));
    }
    v
}

/// The first port in `candidates` that `available` marks free.
pub fn first_free_port(candidates: &Vec<u16>, available: &Vec<bool>) -> (r: Option<u16>)
    requires
        candidates@.len() == available@.len(),
    ensures
        match r {
            Some(p) => exists|i: int| 0 <= i < candidates@.len() && available@[i] && candidates@[i] == p
                && forall|j: int| 0 <= j < i ==> !available@[j],
            None => forall|j: int| 0 <= j < available@.len() ==> !available@[j],
        },
{
    let mut i: usize = 0;
    while i < candidates.len()
        invariant
            i <= candidates@.len(),
            candidates@.len() == available@.len(),
            forall|j: int| 0 <= j < i ==> !available@[j],
        decreases candidates@.len() - i,
    {
        if available[i] {
            return Some(candidates[i]);
        }
        i += 1;
    }
    None
}

/// How a server's visibility change proceeds.
pub struct VisibilityOutcome {
    pub event: StepEvent,
    pub notification: Option<SessionCommand>,
    /// The game port to use from now on, when it changes.
    pub new_port: Option<u16>,
}

/// Validating before going public: a server that may not be discovered fails; a
/// dedicated server (`game_port_free`) fails when its port is taken; a hosted game
/// (`free_port`, the first free port of [`port_candidates`] with 100 attempts) moves to
/// that port, or fails when there is none.
pub fn going_public_validating(
    can_be_discovered: bool,
    port: u16,
    server_build: bool,
    game_port_free: bool,
    client_build: bool,
    free_port: Option<u16>,
) -> (r: VisibilityOutcome)
    requires
        can_be_discovered && !(server_build && !game_port_free) && client_build && free_port is None
            ==> port + 100 <= u16::MAX,
    ensures
        !can_be_discovered ==> r.event == StepEvent::Failed && r.notification is None && r.new_port is None,
        can_be_discovered && server_build && !game_port_free ==> r.event == StepEvent::Failed
            && r.new_port is None && (r.notification matches Some(c) && c@ == CommandView::NotifyError(
                "Game Port "@ + decimal(port as nat) + " is already in use, please choose another port."@)),
        can_be_discovered && !(server_build && !game_port_free) && client_build ==> match free_port {
            Some(p) => r.event == StepEvent::Next && r.new_port == Some(p) && r.notification is None,
            None => r.event == StepEvent::Failed && r.new_port is None && (r.notification matches Some(c)
                && c@ == CommandView::NotifyError("Failed to find a free Game port. We start searching for a free Discovery port between "@
                    + decimal(port as nat) + " and "@ + decimal((port + 100) as nat) + ". Please try another Port not in this range. If this Error persists, please try to restart your System."@)),
        },
        can_be_discovered && !(server_build && !game_port_free) && !client_build ==>
            r.event == StepEvent::Next && r.new_port is None && r.notification is None,
{
    if !can_be_discovered {
        return VisibilityOutcome { event: StepEvent::Failed, notification: None, new_port: None };
    }
    if server_build && !game_port_free {
        let mut m = to_owned_string("Game Port ");
        m.append(usize_to_decimal(port as usize).as_str());
        m.append(" is already in use, please choose another port.");
        return VisibilityOutcome {
            event: StepEvent::Failed,
            notification: Some(SessionCommand::Notify(Notification::Error(m))),
            new_port: None,
        };
    }
    if client_build {
        match free_port {
            Some(p) => {
                return VisibilityOutcome { event: StepEvent::Next, notification: None, new_port: Some(p) };
            },
            None => {
                let mut m = to_owned_string("Failed to find a free Game port. We start searching for a free Discovery port between ");
                m.append(usize_to_decimal(port as usize).as_str());
                m.append(" and ");
                m.append(usize_to_decimal(port as usize + 100).as_str());
                m.append(". Please try another Port not in this range. If this Error persists, please try to restart your System.");
                return VisibilityOutcome {
                    event: StepEvent::Failed,
                    notification: Some(SessionCommand::Notify(Notification::Error(m))),
                    new_port: None,
                };
            },
        }
    }
    VisibilityOutcome { event: StepEvent::Next, notification: None, new_port: None }
}

/// Starting discovery needs exactly one remote server: then, when the discovery port is
/// free, on; when it is taken, discovery is switched off, the player is told, and going
/// public fails. With none or several servers the player is told of the bug and going
/// public fails. The flag returned says whether discovery stays allowed.
pub fn going_public_starting_discovery(
    remote_servers: usize,
    discovery_port_free: bool,
    discovery_port: u16,
    client_build: bool,
    server_build: bool,
) -> (r: (StepEvent, Vec<SessionCommand>, bool))
    ensures
        remote_servers == 1 && discovery_port_free ==> r.0 == StepEvent::Next && r.1@.len() == 0 && r.2,
        remote_servers == 1 && !discovery_port_free ==> r.0 == StepEvent::Failed && !r.2
            && commands_view(r.1@) == (if client_build { seq![CommandView::NotifyError("DiscoveryPort ("@
                + decimal(discovery_port as nat) + ") is already in use. Discovering of this session will be disabled!"@)] } else { seq![] })
                + (if server_build { seq![CommandView::NotifyError("DiscoveryPort ("@
                + decimal(discovery_port as nat) + ") is already in use. Discovering of this server will be disabled! If this Error persists, please try to restart your System."@)] } else { seq![] }),
        remote_servers == 0 ==> r.0 == StepEvent::Failed && r.2 && commands_view(r.1@) == seq![CommandView::NotifyError(
            "WebTransportServer entity missing in StartingDiscovery! — this is a bug"@)],
        remote_servers > 1 ==> r.0 == StepEvent::Failed && r.2 && commands_view(r.1@) == seq![CommandView::NotifyError(
            "Multiple WebTransportServer entities found! - this is a bug"@)],
{
    let mut commands: Vec<SessionCommand> = Vec::new();
    if remote_servers == 1 {
        if discovery_port_free {
            return (StepEvent::Next, commands, true);
        }
        let ghost a = (if client_build { seq![CommandView::NotifyError("DiscoveryPort ("@
                + decimal(discovery_port as nat) + ") is already in use. Discovering of this session will be disabled!"@)] } else { seq![] });
        if client_build {
            let mut m = to_owned_string("DiscoveryPort (");
            m.append(usize_to_decimal(discovery_port as usize).as_str());
            m.append(") is already in use. Discovering of this session will be disabled!");
            commands.push(SessionCommand::Notify(Notification::Error(m)));
        }
        proof { assert(commands_view(commands@) =~= a); }
        if server_build {
            let mut m = to_owned_string("DiscoveryPort (");
            m.append(usize_to_decimal(discovery_port as usize).as_str());
            m.append(") is already in use. Discovering of this server will be disabled! If this Error persists, please try to restart your System.");
            let ghost before = commands_view(commands@);
            commands.push(SessionCommand::Notify(Notification::Error(m)));
            proof { assert(commands_view(commands@) =~= before.push(commands@.last()@)); }
        }
        proof {
            assert(commands_view(commands@) =~= a + (if server_build { seq![CommandView::NotifyError("DiscoveryPort ("@
                + decimal(discovery_port as nat) + ") is already in use. Discovering of this server will be disabled! If this Error persists, please try to restart your System."@)] } else { seq![] }));
        }
        return (StepEvent::Failed, commands, false);
    }
    if remote_servers == 0 {
        commands.push(SessionCommand::Notify(Notification::Error(
            to_owned_string("WebTransportServer entity missing in StartingDiscovery! — this is a bug"))));
    } else {
        commands.push(SessionCommand::Notify(Notification::Error(
            to_owned_string("Multiple WebTransportServer entities found! - this is a bug"))));
    }
    proof { assert(commands_view(commands@) =~= seq![commands@[0]@]); }
    (StepEvent::Failed, commands, true)
}

/// The reason given when a server closes for going private.
pub open spec fn server_closing_reason() -> Seq<char> {
    "Server closing"@
}

/// Going private: disconnect every remote client.
pub fn going_private_disconnect_clients(remote_clients: &Vec<EntityId>) -> (r: Vec<SessionCommand>)
    ensures
        commands_view(r@) == disconnect_all(remote_clients@, server_closing_reason()),
{
    let mut commands: Vec<SessionCommand> = Vec::new();
    proof { assert(commands_view(commands@) =~= seq![]); }
    disconnect_each(remote_clients, "Server closing", &mut commands);
    proof { assert(commands_view(commands@) =~= disconnect_all(remote_clients@, server_closing_reason())); }
    commands
}

/// Going private: on once no remote client is left.
pub fn going_private_wait_clients_disconnected(remote_clients: usize) -> (r: Option<StepEvent>)
    ensures
        r == (if remote_clients == 0 { Some(StepEvent::Next) } else { None::<StepEvent> }),
{
    if remote_clients == 0 { Some(StepEvent::Next) } else { None }
}

/// Going private: close every remote server.
pub fn going_private_close_server(remote_servers: &Vec<EntityId>) -> (r: Vec<SessionCommand>)
    ensures
        commands_view(r@) == close_all(remote_servers@, server_closing_reason()),
{
    let mut commands: Vec<SessionCommand> = Vec::new();
    proof { assert(commands_view(commands@) =~= seq![]); }
    close_each(remote_servers, "Server closing", &mut commands);
    proof { assert(commands_view(commands@) =~= close_all(remote_servers@, server_closing_reason())); }
    commands
}

/// Going private: on once no remote server is left.
pub fn going_private_wait_server_closed(remote_servers: usize) -> (r: Option<StepEvent>)
    ensures
        r == (if remote_servers == 0 { Some(StepEvent::Next) } else { None::<StepEvent> }),
{
    if remote_servers == 0 { Some(StepEvent::Next) } else { None }
}

} // verus!
