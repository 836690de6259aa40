use sha2::Digest;
use chicken::content::access::ServerAccessSettings;
use chicken::content::roles::{PlayerRole, PlayerRoles};
use chicken::network::auth::{handle_client_auth_response, register_hello, AuthenticatedPlayer, PendingAuths, PlayerRegistry};
use chicken::network::chat::{autocomplete_players, filter_relevant_chat_history, handle_client_chat, ChatHistory, CHAT_HISTORY_SIZE};
use chicken::network::discovery::{discovery_response, is_discovery_request, magic, parse_discovery_response, server_url, DiscoveryControl};
use chicken::network::ids::{ClientId, ClientMap, EntityId};
use chicken::network::local_identity::{secret_from_stored, LocalIdentity};
use chicken::network::moderation::{assign_local_player_as_owner, can, ModAction};
use chicken::network::session::{
    client_disconnecting, going_public_validating, on_auth_result_received, port_candidates, first_free_port,
    singleplayer_stopping, DisconnectingStep, SessionCommand, SessionEntities, SingleplayerShutdownStep, StepEvent,
};
use chicken::network::target::{address_text, ClientTarget, SocketAddrText};
use chicken::protocols::chat::{extract_command, extract_mentions, ChatErrorType, ServerChat};

fn line(name: &str, text: &str, ts: u64) -> ServerChat {
    ServerChat { sender_name: name.to_string(), sender_steam_id: None, text: text.to_string(), timestamp: Some(ts) }
}

#[test]
fn extract_command_reads_first_word() {
    assert_eq!(extract_command("/help me"), Some("help"));
    assert_eq!(extract_command("/ kick x"), Some("kick"));
    assert_eq!(extract_command("/"), None);
    assert_eq!(extract_command("hello"), None);
}

#[test]
fn extract_mentions_finds_names() {
    assert_eq!(extract_mentions("hi @Anna and @Bob, @ alone"), vec!["Anna", "Bob,"]);
    assert!(extract_mentions("no mentions").is_empty());
}

#[test]
fn chat_line_checks() {
    let mut history = ChatHistory::new();
    let empty = handle_client_chat("   ", None, "Client 1".to_string(), Some(1), &mut history);
    let e = empty.err().unwrap();
    assert_eq!(e.error_type, ChatErrorType::EmptyMessage);
    assert_eq!(e.message, "Nachricht darf nicht leer sein.");

    let long = "x".repeat(513);
    let e = handle_client_chat(&long, None, "Client 1".to_string(), Some(1), &mut history).err().unwrap();
    assert_eq!(e.error_type, ChatErrorType::MessageTooLong);
    assert_eq!(e.message, "Nachricht zu lang (513 / 512 Zeichen).");

    let e = handle_client_chat(" /help ", None, "Client 1".to_string(), Some(1), &mut history).err().unwrap();
    assert_eq!(e.error_type, ChatErrorType::UnknownCommand);
    assert_eq!(history.0.len(), 0);

    let ok = handle_client_chat("  hallo  ", None, "Client 1".to_string(), Some(7), &mut history).unwrap();
    assert_eq!(ok.text, "hallo");
    assert_eq!(ok.sender_name, "Client 1");
    assert_eq!(ok.timestamp, Some(7));
    assert_eq!(history.0.len(), 1);
}

#[test]
fn multibyte_length_counts_characters() {
    let mut history = ChatHistory::new();
    let ok = handle_client_chat(&"ä".repeat(300), None, "c".to_string(), None, &mut history).unwrap();
    assert_eq!(ok.text.chars().count(), 300);
    let edge = handle_client_chat(&"ä".repeat(512), None, "c".to_string(), None, &mut history);
    assert!(edge.is_ok());
    let e = handle_client_chat(&"ä".repeat(513), None, "c".to_string(), None, &mut history).err().unwrap();
    assert_eq!(e.error_type, ChatErrorType::MessageTooLong);
    assert_eq!(e.message, "Nachricht zu lang (513 / 512 Zeichen).");
    assert_eq!(history.0.len(), 2);
}

#[test]
fn chat_history_is_capped() {
    let mut history = ChatHistory::new();
    for i in 0..(CHAT_HISTORY_SIZE + 5) {
        history.push(line("a", "t", i as u64));
    }
    assert_eq!(history.0.len(), CHAT_HISTORY_SIZE);
    assert_eq!(history.0[0].timestamp, Some(5));
}

#[test]
fn relevant_history_keeps_mentions_and_latest() {
    let history = vec![
        line("a", "hi @bob", 3),
        line("b", "x", 1),
        line("c", "y", 2),
        line("c", "y", 2),
    ];
    let r = filter_relevant_chat_history(&history, "bob");
    let ts: Vec<Option<u64>> = r.iter().map(|m| m.timestamp).collect();
    assert_eq!(ts, vec![Some(1), Some(2), Some(3)]);
}

#[test]
fn autocomplete_lists_each_player_once() {
    let p = |id: &str, name: &str| AuthenticatedPlayer {
        player_id: id.to_string(),
        display_name: name.to_string(),
        steam_id: None,
        public_key: [0u8; 32],
        entity: EntityId(1),
        role: PlayerRole::Player,
    };
    let players = vec![p("1", "Anna"), p("2", "Bob"), p("1", "Anna again")];
    let r = autocomplete_players(&players);
    let names: Vec<&str> = r.iter().map(|i| i.name.as_str()).collect();
    assert_eq!(names, vec!["Anna", "Bob"]);
}

#[test]
fn discovery_packets() {
    assert_eq!(magic(), b"FORGE_DISCOVER_V1".to_vec());
    assert!(is_discovery_request(b"FORGE_DISCOVER_V1"));
    assert!(!is_discovery_request(b"FORGE_DISCOVER_V2"));
    assert_eq!(discovery_response(7777), b"FORGE_RESP_V1;7777".to_vec());
    assert_eq!(parse_discovery_response(b"FORGE_RESP_V1;7777"), Some(7777));
    assert_eq!(parse_discovery_response(b"FORGE_RESP_V1;+80"), Some(80));
    assert_eq!(parse_discovery_response(b"FORGE_RESP_V1;70000"), None);
    assert_eq!(parse_discovery_response(b"FORGE_RESP_V1;"), None);
    assert_eq!(parse_discovery_response(b"OTHER;1"), None);
    assert_eq!(server_url("10.0.0.2", 7777), "https://10.0.0.2:7777");
}

#[test]
fn discovery_rounds() {
    let mut c = DiscoveryControl::new();
    assert_eq!(c.start_cycle(false, true), None);
    c.reset();
    assert_eq!(c.cycles_remaining, 5);
    assert_eq!(c.start_cycle(true, true), None);
    assert_eq!(c.start_cycle(false, false), None);
    assert_eq!(c.start_cycle(false, true), Some(1));
    assert_eq!(c.cycles_remaining, 4);
    let list = c.collect(vec!["https://b:1".to_string(), "https://a:1".to_string(), "https://b:1".to_string()]);
    assert_eq!(list, vec!["https://a:1".to_string(), "https://b:1".to_string()]);
    assert_eq!(c.seen_servers.len(), 2);
    assert!(c.seen_servers.iter().all(|(_, g)| *g == 1));
}

#[test]
fn handshake_with_local_identity_is_accepted() {
    let identity = LocalIdentity::from_secret([7u8; 32]);
    let mut pending = PendingAuths(ClientMap::new());
    let mut registry = PlayerRegistry(ClientMap::new());
    let mut roles = PlayerRoles::new();
    let client = ClientId::Client(EntityId(42));
    let hello = identity.hello(None);
    assert!(hello.display_name.starts_with("Player-"));
    assert_eq!(hello.display_name.len(), "Player-".len() + 8);
    let challenge = register_hello(&mut pending, client, &hello, [9u8; 32]);
    let answer = identity.answer_challenge(&challenge.nonce);
    let outcome = handle_client_auth_response(client, &answer, &mut pending, &mut registry, &mut roles, &ServerAccessSettings::default(), true);
    assert!(outcome.result.accepted);
    assert_eq!(outcome.result.player_id, identity.player_id());
    assert!(outcome.roles_changed);
    assert_eq!(roles.get(identity.player_id()), PlayerRole::Owner);
}

#[test]
fn handshake_with_wrong_key_is_rejected() {
    let identity = LocalIdentity::from_secret([7u8; 32]);
    let other = LocalIdentity::from_secret([8u8; 32]);
    let mut pending = PendingAuths(ClientMap::new());
    let mut registry = PlayerRegistry(ClientMap::new());
    let mut roles = PlayerRoles::new();
    let client = ClientId::Client(EntityId(1));
    let challenge = register_hello(&mut pending, client, &identity.hello(None), [3u8; 32]);
    let answer = other.answer_challenge(&challenge.nonce);
    let outcome = handle_client_auth_response(client, &answer, &mut pending, &mut registry, &mut roles, &ServerAccessSettings::default(), true);
    assert!(!outcome.result.accepted);
    assert_eq!(outcome.result.reason.as_deref(), Some("Ungültige Signatur"));
}

#[test]
fn stored_secret_needs_32_bytes() {
    assert_eq!(secret_from_stored(&[1u8; 32]), Some([1u8; 32]));
    assert_eq!(secret_from_stored(&[1u8; 31]), None);
    let id = LocalIdentity::from_secret([5u8; 32]);
    assert_eq!(id.player_id().len(), 64);
    assert_eq!(LocalIdentity::from_secret(id.secret_bytes()).player_id(), id.player_id());
}

#[test]
fn moderation_rights() {
    assert!(can(PlayerRole::Moderator, ModAction::Kick));
    assert!(can(PlayerRole::Moderator, ModAction::TempBan));
    assert!(!can(PlayerRole::Moderator, ModAction::Ban));
    assert!(can(PlayerRole::Admin, ModAction::Promote));
    assert!(!can(PlayerRole::Player, ModAction::Kick));
    assert!(can(PlayerRole::Owner, ModAction::Ban));
}

#[test]
fn first_host_becomes_owner() {
    let mut roles = PlayerRoles::new();
    assert!(assign_local_player_as_owner(&mut roles, "abc"));
    assert_eq!(roles.get("abc"), PlayerRole::Owner);
    assert!(!assign_local_player_as_owner(&mut roles, "def"));
    assert_eq!(roles.get("def"), PlayerRole::Player);
}

#[test]
fn client_target_parsing() {
    assert_eq!(address_text("  https://127.0.0.1:8080 "), "127.0.0.1:8080");
    assert_eq!(address_text("http://h:1"), "h:1");
    let mut target = ClientTarget::new();
    let addr = SocketAddrText { ip: "127.0.0.1".to_string(), port: 8080, text: "127.0.0.1:8080".to_string() };
    target.update_input("127.0.0.1:8080".to_string(), Some(addr));
    assert!(target.is_valid);
    assert_eq!(target.ip, "127.0.0.1");
    assert_eq!(target.port, 8080);
    assert_eq!(target.real_address, "https://127.0.0.1:8080");
    let zero = SocketAddrText { ip: "127.0.0.1".to_string(), port: 0, text: "127.0.0.1:0".to_string() };
    target.update_input("127.0.0.1:0".to_string(), Some(zero));
    assert!(!target.is_valid);
    assert_eq!(target.port, 0);
    assert_eq!(target.ip, "");
}

#[test]
fn disconnecting_steps() {
    let one = vec![EntityId(3)];
    let r = client_disconnecting(DisconnectingStep::SendDisconnect, &one);
    assert_eq!(r.event, Some(StepEvent::Next));
    assert!(matches!(&r.commands[..], [SessionCommand::Disconnect(EntityId(3), reason)] if reason == "client disconnecting"));
    let r = client_disconnecting(DisconnectingStep::Cleanup, &vec![]);
    assert_eq!(r.event, Some(StepEvent::Next));
    let r = client_disconnecting(DisconnectingStep::Ready, &one);
    assert_eq!(r.event, Some(StepEvent::Done));
}

#[test]
fn singleplayer_shutdown_steps() {
    let e = SessionEntities {
        remote_clients: vec![EntityId(1), EntityId(2)],
        remote_servers: vec![],
        bots: vec![],
        local_clients: vec![EntityId(5)],
        local_servers: vec![],
    };
    let r = singleplayer_stopping(SingleplayerShutdownStep::DisconnectRemoteClients, &e);
    assert_eq!(r.commands.len(), 2);
    assert_eq!(r.event, None);
    let r = singleplayer_stopping(SingleplayerShutdownStep::CloseRemoteServer, &e);
    assert_eq!(r.event, Some(StepEvent::Next));
    let r = singleplayer_stopping(SingleplayerShutdownStep::DespawnLocalClient, &e);
    assert!(matches!(&r.commands[..], [SessionCommand::Despawn(EntityId(5))]));
    let r = singleplayer_stopping(SingleplayerShutdownStep::DespawnLocalServer, &e);
    assert_eq!(r.event, Some(StepEvent::Done));
}

#[test]
fn auth_result_reaction() {
    let (ev, n) = on_auth_result_received(true, &None);
    assert_eq!(ev, StepEvent::Next);
    assert!(n.is_none());
    let (ev, n) = on_auth_result_received(false, &None);
    assert_eq!(ev, StepEvent::Failed);
    match n {
        Some(SessionCommand::Notify(chicken::network::session::Notification::Error(m))) => {
            assert_eq!(m, "Verbindung abgelehnt: Unbekannter Grund")
        }
        _ => panic!("expected an error notification"),
    }
}

#[test]
fn port_search() {
    assert_eq!(port_candidates(65534, 5), vec![65534, 65535]);
    assert_eq!(port_candidates(7000, 3), vec![7000, 7001, 7002]);
    assert_eq!(first_free_port(&vec![1, 2, 3], &vec![false, true, true]), Some(2));
    assert_eq!(first_free_port(&vec![1], &vec![false]), None);
    let r = going_public_validating(true, 7000, false, true, true, None);
    assert_eq!(r.event, StepEvent::Failed);
    match r.notification {
        Some(SessionCommand::Notify(chicken::network::session::Notification::Error(m))) => {
            assert!(m.contains("between 7000 and 7100."))
        }
        _ => panic!("expected an error notification"),
    }
    let r = going_public_validating(true, 7000, false, true, true, Some(7003));
    assert_eq!(r.new_port, Some(7003));
}

#[test]
fn role_written_is_read_back() {
    let mut roles = PlayerRoles::new();
    roles.insert("a".to_string(), PlayerRole::Admin);
    roles.insert("b".to_string(), PlayerRole::Moderator);
    roles.insert("a".to_string(), PlayerRole::Owner);
    assert_eq!(roles.get("a"), PlayerRole::Owner);
    assert_eq!(roles.get("b"), PlayerRole::Moderator);
    assert_eq!(roles.get("c"), PlayerRole::Player);
    assert_eq!(roles.stored("c"), None);
    assert!(!roles.has_no_owner());
}

#[test]
fn player_id_is_hex_sha256_of_public_key() {
    let id = LocalIdentity::from_secret([3u8; 32]);
    let public = id.verifying_key_bytes();
    let expected = hex::encode(sha2::Sha256::digest(public));
    assert_eq!(id.player_id(), expected);
    let key = ed25519_dalek::SigningKey::from_bytes(&[3u8; 32]);
    assert_eq!(public, key.verifying_key().to_bytes());
}

#[test]
fn stored_roles_list_each_player_once() {
    let mut roles = PlayerRoles::new();
    roles.insert("a".to_string(), PlayerRole::Admin);
    roles.insert("b".to_string(), PlayerRole::Player);
    roles.insert("a".to_string(), PlayerRole::Owner);
    let listed: Vec<(&str, PlayerRole)> = roles.roles().iter().map(|(k, r)| (k.as_str(), *r)).collect();
    assert_eq!(listed, vec![("a", PlayerRole::Owner), ("b", PlayerRole::Player)]);
}
