use card_arena::commands::{AdminEvent, AdminResponse};
use card_arena::engine::GamePhase;
use card_arena::logger::GameLogger;
use card_arena::protocol::{
    ClientMessage, ErrorCode, HeartbeatPing, HeartbeatPong, RejectReason, Role, ServerMessage,
};
use card_arena::room::RoomState;
use card_arena::server::{GameEvent, ServerConfig, ServerState};

fn hello(nickname: &str) -> ClientMessage {
    ClientMessage::Hello { role: Role::Human, nickname: nickname.to_string(), proto: 1, auth: None }
}

fn setup() -> (ServerState, GameLogger, ServerConfig) {
    (ServerState::new(), GameLogger::new(), ServerConfig { ai_auth_token: None })
}

fn send(
    state: &mut ServerState,
    logger: &mut GameLogger,
    config: &ServerConfig,
    event: GameEvent,
) -> Vec<(u64, ServerMessage)> {
    state.handle_event(event, logger, config)
}

#[test]
fn ping_gets_pong() {
    let (mut state, mut logger, config) = setup();
    send(&mut state, &mut logger, &config, GameEvent::Connected { conn_id: 1 });
    let out = send(&mut state, &mut logger, &config, GameEvent::Message { conn_id: 1, message: ClientMessage::Ping });
    assert_eq!(out.len(), 1);
    assert!(matches!(out[0], (1, ServerMessage::Pong)));
    let out = send(&mut state, &mut logger, &config, GameEvent::Message { conn_id: 9, message: ClientMessage::Ping });
    assert!(out.is_empty());
}

#[test]
fn two_humans_start_a_bridge_game() {
    let (mut state, mut logger, config) = setup();
    for id in [1u64, 2] {
        send(&mut state, &mut logger, &config, GameEvent::Connected { conn_id: id });
    }
    let out = send(&mut state, &mut logger, &config, GameEvent::Message { conn_id: 1, message: hello("Alice") });
    match &out[0] {
        (1, ServerMessage::Welcome { player_id, nickname, room }) => {
            assert_eq!(player_id, "P1");
            assert_eq!(nickname, "Alice");
            assert_eq!(room, "R001");
        }
        other => panic!("unexpected {:?}", other),
    }
    assert!(matches!(&out[1], (1, ServerMessage::RoomWait { need: 1, .. })));
    let out = send(&mut state, &mut logger, &config, GameEvent::Message { conn_id: 2, message: hello("Alice") });
    match &out[0] {
        (2, ServerMessage::Welcome { player_id, nickname, .. }) => {
            assert_eq!(player_id, "P2");
            assert_eq!(nickname, "Alice_2");
        }
        other => panic!("unexpected {:?}", other),
    }
    assert!(out.iter().any(|(c, m)| *c == 1 && matches!(m, ServerMessage::RoomStart { .. })));
    let deals: Vec<_> = out.iter().filter(|(_, m)| matches!(m, ServerMessage::Deal { .. })).collect();
    assert_eq!(deals.len(), 2);
    assert!(out.iter().any(|(c, m)| *c == 1 && matches!(m, ServerMessage::YourTurn { trick: 1, .. })));
    let room = state.room_manager.get_room("R001").unwrap();
    assert_eq!(room.state, RoomState::Playing);
    assert_eq!(state.games.len(), 1);
    assert_eq!(state.games[0].1.phase, GamePhase::WaitingForPlay { current_player_idx: 0 });
}

fn your_turn_legal(out: &[(u64, ServerMessage)], conn: u64) -> Option<Vec<String>> {
    for (c, m) in out.iter().rev() {
        if *c == conn {
            if let ServerMessage::YourTurn { legal, .. } = m {
                return Some(legal.clone());
            }
        }
    }
    None
}

#[test]
fn full_bridge_game_reaches_game_over() {
    let (mut state, mut logger, config) = setup();
    for id in [1u64, 2] {
        send(&mut state, &mut logger, &config, GameEvent::Connected { conn_id: id });
    }
    send(&mut state, &mut logger, &config, GameEvent::Message { conn_id: 1, message: hello("Alice") });
    let mut out = send(&mut state, &mut logger, &config, GameEvent::Message { conn_id: 2, message: hello("Bob") });
    let mut game_over = None;
    for _ in 0..200 {
        if let Some(m) = out.iter().find(|(_, m)| matches!(m, ServerMessage::GameOver { .. })) {
            game_over = Some(m.1.clone());
            break;
        }
        let (conn, legal) = match (your_turn_legal(&out, 1), your_turn_legal(&out, 2)) {
            (Some(l), _) => (1, l),
            (None, Some(l)) => (2, l),
            _ => panic!("nobody is due to play"),
        };
        out = send(
            &mut state,
            &mut logger,
            &config,
            GameEvent::Message { conn_id: conn, message: ClientMessage::Play { card: legal[0].clone() } },
        );
        assert!(!out.iter().any(|(_, m)| matches!(m, ServerMessage::PlayReject { .. })));
    }
    match game_over {
        Some(ServerMessage::GameOver { final_score, history, .. }) => {
            assert_eq!(final_score.human + final_score.ai, 13);
            assert_eq!(history.len(), 13);
        }
        _ => panic!("game did not finish"),
    }
}

#[test]
fn rejected_plays() {
    let (mut state, mut logger, config) = setup();
    for id in [1u64, 2, 3] {
        send(&mut state, &mut logger, &config, GameEvent::Connected { conn_id: id });
    }
    let out = send(
        &mut state,
        &mut logger,
        &config,
        GameEvent::Message { conn_id: 3, message: ClientMessage::Play { card: "AS".to_string() } },
    );
    match &out[0] {
        (3, ServerMessage::Error { code, message }) => {
            assert_eq!(*code, ErrorCode::ProtocolError);
            assert_eq!(message, "Not in a game");
        }
        other => panic!("unexpected {:?}", other),
    }
    send(&mut state, &mut logger, &config, GameEvent::Message { conn_id: 1, message: hello("Alice") });
    let out = send(
        &mut state,
        &mut logger,
        &config,
        GameEvent::Message { conn_id: 1, message: ClientMessage::Play { card: "AS".to_string() } },
    );
    match &out[0] {
        (1, ServerMessage::Error { code, message }) => {
            assert_eq!(*code, ErrorCode::NotYourTurn);
            assert_eq!(message, "Game not started");
        }
        other => panic!("unexpected {:?}", other),
    }
    send(&mut state, &mut logger, &config, GameEvent::Message { conn_id: 2, message: hello("Bob") });
    let before = state.games[0].1.players[1].hand.clone();
    let out = send(
        &mut state,
        &mut logger,
        &config,
        GameEvent::Message { conn_id: 2, message: ClientMessage::Play { card: before[0].to_protocol_string() } },
    );
    match &out[0] {
        (2, ServerMessage::PlayReject { reason, card }) => {
            assert_eq!(*reason, RejectReason::NotYourTurn);
            assert_eq!(*card, before[0].to_protocol_string());
        }
        other => panic!("unexpected {:?}", other),
    }
    assert_eq!(state.games[0].1.players[1].hand, before);
    let out = send(
        &mut state,
        &mut logger,
        &config,
        GameEvent::Message { conn_id: 1, message: ClientMessage::Play { card: "XX".to_string() } },
    );
    assert!(matches!(&out[0], (1, ServerMessage::PlayReject { reason: RejectReason::NotInHand, .. })));
}

#[test]
fn hello_errors_are_reported() {
    let (mut state, mut logger, config) = setup();
    send(&mut state, &mut logger, &config, GameEvent::Connected { conn_id: 1 });
    let out = send(
        &mut state,
        &mut logger,
        &config,
        GameEvent::Message {
            conn_id: 1,
            message: ClientMessage::Hello { role: Role::Human, nickname: "A".to_string(), proto: 2, auth: None },
        },
    );
    assert!(matches!(&out[0], (1, ServerMessage::Error { code: ErrorCode::InvalidHello, .. })));
    assert_eq!(state.room_manager.get_room("R001").unwrap().players.len(), 2);
}

#[test]
fn disconnect_mid_game_resets_bridge_room() {
    let (mut state, mut logger, config) = setup();
    for id in [1u64, 2] {
        send(&mut state, &mut logger, &config, GameEvent::Connected { conn_id: id });
    }
    send(&mut state, &mut logger, &config, GameEvent::Message { conn_id: 1, message: hello("Alice") });
    send(&mut state, &mut logger, &config, GameEvent::Message { conn_id: 2, message: hello("Bob") });
    let seed_before = state.room_manager.get_room("R001").unwrap().seed;
    let out = send(&mut state, &mut logger, &config, GameEvent::Disconnected { conn_id: 2 });
    assert!(state.games.is_empty());
    let room = state.room_manager.get_room("R001").unwrap();
    assert_eq!(room.players.len(), 2);
    assert_eq!(room.human_count(), 0);
    assert_eq!(room.state, RoomState::Waiting);
    assert!(room.players.iter().all(|p| p.role == Role::Ai));
    assert_ne!(room.seed, seed_before);
    assert!(!state.clients.contains(&2));
    assert_eq!(out.len(), 2);
    match &out[0] {
        (1, ServerMessage::Error { code, message }) => {
            assert_eq!(*code, ErrorCode::ProtocolError);
            assert_eq!(message, "Game reset due to player disconnect. Waiting for players...");
        }
        other => panic!("unexpected {:?}", other),
    }
    assert!(matches!(&out[1], (1, ServerMessage::RoomWait { need: 2, .. })));
    assert!(state.conn_to_room.is_empty());
}

#[test]
fn admin_status_kick_and_reset() {
    let (mut state, mut logger, config) = setup();
    let mut out = Vec::new();
    for id in [1u64, 2] {
        send(&mut state, &mut logger, &config, GameEvent::Connected { conn_id: id });
    }
    send(&mut state, &mut logger, &config, GameEvent::Message { conn_id: 1, message: hello("Alice") });
    send(&mut state, &mut logger, &config, GameEvent::Message { conn_id: 2, message: hello("Bob") });
    match card_arena::server::handle_admin_event(AdminEvent::GetStatus, &mut state, &mut logger, &mut out) {
        AdminResponse::Status { total_connections, total_rooms, games_in_progress } => {
            assert_eq!((total_connections, total_rooms, games_in_progress), (2, 1, 1));
        }
        _ => panic!("Expected Status"),
    }
    match card_arena::server::handle_admin_event(AdminEvent::GetPlayers, &mut state, &mut logger, &mut out) {
        AdminResponse::Players(p) => assert_eq!(p.len(), 4),
        _ => panic!("Expected Players"),
    }
    match card_arena::server::handle_admin_event(
        AdminEvent::KickPlayer { player_id: "P3".to_string() },
        &mut state,
        &mut logger,
        &mut out,
    ) {
        AdminResponse::Error(m) => assert_eq!(m, "Cannot kick AI player"),
        _ => panic!("Expected Error"),
    }
    match card_arena::server::handle_admin_event(
        AdminEvent::ResetRoom { room_id: Some("R404".to_string()) },
        &mut state,
        &mut logger,
        &mut out,
    ) {
        AdminResponse::Error(m) => assert_eq!(m, "Room R404 not found"),
        _ => panic!("Expected Error"),
    }
    match card_arena::server::handle_admin_event(
        AdminEvent::KickPlayer { player_id: "P2".to_string() },
        &mut state,
        &mut logger,
        &mut out,
    ) {
        AdminResponse::Done(m) => assert_eq!(m, "Player P2 kicked from R001"),
        _ => panic!("Expected Done"),
    }
    assert!(out.iter().any(|(c, m)| *c == 2 && matches!(m, ServerMessage::Error { .. })));
    assert!(!state.clients.contains(&2));
    assert!(state.games.is_empty());
    assert_eq!(state.room_manager.get_room("R001").unwrap().state, RoomState::Waiting);
    match card_arena::server::handle_admin_event(
        AdminEvent::ResetRoom { room_id: Some("R001".to_string()) },
        &mut state,
        &mut logger,
        &mut out,
    ) {
        AdminResponse::Error(m) => assert_eq!(m, "Room R001 is not in playing state"),
        _ => panic!("Expected Error"),
    }
    match card_arena::server::handle_admin_event(AdminEvent::ResetRoom { room_id: None }, &mut state, &mut logger, &mut out) {
        AdminResponse::Done(m) => assert_eq!(m, "0 rooms reset"),
        _ => panic!("Expected Done"),
    }
}

#[test]
fn test_heartbeat_pong_from_ping() {
    let ping = HeartbeatPing { msg_type: "HB_PING".to_string(), seq: 42, t_client_ms: 1000000 };
    let server_time = 1000005;
    let pong = HeartbeatPong::from_ping(&ping, server_time);

    assert_eq!(pong.msg_type, "HB_PONG");
    assert_eq!(pong.seq, 42);
    assert_eq!(pong.t_client_ms, 1000000);
    assert_eq!(pong.t_server_ms, 1000005);
}
