use card_arena::handshake::{create_player_info, process_hello, HandshakeResult};
use card_arena::protocol::{ErrorCode, Role, ServerMessage, Team};
use card_arena::room::{Room, RoomManager, RoomState};

#[test]
fn test_valid_hello() {
    let existing: Vec<String> = Vec::new();
    let result = process_hello(&Role::Human, "Alice", 1, &None, &existing, 1, "R001", None);
    match result {
        HandshakeResult::Success(ServerMessage::Welcome { player_id, nickname, .. }) => {
            assert_eq!(player_id, "P1");
            assert_eq!(nickname, "Alice");
        }
        _ => panic!("Expected success"),
    }
}

#[test]
fn test_invalid_nickname_too_short() {
    let existing: Vec<String> = Vec::new();
    let result = process_hello(&Role::Human, "", 1, &None, &existing, 1, "R001", None);
    assert!(matches!(result, HandshakeResult::Error(_)));
}

#[test]
fn test_invalid_nickname_too_long() {
    let existing: Vec<String> = Vec::new();
    let long_name = "A".repeat(20);
    let result = process_hello(&Role::Human, &long_name, 1, &None, &existing, 1, "R001", None);
    assert!(matches!(result, HandshakeResult::Error(_)));
}

#[test]
fn test_duplicate_nickname() {
    let mut existing: Vec<String> = Vec::new();
    existing.push("Alice".to_string());

    let result = process_hello(&Role::Human, "Alice", 1, &None, &existing, 2, "R001", None);
    match result {
        HandshakeResult::Success(ServerMessage::Welcome { nickname, .. }) => {
            assert!(nickname.starts_with("Alice_"));
            assert_ne!(nickname, "Alice");
        }
        _ => panic!("Expected success with modified nickname"),
    }
}

#[test]
fn test_ai_without_token() {
    let existing: Vec<String> = Vec::new();
    let result = process_hello(&Role::Ai, "Bot1", 1, &None, &existing, 1, "R001", Some("secret123"));
    assert!(matches!(result, HandshakeResult::Error(_)));
}

#[test]
fn test_ai_with_valid_token() {
    let existing: Vec<String> = Vec::new();
    let result = process_hello(
        &Role::Ai,
        "Bot1",
        1,
        &Some("secret123".to_string()),
        &existing,
        1,
        "R001",
        Some("secret123"),
    );
    assert!(matches!(result, HandshakeResult::Success(_)));
}

#[test]
fn test_wrong_protocol_version() {
    let existing: Vec<String> = Vec::new();
    let result = process_hello(&Role::Human, "Alice", 99, &None, &existing, 1, "R001", None);
    assert!(matches!(result, HandshakeResult::Error(_)));
}

fn error_of(result: HandshakeResult) -> (ErrorCode, String) {
    match result {
        HandshakeResult::Error(ServerMessage::Error { code, message }) => (code, message),
        _ => panic!("Expected an error"),
    }
}

#[test]
fn hello_error_messages() {
    let existing: Vec<String> = Vec::new();
    let (code, message) = error_of(process_hello(&Role::Human, "Alice", 99, &None, &existing, 1, "R001", None));
    assert_eq!(code, ErrorCode::InvalidHello);
    assert_eq!(message, "Unsupported protocol version: 99. Expected: 1");
    let (code, message) = error_of(process_hello(&Role::Human, "", 1, &None, &existing, 1, "R001", None));
    assert_eq!(code, ErrorCode::InvalidHello);
    assert_eq!(message, "Nickname must be 1-16 characters, got: 0");
    let (code, message) =
        error_of(process_hello(&Role::Ai, "Bot", 1, &Some("bad".to_string()), &existing, 1, "R001", Some("good")));
    assert_eq!(code, ErrorCode::AuthFailed);
    assert_eq!(message, "Invalid AI authentication token");
    let (code, message) = error_of(process_hello(&Role::Ai, "Bot", 1, &None, &existing, 1, "R001", Some("good")));
    assert_eq!(code, ErrorCode::AuthFailed);
    assert_eq!(message, "AI client requires authentication token");
}

#[test]
fn nickname_length_counts_characters() {
    let existing: Vec<String> = Vec::new();
    let name = "é".repeat(16);
    assert!(matches!(
        process_hello(&Role::Human, &name, 1, &None, &existing, 1, "R001", None),
        HandshakeResult::Success(_)
    ));
    let name = "é".repeat(17);
    assert!(matches!(
        process_hello(&Role::Human, &name, 1, &None, &existing, 1, "R001", None),
        HandshakeResult::Error(_)
    ));
}

#[test]
fn ai_without_configured_token_needs_none() {
    let existing: Vec<String> = Vec::new();
    assert!(matches!(
        process_hello(&Role::Ai, "Bot", 1, &None, &existing, 3, "R002", None),
        HandshakeResult::Success(_)
    ));
}

fn welcome_nickname(result: HandshakeResult) -> String {
    match result {
        HandshakeResult::Success(ServerMessage::Welcome { nickname, .. }) => nickname,
        _ => panic!("Expected success"),
    }
}

#[test]
fn nickname_collision_counts_up() {
    let mut existing: Vec<String> = vec!["Alice".to_string()];
    let first = welcome_nickname(process_hello(&Role::Human, "Alice", 1, &None, &existing, 2, "R001", None));
    assert_eq!(first, "Alice_2");
    existing.push(first);
    let second = welcome_nickname(process_hello(&Role::Human, "Alice", 1, &None, &existing, 3, "R001", None));
    assert_eq!(second, "Alice_3");
}

#[test]
fn nickname_collision_after_all_suffixes() {
    let mut existing: Vec<String> = vec!["Bob".to_string()];
    for i in 2..=99 {
        existing.push(format!("Bob_{}", i));
    }
    let name = welcome_nickname(process_hello(&Role::Human, "Bob", 1, &None, &existing, 2, "R001", None));
    assert_eq!(name.len(), "Bob_".len() + 4);
    assert!(name.starts_with("Bob_"));
    assert!(name[4..].chars().all(|c| c.is_ascii_hexdigit() && !c.is_ascii_uppercase()));
}

#[test]
fn player_info_has_no_team() {
    let info = create_player_info("P2", "Bob", Role::Human);
    assert_eq!(info.id, "P2");
    assert_eq!(info.nickname, "Bob");
    assert_eq!(info.role, Role::Human);
    assert_eq!(info.team, None);
}

#[test]
fn test_room_creation() {
    let room = Room::new("R001");
    assert_eq!(room.id, "R001");
    assert_eq!(room.state, RoomState::Waiting);
    assert!(room.players.is_empty());
    assert!(!room.is_full());
    assert!(!room.bridge_mode);
}

#[test]
fn test_add_players() {
    let mut room = Room::new("R001");

    room.add_player(1, "P1", "Alice", Role::Human);
    assert_eq!(room.players.len(), 1);
    assert_eq!(room.next_slot(), 2);

    room.add_player(2, "P2", "Bob", Role::Human);
    room.add_player(3, "P3", "Bot1", Role::Ai);
    room.add_player(4, "P4", "Bot2", Role::Ai);

    assert!(room.is_full());
    assert!(room.can_start());
}

#[test]
fn test_cannot_start_without_human() {
    let mut room = Room::new("R001");
    room.add_player(1, "P1", "Bot1", Role::Ai);
    room.add_player(2, "P2", "Bot2", Role::Ai);
    room.add_player(3, "P3", "Bot3", Role::Ai);
    room.add_player(4, "P4", "Bot4", Role::Ai);

    assert!(room.is_full());
    assert!(!room.can_start());
}

#[test]
fn test_room_manager() {
    let mut manager = RoomManager::new_classic();

    let room = manager.get_or_create_waiting_room();
    let room_id = room.id.clone();
    room.add_player(1, "P1", "Alice", Role::Human);
    manager.associate_conn(1, &room_id);

    assert!(manager.get_room_for_conn(1).is_some());
    assert!(manager.get_room(&room_id).is_some());
}

#[test]
fn test_bridge_mode_room_creation() {
    let room = Room::new_bridge_mode("R001");

    assert!(room.bridge_mode);
    assert_eq!(room.players.len(), 2);
    assert_eq!(room.players[0].player_id, "P3");
    assert_eq!(room.players[1].player_id, "P4");
    assert_eq!(room.players[0].team, Some(Team::Ai));
    assert_eq!(room.human_count(), 0);
    assert!(!room.is_full());
    assert_eq!(room.players_needed(), 2);
}

#[test]
fn test_bridge_mode_add_humans() {
    let mut room = Room::new_bridge_mode("R001");

    room.add_player(1, "P1", "Alice", Role::Human);
    assert_eq!(room.players.len(), 3);
    assert_eq!(room.human_count(), 1);
    assert_eq!(room.players[0].player_id, "P1");
    assert_eq!(room.players[0].team, Some(Team::Human));
    assert!(!room.is_full());
    assert!(!room.can_start());

    room.add_player(2, "P2", "Bob", Role::Human);
    assert_eq!(room.players.len(), 4);
    assert_eq!(room.human_count(), 2);
    assert_eq!(room.players[1].player_id, "P2");
    assert!(room.is_full());
    assert!(room.can_start());

    assert_eq!(room.players[0].player_id, "P1");
    assert_eq!(room.players[1].player_id, "P2");
    assert_eq!(room.players[2].player_id, "P3");
    assert_eq!(room.players[3].player_id, "P4");
}

#[test]
fn test_bridge_mode_real_conn_ids() {
    let mut room = Room::new_bridge_mode("R001");
    room.add_player(1, "P1", "Alice", Role::Human);
    room.add_player(2, "P2", "Bob", Role::Human);

    let all_conns = room.conn_ids();
    let real_conns = room.real_conn_ids();

    assert_eq!(all_conns.len(), 4);
    assert_eq!(real_conns.len(), 2);
    assert!(real_conns.contains(&1));
    assert!(real_conns.contains(&2));
}

#[test]
fn test_bridge_mode_manager() {
    let mut manager = RoomManager::new();

    let room = manager.get_or_create_waiting_room();
    assert!(room.bridge_mode);
    assert_eq!(room.players.len(), 2);
}

#[test]
fn test_bridge_mode_reset() {
    let mut room = Room::new_bridge_mode("R001");

    room.add_player(1, "P1", "Alice", Role::Human);
    room.add_player(2, "P2", "Bob", Role::Human);
    room.state = RoomState::Playing;

    assert_eq!(room.players.len(), 4);
    assert_eq!(room.human_count(), 2);

    let removed = room.reset_for_bridge_mode();

    assert_eq!(removed.len(), 2);
    assert!(removed.contains(&1));
    assert!(removed.contains(&2));
    assert_eq!(room.players.len(), 2);
    assert_eq!(room.human_count(), 0);
    assert_eq!(room.state, RoomState::Waiting);
    assert_eq!(room.players_needed(), 2);
}

#[test]
fn bridge_reset_keeps_ai_names_only() {
    let mut room = Room::new_bridge_mode("R001");
    room.add_player(1, "P1", "Alice", Role::Human);
    room.state = RoomState::Playing;
    room.reset_for_bridge_mode();
    assert_eq!(room.nicknames, vec!["AI_Partner1".to_string(), "AI_Partner2".to_string()]);
    assert!(room.players.iter().all(|p| p.role == Role::Ai));
}

#[test]
fn classic_reset_does_nothing() {
    let mut room = Room::new("R001");
    room.add_player(1, "P1", "Alice", Role::Human);
    room.state = RoomState::Playing;
    let removed = room.reset_for_bridge_mode();
    assert!(removed.is_empty());
    assert_eq!(room.players.len(), 1);
    assert_eq!(room.state, RoomState::Playing);
}

#[test]
fn remove_player_frees_nickname() {
    let mut room = Room::new("R001");
    room.add_player(7, "P1", "Alice", Role::Human);
    room.add_player(8, "P2", "Bob", Role::Human);
    let removed = room.remove_player(7).unwrap();
    assert_eq!(removed.nickname, "Alice");
    assert_eq!(room.nicknames, vec!["Bob".to_string()]);
    assert!(room.remove_player(7).is_none());
    assert_eq!(room.players.len(), 1);
}

#[test]
fn classic_teams_by_join_order() {
    let mut room = Room::new("R001");
    room.add_player(1, "P1", "A", Role::Ai);
    room.add_player(2, "P2", "B", Role::Human);
    room.add_player(3, "P3", "C", Role::Human);
    room.add_player(4, "P4", "D", Role::Ai);
    room.assign_teams();
    let teams: Vec<_> = room.players.iter().map(|p| p.team).collect();
    assert_eq!(teams, vec![Some(Team::Human), Some(Team::Human), Some(Team::Ai), Some(Team::Ai)]);
}

#[test]
fn room_messages() {
    let mut room = Room::new_bridge_mode("R007");
    room.add_player(1, "P1", "Alice", Role::Human);
    match room.room_wait_message() {
        ServerMessage::RoomWait { room: id, players, need } => {
            assert_eq!(id, "R007");
            assert_eq!(players.len(), 3);
            assert_eq!(players[0].nickname, "Alice");
            assert_eq!(need, 1);
        }
        _ => panic!("Expected RoomWait"),
    }
    match room.room_start_message() {
        ServerMessage::RoomStart { seed, players, .. } => {
            assert_eq!(seed, room.seed);
            assert_eq!(players[1].id, "P3");
            assert_eq!(players[2].id, "P4");
        }
        _ => panic!("Expected RoomStart"),
    }
    assert!(room.is_builtin_ai("P4"));
    assert!(!room.is_builtin_ai("P1"));
    assert_eq!(room.find_player(1).unwrap().nickname, "Alice");
    assert_eq!(room.find_player_by_id("P3").unwrap().nickname, "AI_Partner1");
    assert!(room.find_player(5).is_none());
    assert!(Room::is_virtual_conn(u64::MAX));
    assert!(!Room::is_virtual_conn(1));
}

#[test]
fn manager_numbers_rooms_and_reuses_open_ones() {
    let mut manager = RoomManager::new();
    let id1 = manager.get_or_create_waiting_room().id.clone();
    assert_eq!(id1, "R001");
    let again = manager.get_or_create_waiting_room().id.clone();
    assert_eq!(again, "R001");
    {
        let room = manager.get_or_create_waiting_room();
        room.add_player(1, "P1", "A", Role::Human);
        room.add_player(2, "P2", "B", Role::Human);
    }
    let id2 = manager.get_or_create_waiting_room().id.clone();
    assert_eq!(id2, "R002");
    assert_eq!(manager.rooms_count(), 2);
}

#[test]
fn manager_disconnect_and_queries() {
    let mut manager = RoomManager::new();
    {
        let room = manager.get_or_create_waiting_room();
        room.add_player(5, "P1", "Alice", Role::Human);
    }
    manager.associate_conn(5, "R001");
    assert_eq!(manager.find_player_conn("P1"), Some((5, "R001".to_string())));
    assert_eq!(manager.find_player_conn("P3"), Some((u64::MAX - 1, "R001".to_string())));
    assert_eq!(manager.find_player_conn("P9"), None);
    let rooms = manager.get_all_rooms_info();
    assert_eq!(rooms, vec![("R001".to_string(), "Waiting".to_string(), 3, 1)]);
    let players = manager.get_all_players_info();
    assert_eq!(players.len(), 3);
    assert_eq!(players[0], ("P1".to_string(), "Alice".to_string(), "R001".to_string(), "Human".to_string(), false));
    assert!(players[1].4);
    let left = manager.handle_disconnect(5).unwrap();
    assert_eq!(left.nickname, "Alice");
    assert!(manager.get_room_for_conn(5).is_none());
    assert_eq!(manager.get_room("R001").unwrap().players.len(), 2);
    assert!(manager.handle_disconnect(5).is_none());
    assert!(manager.get_room_mut("R404").is_none());
}
