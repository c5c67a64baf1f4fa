use card_arena::commands::{
    admin_step, command_from_words, query_reply, AdminEvent, AdminStep, format_logs, format_players, format_result, format_rooms, format_status, help_message, parse_command,
    AdminConfig, AdminResponse, ParsedCommand, PlayerInfo, RoomInfo,
};
use card_arena::logger::{format_timestamp, EventType, GameLogger, LogEntry};

#[test]
fn test_parse_help() {
    match parse_command("HELP") {
        ParsedCommand::Help => {}
        _ => panic!("Expected Help"),
    }

    match parse_command("?") {
        ParsedCommand::Help => {}
        _ => panic!("Expected Help"),
    }
}

#[test]
fn test_parse_auth() {
    match parse_command("AUTH my_token") {
        ParsedCommand::Auth(token) => assert_eq!(token, "my_token"),
        _ => panic!("Expected Auth"),
    }
}

#[test]
fn test_parse_logs() {
    match parse_command("LOGS") {
        ParsedCommand::Logs(n, None) => assert_eq!(n, 20),
        _ => panic!("Expected Logs"),
    }

    match parse_command("LOGS 50") {
        ParsedCommand::Logs(n, None) => assert_eq!(n, 50),
        _ => panic!("Expected Logs"),
    }

    match parse_command("LOGS 10 PLAY") {
        ParsedCommand::Logs(n, Some(EventType::Play)) => assert_eq!(n, 10),
        _ => panic!("Expected Logs with type"),
    }
}

#[test]
fn test_parse_kick() {
    match parse_command("KICK P1") {
        ParsedCommand::Kick(id) => assert_eq!(id, "P1"),
        _ => panic!("Expected Kick"),
    }
}

#[test]
fn test_parse_reset() {
    match parse_command("RESET") {
        ParsedCommand::Reset(None) => {}
        _ => panic!("Expected Reset without room"),
    }

    match parse_command("RESET R001") {
        ParsedCommand::Reset(Some(id)) => assert_eq!(id, "R001"),
        _ => panic!("Expected Reset with room"),
    }
}

#[test]
fn parse_is_case_insensitive_and_reports_unknown() {
    assert!(matches!(parse_command("  status  "), ParsedCommand::Status));
    assert!(matches!(parse_command("rooms"), ParsedCommand::Rooms));
    assert!(matches!(parse_command("Players"), ParsedCommand::Players));
    assert!(matches!(parse_command("bye"), ParsedCommand::Quit));
    assert!(matches!(parse_command("exit now"), ParsedCommand::Quit));
    match parse_command("frobnicate x") {
        ParsedCommand::Unknown(m) => assert_eq!(m, "Unknown command: FROBNICATE"),
        _ => panic!("Expected Unknown"),
    }
    match parse_command("   ") {
        ParsedCommand::Unknown(m) => assert_eq!(m, ""),
        _ => panic!("Expected Unknown"),
    }
    match parse_command("AUTH") {
        ParsedCommand::Unknown(m) => assert_eq!(m, "AUTH requires a token"),
        _ => panic!("Expected Unknown"),
    }
    match parse_command("kick") {
        ParsedCommand::Unknown(m) => assert_eq!(m, "KICK requires a player_id"),
        _ => panic!("Expected Unknown"),
    }
}

#[test]
fn parse_logs_counts_like_usize() {
    assert!(matches!(parse_command("LOGS +7"), ParsedCommand::Logs(7, None)));
    assert!(matches!(parse_command("LOGS -7"), ParsedCommand::Logs(20, None)));
    assert!(matches!(parse_command("LOGS abc"), ParsedCommand::Logs(20, None)));
    assert!(matches!(parse_command("LOGS 99999999999999999999999"), ParsedCommand::Logs(20, None)));
    assert!(matches!(parse_command("logs 3 player_join"), ParsedCommand::Logs(3, Some(EventType::PlayerJoin))));
    assert!(matches!(parse_command("LOGS 3 nothing"), ParsedCommand::Logs(3, None)));
    assert!(matches!(parse_command("LOGS\t4\u{3000}admin"), ParsedCommand::Logs(4, Some(EventType::AdminAction))));
}

#[test]
fn event_type_names() {
    assert_eq!(EventType::TrickResult.as_str(), "TRICK_RESULT");
    assert_eq!(EventType::AdminAction.as_str(), "ADMIN");
    assert_eq!(EventType::from_str("game_end"), Some(EventType::GameEnd));
    assert_eq!(EventType::from_str("nope"), None);
}

#[test]
fn test_logger_basic() {
    let mut logger = GameLogger::new();

    logger.log(EventType::PlayerJoin, "Alice joined R001");
    logger.log(EventType::Play, "P1 plays 5H");

    let entries = logger.get_recent(10);
    assert_eq!(entries.len(), 2);
    assert_eq!(entries[0].event_type, EventType::PlayerJoin);
    assert_eq!(entries[1].event_type, EventType::Play);
}

#[test]
fn test_logger_capacity() {
    let mut logger = GameLogger::with_capacity(3);

    logger.log(EventType::Play, "1");
    logger.log(EventType::Play, "2");
    logger.log(EventType::Play, "3");
    logger.log(EventType::Play, "4");

    let entries = logger.get_recent(10);
    assert_eq!(entries.len(), 3);
    assert_eq!(entries[0].message, "2");
}

#[test]
fn test_logger_by_type() {
    let mut logger = GameLogger::new();

    logger.log(EventType::PlayerJoin, "join1");
    logger.log(EventType::Play, "play1");
    logger.log(EventType::PlayerJoin, "join2");
    logger.log(EventType::Play, "play2");

    let joins = logger.get_recent_by_type(10, EventType::PlayerJoin);
    assert_eq!(joins.len(), 2);
    assert!(joins.iter().all(|e| e.event_type == EventType::PlayerJoin));
}

#[test]
fn test_convenience_methods() {
    let mut logger = GameLogger::new();

    logger.player_join("P1", "Alice", "R001");
    logger.play("P1", "5H", 1);
    logger.trick_result("P2", 1);
    logger.game_end("R001", 7, 6);

    let entries = logger.get_recent(10);
    assert_eq!(entries.len(), 4);
}

#[test]
fn convenience_messages() {
    let mut logger = GameLogger::new();
    logger.player_join("P1", "Alice", "R001");
    logger.player_leave("P1", "Alice", "R001");
    logger.game_start("R001", 42);
    logger.game_end("R001", 7, 6);
    logger.play("P1", "5H", 1);
    logger.trick_result("P2", 3);
    logger.admin_action("KICK", "Kicked P1");
    logger.error("boom");
    let m: Vec<String> = logger.get_recent(100).into_iter().map(|e| e.message).collect();
    assert_eq!(
        m,
        vec![
            "Alice (P1) joined R001",
            "Alice (P1) left R001",
            "R001 started (seed: 42)",
            "R001 ended (HUMAN: 7, AI: 6)",
            "P1 plays 5H (trick 1)",
            "P2 wins trick 3",
            "KICK: Kicked P1",
            "boom",
        ]
    );
    assert_eq!(logger.len(), 8);
    logger.clear();
    assert_eq!(logger.len(), 0);
}

#[test]
fn recent_by_type_keeps_the_latest() {
    let mut logger = GameLogger::new();
    for i in 0..5 {
        logger.log(EventType::Play, &format!("p{}", i));
        logger.log(EventType::Error, &format!("e{}", i));
    }
    let plays: Vec<String> = logger.get_recent_by_type(2, EventType::Play).into_iter().map(|e| e.message).collect();
    assert_eq!(plays, vec!["p3", "p4"]);
    let last: Vec<String> = logger.get_recent(3).into_iter().map(|e| e.message).collect();
    assert_eq!(last, vec!["e3", "p4", "e4"]);
}

#[test]
fn timestamps_and_entry_format() {
    assert_eq!(format_timestamp(0), "1970-01-01 00:00:00");
    assert_eq!(format_timestamp(86400 * 31 + 3661), "1970-02-02 01:01:01");
    let entry = LogEntry { timestamp: 59, event_type: EventType::GameStart, message: "R001 started".to_string() };
    assert_eq!(entry.format(), "[1970-01-01 00:00:59] GAME_START: R001 started");
    let fresh = LogEntry::new(EventType::Error, "x");
    assert!(fresh.timestamp > 1_000_000_000);
}

#[test]
fn format_logs_output() {
    let mut logger = GameLogger::new();
    assert_eq!(format_logs(&logger, 10, None), "No logs found.");
    logger.log(EventType::Play, "P1 plays 5H");
    let text = format_logs(&logger, 10, Some(EventType::Play));
    assert!(text.starts_with("\n=== Logs ===\n["));
    assert!(text.ends_with("] PLAY: P1 plays 5H\n"));
    assert_eq!(format_logs(&logger, 10, Some(EventType::Error)), "No logs found.");
}

#[test]
fn format_responses() {
    let status = AdminResponse::Status { total_connections: 3, total_rooms: 2, games_in_progress: 1 };
    assert_eq!(
        format_status(&status),
        "\n=== Server Status ===\nTotal Connections: 3\nTotal Rooms: 2\nGames In Progress: 1\n"
    );
    assert_eq!(format_status(&AdminResponse::Done("x".to_string())), "Invalid response");
    assert_eq!(format_result(&AdminResponse::Done("done".to_string())), "OK: done");
    assert_eq!(format_result(&AdminResponse::Error("bad".to_string())), "ERROR: bad");
    assert_eq!(format_result(&status), "Invalid response");
    assert_eq!(format_rooms(&AdminResponse::Rooms(vec![])), "No rooms found.");
    assert_eq!(format_players(&AdminResponse::Players(vec![])), "No players found.");
    assert_eq!(format_rooms(&status), "Invalid response");
    let rooms = AdminResponse::Rooms(vec![RoomInfo {
        id: "R001".to_string(),
        state: "Playing".to_string(),
        player_count: 4,
        human_count: 2,
    }]);
    let expected = format!(
        "\n=== Rooms ===\n{:<8} {:<12} {:<10} {:<10}\n{}\n{:<8} {:<12} {:<10} {:<10}\n",
        "ID",
        "State",
        "Players",
        "Humans",
        "-".repeat(42),
        "R001",
        "Playing",
        4,
        2
    );
    assert_eq!(format_rooms(&rooms), expected);
    let players = AdminResponse::Players(vec![PlayerInfo {
        player_id: "P1".to_string(),
        nickname: "Alice".to_string(),
        room_id: "R001".to_string(),
        role: "Human".to_string(),
        is_ai: false,
    }]);
    let expected = format!(
        "\n=== Players ===\n{:<8} {:<16} {:<8} {:<8} {:<6}\n{}\n{:<8} {:<16} {:<8} {:<8} {:<6}\n",
        "ID",
        "Nickname",
        "Room",
        "Role",
        "AI",
        "-".repeat(50),
        "P1",
        "Alice",
        "R001",
        "Human",
        "No"
    );
    assert_eq!(format_players(&players), expected);
}

#[test]
fn help_lists_commands() {
    let help = help_message();
    assert!(help.contains("=== CardArena Admin Console ==="));
    assert!(help.contains("RESET [room_id]"));
}

#[test]
fn test_admin_config_default() {
    let config = AdminConfig::with_token(None);
    assert_eq!(config.port, 8890);
    assert_eq!(config.auth_token, "admin");
    assert_eq!(AdminConfig::with_token(Some("t0k".to_string())).auth_token, "t0k");
}

#[test]
fn search_ignores_case() {
    let mut logger = GameLogger::default();
    logger.log(EventType::PlayerJoin, "Alice (P1) joined R001");
    logger.log(EventType::Play, "P1 plays 5H (trick 1)");
    logger.log(EventType::PlayerLeave, "ALICE (P1) left R001");
    let found: Vec<String> = logger.search("alice", 10).into_iter().map(|e| e.message).collect();
    assert_eq!(found, vec!["Alice (P1) joined R001", "ALICE (P1) left R001"]);
    let last: Vec<String> = logger.search("ALICE", 1).into_iter().map(|e| e.message).collect();
    assert_eq!(last, vec!["ALICE (P1) left R001"]);
    assert_eq!(logger.search("", 10).len(), 3);
    assert!(logger.search("bob", 10).is_empty());
}

#[test]
fn command_from_upper_cased_word() {
    let words = vec![vec!['l', 'o', 'g', 's'], vec!['5'], vec!['p', 'l', 'a', 'y']];
    assert!(matches!(command_from_words("LOGS", &words, Some(EventType::Play)), ParsedCommand::Logs(5, Some(EventType::Play))));
    assert!(matches!(command_from_words("logs", &words, None), ParsedCommand::Unknown(_)));
    match command_from_words("KICK", &vec![vec!['k'], vec!['P', '2']], None) {
        ParsedCommand::Kick(id) => assert_eq!(id, "P2"),
        _ => panic!("Expected Kick"),
    }
}

#[test]
fn console_session_steps() {
    let (auth, step) = admin_step(false, "secret", &parse_command("STATUS"));
    assert!(!auth);
    match step {
        AdminStep::Reply(t) => assert_eq!(t, "ERROR: Not authenticated. Use AUTH <token> first."),
        other => panic!("unexpected {:?}", other),
    }
    let (auth, step) = admin_step(false, "secret", &parse_command("AUTH wrong"));
    assert!(!auth);
    assert!(matches!(step, AdminStep::Reply(ref t) if t == "ERROR: Invalid token"));
    let (auth, step) = admin_step(false, "secret", &parse_command("auth secret"));
    assert!(auth);
    assert!(matches!(step, AdminStep::Reply(ref t) if t == "OK: Authentication successful"));
    let (_, step) = admin_step(true, "secret", &parse_command("status"));
    assert!(matches!(step, AdminStep::Query(AdminEvent::GetStatus)));
    let (_, step) = admin_step(true, "secret", &parse_command("KICK P2"));
    assert!(matches!(step, AdminStep::Query(AdminEvent::KickPlayer { ref player_id }) if player_id == "P2"));
    let (_, step) = admin_step(true, "secret", &parse_command("LOGS 5"));
    assert!(matches!(step, AdminStep::ShowLogs(5, None)));
    let (_, step) = admin_step(false, "secret", &parse_command(""));
    assert!(matches!(step, AdminStep::Nothing));
    let (_, step) = admin_step(false, "secret", &parse_command("bye"));
    assert!(matches!(step, AdminStep::Quit));
    let (_, step) = admin_step(false, "secret", &parse_command("dance"));
    assert!(matches!(step, AdminStep::Reply(ref t) if t == "ERROR: Unknown command: DANCE"));
}

#[test]
fn query_replies() {
    assert_eq!(query_reply(&AdminEvent::GetRooms, &None), "ERROR: Failed to get rooms");
    assert_eq!(
        query_reply(&AdminEvent::KickPlayer { player_id: "P1".to_string() }, &Some(AdminResponse::Done("x".to_string()))),
        "OK: x"
    );
    assert_eq!(query_reply(&AdminEvent::GetRooms, &Some(AdminResponse::Rooms(vec![]))), "No rooms found.");
}
