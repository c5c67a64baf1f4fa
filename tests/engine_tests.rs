use card_arena::deck::{CardData, Rank, Suit};
use card_arena::engine::{GameEngine, GamePhase, PlayError, PlayResult, TrickResolution};
use card_arena::protocol::{ServerMessage, Team};
use card_arena::strategy::{AiStrategy, SmartStrategy};
use std::collections::HashSet;

fn create_test_engine() -> GameEngine {
    let players = vec![
        (1, "P1".to_string(), Team::Human),
        (2, "P2".to_string(), Team::Human),
        (3, "P3".to_string(), Team::Ai),
        (4, "P4".to_string(), Team::Ai),
    ];
    GameEngine::new(12345, players)
}

#[test]
fn test_deal_cards() {
    let mut engine = create_test_engine();
    let messages = engine.deal();

    assert_eq!(messages.len(), 4);
    for player in &engine.players {
        assert_eq!(player.hand.len(), 13);
    }
}

#[test]
fn test_legal_moves_first_play() {
    let mut engine = create_test_engine();
    engine.deal();

    let legal = engine.get_legal_moves(0);
    assert_eq!(legal.len(), 13);
}

#[test]
fn test_follow_suit_rule() {
    let mut engine = create_test_engine();
    engine.deal();

    let p1_hand = &engine.players[0].hand;
    let spade_card = p1_hand.iter().find(|c| c.suit == Suit::Spades).copied();

    if let Some(card) = spade_card {
        engine.table.push((0, card));
        engine.phase = GamePhase::WaitingForPlay { current_player_idx: 1 };

        let legal = engine.get_legal_moves(1);

        let p2_spades: Vec<_> = engine.players[1].hand.iter().filter(|c| c.suit == Suit::Spades).collect();
        if !p2_spades.is_empty() {
            assert!(legal.iter().all(|c| c.suit == Suit::Spades));
        }
    }
}

#[test]
fn test_trick_winner() {
    let mut engine = create_test_engine();
    engine.deal();
    engine.current_trick = 1;

    engine.table = vec![
        (0, CardData::new(Suit::Spades, Rank(5))),
        (1, CardData::new(Suit::Spades, Rank(13))),
        (2, CardData::new(Suit::Spades, Rank(2))),
        (3, CardData::new(Suit::Spades, Rank(10))),
    ];
    engine.phase = GamePhase::TrickComplete;

    let resolution = engine.resolve_trick();

    match resolution {
        TrickResolution::NextTrick(_, winner_idx) => {
            assert_eq!(winner_idx, 1);
        }
        _ => panic!("Expected NextTrick"),
    }
}

#[test]
fn off_suit_cards_cannot_win() {
    let mut engine = create_test_engine();
    engine.deal();
    engine.current_trick = 1;
    engine.table = vec![
        (0, CardData::new(Suit::Hearts, Rank(3))),
        (1, CardData::new(Suit::Spades, Rank(14))),
        (2, CardData::new(Suit::Hearts, Rank(9))),
        (3, CardData::new(Suit::Clubs, Rank(13))),
    ];
    match engine.resolve_trick() {
        TrickResolution::NextTrick(msg, winner_idx) => {
            assert_eq!(winner_idx, 2);
            match msg {
                ServerMessage::TrickResult { trick, winner, score, plays } => {
                    assert_eq!(trick, 1);
                    assert_eq!(winner, "P3");
                    assert_eq!(score.ai, 1);
                    assert_eq!(score.human, 0);
                    assert_eq!(plays.len(), 4);
                    assert_eq!(plays[1].card, "AS");
                }
                _ => panic!("Expected TrickResult"),
            }
        }
        _ => panic!("Expected NextTrick"),
    }
    assert_eq!(engine.current_trick, 2);
    assert!(engine.table.is_empty());
    assert_eq!(engine.history.len(), 1);
    assert_eq!(engine.history[0].cards, vec!["3H", "AS", "9H", "KC"]);
    assert_eq!(engine.phase, GamePhase::WaitingForPlay { current_player_idx: 2 });
}

#[test]
fn deal_gives_disjoint_sorted_hands() {
    let mut engine = create_test_engine();
    let messages = engine.deal();
    let mut all = HashSet::new();
    for player in &engine.players {
        assert_eq!(player.hand.len(), 13);
        for w in player.hand.windows(2) {
            assert!((w[0].suit as u8, w[0].rank.0) < (w[1].suit as u8, w[1].rank.0));
        }
        for c in &player.hand {
            assert!(all.insert((c.suit, c.rank)));
        }
    }
    assert_eq!(all.len(), 52);
    assert_eq!(engine.current_trick, 1);
    assert_eq!(engine.phase, GamePhase::WaitingForPlay { current_player_idx: 0 });
    match &messages[2].1 {
        ServerMessage::Deal { hand, total_tricks } => {
            assert_eq!(*total_tricks, 13);
            assert_eq!(hand.len(), 13);
            assert_eq!(hand[0], engine.players[2].hand[0].to_protocol_string());
        }
        _ => panic!("Expected Deal"),
    }
    assert_eq!(messages[2].0, 3);
}

#[test]
fn same_seed_same_hands() {
    let mut a = create_test_engine();
    let mut b = create_test_engine();
    a.deal();
    b.deal();
    for i in 0..4 {
        assert_eq!(a.players[i].hand, b.players[i].hand);
    }
}

#[test]
fn validate_play_errors() {
    let mut engine = create_test_engine();
    assert_eq!(engine.validate_play(1, "AS"), Err(PlayError::NotYourTurn));
    engine.deal();
    assert_eq!(engine.validate_play(99, "AS"), Err(PlayError::NotInGame));
    assert_eq!(engine.validate_play(2, "AS"), Err(PlayError::NotYourTurn));
    assert_eq!(engine.validate_play(1, "ZZ"), Err(PlayError::InvalidCard));
    let not_held = engine.players[1].hand[0];
    assert_eq!(engine.validate_play(1, &not_held.to_protocol_string()), Err(PlayError::NotInHand));
    let held = engine.players[0].hand[0];
    assert_eq!(engine.validate_play(1, &held.to_protocol_string()), Ok((0, held)));
}

#[test]
fn validate_play_not_legal() {
    let mut engine = create_test_engine();
    engine.players[0].hand = vec![CardData::new(Suit::Hearts, Rank(4))];
    engine.players[1].hand = vec![
        CardData::new(Suit::Hearts, Rank(9)),
        CardData::new(Suit::Clubs, Rank(2)),
    ];
    engine.current_trick = 1;
    engine.table = vec![(0, CardData::new(Suit::Hearts, Rank(4)))];
    engine.phase = GamePhase::WaitingForPlay { current_player_idx: 1 };
    assert_eq!(engine.validate_play(2, "2C"), Err(PlayError::NotLegal));
    assert_eq!(engine.validate_play(2, "9h"), Ok((1, CardData::new(Suit::Hearts, Rank(9)))));
    let before = engine.players[1].hand.clone();
    let _ = engine.validate_play(2, "2C");
    assert_eq!(engine.players[1].hand, before);
}

#[test]
fn play_card_moves_card_to_table() {
    let mut engine = create_test_engine();
    engine.deal();
    let card = engine.players[0].hand[3];
    match engine.play_card(0, card) {
        PlayResult::Continue(msg, next) => {
            assert_eq!(next, 1);
            match msg {
                ServerMessage::PlayBroadcast { player_id, card: c, trick } => {
                    assert_eq!(player_id, "P1");
                    assert_eq!(c, card.to_protocol_string());
                    assert_eq!(trick, 1);
                }
                _ => panic!("Expected PlayBroadcast"),
            }
        }
        _ => panic!("Expected Continue"),
    }
    assert_eq!(engine.players[0].hand.len(), 12);
    assert!(!engine.players[0].hand.contains(&card));
    assert_eq!(engine.table, vec![(0, card)]);
    assert_eq!(engine.phase, GamePhase::WaitingForPlay { current_player_idx: 1 });
}

#[test]
fn fourth_card_completes_trick() {
    let mut engine = create_test_engine();
    engine.deal();
    for seat in 0..4 {
        let legal = engine.get_legal_moves(seat);
        let result = engine.play_card(seat, legal[0]);
        if seat < 3 {
            assert!(matches!(result, PlayResult::Continue(_, _)));
        } else {
            assert!(matches!(result, PlayResult::TrickComplete(_)));
        }
    }
    assert_eq!(engine.phase, GamePhase::TrickComplete);
}

fn play_full_game(seed: u64) -> GameEngine {
    let players = vec![
        (1, "P1".to_string(), Team::Human),
        (2, "P2".to_string(), Team::Human),
        (3, "P3".to_string(), Team::Ai),
        (4, "P4".to_string(), Team::Ai),
    ];
    let mut engine = GameEngine::new(seed, players);
    engine.deal();
    let strategy = SmartStrategy::new();
    loop {
        let idx = match engine.current_player_idx() {
            Some(i) => i,
            None => break,
        };
        let hand = engine.players[idx].hand.clone();
        let legal = engine.get_legal_moves(idx);
        let table = engine.table.clone();
        let card = strategy.choose_card(&hand, &legal, &table, table.is_empty());
        assert!(legal.contains(&card));
        if let PlayResult::TrickComplete(_) = engine.play_card(idx, card) {
            if let TrickResolution::GameOver(_) = engine.resolve_trick() {
                break;
            }
        }
    }
    engine
}

#[test]
fn score_adds_up_to_thirteen() {
    for seed in [1u64, 42, 12345, 67890] {
        let engine = play_full_game(seed);
        assert_eq!(engine.phase, GamePhase::GameOver);
        assert_eq!(engine.score.human + engine.score.ai, 13);
        assert_eq!(engine.history.len(), 13);
        assert!(engine.players.iter().all(|p| p.hand.is_empty()));
    }
}

#[test]
fn game_over_winner_and_tie() {
    let mut engine = create_test_engine();
    engine.score.human = 6;
    engine.score.ai = 7;
    match engine.game_over_message() {
        ServerMessage::GameOver { winner, final_score, history } => {
            assert_eq!(winner, Team::Ai);
            assert_eq!(final_score.ai, 7);
            assert!(history.is_empty());
        }
        _ => panic!("Expected GameOver"),
    }
    engine.score.human = 7;
    engine.score.ai = 7;
    match engine.game_over_message() {
        ServerMessage::GameOver { winner, .. } => assert_eq!(winner, Team::Human),
        _ => panic!("Expected GameOver"),
    }
}

#[test]
fn your_turn_lists_table_and_legal_cards() {
    let mut engine = create_test_engine();
    engine.players[1].hand = vec![
        CardData::new(Suit::Hearts, Rank(9)),
        CardData::new(Suit::Clubs, Rank(2)),
    ];
    engine.current_trick = 3;
    engine.table = vec![(0, CardData::new(Suit::Hearts, Rank(4)))];
    match engine.your_turn_message(1) {
        ServerMessage::YourTurn { trick, table, legal, timeout_ms } => {
            assert_eq!(trick, 3);
            assert_eq!(table.len(), 1);
            assert_eq!(table[0].player_id, "P1");
            assert_eq!(table[0].card, "4H");
            assert_eq!(legal, vec!["9H".to_string()]);
            assert_eq!(timeout_ms, 30000);
        }
        _ => panic!("Expected YourTurn"),
    }
    assert_eq!(engine.all_conn_ids(), vec![1, 2, 3, 4]);
    assert_eq!(engine.find_player_idx(3), Some(2));
    assert_eq!(engine.find_player_idx(9), None);
}
