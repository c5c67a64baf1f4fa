use card_arena::deck::{CardData, Rank, Suit};
use card_arena::player::AiPlayer;
use card_arena::protocol::Team;
use card_arena::strategy::{AiStrategy, SmartStrategy};

fn make_card(suit: Suit, rank: u8) -> CardData {
    CardData { suit, rank: Rank(rank) }
}

#[test]
fn test_create_partners() {
    let (p1, p2) = AiPlayer::create_partners();

    assert_eq!(p1.player_id, "P3");
    assert_eq!(p2.player_id, "P4");
    assert_eq!(p1.team, Team::Ai);
    assert_eq!(p2.team, Team::Ai);
}

#[test]
fn test_leader_longest_suit() {
    let strategy = SmartStrategy::new();

    let hand = vec![
        make_card(Suit::Hearts, 3),
        make_card(Suit::Hearts, 5),
        make_card(Suit::Hearts, 9),
        make_card(Suit::Diamonds, 2),
        make_card(Suit::Diamonds, 7),
    ];

    let result = strategy.choose_card(&hand, &hand, &[], true);

    assert_eq!(result.suit, Suit::Hearts);
    assert_eq!(result.rank.0, 3);
}

#[test]
fn test_follower_win_attempt() {
    let strategy = SmartStrategy::new();

    let table = vec![(0, make_card(Suit::Hearts, 7))];

    let hand = vec![
        make_card(Suit::Hearts, 3),
        make_card(Suit::Hearts, 9),
        make_card(Suit::Hearts, 12),
        make_card(Suit::Diamonds, 5),
    ];

    let legal = vec![
        make_card(Suit::Hearts, 3),
        make_card(Suit::Hearts, 9),
        make_card(Suit::Hearts, 12),
    ];

    let result = strategy.choose_card(&hand, &legal, &table, false);

    assert_eq!(result.suit, Suit::Hearts);
    assert_eq!(result.rank.0, 12);
}

#[test]
fn test_follower_give_up() {
    let strategy = SmartStrategy::new();

    let table = vec![(0, make_card(Suit::Hearts, 7))];

    let hand = vec![
        make_card(Suit::Hearts, 3),
        make_card(Suit::Hearts, 8),
        make_card(Suit::Diamonds, 5),
    ];

    let legal = vec![make_card(Suit::Hearts, 3), make_card(Suit::Hearts, 8)];

    let result = strategy.choose_card(&hand, &legal, &table, false);

    assert_eq!(result.suit, Suit::Hearts);
    assert_eq!(result.rank.0, 3);
}

#[test]
fn test_follower_discard() {
    let strategy = SmartStrategy::new();

    let table = vec![(0, make_card(Suit::Hearts, 7))];

    let hand = vec![
        make_card(Suit::Diamonds, 2),
        make_card(Suit::Spades, 5),
        make_card(Suit::Clubs, 13),
    ];

    let result = strategy.choose_card(&hand, &hand, &table, false);

    assert_eq!(result.suit, Suit::Diamonds);
    assert_eq!(result.rank.0, 2);
}

#[test]
fn test_find_longest_suit_priority() {
    let hand = vec![make_card(Suit::Hearts, 3), make_card(Suit::Spades, 5)];

    let result = SmartStrategy::find_longest_suit(&hand);
    assert_eq!(result, Suit::Spades);
}

#[test]
fn follower_beats_lead_five_with_nine() {
    // Lead 5S: a winning card must be at least 5 + 3 = 8.
    let strategy = SmartStrategy::new();
    let table = vec![(0, make_card(Suit::Spades, 5))];
    let hand = vec![make_card(Suit::Spades, 3), make_card(Suit::Spades, 9), make_card(Suit::Spades, 12)];
    assert_eq!(strategy.choose_card(&hand, &hand, &table, false), make_card(Suit::Spades, 9));
    let hand = vec![make_card(Suit::Spades, 3), make_card(Suit::Spades, 8)];
    assert_eq!(strategy.choose_card(&hand, &hand, &table, false), make_card(Suit::Spades, 8));
    let hand = vec![make_card(Suit::Spades, 3), make_card(Suit::Spades, 7)];
    assert_eq!(strategy.choose_card(&hand, &hand, &table, false), make_card(Suit::Spades, 3));
}

#[test]
fn follower_measures_against_highest_lead_card() {
    let strategy = SmartStrategy::new();
    let table = vec![
        (0, make_card(Suit::Spades, 5)),
        (1, make_card(Suit::Spades, 10)),
        (2, make_card(Suit::Hearts, 14)),
    ];
    let hand = vec![make_card(Suit::Spades, 12), make_card(Suit::Spades, 13), make_card(Suit::Spades, 4)];
    assert_eq!(strategy.choose_card(&hand, &hand, &table, false), make_card(Suit::Spades, 13));
}

#[test]
fn leader_breaks_ties_in_suit_order() {
    let strategy = SmartStrategy::new();
    let hand = vec![
        make_card(Suit::Clubs, 2),
        make_card(Suit::Clubs, 3),
        make_card(Suit::Diamonds, 9),
        make_card(Suit::Diamonds, 4),
    ];
    assert_eq!(SmartStrategy::find_longest_suit(&hand), Suit::Diamonds);
    assert_eq!(strategy.choose_card(&hand, &hand, &[], true), make_card(Suit::Diamonds, 4));
    assert_eq!(SmartStrategy::find_longest_suit(&[]), Suit::Spades);
}

#[test]
fn leader_without_legal_card_of_longest_suit_plays_lowest_legal() {
    let strategy = SmartStrategy::new();
    let hand = vec![make_card(Suit::Hearts, 3), make_card(Suit::Hearts, 5), make_card(Suit::Clubs, 9)];
    let legal = vec![make_card(Suit::Clubs, 9), make_card(Suit::Clubs, 6)];
    assert_eq!(strategy.choose_card(&hand, &legal, &[], true), make_card(Suit::Clubs, 6));
}

#[test]
fn empty_legal_set_falls_back_to_first_card() {
    let strategy = SmartStrategy::new();
    let hand = vec![make_card(Suit::Hearts, 3)];
    assert_eq!(strategy.choose_card(&hand, &[], &[], true), make_card(Suit::Hearts, 3));
    assert_eq!(strategy.choose_card(&[], &[], &[], true), make_card(Suit::Clubs, 2));
}

#[test]
fn helper_searches() {
    let cards = vec![make_card(Suit::Hearts, 9), make_card(Suit::Spades, 4), make_card(Suit::Hearts, 4)];
    assert_eq!(SmartStrategy::find_smallest(&cards), Some(make_card(Suit::Spades, 4)));
    assert_eq!(SmartStrategy::find_smallest(&[]), None);
    assert_eq!(SmartStrategy::find_smallest_of_suit(&cards, Suit::Hearts), Some(make_card(Suit::Hearts, 4)));
    assert_eq!(SmartStrategy::find_smallest_of_suit(&cards, Suit::Clubs), None);
    assert_eq!(
        SmartStrategy::find_smallest_above_threshold(&cards, Rank(4), 3),
        Some(make_card(Suit::Hearts, 9))
    );
    assert_eq!(SmartStrategy::find_smallest_above_threshold(&cards, Rank(7), 3), None);
    assert_eq!(SmartStrategy::find_smallest_above_threshold(&cards, Rank(254), 3), None);
}
