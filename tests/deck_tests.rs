use card_arena::deck::{CardData, Deck, Rank, Suit};
use std::collections::HashSet;

#[test]
fn test_deck_has_52_cards() {
    let deck = Deck::new();
    assert_eq!(deck.cards().len(), 52);
}

#[test]
fn test_deck_unique_cards() {
    let deck = Deck::new();
    let mut seen = HashSet::new();
    for card in deck.cards() {
        assert!(seen.insert((card.suit, card.rank)));
    }
}

#[test]
fn test_deterministic_shuffle() {
    let seed = 12345u64;

    let mut deck1 = Deck::new();
    deck1.shuffle(seed);

    let mut deck2 = Deck::new();
    deck2.shuffle(seed);

    assert_eq!(deck1.cards(), deck2.cards());
}

#[test]
fn test_different_seeds_different_order() {
    let mut deck1 = Deck::new();
    deck1.shuffle(12345);

    let mut deck2 = Deck::new();
    deck2.shuffle(67890);

    assert_ne!(deck1.cards(), deck2.cards());
}

#[test]
fn test_deal_4_players_13_cards() {
    let mut deck = Deck::new();
    deck.shuffle(42);

    let hands = deck.deal(4, 13);

    assert_eq!(hands.len(), 4);
    for hand in &hands {
        assert_eq!(hand.len(), 13);
    }

    let mut all_cards: Vec<_> = hands.iter().flatten().collect();
    all_cards.sort_by_key(|c| (c.suit as u8, c.rank.0));
    for i in 1..all_cards.len() {
        assert_ne!(all_cards[i - 1], all_cards[i]);
    }
}

#[test]
fn test_card_protocol_string() {
    let card = CardData::new(Suit::Spades, Rank(14));
    assert_eq!(card.to_protocol_string(), "AS");

    let card = CardData::new(Suit::Hearts, Rank(10));
    assert_eq!(card.to_protocol_string(), "10H");

    let card = CardData::new(Suit::Clubs, Rank(13));
    assert_eq!(card.to_protocol_string(), "KC");
}

#[test]
fn test_card_from_protocol_string() {
    let card = CardData::from_protocol_string("AS").unwrap();
    assert_eq!(card.suit, Suit::Spades);
    assert_eq!(card.rank, Rank(14));

    let card = CardData::from_protocol_string("10H").unwrap();
    assert_eq!(card.suit, Suit::Hearts);
    assert_eq!(card.rank, Rank(10));

    let card = CardData::from_protocol_string("KC").unwrap();
    assert_eq!(card.suit, Suit::Clubs);
    assert_eq!(card.rank, Rank(13));
}

#[test]
fn lowercase_tokens_parse() {
    let card = CardData::from_protocol_string("qd").unwrap();
    assert_eq!(card.suit, Suit::Diamonds);
    assert_eq!(card.rank, Rank(12));
    assert_eq!(Rank::from_str("j"), Some(Rank(11)));
    assert_eq!(Rank::from_str("a"), Some(Rank(14)));
}

#[test]
fn malformed_tokens_are_refused() {
    assert_eq!(CardData::from_protocol_string(""), None);
    assert_eq!(CardData::from_protocol_string("A"), None);
    assert_eq!(CardData::from_protocol_string("1S"), None);
    assert_eq!(CardData::from_protocol_string("11S"), None);
    assert_eq!(CardData::from_protocol_string("AX"), None);
    assert_eq!(CardData::from_protocol_string("10"), None);
    assert_eq!(CardData::from_protocol_string("5é"), None);
}

#[test]
fn every_card_token_round_trips() {
    let deck = Deck::new();
    for card in deck.cards() {
        let token = card.to_protocol_string();
        assert_eq!(CardData::from_protocol_string(&token), Some(*card));
    }
}

#[test]
fn rank_symbols() {
    assert_eq!(Rank(2).symbol(), "2");
    assert_eq!(Rank(9).symbol(), "9");
    assert_eq!(Rank(10).symbol(), "10");
    assert_eq!(Rank(11).symbol(), "J");
    assert_eq!(Rank(1).symbol(), "?");
    assert_eq!(Suit::from_char('h'), Some(Suit::Hearts));
    assert_eq!(Suit::from_char('x'), None);
    assert_eq!(Suit::Diamonds.symbol(), 'D');
}

#[test]
fn full_deck_is_in_display_order() {
    let deck = Deck::new();
    let cards = deck.cards();
    assert_eq!(cards[0], CardData::new(Suit::Spades, Rank(2)));
    assert_eq!(cards[12], CardData::new(Suit::Spades, Rank(14)));
    assert_eq!(cards[13], CardData::new(Suit::Hearts, Rank(2)));
    assert_eq!(cards[51], CardData::new(Suit::Clubs, Rank(14)));
}

#[test]
fn shuffle_is_the_specified_lcg_shuffle() {
    // Reference: positions from last to first, j = next() mod (i + 1),
    // next = (1103515245 * state + 12345) mod 2^31, state starts at the seed.
    let seed: u64 = 12345;
    let mut expected: Vec<CardData> = Deck::new().cards().to_vec();
    let mut state: u64 = seed;
    let mut i = expected.len() - 1;
    while i >= 1 {
        state = ((1103515245u128 * state as u128 + 12345) % (1u128 << 31)) as u64;
        let j = (state as usize) % (i + 1);
        expected.swap(i, j);
        i -= 1;
    }
    let mut deck = Deck::new();
    deck.shuffle(seed);
    assert_eq!(deck.cards(), &expected[..]);
}

#[test]
fn deal_with_fewer_cards_than_asked() {
    let deck = Deck::new();
    let hands = deck.deal(4, 20);
    assert_eq!(hands.len(), 4);
    assert_eq!(hands[0].len(), 13);
    assert_eq!(hands[3].len(), 13);
    assert_eq!(hands[1][0], deck.cards()[1]);
    assert_eq!(hands[1][1], deck.cards()[5]);
    let none = deck.deal(0, 13);
    assert!(none.is_empty());
}

#[test]
fn default_deck_is_full_deck() {
    assert_eq!(Deck::default().cards(), Deck::new().cards());
}
