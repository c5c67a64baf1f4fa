use vstd::prelude::*;
use crate::deck::{CardData, Rank, Suit};
use crate::engine::cards_of_suit;

verus! {

/// Number of cards of suit `s` in `h`.
pub open spec fn suit_count(h: Seq<CardData>, s: Suit) -> nat {
    cards_of_suit(h, s).len()
}

/// The largest of the four suit counts.
pub open spec fn max_suit_count(h: Seq<CardData>) -> nat {
    vstd::math::max(
        vstd::math::max(suit_count(h, Suit::Spades) as int, suit_count(h, Suit::Hearts) as int),
        vstd::math::max(suit_count(h, Suit::Diamonds) as int, suit_count(h, Suit::Clubs) as int),
    ) as nat
}

/// The suit with the most cards; ties go to Spades, then Hearts, then Diamonds.
pub open spec fn longest_suit(h: Seq<CardData>) -> Suit {
    let m = max_suit_count(h);
    if suit_count(h, Suit::Spades) == m {
        Suit::Spades
    } else if suit_count(h, Suit::Hearts) == m {
        Suit::Hearts
    } else if suit_count(h, Suit::Diamonds) == m {
        Suit::Diamonds
    } else {
        Suit::Clubs
    }
}

/// Position of the lowest rank among the first `n` cards (the first one on ties).
pub open spec fn lowest_position(cards: Seq<CardData>, n: int) -> int
    decreases n,
{
    if n <= 1 {
        0
    } else {
        let b = lowest_position(cards, n - 1);
        if cards[n - 1].rank.0 < cards[b].rank.0 {
            n - 1
        } else {
            b
        }
    }
}

/// The first card of lowest rank, if any.
pub open spec fn lowest(cards: Seq<CardData>) -> Option<CardData> {
    if cards.len() == 0 {
        None
    } else {
        Some(cards[lowest_position(cards, cards.len() as int)])
    }
}

/// The cards of rank at least `t`, in order.
pub open spec fn ranked_at_least(cards: Seq<CardData>, t: int) -> Seq<CardData>
    decreases cards.len(),
{
    if cards.len() == 0 {
        seq![]
    } else {
        let r = ranked_at_least(cards.drop_last(), t);
        if cards.last().rank.0 >= t {
            r.push(cards.last())
        } else {
            r
        }
    }
}

/// The highest rank of the lead suit among the first `n` cards of the table.
pub open spec fn lead_high(table: Seq<(usize, CardData)>, n: int) -> u8
    decreases n,
{
    if n <= 1 {
        table[0].1.rank.0
    } else {
        let m = lead_high(table, n - 1);
        let c = table[n - 1].1;
        if c.suit == table[0].1.suit && c.rank.0 > m {
            c.rank.0
        } else {
            m
        }
    }
}

/// The choice of the built-in AI.
/// - leading: the lowest legal card of the longest suit in hand (lowest legal card if none);
/// - following with the lead suit: the lowest legal card of that suit that beats the
///   highest lead-suit card on the table by at least three ranks, else the lowest one of the suit;
/// - following without it: the lowest legal card.
pub open spec fn smart_choice(
    hand: Seq<CardData>,
    legal: Seq<CardData>,
    table: Seq<(usize, CardData)>,
    is_leader: bool,
) -> CardData {
    if legal.len() == 0 {
        if hand.len() > 0 {
            hand[0]
        } else {
            CardData { suit: Suit::Clubs, rank: Rank(2) }
        }
    } else if is_leader {
        match lowest(cards_of_suit(legal, longest_suit(hand))) {
            Some(c) => c,
            None => lowest(legal)->0,
        }
    } else {
        let same = cards_of_suit(legal, table[0].1.suit);
        if same.len() > 0 {
            let high = lead_high(table, table.len() as int);
            let target = if high + 3 > 255 { 255 } else { high + 3 };
            match lowest(ranked_at_least(same, target)) {
                Some(c) => c,
                None => lowest(same)->0,
            }
        } else {
            lowest(legal)->0
        }
    }
}

/// A card-choosing policy for seats played by the server.
pub trait AiStrategy {
    /// Chooses a card to play; with any legal move it is one of them.
    fn choose_card(
        &self,
        hand: &[CardData],
        legal_moves: &[CardData],
        table: &[(usize, CardData)],
        is_leader: bool,
    ) -> (r: CardData)
        requires
            !is_leader && legal_moves@.len() > 0 ==> table@.len() > 0,
        ensures
            legal_moves@.len() > 0 ==> legal_moves@.contains(r),
    ;
}

/// The built-in policy, see `smart_choice`.
#[derive(Debug, Clone, Copy, Default)]
pub struct SmartStrategy;

/// The cards of `cards` of suit `s`, in order.
fn suit_cards(cards: &[CardData], s: Suit) -> (r: Vec<CardData>)
    ensures
        r@ == cards_of_suit(cards@, s),
{
    let mut r: Vec<CardData> = Vec::new();
    let mut i: usize = 0;
    while i < cards.len()
        invariant
            i <= cards@.len(),
            r@ == cards_of_suit(cards@.subrange(0, i as int), s),
        decreases cards.len() - i,
    {
        if cards[i].suit == s {
            r.push(cards[i]);
        }
        i += 1;
        assert(cards@.subrange(0, i as int).drop_last() =~= cards@.subrange(0, i - 1));
    }
    assert(cards@.subrange(0, cards@.len() as int) =~= cards@);
    r
}

proof fn lemma_cards_of_suit_in(h: Seq<CardData>, s: Suit)
    ensures
        forall|c: CardData| #[trigger] cards_of_suit(h, s).contains(c) ==> h.contains(c) && c.suit == s,
    decreases h.len(),
{
    if h.len() > 0 {
        lemma_cards_of_suit_in(h.drop_last(), s);
        assert forall|c: CardData| #[trigger] cards_of_suit(h, s).contains(c) implies h.contains(c)
            && c.suit == s by {
            let r = cards_of_suit(h.drop_last(), s);
            if r.contains(c) {
                let k = choose|k: int| 0 <= k < r.len() && r[k] == c;
                let j = choose|j: int| 0 <= j < h.drop_last().len() && h.drop_last()[j] == c;
                assert(h[j] == c);
            } else {
                assert(c == h.last());
                assert(h[h.len() - 1] == c);
            }
        }
    }
}

proof fn lemma_ranked_in(h: Seq<CardData>, t: int)
    ensures
        forall|c: CardData| #[trigger] ranked_at_least(h, t).contains(c) ==> h.contains(c),
    decreases h.len(),
{
    if h.len() > 0 {
        lemma_ranked_in(h.drop_last(), t);
        assert forall|c: CardData| #[trigger] ranked_at_least(h, t).contains(c) implies h.contains(c) by {
            let r = ranked_at_least(h.drop_last(), t);
            if r.contains(c) {
                let j = choose|j: int| 0 <= j < h.drop_last().len() && h.drop_last()[j] == c;
                assert(h[j] == c);
            } else {
                assert(h[h.len() - 1] == c);
            }
        }
    }
}

proof fn lemma_lowest_position_bound(cards: Seq<CardData>, n: int)
    requires
        1 <= n,
    ensures
        0 <= lowest_position(cards, n) < n,
    decreases n,
{
    if n > 1 {
        lemma_lowest_position_bound(cards, n - 1);
    }
}

impl SmartStrategy {
    pub fn new() -> (s: SmartStrategy) {
        SmartStrategy
    }

    /// The suit with the most cards in `hand`; ties go to Spades, Hearts, Diamonds, Clubs.
    pub fn find_longest_suit(hand: &[CardData]) -> (r: Suit)
        ensures
            r == longest_suit(hand@),
    {
        let s = suit_cards(hand, Suit::Spades).len();
        let h = suit_cards(hand, Suit::Hearts).len();
        let d = suit_cards(hand, Suit::Diamonds).len();
        let c = suit_cards(hand, Suit::Clubs).len();
        let m1 = if s >= h {
            s
        } else {
            h
        };
        let m2 = if d >= c {
            d
        } else {
            c
        };
        let max_count = if m1 >= m2 {
            m1
        } else {
            m2
        };
        if s == max_count {
            Suit::Spades
        } else if h == max_count {
            Suit::Hearts
        } else if d == max_count {
            Suit::Diamonds
        } else {
            Suit::Clubs
        }
    }

    /// The first card of lowest rank among the cards of suit `suit`.
    pub fn find_smallest_of_suit(cards: &[CardData], suit: Suit) -> (r: Option<CardData>)
        ensures
            r == lowest(cards_of_suit(cards@, suit)),
    {
        let same = suit_cards(cards, suit);
        SmartStrategy::find_smallest(same.as_slice())
    }

    /// The first card of lowest rank.
    pub fn find_smallest(cards: &[CardData]) -> (r: Option<CardData>)
        ensures
            r == lowest(cards@),
    {
        if cards.len() == 0 {
            return None;
        }
        let mut best: usize = 0;
        let mut i: usize = 1;
        while i < cards.len()
            invariant
                1 <= i <= cards@.len(),
                best as int == lowest_position(cards@, i as int),
                best < i,
            decreases cards.len() - i,
        {
            if cards[i].rank.0 < cards[best].rank.0 {
                best = i;
            }
            i += 1;
        }
        Some(cards[best])
    }

    /// The first card of lowest rank among those ranked at least `threshold + min_diff`
    /// (the sum saturating at 255).
    pub fn find_smallest_above_threshold(cards: &[CardData], threshold: Rank, min_diff: u8) -> (r: Option<
        CardData,
    >)
        ensures
            r == lowest(
                ranked_at_least(
                    cards@,
                    if threshold.0 + min_diff > 255 {
                        255
                    } else {
                        threshold.0 + min_diff
                    },
                ),
            ),
    {
        let target_min: u8 = if threshold.0 > 255 - min_diff {
            255
        } else {
            threshold.0 + min_diff
        };
        let mut above: Vec<CardData> = Vec::new();
        let mut i: usize = 0;
        while i < cards.len()
            invariant
                i <= cards@.len(),
                above@ == ranked_at_least(cards@.subrange(0, i as int), target_min as int),
            decreases cards.len() - i,
        {
            if cards[i].rank.0 >= target_min {
                above.push(cards[i]);
            }
            i += 1;
            assert(cards@.subrange(0, i as int).drop_last() =~= cards@.subrange(0, i - 1));
        }
        assert(cards@.subrange(0, cards@.len() as int) =~= cards@);
        SmartStrategy::find_smallest(above.as_slice())
    }

    /// The highest rank of the lead suit on a non-empty table.
    fn highest_on_table(table: &[(usize, CardData)]) -> (r: u8)
        requires
            table@.len() > 0,
        ensures
            r == lead_high(table@, table@.len() as int),
    {
        let lead = table[0].1.suit;
        let mut m: u8 = table[0].1.rank.0;
        let mut i: usize = 1;
        while i < table.len()
            invariant
                1 <= i <= table@.len(),
                lead == table@[0].1.suit,
                m == lead_high(table@, i as int),
            decreases table.len() - i,
        {
            let c = table[i].1;
            if c.suit == lead && c.rank.0 > m {
                m = c.rank.0;
            }
            i += 1;
        }
        m
    }
}

proof fn lemma_lowest_in(cards: Seq<CardData>)
    ensures
        lowest(cards) is Some ==> cards.contains(lowest(cards)->0),
{
    if cards.len() > 0 {
        lemma_lowest_position_bound(cards, cards.len() as int);
        assert(cards[lowest_position(cards, cards.len() as int)] == lowest(cards)->0);
    }
}

impl AiStrategy for SmartStrategy {
    fn choose_card(
        &self,
        hand: &[CardData],
        legal_moves: &[CardData],
        table: &[(usize, CardData)],
        is_leader: bool,
    ) -> (r: CardData)
        ensures
            r == smart_choice(hand@, legal_moves@, table@, is_leader),
    {
        proof {
            lemma_lowest_in(legal_moves@);
        }
        if legal_moves.len() == 0 {
            if hand.len() > 0 {
                return hand[0];
            } else {
                return CardData { suit: Suit::Clubs, rank: Rank(2) };
            }
        }
        if is_leader {
            let longest_suit = SmartStrategy::find_longest_suit(hand);
            proof {
                lemma_cards_of_suit_in(legal_moves@, longest_suit);
                lemma_lowest_in(cards_of_suit(legal_moves@, longest_suit));
            }
            match SmartStrategy::find_smallest_of_suit(legal_moves, longest_suit) {
                Some(card) => card,
                None => match SmartStrategy::find_smallest(legal_moves) {
                    Some(card) => card,
                    None => legal_moves[0],
                },
            }
        } else {
            let lead_suit = table[0].1.suit;
            let same_suit_moves = suit_cards(legal_moves, lead_suit);
            proof {
                lemma_cards_of_suit_in(legal_moves@, lead_suit);
                lemma_lowest_in(same_suit_moves@);
            }
            if same_suit_moves.len() > 0 {
                let highest_on_table = SmartStrategy::highest_on_table(table);
                let ghost target: int = if highest_on_table + 3 > 255 {
                    255
                } else {
                    highest_on_table + 3
                };
                proof {
                    lemma_ranked_in(same_suit_moves@, target);
                    lemma_lowest_in(ranked_at_least(same_suit_moves@, target));
                }
                match SmartStrategy::find_smallest_above_threshold(
                    same_suit_moves.as_slice(),
                    Rank(highest_on_table),
                    3,
                ) {
                    Some(card) => card,
                    None => match SmartStrategy::find_smallest(same_suit_moves.as_slice()) {
                        Some(card) => card,
                        None => legal_moves[0],
                    },
                }
            } else {
                match SmartStrategy::find_smallest(legal_moves) {
                    Some(card) => card,
                    None => legal_moves[0],
                }
            }
        }
    }
}

/// The built-in policy always names a legal card when there is one.
pub proof fn lemma_smart_choice_legal(
    hand: Seq<CardData>,
    legal: Seq<CardData>,
    table: Seq<(usize, CardData)>,
    is_leader: bool,
)
    requires
        legal.len() > 0,
        !is_leader ==> table.len() > 0,
    ensures
        legal.contains(smart_choice(hand, legal, table, is_leader)),
{
    lemma_lowest_in(legal);
    if is_leader {
        let s = longest_suit(hand);
        lemma_cards_of_suit_in(legal, s);
        lemma_lowest_in(cards_of_suit(legal, s));
    } else {
        let lead = table[0].1.suit;
        let same = cards_of_suit(legal, lead);
        lemma_cards_of_suit_in(legal, lead);
        lemma_lowest_in(same);
        if same.len() > 0 {
            let high = lead_high(table, table.len() as int);
            let target: int = if high + 3 > 255 {
                255
            } else {
                high + 3
            };
            lemma_ranked_in(same, target);
            lemma_lowest_in(ranked_at_least(same, target));
        }
    }
}

} // verus!
