use vstd::prelude::*;
use vstd::string::*;
use crate::text::{push_char, push_decimal, decimal, digit_value, to_upper, upper_of};
use vstd::arithmetic::div_mod::{lemma_mod_mod, lemma_add_mod_noop};

verus! {

/// A card suit. Declaration order is the display order: Spades first, Clubs last.
#[derive(Debug, Clone, Copy, PartialEq, Eq, Hash, Structural)]
pub enum Suit {
    Spades,
    Hearts,
    Diamonds,
    Clubs,
}

/// Position of a suit in the display order (Spades 0 .. Clubs 3).
pub open spec fn suit_index(s: Suit) -> int {
    match s {
        Suit::Spades => 0,
        Suit::Hearts => 1,
        Suit::Diamonds => 2,
        Suit::Clubs => 3,
    }
}

/// The suit at a position of the display order.
pub open spec fn suit_at(i: int) -> Suit {
    if i == 0 {
        Suit::Spades
    } else if i == 1 {
        Suit::Hearts
    } else if i == 2 {
        Suit::Diamonds
    } else {
        Suit::Clubs
    }
}

/// The letter of a suit in card tokens.
pub open spec fn suit_letter(s: Suit) -> char {
    match s {
        Suit::Spades => 'S',
        Suit::Hearts => 'H',
        Suit::Diamonds => 'D',
        Suit::Clubs => 'C',
    }
}

/// The suit named by a letter, in either case.
pub open spec fn suit_of_letter(c: char) -> Option<Suit> {
    if c == 'S' || c == 's' {
        Some(Suit::Spades)
    } else if c == 'H' || c == 'h' {
        Some(Suit::Hearts)
    } else if c == 'D' || c == 'd' {
        Some(Suit::Diamonds)
    } else if c == 'C' || c == 'c' {
        Some(Suit::Clubs)
    } else {
        None
    }
}

impl Suit {
    /// All suits in display order.
    pub fn all() -> (r: [Suit; 4])
        ensures
            r@ == seq![Suit::Spades, Suit::Hearts, Suit::Diamonds, Suit::Clubs],
    {
        let r = [Suit::Spades, Suit::Hearts, Suit::Diamonds, Suit::Clubs];
        assert(r@ =~= seq![Suit::Spades, Suit::Hearts, Suit::Diamonds, Suit::Clubs]);
        r
    }

    pub fn symbol(&self) -> (c: char)
        ensures
            c == suit_letter(*self),
    {
        match self {
            Suit::Spades => 'S',
            Suit::Hearts => 'H',
            Suit::Diamonds => 'D',
            Suit::Clubs => 'C',
        }
    }

    pub fn from_char(c: char) -> (r: Option<Suit>)
        ensures
            r == suit_of_letter(c),
    {
        if c == 'S' || c == 's' {
            Some(Suit::Spades)
        } else if c == 'H' || c == 'h' {
            Some(Suit::Hearts)
        } else if c == 'D' || c == 'd' {
            Some(Suit::Diamonds)
        } else if c == 'C' || c == 'c' {
            Some(Suit::Clubs)
        } else {
            None
        }
    }
}

/// A card rank: 2..=10 as numbers, 11 = J, 12 = Q, 13 = K, 14 = A.
#[derive(Debug, Clone, Copy, PartialEq, Eq, PartialOrd, Ord, Hash, Structural)]
pub struct Rank(pub u8);

impl Rank {
    /// A rank of a real card.
    pub open spec fn valid(self) -> bool {
        2 <= self.0 <= 14
    }

    /// All thirteen ranks, lowest first.
    pub fn all() -> (r: [Rank; 13])
        ensures
            r@.len() == 13,
            forall|i: int| 0 <= i < 13 ==> #[trigger] r@[i] == Rank((i + 2) as u8),
    {
        let r = [
            Rank(2),
            Rank(3),
            Rank(4),
            Rank(5),
            Rank(6),
            Rank(7),
            Rank(8),
            Rank(9),
            Rank(10),
            Rank(11),
            Rank(12),
            Rank(13),
            Rank(14),
        ];
        r
    }

    /// The token text of the rank: "2".."10", "J", "Q", "K", "A"; "?" for anything else.
    pub fn symbol(&self) -> (s: String)
        ensures
            s@ == rank_text(self.0),
    {
        let mut s = String::new();
        let v = self.0;
        if 2 <= v && v <= 10 {
            push_decimal(&mut s, v as u64);
        } else if v == 11 {
            push_char(&mut s, 'J');
        } else if v == 12 {
            push_char(&mut s, 'Q');
        } else if v == 13 {
            push_char(&mut s, 'K');
        } else if v == 14 {
            push_char(&mut s, 'A');
        } else {
            push_char(&mut s, '?');
        }
        assert(s@ =~= rank_text(v));
        s
    }

    /// Parses a rank token, in either case.
    pub fn from_str(s: &str) -> (r: Option<Rank>)
        ensures
            r == rank_of_token(upper_of(s@)),
    {
        let up = to_upper(s);
        Rank::from_upper(up.as_str())
    }

    /// Reads a rank token that is already in upper case.
    pub fn from_upper(t: &str) -> (r: Option<Rank>)
        ensures
            r == rank_of_token(t@),
    {
        let n = t.unicode_len();
        if n == 1 {
            let c = t.get_char(0);
            assert(t@ =~= seq![c]);
            if c == 'J' {
                Some(Rank(11))
            } else if c == 'Q' {
                Some(Rank(12))
            } else if c == 'K' {
                Some(Rank(13))
            } else if c == 'A' {
                Some(Rank(14))
            } else if '2' <= c && c <= '9' {
                Some(Rank(digit_rank(c)))
            } else {
                None
            }
        } else if n == 2 {
            if t.get_char(0) == '1' && t.get_char(1) == '0' {
                assert(t@ =~= seq!['1', '0']);
                Some(Rank(10))
            } else {
                None
            }
        } else {
            None
        }
    }
}

fn digit_rank(c: char) -> (r: u8)
    requires
        '2' <= c <= '9',
    ensures
        digit_value(c) == Some(r as nat),
        2 <= r <= 9,
{
    if c == '2' {
        2
    } else if c == '3' {
        3
    } else if c == '4' {
        4
    } else if c == '5' {
        5
    } else if c == '6' {
        6
    } else if c == '7' {
        7
    } else if c == '8' {
        8
    } else {
        assert(c == '9') by {
            assert(('2' as u32) <= (c as u32) <= ('9' as u32));
        }
        9
    }
}

/// The token text of a rank value.
pub open spec fn rank_text(v: u8) -> Seq<char> {
    if 2 <= v <= 10 {
        decimal(v as nat)
    } else if v == 11 {
        seq!['J']
    } else if v == 12 {
        seq!['Q']
    } else if v == 13 {
        seq!['K']
    } else if v == 14 {
        seq!['A']
    } else {
        seq!['?']
    }
}

/// The rank whose upper-case token is `t`, if any.
pub open spec fn rank_of_token(t: Seq<char>) -> Option<Rank> {
    if t == seq!['J'] {
        Some(Rank(11))
    } else if t == seq!['Q'] {
        Some(Rank(12))
    } else if t == seq!['K'] {
        Some(Rank(13))
    } else if t == seq!['A'] {
        Some(Rank(14))
    } else if t == seq!['1', '0'] {
        Some(Rank(10))
    } else if t.len() == 1 && digit_value(t[0]) is Some && 2 <= digit_value(t[0])->0 {
        Some(Rank(digit_value(t[0])->0 as u8))
    } else {
        None
    }
}

/// A playing card.
#[derive(Debug, Clone, Copy, PartialEq, Eq, Hash, Structural)]
pub struct CardData {
    pub suit: Suit,
    pub rank: Rank,
}

/// The protocol token of a card: rank text then suit letter ("AS", "10H", "KC").
pub open spec fn card_token(c: CardData) -> Seq<char> {
    rank_text(c.rank.0).push(suit_letter(c.suit))
}

/// The card named by a token: all but the last character name the rank
/// (in either case), the last one the suit.
pub open spec fn card_of_token(s: Seq<char>) -> Option<CardData> {
    if s.len() < 2 {
        None
    } else {
        match (suit_of_letter(s.last()), rank_of_token(upper_of(s.drop_last()))) {
            (Some(suit), Some(rank)) => Some(CardData { suit, rank }),
            _ => None,
        }
    }
}

impl CardData {
    pub fn new(suit: Suit, rank: Rank) -> (c: CardData)
        ensures
            c == (CardData { suit, rank }),
    {
        CardData { suit, rank }
    }

    /// A card of the standard deck.
    pub open spec fn valid(self) -> bool {
        self.rank.valid()
    }

    pub fn to_protocol_string(&self) -> (s: String)
        ensures
            s@ == card_token(*self),
    {
        let mut s = self.rank.symbol();
        push_char(&mut s, self.suit.symbol());
        s
    }

    pub fn from_protocol_string(s: &str) -> (r: Option<CardData>)
        ensures
            r == card_of_token(s@),
    {
        let n = s.unicode_len();
        if n < 2 {
            return None;
        }
        let suit = match Suit::from_char(s.get_char(n - 1)) {
            Some(suit) => suit,
            None => return None,
        };
        let rank_part = s.substring_char(0, n - 1);
        assert(rank_part@ =~= s@.drop_last());
        match Rank::from_str(rank_part) {
            Some(rank) => Some(CardData::new(suit, rank)),
            None => None,
        }
    }
}

/// The 52 cards in display order: Spades 2..A, then Hearts, Diamonds, Clubs.
pub open spec fn full_deck() -> Seq<CardData> {
    Seq::new(52, |i: int| CardData { suit: suit_at(i / 13), rank: Rank((i % 13 + 2) as u8) })
}

/// The state that follows `state` in the linear congruential generator
/// (multiplier 1103515245, increment 12345, modulus 2^31).
pub open spec fn lcg_next(state: u64) -> u64 {
    ((1103515245 * state + 12345) % 2147483648) as u64
}

/// Swaps the entries at `i` and `j`.
pub open spec fn swap_at<T>(s: Seq<T>, i: int, j: int) -> Seq<T> {
    s.update(i, s[j]).update(j, s[i])
}

/// The index-swap shuffle from position `i` down to position 1, where each
/// step draws the next generator state and swaps `i` with `state mod (i + 1)`.
pub open spec fn shuffle_from<T>(cards: Seq<T>, state: u64, i: nat) -> Seq<T>
    decreases i,
{
    if i == 0 {
        cards
    } else {
        let next = lcg_next(state);
        let j = (next as int) % ((i + 1) as int);
        shuffle_from(swap_at(cards, i as int, j), next, (i - 1) as nat)
    }
}

/// `cards` shuffled from the given seed, positions from last to first.
pub open spec fn shuffled<T>(cards: Seq<T>, seed: u64) -> Seq<T> {
    if cards.len() <= 1 {
        cards
    } else {
        shuffle_from(cards, seed, (cards.len() - 1) as nat)
    }
}

/// Shuffling keeps the number of cards.
pub proof fn lemma_shuffled_len<T>(cards: Seq<T>, seed: u64)
    ensures
        shuffled(cards, seed).len() == cards.len(),
{
    if cards.len() > 1 {
        lemma_shuffle_from_len(cards, seed, (cards.len() - 1) as nat);
    }
}

proof fn lemma_shuffle_from_len<T>(cards: Seq<T>, state: u64, i: nat)
    requires
        i < cards.len(),
    ensures
        shuffle_from(cards, state, i).len() == cards.len(),
    decreases i,
{
    if i > 0 {
        let next = lcg_next(state);
        let j = (next as int) % ((i + 1) as int);
        lemma_shuffle_from_len(swap_at(cards, i as int, j), next, (i - 1) as nat);
    }
}

/// The 52 cards of the full deck are all different.
pub proof fn lemma_full_deck_distinct()
    ensures
        full_deck().no_duplicates(),
{
    let d = full_deck();
    assert forall|i: int, j: int| 0 <= i < d.len() && 0 <= j < d.len() && i != j implies d[i] != d[j] by {
        if d[i] == d[j] {
            assert((i % 13 + 2) as u8 == (j % 13 + 2) as u8);
            assert(i % 13 == j % 13);
            assert(suit_at(i / 13) == suit_at(j / 13));
            assert(i / 13 == j / 13);
            assert(i == 13 * (i / 13) + i % 13);
            assert(j == 13 * (j / 13) + j % 13);
        }
    }
}

proof fn lemma_swap_keeps<T>(s: Seq<T>, i: int, j: int)
    requires
        0 <= i < s.len(),
        0 <= j < s.len(),
    ensures
        swap_at(s, i, j).len() == s.len(),
        forall|x: T| #[trigger] swap_at(s, i, j).contains(x) <==> s.contains(x),
        s.no_duplicates() ==> swap_at(s, i, j).no_duplicates(),
{
    let t = swap_at(s, i, j);
    assert forall|k: int| 0 <= k < s.len() implies #[trigger] t[k] == s[if k == j {
        i
    } else if k == i {
        j
    } else {
        k
    }] by {}
    assert forall|x: T| #[trigger] t.contains(x) <==> s.contains(x) by {
        if t.contains(x) {
            let k = choose|k: int| 0 <= k < t.len() && t[k] == x;
            let m = if k == j {
                i
            } else if k == i {
                j
            } else {
                k
            };
            assert(s[m] == x);
        }
        if s.contains(x) {
            let m = choose|m: int| 0 <= m < s.len() && s[m] == x;
            let k = if m == i {
                j
            } else if m == j {
                i
            } else {
                m
            };
            assert(t[k] == x);
        }
    }
    if s.no_duplicates() {
        assert forall|a: int, b: int| 0 <= a < t.len() && 0 <= b < t.len() && a != b implies t[a] != t[b] by {
            let ma = if a == j {
                i
            } else if a == i {
                j
            } else {
                a
            };
            let mb = if b == j {
                i
            } else if b == i {
                j
            } else {
                b
            };
            assert(t[a] == s[ma]);
            assert(t[b] == s[mb]);
        }
    }
}

proof fn lemma_shuffle_from_keeps<T>(cards: Seq<T>, state: u64, i: nat)
    requires
        i < cards.len(),
    ensures
        shuffle_from(cards, state, i).len() == cards.len(),
        forall|x: T| #[trigger] shuffle_from(cards, state, i).contains(x) <==> cards.contains(x),
        cards.no_duplicates() ==> shuffle_from(cards, state, i).no_duplicates(),
    decreases i,
{
    if i > 0 {
        let next = lcg_next(state);
        let j = (next as int) % ((i + 1) as int);
        lemma_swap_keeps(cards, i as int, j);
        let t = swap_at(cards, i as int, j);
        lemma_shuffle_from_keeps(t, next, (i - 1) as nat);
        assert forall|x: T| #[trigger] shuffle_from(cards, state, i).contains(x) <==> cards.contains(x) by {
            assert(t.contains(x) <==> cards.contains(x));
        }
    }
}

/// The shuffled deck holds the 52 cards of the full deck, each once.
pub proof fn lemma_shuffled_deck(seed: u64)
    ensures
        shuffled(full_deck(), seed).len() == 52,
        shuffled(full_deck(), seed).no_duplicates(),
        forall|x: CardData| #[trigger] shuffled(full_deck(), seed).contains(x) <==> full_deck().contains(x),
{
    lemma_full_deck_distinct();
    lemma_shuffle_from_keeps(full_deck(), seed, 51);
}

/// Player `p`'s hand when the first `limit` cards are dealt round-robin to
/// `num` players: the cards at positions `p`, `p + num`, `p + 2 num`, ... below `limit`.
pub open spec fn is_dealt_hand(
    hand: Seq<CardData>,
    cards: Seq<CardData>,
    num: nat,
    limit: nat,
    p: nat,
) -> bool {
    &&& hand.len() * num + p >= limit
    &&& hand.len() == 0 || (hand.len() - 1) * num + p < limit
    &&& forall|k: int| 0 <= k < hand.len() ==> #[trigger] hand[k] == cards[k * num + p]
}

/// A deck of cards.
pub struct Deck {
    cards: Vec<CardData>,
}

impl View for Deck {
    type V = Seq<CardData>;

    closed spec fn view(&self) -> Seq<CardData> {
        self.cards@
    }
}

impl Deck {
    /// The full 52-card deck in display order.
    pub fn new() -> (d: Deck)
        ensures
            d@ == full_deck(),
    {
        let mut cards: Vec<CardData> = Vec::with_capacity(52);
        let suits = Suit::all();
        let ranks = Rank::all();
        let mut s: usize = 0;
        while s < 4
            invariant
                s <= 4,
                suits@ == seq![Suit::Spades, Suit::Hearts, Suit::Diamonds, Suit::Clubs],
                ranks@.len() == 13,
                forall|i: int| 0 <= i < 13 ==> #[trigger] ranks@[i] == Rank((i + 2) as u8),
                cards@ == full_deck().subrange(0, 13 * s as int),
            decreases 4 - s,
        {
            let mut r: usize = 0;
            while r < 13
                invariant
                    s < 4,
                    r <= 13,
                    suits@ == seq![Suit::Spades, Suit::Hearts, Suit::Diamonds, Suit::Clubs],
                    ranks@.len() == 13,
                    forall|i: int| 0 <= i < 13 ==> #[trigger] ranks@[i] == Rank((i + 2) as u8),
                    cards@ == full_deck().subrange(0, 13 * s + r),
                decreases 13 - r,
            {
                cards.push(CardData::new(suits[s], ranks[r]));
                proof {
                    let k = 13 * s + r;
                    assert(k / 13 == s as int && k % 13 == r as int) by (nonlinear_arith)
                        requires
                            k == 13 * s + r,
                            0 <= r < 13,
                            0 <= s,
                    ;
                    assert(suit_at(s as int) == suits@[s as int]);
                }
                r += 1;
                assert(cards@ =~= full_deck().subrange(0, 13 * s + r));
            }
            s += 1;
        }
        assert(cards@ =~= full_deck());
        Deck { cards }
    }

    /// Shuffles in place from `seed`.
    pub fn shuffle(&mut self, seed: u64)
        ensures
            final(self)@ == shuffled(old(self)@, seed),
    {
        let mut rng = SimpleLcg::new(seed);
        let n = self.cards.len();
        if n <= 1 {
            return;
        }
        let mut i: usize = n - 1;
        while i >= 1
            invariant
                i < n,
                n == self.cards@.len(),
                n == old(self).cards@.len(),
                shuffle_from(self.cards@, rng.state, i as nat) == shuffled(old(self).cards@, seed),
            decreases i,
        {
            let r = rng.next();
            let j = (r as usize) % (i + 1);
            let a = self.cards[i];
            let b = self.cards[j];
            self.cards.set(i, b);
            self.cards.set(j, a);
            i -= 1;
        }
    }

    /// Deals the first `num_players * cards_per_player` cards round-robin:
    /// card `i` goes to player `i mod num_players`.
    pub fn deal(&self, num_players: usize, cards_per_player: usize) -> (hands: Vec<Vec<CardData>>)
        requires
            num_players * (cards_per_player + 1) <= usize::MAX,
        ensures
            hands@.len() == num_players,
            forall|p: int|
                0 <= p < num_players ==> is_dealt_hand(
                    #[trigger] hands@[p]@,
                    self@,
                    num_players as nat,
                    vstd::math::min(self@.len() as int, num_players * cards_per_player) as nat,
                    p as nat,
                ),
    {
        assert(num_players * cards_per_player <= num_players * (cards_per_player + 1))
            by (nonlinear_arith);
        let total = num_players * cards_per_player;
        let limit = if self.cards.len() < total {
            self.cards.len()
        } else {
            total
        };
        let mut hands: Vec<Vec<CardData>> = Vec::new();
        let mut p: usize = 0;
        while p < num_players
            invariant
                p <= num_players,
                num_players * (cards_per_player + 1) <= usize::MAX,
                limit == vstd::math::min(self@.len() as int, num_players * cards_per_player),
                limit <= num_players * cards_per_player,
                hands@.len() == p,
                forall|q: int|
                    0 <= q < p ==> is_dealt_hand(
                        #[trigger] hands@[q]@,
                        self@,
                        num_players as nat,
                        limit as nat,
                        q as nat,
                    ),
            decreases num_players - p,
        {
            let mut hand: Vec<CardData> = Vec::new();
            let mut i: usize = p;
            assert(num_players * (cards_per_player + 1) == num_players * cards_per_player
                + num_players) by (nonlinear_arith);
            assert(hand@.len() * num_players == 0) by (nonlinear_arith)
                requires
                    hand@.len() == 0,
            ;
            while i < limit
                invariant
                    p < num_players,
                    num_players * (cards_per_player + 1) <= usize::MAX,
                    limit <= num_players * cards_per_player,
                    limit <= self@.len(),
                    i == hand@.len() * num_players + p,
                    num_players * (cards_per_player + 1) == num_players * cards_per_player
                        + num_players,
                    hand@.len() == 0 || (hand@.len() - 1) * num_players + p < limit,
                    forall|k: int|
                        0 <= k < hand@.len() ==> #[trigger] hand@[k] == self@[k * num_players + p],
                decreases if i < limit { limit - i } else { 0 },
            {
                hand.push(self.cards[i]);
                proof {
                    let c = (hand@.len() - 1) as int;
                    assert(c * num_players + p == i);
                    assert((c + 1) * num_players == c * num_players + num_players) by (nonlinear_arith);
                }
                i = i + num_players;
            }
            hands.push(hand);
            p += 1;
        }
        hands
    }

    pub fn cards(&self) -> (r: &[CardData])
        ensures
            r@ == self@,
    {
        self.cards.as_slice()
    }
}

impl Default for Deck {
    fn default() -> (d: Deck)
        ensures
            d@ == full_deck(),
    {
        Deck::new()
    }
}

/// Linear congruential generator used for the deterministic shuffle.
struct SimpleLcg {
    state: u64,
}

impl SimpleLcg {
    fn new(seed: u64) -> (r: SimpleLcg)
        ensures
            r.state == seed,
    {
        SimpleLcg { state: seed }
    }

    fn next(&mut self) -> (r: u64)
        ensures
            r == lcg_next(old(self).state),
            final(self).state == r,
            r < 2147483648,
    {
        let a: u64 = 1103515245;
        let c: u64 = 12345;
        let m: u64 = 2147483648;
        let w = a.wrapping_mul(self.state).wrapping_add(c);
        proof {
            let x = 1103515245 * self.state;
            let big: int = 0x1_0000_0000_0000_0000;
            let w1 = x % big;
            assert(big == 2147483648 * 8589934592);
            lemma_mod_mod(x, 2147483648, 8589934592);
            lemma_mod_mod(w1 + 12345, 2147483648, 8589934592);
            lemma_add_mod_noop(w1, 12345, 2147483648);
            lemma_add_mod_noop(x, 12345, 2147483648);
        }
        self.state = w % m;
        self.state
    }
}

} // verus!
