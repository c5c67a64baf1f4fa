use vstd::prelude::*;
use crate::deck::{
    card_of_token, card_token, full_deck, is_dealt_hand, lemma_full_deck_distinct, lemma_shuffled_deck,
    lemma_shuffled_len, shuffled, CardData, Deck, Suit,
};
use crate::protocol::{
    texts, Card, ConnectionId, PlayerId, Score, ServerMessage, TablePlay, Team, TrickHistory,
};

verus! {

/// Cards in a hand.
pub const CARDS_PER_PLAYER: usize = 13;

/// Tricks in a game.
pub const TOTAL_TRICKS: u32 = 13;

/// Turn timeout advertised to clients (not enforced).
pub const TIMEOUT_MS: u32 = 30000;

/// Phase of a game.
#[derive(Debug, Clone, Copy, PartialEq, Eq, Structural)]
pub enum GamePhase {
    WaitingToDeal,
    WaitingForPlay { current_player_idx: usize },
    TrickComplete,
    GameOver,
}

/// A seat in a game.
#[derive(Debug)]
pub struct GamePlayer {
    pub conn_id: ConnectionId,
    pub player_id: PlayerId,
    pub team: Team,
    pub hand: Vec<CardData>,
}

/// One game: four seats, their hands, the table, the score and the history.
pub struct GameEngine {
    pub seed: u64,
    pub players: Vec<GamePlayer>,
    pub phase: GamePhase,
    pub current_trick: u32,
    pub table: Vec<(usize, CardData)>,
    pub score: Score,
    pub history: Vec<TrickHistory>,
    pub last_trick_winner: Option<usize>,
}

/// Why a play was refused.
#[derive(Debug, Clone, Copy, PartialEq, Eq, Structural)]
pub enum PlayError {
    NotInGame,
    NotYourTurn,
    InvalidCard,
    NotInHand,
    NotLegal,
}

/// Outcome of a play.
pub enum PlayResult {
    /// The broadcast of the play and the seat due next.
    Continue(ServerMessage, usize),
    /// The broadcast of the fourth card of the trick.
    TrickComplete(ServerMessage),
}

/// Outcome of resolving a trick.
pub enum TrickResolution {
    /// The trick result and the seat that leads the next trick.
    NextTrick(ServerMessage, usize),
    /// The result of the last trick.
    GameOver(ServerMessage),
}

impl PlayResult {
    /// The broadcast carried by the outcome.
    pub open spec fn message(self) -> ServerMessage {
        match self {
            PlayResult::Continue(m, _) => m,
            PlayResult::TrickComplete(m) => m,
        }
    }

    /// The seat due next, for `Continue`.
    pub open spec fn next_seat(self) -> usize {
        match self {
            PlayResult::Continue(_, n) => n,
            PlayResult::TrickComplete(_) => 0,
        }
    }
}

impl TrickResolution {
    /// The trick result carried by the outcome.
    pub open spec fn message(self) -> ServerMessage {
        match self {
            TrickResolution::NextTrick(m, _) => m,
            TrickResolution::GameOver(m) => m,
        }
    }
}

/// `m` announces that seat `id` played `card` in trick `trick`.
pub open spec fn is_broadcast(m: ServerMessage, id: Seq<char>, card: CardData, trick: u32) -> bool {
    match m {
        ServerMessage::PlayBroadcast { player_id, card: c, trick: t } => player_id@ == id && c@
            == card_token(card) && t == trick,
        _ => false,
    }
}

/// `m` is the result of trick `trick` with the given plays, winner and score.
pub open spec fn is_trick_result(
    m: ServerMessage,
    trick: u32,
    plays: Seq<(Seq<char>, Seq<char>)>,
    winner: Seq<char>,
    score: Score,
) -> bool {
    match m {
        ServerMessage::TrickResult { trick: t, plays: p, winner: w, score: s } => {
            &&& t == trick
            &&& plays_view(p@) == plays
            &&& w@ == winner
            &&& s == score
        },
        _ => false,
    }
}

/// `m` deals a hand with the given tokens for a game of thirteen tricks.
pub open spec fn is_deal(m: ServerMessage, hand_tokens: Seq<Seq<char>>) -> bool {
    match m {
        ServerMessage::Deal { hand, total_tricks } => texts(hand@) == hand_tokens && total_tricks
            == TOTAL_TRICKS,
        _ => false,
    }
}

/// The cards of `h` of suit `s`, in hand order.
pub open spec fn cards_of_suit(h: Seq<CardData>, s: Suit) -> Seq<CardData>
    decreases h.len(),
{
    if h.len() == 0 {
        seq![]
    } else {
        let r = cards_of_suit(h.drop_last(), s);
        if h.last().suit == s {
            r.push(h.last())
        } else {
            r
        }
    }
}

/// The follow-suit rule: a leader may play anything; a follower holding the
/// lead suit must play it; a follower without it may play anything.
pub open spec fn legal_moves(hand: Seq<CardData>, table: Seq<(usize, CardData)>) -> Seq<CardData> {
    if table.len() == 0 {
        hand
    } else {
        let same = cards_of_suit(hand, table[0].1.suit);
        if same.len() == 0 {
            hand
        } else {
            same
        }
    }
}

/// Position on the table of the best card among the first `n`: the highest
/// rank of the lead suit, the later one on equal ranks.
pub open spec fn best_position(table: Seq<(usize, CardData)>, n: int) -> int
    decreases n,
{
    if n <= 1 {
        0
    } else {
        let b = best_position(table, n - 1);
        let c = table[n - 1].1;
        if c.suit == table[0].1.suit && c.rank.0 >= table[b].1.rank.0 {
            n - 1
        } else {
            b
        }
    }
}

/// Position on the table of the card that wins the trick.
pub open spec fn winning_position(table: Seq<(usize, CardData)>) -> int {
    best_position(table, table.len() as int)
}

/// The tokens of a list of cards.
pub open spec fn tokens(cards: Seq<CardData>) -> Seq<Seq<char>> {
    cards.map_values(|c: CardData| card_token(c))
}

/// The views of a list of table plays.
pub open spec fn plays_view(v: Seq<TablePlay>) -> Seq<(Seq<char>, Seq<char>)> {
    v.map_values(|t: TablePlay| t@)
}

/// The views of a trick history.
pub open spec fn history_view(v: Seq<TrickHistory>) -> Seq<(u32, Seq<char>, Seq<Seq<char>>)> {
    v.map_values(|t: TrickHistory| t@)
}

/// First seat at or after `i` held by connection `conn`.
pub open spec fn seat_from(players: Seq<GamePlayer>, conn: ConnectionId, i: nat) -> Option<nat>
    decreases players.len() - i,
{
    if i >= players.len() {
        None
    } else if players[i as int].conn_id == conn {
        Some(i)
    } else {
        seat_from(players, conn, i + 1)
    }
}

/// First seat held by connection `conn`.
pub open spec fn seat_of(players: Seq<GamePlayer>, conn: ConnectionId) -> Option<nat> {
    seat_from(players, conn, 0)
}

/// First position at or after `i` of card `c` in `h`.
pub open spec fn card_position_from(h: Seq<CardData>, c: CardData, i: nat) -> nat
    decreases h.len() - i,
{
    if i >= h.len() {
        i
    } else if h[i as int] == c {
        i
    } else {
        card_position_from(h, c, i + 1)
    }
}

/// `h` without the first occurrence of `c`.
pub open spec fn without_card(h: Seq<CardData>, c: CardData) -> Seq<CardData> {
    h.remove(card_position_from(h, c, 0) as int)
}

/// The cards of the full deck that `h` holds, in deck order (by suit, then rank).
pub open spec fn select_in_order(order: Seq<CardData>, h: Seq<CardData>) -> Seq<CardData>
    decreases order.len(),
{
    if order.len() == 0 {
        seq![]
    } else {
        let r = select_in_order(order.drop_last(), h);
        if h.contains(order.last()) {
            r.push(order.last())
        } else {
            r
        }
    }
}

/// `h` sorted for display: by suit (Spades, Hearts, Diamonds, Clubs), then rank.
pub open spec fn sorted_hand(h: Seq<CardData>) -> Seq<CardData> {
    select_in_order(full_deck(), h)
}

/// The thirteen cards dealt to seat `p` from the deck shuffled with `seed`:
/// positions `p`, `p + 4`, `p + 8`, ...
pub open spec fn dealt_cards(seed: u64, p: int) -> Seq<CardData> {
    Seq::new(13, |k: int| shuffled(full_deck(), seed)[k * 4 + p])
}

/// The hand of seat `p` after a deal with `seed`, sorted for display.
pub open spec fn dealt_hand(seed: u64, p: int) -> Seq<CardData> {
    sorted_hand(dealt_cards(seed, p))
}

/// The winner of a finished game: the team with more tricks, Human on a tie.
pub open spec fn winning_team(score: Score) -> Team {
    if score.ai > score.human {
        Team::Ai
    } else {
        Team::Human
    }
}

proof fn lemma_seat_from_bound(players: Seq<GamePlayer>, conn: ConnectionId, i: nat)
    ensures
        seat_from(players, conn, i) is Some ==> i <= seat_from(players, conn, i)->0 < players.len(),
    decreases players.len() - i,
{
    if i < players.len() && players[i as int].conn_id != conn {
        lemma_seat_from_bound(players, conn, i + 1);
    }
}

/// `after` is `before` once seat `i` played card `c`: the card left the hand and
/// joined the table, and the next seat is due unless the trick is complete.
pub open spec fn played(before: GameEngine, after: GameEngine, i: int, c: CardData) -> bool {
    &&& after.players@.len() == before.players@.len()
    &&& after.hand_of(i) == without_card(before.hand_of(i), c)
    &&& forall|j: int| 0 <= j < before.players@.len() && j != i ==> #[trigger] after.players@[j] == before.players@[j]
    &&& after.players@[i].conn_id == before.players@[i].conn_id
    &&& after.players@[i].player_id == before.players@[i].player_id
    &&& after.players@[i].team == before.players@[i].team
    &&& after.table@ == before.table@.push((i as usize, c))
    &&& after.seed == before.seed
    &&& after.current_trick == before.current_trick
    &&& after.score == before.score
    &&& after.history@ == before.history@
    &&& after.last_trick_winner == before.last_trick_winner
    &&& after.phase == if after.table@.len() == 4 {
        GamePhase::TrickComplete
    } else {
        GamePhase::WaitingForPlay { current_player_idx: ((i + 1) % 4) as usize }
    }
}

/// The trick on the table of `e` can be resolved without overflow.
pub open spec fn resolvable(e: GameEngine) -> bool {
    &&& e.table@.len() > 0
    &&& e.table_seats_ok()
    &&& e.score.human < u32::MAX
    &&& e.score.ai < u32::MAX
    &&& e.current_trick < u32::MAX
}

/// `after` is `before` once its trick was resolved: the best card of the lead suit
/// scores a point for its team, the trick is recorded, the table cleared, and the
/// winner leads the next trick unless that was the last one.
pub open spec fn resolved(before: GameEngine, after: GameEngine) -> bool {
    let w = before.table@[winning_position(before.table@)].0;
    let winner = before.players@[w as int];
    &&& after.score.human == before.score.human + (if winner.team == Team::Human { 1int } else { 0 })
    &&& after.score.ai == before.score.ai + (if winner.team == Team::Ai { 1int } else { 0 })
    &&& history_view(after.history@) == history_view(before.history@).push(
        (before.current_trick, winner.player_id@, tokens(before.table@.map_values(|e: (usize, CardData)| e.1))),
    )
    &&& after.table@.len() == 0
    &&& after.last_trick_winner == Some(w)
    &&& after.players@ == before.players@
    &&& after.seed == before.seed
    &&& if before.current_trick >= TOTAL_TRICKS {
        after.phase == GamePhase::GameOver && after.current_trick == before.current_trick
    } else {
        after.phase == (GamePhase::WaitingForPlay { current_player_idx: w }) && after.current_trick
            == before.current_trick + 1
    }
}

/// The card the built-in AI plays for seat `i` of `e`.
pub open spec fn ai_choice(e: GameEngine, i: int) -> CardData {
    crate::strategy::smart_choice(e.hand_of(i), legal_moves(e.hand_of(i), e.table@), e.table@, e.table@.len() == 0)
}

/// Number of cards in all hands.
pub open spec fn cards_left(players: Seq<GamePlayer>) -> nat
    decreases players.len(),
{
    if players.len() == 0 {
        0
    } else {
        cards_left(players.drop_last()) + players.last().hand@.len()
    }
}

/// Removing a card that a hand holds leaves one card fewer.
pub proof fn lemma_without_card_len(h: Seq<CardData>, c: CardData)
    requires
        h.contains(c),
    ensures
        without_card(h, c).len() + 1 == h.len(),
{
    lemma_card_position(h, c, 0);
}

proof fn lemma_card_position(h: Seq<CardData>, c: CardData, i: nat)
    requires
        exists|k: int| i <= k < h.len() && h[k] == c,
    ensures
        card_position_from(h, c, i) < h.len(),
    decreases h.len() - i,
{
    if i < h.len() && h[i as int] != c {
        let k = choose|k: int| i <= k < h.len() && h[k] == c;
        assert(i + 1 <= k);
        lemma_card_position(h, c, i + 1);
    }
}

/// Taking one card from the hand of one seat leaves one card fewer in all hands.
pub proof fn lemma_cards_left_update(ps: Seq<GamePlayer>, qs: Seq<GamePlayer>, i: int)
    requires
        qs.len() == ps.len(),
        0 <= i < ps.len(),
        forall|j: int| 0 <= j < ps.len() && j != i ==> #[trigger] qs[j] == ps[j],
        qs[i].hand@.len() + 1 == ps[i].hand@.len(),
    ensures
        cards_left(qs) + 1 == cards_left(ps),
    decreases ps.len(),
{
    if i < ps.len() - 1 {
        assert forall|j: int| 0 <= j < ps.drop_last().len() && j != i implies #[trigger] qs.drop_last()[j]
            == ps.drop_last()[j] by {
            assert(qs[j] == ps[j]);
        }
        lemma_cards_left_update(ps.drop_last(), qs.drop_last(), i);
        assert(qs[qs.len() - 1] == ps[ps.len() - 1]);
    } else {
        assert(qs.drop_last() =~= ps.drop_last()) by {
            assert forall|j: int| 0 <= j < ps.drop_last().len() implies qs.drop_last()[j] == ps.drop_last()[j] by {
                assert(qs[j] == ps[j]);
            }
        }
    }
}

/// Whether `h` holds `c`.
pub fn holds(h: &Vec<CardData>, c: CardData) -> (r: bool)
    ensures
        r == h@.contains(c),
{
    let mut i: usize = 0;
    while i < h.len()
        invariant
            i <= h@.len(),
            forall|k: int| 0 <= k < i ==> h@[k] != c,
        decreases h.len() - i,
    {
        if h[i] == c {
            return true;
        }
        i += 1;
    }
    false
}

/// The tokens of `cards`.
pub fn card_tokens(cards: &Vec<CardData>) -> (r: Vec<Card>)
    ensures
        texts(r@) == tokens(cards@),
{
    let mut r: Vec<Card> = Vec::new();
    let mut i: usize = 0;
    while i < cards.len()
        invariant
            i <= cards@.len(),
            texts(r@) == tokens(cards@.subrange(0, i as int)),
        decreases cards.len() - i,
    {
        let ghost before = r@;
        let t = cards[i].to_protocol_string();
        r.push(t);
        proof {
            assert(texts(r@) =~= texts(before).push(t@));
            assert(tokens(cards@.subrange(0, i + 1)) =~= tokens(cards@.subrange(0, i as int)).push(
                card_token(cards@[i as int]),
            ));
        }
        i += 1;
    }
    assert(cards@.subrange(0, cards@.len() as int) =~= cards@);
    r
}

/// `h` sorted by suit, then rank (the cards of the full deck it holds, in deck order).
pub fn sort_hand(h: &Vec<CardData>) -> (r: Vec<CardData>)
    ensures
        r@ == sorted_hand(h@),
{
    let deck = Deck::new();
    let order = deck.cards();
    let mut r: Vec<CardData> = Vec::new();
    let mut i: usize = 0;
    while i < order.len()
        invariant
            order@ == full_deck(),
            i <= order@.len(),
            r@ == select_in_order(order@.subrange(0, i as int), h@),
        decreases order.len() - i,
    {
        let c = order[i];
        if holds(h, c) {
            r.push(c);
        }
        i += 1;
        assert(order@.subrange(0, i as int).drop_last() =~= order@.subrange(0, i - 1));
    }
    assert(order@.subrange(0, order@.len() as int) =~= order@);
    r
}

/// The cards of `h` of suit `s`, in hand order.
pub fn filter_suit(h: &Vec<CardData>, s: Suit) -> (r: Vec<CardData>)
    ensures
        r@ == cards_of_suit(h@, s),
{
    let mut r: Vec<CardData> = Vec::new();
    let mut i: usize = 0;
    while i < h.len()
        invariant
            i <= h@.len(),
            r@ == cards_of_suit(h@.subrange(0, i as int), s),
        decreases h.len() - i,
    {
        if h[i].suit == s {
            r.push(h[i]);
        }
        i += 1;
        assert(h@.subrange(0, i as int).drop_last() =~= h@.subrange(0, i - 1));
    }
    assert(h@.subrange(0, h@.len() as int) =~= h@);
    r
}

/// Copies a list of cards.
pub fn copy_cards(h: &Vec<CardData>) -> (r: Vec<CardData>)
    ensures
        r@ == h@,
{
    let mut r: Vec<CardData> = Vec::new();
    let mut i: usize = 0;
    while i < h.len()
        invariant
            i <= h@.len(),
            r@ == h@.subrange(0, i as int),
        decreases h.len() - i,
    {
        r.push(h[i]);
        i += 1;
        assert(r@ =~= h@.subrange(0, i as int));
    }
    assert(r@ =~= h@);
    r
}

impl GameEngine {
    /// Every card on the table was played from an existing seat.
    pub open spec fn table_seats_ok(&self) -> bool {
        forall|i: int| 0 <= i < self.table@.len() ==> (#[trigger] self.table@[i]).0 < self.players@.len()
    }

    /// The table as (seat id, card token) pairs.
    pub open spec fn table_view(&self) -> Seq<(Seq<char>, Seq<char>)> {
        self.table@.map_values(
            |e: (usize, CardData)| (self.players@[e.0 as int].player_id@, card_token(e.1)),
        )
    }

    /// The hand of seat `i`.
    pub open spec fn hand_of(&self, i: int) -> Seq<CardData> {
        self.players@[i].hand@
    }

    /// The seat due to act, if any.
    pub open spec fn turn(&self) -> Option<usize> {
        match self.phase {
            GamePhase::WaitingForPlay { current_player_idx } => Some(current_player_idx),
            _ => None,
        }
    }

    /// What `validate_play` answers for connection `conn` and token `token`.
    pub open spec fn play_check(&self, conn: ConnectionId, token: Seq<char>) -> Result<(usize, CardData), PlayError> {
        match seat_of(self.players@, conn) {
            None => Err(PlayError::NotInGame),
            Some(idx) => {
                if self.turn() != Some(idx as usize) {
                    Err(PlayError::NotYourTurn)
                } else {
                    match card_of_token(token) {
                        None => Err(PlayError::InvalidCard),
                        Some(card) => {
                            if !self.hand_of(idx as int).contains(card) {
                                Err(PlayError::NotInHand)
                            } else if !legal_moves(self.hand_of(idx as int), self.table@).contains(card) {
                                Err(PlayError::NotLegal)
                            } else {
                                Ok((idx as usize, card))
                            }
                        }
                    }
                }
            }
        }
    }

    /// Whether every card on the table was played from an existing seat.
    pub fn table_seats_valid(&self) -> (r: bool)
        ensures
            r == self.table_seats_ok(),
    {
        let mut i: usize = 0;
        while i < self.table.len()
            invariant
                i <= self.table@.len(),
                forall|k: int| 0 <= k < i ==> (#[trigger] self.table@[k]).0 < self.players@.len(),
            decreases self.table.len() - i,
        {
            if self.table[i].0 >= self.players.len() {
                return false;
            }
            i += 1;
        }
        true
    }

    /// A new game, waiting to deal, with empty hands.
    pub fn new(seed: u64, players: Vec<(ConnectionId, PlayerId, Team)>) -> (e: GameEngine)
        ensures
            e.seed == seed,
            e.phase == GamePhase::WaitingToDeal,
            e.current_trick == 0,
            e.table@.len() == 0,
            e.score.human == 0 && e.score.ai == 0,
            e.history@.len() == 0,
            e.last_trick_winner is None,
            e.players@.len() == players@.len(),
            forall|i: int|
                0 <= i < players@.len() ==> {
                    &&& (#[trigger] e.players@[i]).conn_id == players@[i].0
                    &&& e.players@[i].player_id == players@[i].1
                    &&& e.players@[i].team == players@[i].2
                    &&& e.players@[i].hand@.len() == 0
                },
    {
        let mut game_players: Vec<GamePlayer> = Vec::new();
        let mut i: usize = 0;
        while i < players.len()
            invariant
                i <= players@.len(),
                game_players@.len() == i,
                forall|k: int|
                    0 <= k < i ==> {
                        &&& (#[trigger] game_players@[k]).conn_id == players@[k].0
                        &&& game_players@[k].player_id == players@[k].1
                        &&& game_players@[k].team == players@[k].2
                        &&& game_players@[k].hand@.len() == 0
                    },
            decreases players.len() - i,
        {
            game_players.push(
                GamePlayer {
                    conn_id: players[i].0,
                    player_id: players[i].1.clone(),
                    team: players[i].2,
                    hand: Vec::new(),
                },
            );
            i += 1;
        }
        GameEngine {
            seed,
            players: game_players,
            phase: GamePhase::WaitingToDeal,
            current_trick: 0,
            table: Vec::new(),
            score: Score::default(),
            history: Vec::new(),
            last_trick_winner: None,
        }
    }

    /// The seat due to act, if the game waits for a play.
    pub fn current_player_idx(&self) -> (r: Option<usize>)
        ensures
            r == self.turn(),
    {
        match self.phase {
            GamePhase::WaitingForPlay { current_player_idx } => Some(current_player_idx),
            _ => None,
        }
    }

    /// The connection of the seat due to act.
    pub fn current_player_conn_id(&self) -> (r: Option<ConnectionId>)
        requires
            self.turn() is Some ==> self.turn()->0 < self.players@.len(),
        ensures
            r == match self.turn() {
                Some(i) => Some(self.players@[i as int].conn_id),
                None => None,
            },
    {
        match self.current_player_idx() {
            Some(idx) => Some(self.players[idx].conn_id),
            None => None,
        }
    }

    /// The cards seat `player_idx` may play now.
    pub fn get_legal_moves(&self, player_idx: usize) -> (r: Vec<CardData>)
        requires
            player_idx < self.players@.len(),
        ensures
            r@ == legal_moves(self.hand_of(player_idx as int), self.table@),
    {
        let hand = &self.players[player_idx].hand;
        if self.table.len() == 0 {
            return copy_cards(hand);
        }
        let lead_suit = self.table[0].1.suit;
        let same_suit = filter_suit(hand, lead_suit);
        if same_suit.len() == 0 {
            copy_cards(hand)
        } else {
            same_suit
        }
    }

    /// The table as protocol plays.
    fn table_plays(&self) -> (r: Vec<TablePlay>)
        requires
            self.table_seats_ok(),
        ensures
            plays_view(r@) == self.table_view(),
    {
        let mut r: Vec<TablePlay> = Vec::new();
        let mut i: usize = 0;
        while i < self.table.len()
            invariant
                self.table_seats_ok(),
                i <= self.table@.len(),
                plays_view(r@) == self.table_view().subrange(0, i as int),
            decreases self.table.len() - i,
        {
            let (idx, card) = self.table[i];
            let ghost before = r@;
            let tp = TablePlay { player_id: self.players[idx].player_id.clone(), card: card.to_protocol_string() };
            r.push(tp);
            proof {
                assert(plays_view(r@) =~= plays_view(before).push(tp@));
                assert(self.table_view().subrange(0, i + 1) =~= self.table_view().subrange(0, i as int).push(
                    tp@,
                ));
            }
            i += 1;
        }
        assert(self.table_view().subrange(0, self.table@.len() as int) =~= self.table_view());
        r
    }

    /// The YOUR_TURN message for seat `player_idx`.
    pub fn your_turn_message(&self, player_idx: usize) -> (m: ServerMessage)
        requires
            player_idx < self.players@.len(),
            self.table_seats_ok(),
        ensures
            match m {
                ServerMessage::YourTurn { trick, table, legal, timeout_ms } => {
                    &&& trick == self.current_trick
                    &&& plays_view(table@) == self.table_view()
                    &&& texts(legal@) == tokens(legal_moves(self.hand_of(player_idx as int), self.table@))
                    &&& timeout_ms == TIMEOUT_MS
                },
                _ => false,
            },
    {
        let legal = self.get_legal_moves(player_idx);
        let table = self.table_plays();
        ServerMessage::YourTurn {
            trick: self.current_trick,
            table,
            legal: card_tokens(&legal),
            timeout_ms: TIMEOUT_MS,
        }
    }

    /// The first seat held by `conn_id`.
    pub fn find_player_idx(&self, conn_id: ConnectionId) -> (r: Option<usize>)
        ensures
            r is Some <==> seat_of(self.players@, conn_id) is Some,
            r is Some ==> r->0 as nat == seat_of(self.players@, conn_id)->0,
            r is Some ==> r->0 < self.players@.len(),
            seat_of(self.players@, conn_id) is Some ==> seat_of(self.players@, conn_id)->0
                < self.players@.len(),
    {
        proof {
            lemma_seat_from_bound(self.players@, conn_id, 0);
        }
        let mut i: usize = 0;
        while i < self.players.len()
            invariant
                i <= self.players@.len(),
                seat_of(self.players@, conn_id) == seat_from(self.players@, conn_id, i as nat),
            decreases self.players.len() - i,
        {
            if self.players[i].conn_id == conn_id {
                return Some(i);
            }
            i += 1;
        }
        None
    }

    /// Checks a play of `card_str` by `conn_id` without changing anything.
    pub fn validate_play(&self, conn_id: ConnectionId, card_str: &str) -> (r: Result<(usize, CardData), PlayError>)
        ensures
            r == self.play_check(conn_id, card_str@),
            r is Ok ==> r->Ok_0.0 < self.players@.len(),
            r is Ok ==> self.hand_of(r->Ok_0.0 as int).contains(r->Ok_0.1),
    {
        let player_idx = match self.find_player_idx(conn_id) {
            Some(i) => i,
            None => return Err(PlayError::NotInGame),
        };
        let current_idx = match self.current_player_idx() {
            Some(i) => i,
            None => return Err(PlayError::NotYourTurn),
        };
        if player_idx != current_idx {
            return Err(PlayError::NotYourTurn);
        }
        let card = match CardData::from_protocol_string(card_str) {
            Some(c) => c,
            None => return Err(PlayError::InvalidCard),
        };
        if !holds(&self.players[player_idx].hand, card) {
            return Err(PlayError::NotInHand);
        }
        let legal_moves = self.get_legal_moves(player_idx);
        if !holds(&legal_moves, card) {
            return Err(PlayError::NotLegal);
        }
        Ok((player_idx, card))
    }

    /// Plays `card` from seat `player_idx`: the card leaves the hand and joins the
    /// table; the next seat is due unless this was the fourth card of the trick.
    pub fn play_card(&mut self, player_idx: usize, card: CardData) -> (r: PlayResult)
        requires
            player_idx < old(self).players@.len(),
            old(self).hand_of(player_idx as int).contains(card),
        ensures
            played(*old(self), *final(self), player_idx as int, card),
            final(self).players@.len() == old(self).players@.len(),
            final(self).hand_of(player_idx as int) == without_card(old(self).hand_of(player_idx as int), card),
            forall|i: int|
                0 <= i < old(self).players@.len() && i != player_idx ==> #[trigger] final(self).players@[i]
                    == old(self).players@[i],
            final(self).players@[player_idx as int].conn_id == old(self).players@[player_idx as int].conn_id,
            final(self).players@[player_idx as int].player_id == old(self).players@[player_idx as int].player_id,
            final(self).players@[player_idx as int].team == old(self).players@[player_idx as int].team,
            final(self).table@ == old(self).table@.push((player_idx, card)),
            final(self).seed == old(self).seed,
            final(self).current_trick == old(self).current_trick,
            final(self).score == old(self).score,
            final(self).history@ == old(self).history@,
            final(self).last_trick_winner == old(self).last_trick_winner,
            is_broadcast(
                r.message(),
                old(self).players@[player_idx as int].player_id@,
                card,
                old(self).current_trick,
            ),
            (final(self).table@.len() == 4) == (r is TrickComplete),
            r is TrickComplete ==> final(self).phase == GamePhase::TrickComplete,
            r is Continue ==> r.next_seat() == (player_idx + 1) % 4 && final(self).phase == (
            GamePhase::WaitingForPlay { current_player_idx: r.next_seat() }),
    {
        let pos = {
            let hand = &self.players[player_idx].hand;
            let mut i: usize = 0;
            while i < hand.len() && hand[i] != card
                invariant
                    i <= hand@.len(),
                    hand@.contains(card),
                    forall|k: int| 0 <= k < i ==> hand@[k] != card,
                    card_position_from(hand@, card, 0) == card_position_from(hand@, card, i as nat),
                decreases hand.len() - i,
            {
                i += 1;
            }
            i
        };
        self.players[player_idx].hand.remove(pos);
        self.table.push((player_idx, card));
        let broadcast = ServerMessage::PlayBroadcast {
            player_id: self.players[player_idx].player_id.clone(),
            card: card.to_protocol_string(),
            trick: self.current_trick,
        };
        if self.table.len() == 4 {
            self.phase = GamePhase::TrickComplete;
            PlayResult::TrickComplete(broadcast)
        } else {
            let next_idx = (player_idx % 4 + 1) % 4;
            self.phase = GamePhase::WaitingForPlay { current_player_idx: next_idx };
            PlayResult::Continue(broadcast, next_idx)
        }
    }

    /// Resolves the completed trick: the best card of the lead suit wins, its
    /// team scores one point, the trick is recorded and the table cleared.
    pub fn resolve_trick(&mut self) -> (r: TrickResolution)
        requires
            old(self).table@.len() > 0,
            old(self).table_seats_ok(),
            old(self).score.human < u32::MAX,
            old(self).score.ai < u32::MAX,
            old(self).current_trick < u32::MAX,
        ensures
            ({
                let w = old(self).table@[winning_position(old(self).table@)].0;
                let winner = old(self).players@[w as int];
                &&& final(self).score.human == old(self).score.human + (if winner.team == Team::Human { 1int } else { 0 })
                &&& final(self).score.ai == old(self).score.ai + (if winner.team == Team::Ai { 1int } else { 0 })
                &&& final(self).history@.len() == old(self).history@.len() + 1
                &&& history_view(final(self).history@) == history_view(old(self).history@).push(
                    (old(self).current_trick, winner.player_id@, tokens(old(self).table@.map_values(|e: (usize, CardData)| e.1))),
                )
                &&& final(self).table@.len() == 0
                &&& final(self).last_trick_winner == Some(w)
                &&& final(self).players@ == old(self).players@
                &&& final(self).seed == old(self).seed
                &&& is_trick_result(r.message(), old(self).current_trick, old(self).table_view(), winner.player_id@, final(self).score)
                &&& if old(self).current_trick >= TOTAL_TRICKS {
                    &&& r is GameOver
                    &&& final(self).phase == GamePhase::GameOver
                    &&& final(self).current_trick == old(self).current_trick
                } else {
                    &&& r == TrickResolution::NextTrick(r.message(), w)
                    &&& final(self).phase == (GamePhase::WaitingForPlay { current_player_idx: w })
                    &&& final(self).current_trick == old(self).current_trick + 1
                }
            }),
            final(self).score.human + final(self).score.ai == old(self).score.human + old(self).score.ai + 1,
            resolved(*old(self), *final(self)),
    {
        let lead_suit = self.table[0].1.suit;
        let mut best: usize = 0;
        let mut i: usize = 1;
        while i < self.table.len()
            invariant
                1 <= i <= self.table@.len(),
                lead_suit == self.table@[0].1.suit,
                best as int == best_position(self.table@, i as int),
                best < i,
            decreases self.table.len() - i,
        {
            let c = self.table[i].1;
            if c.suit == lead_suit && c.rank.0 >= self.table[best].1.rank.0 {
                best = i;
            }
            i += 1;
        }
        let winner_idx = self.table[best].0;
        let winner_team = self.players[winner_idx].team;
        match winner_team {
            Team::Human => self.score.human = self.score.human + 1,
            Team::Ai => self.score.ai = self.score.ai + 1,
        }
        let table_cards = self.table_cards();
        let trick_history = TrickHistory {
            trick: self.current_trick,
            winner: self.players[winner_idx].player_id.clone(),
            cards: card_tokens(&table_cards),
        };
        let ghost old_hist = self.history@;
        self.history.push(trick_history);
        assert(history_view(self.history@) =~= history_view(old_hist).push(trick_history@));
        let result_msg = ServerMessage::TrickResult {
            trick: self.current_trick,
            plays: self.table_plays(),
            winner: self.players[winner_idx].player_id.clone(),
            score: self.score,
        };
        self.table.clear();
        self.last_trick_winner = Some(winner_idx);
        if self.current_trick >= TOTAL_TRICKS {
            self.phase = GamePhase::GameOver;
            TrickResolution::GameOver(result_msg)
        } else {
            self.current_trick = self.current_trick + 1;
            self.phase = GamePhase::WaitingForPlay { current_player_idx: winner_idx };
            TrickResolution::NextTrick(result_msg, winner_idx)
        }
    }

    /// The cards on the table, in play order.
    fn table_cards(&self) -> (r: Vec<CardData>)
        ensures
            r@ == self.table@.map_values(|e: (usize, CardData)| e.1),
    {
        let mut r: Vec<CardData> = Vec::new();
        let mut i: usize = 0;
        while i < self.table.len()
            invariant
                i <= self.table@.len(),
                r@ == self.table@.subrange(0, i as int).map_values(|e: (usize, CardData)| e.1),
            decreases self.table.len() - i,
        {
            r.push(self.table[i].1);
            i += 1;
            assert(r@ =~= self.table@.subrange(0, i as int).map_values(|e: (usize, CardData)| e.1));
        }
        assert(self.table@.subrange(0, self.table@.len() as int) =~= self.table@);
        r
    }

    /// The GAME_OVER message: final score, winning team (Human on a tie), history.
    pub fn game_over_message(&self) -> (m: ServerMessage)
        ensures
            match m {
                ServerMessage::GameOver { final_score, winner, history } => {
                    &&& final_score == self.score
                    &&& winner == winning_team(self.score)
                    &&& history_view(history@) == history_view(self.history@)
                },
                _ => false,
            },
    {
        let winner = if self.score.human > self.score.ai {
            Team::Human
        } else if self.score.ai > self.score.human {
            Team::Ai
        } else {
            Team::Human
        };
        let mut history: Vec<TrickHistory> = Vec::new();
        let mut i: usize = 0;
        while i < self.history.len()
            invariant
                i <= self.history@.len(),
                history_view(history@) == history_view(self.history@.subrange(0, i as int)),
            decreases self.history.len() - i,
        {
            let ghost before = history@;
            let h = self.history[i].copy();
            history.push(h);
            proof {
                assert(history_view(history@) =~= history_view(before).push(h@));
                assert(history_view(self.history@.subrange(0, i + 1)) =~= history_view(
                    self.history@.subrange(0, i as int),
                ).push(self.history@[i as int]@));
            }
            i += 1;
        }
        assert(self.history@.subrange(0, self.history@.len() as int) =~= self.history@);
        ServerMessage::GameOver { final_score: self.score, winner, history }
    }

    /// The connections of all seats, in seat order.
    pub fn all_conn_ids(&self) -> (r: Vec<ConnectionId>)
        ensures
            r@ == self.players@.map_values(|p: GamePlayer| p.conn_id),
    {
        let mut r: Vec<ConnectionId> = Vec::new();
        let mut i: usize = 0;
        while i < self.players.len()
            invariant
                i <= self.players@.len(),
                r@ == self.players@.subrange(0, i as int).map_values(|p: GamePlayer| p.conn_id),
            decreases self.players.len() - i,
        {
            r.push(self.players[i].conn_id);
            i += 1;
            assert(r@ =~= self.players@.subrange(0, i as int).map_values(|p: GamePlayer| p.conn_id));
        }
        assert(self.players@.subrange(0, self.players@.len() as int) =~= self.players@);
        r
    }

    /// Shuffles a fresh deck with the game's seed, gives seat `p` (of the first
    /// four) the cards at positions `p`, `p + 4`, ..., sorted for display, and
    /// starts trick 1 with seat 0 to play. Returns a DEAL message for every seat.
    pub fn deal(&mut self) -> (r: Vec<(ConnectionId, ServerMessage)>)
        requires
            old(self).players@.len() >= 4,
        ensures
            final(self).players@.len() == old(self).players@.len(),
            forall|p: int|
                0 <= p < 4 ==> (#[trigger] final(self).players@[p]).hand@ == dealt_hand(old(self).seed, p),
            forall|p: int|
                0 <= p < old(self).players@.len() ==> {
                    &&& (#[trigger] final(self).players@[p]).conn_id == old(self).players@[p].conn_id
                    &&& final(self).players@[p].player_id == old(self).players@[p].player_id
                    &&& final(self).players@[p].team == old(self).players@[p].team
                },
            forall|p: int|
                4 <= p < old(self).players@.len() ==> #[trigger] final(self).players@[p] == old(self).players@[p],
            final(self).current_trick == 1,
            final(self).phase == (GamePhase::WaitingForPlay { current_player_idx: 0 }),
            final(self).seed == old(self).seed,
            final(self).table@ == old(self).table@,
            final(self).score == old(self).score,
            final(self).history@ == old(self).history@,
            final(self).last_trick_winner == old(self).last_trick_winner,
            r@.len() == final(self).players@.len(),
            forall|i: int|
                0 <= i < r@.len() ==> (#[trigger] r@[i]).0 == final(self).players@[i].conn_id && is_deal(
                    r@[i].1,
                    tokens(final(self).players@[i].hand@),
                ),
    {
        let mut deck = Deck::new();
        deck.shuffle(self.seed);
        proof {
            lemma_shuffled_len(full_deck(), self.seed);
        }
        let hands = deck.deal(4, CARDS_PER_PLAYER);
        let mut p: usize = 0;
        while p < 4
            invariant
                p <= 4,
                hands@.len() == 4,
                deck@ == shuffled(full_deck(), self.seed),
                deck@.len() == 52,
                forall|q: int| 0 <= q < 4 ==> is_dealt_hand(#[trigger] hands@[q]@, deck@, 4, 52, q as nat),
                self.players@.len() == old(self).players@.len(),
                old(self).players@.len() >= 4,
                self.seed == old(self).seed,
                forall|q: int| 0 <= q < p ==> (#[trigger] self.players@[q]).hand@ == dealt_hand(self.seed, q),
                forall|q: int|
                    0 <= q < old(self).players@.len() ==> {
                        &&& (#[trigger] self.players@[q]).conn_id == old(self).players@[q].conn_id
                        &&& self.players@[q].player_id == old(self).players@[q].player_id
                        &&& self.players@[q].team == old(self).players@[q].team
                    },
                forall|q: int| 4 <= q < old(self).players@.len() ==> #[trigger] self.players@[q] == old(self).players@[q],
                self.table@ == old(self).table@,
                self.score == old(self).score,
                self.history@ == old(self).history@,
                self.last_trick_winner == old(self).last_trick_winner,
                self.phase == old(self).phase,
                self.current_trick == old(self).current_trick,
            decreases 4 - p,
        {
            proof {
                let h = hands@[p as int]@;
                assert(is_dealt_hand(h, deck@, 4, 52, p as nat));
                assert(h.len() == 13);
                assert(h =~= dealt_cards(self.seed, p as int));
            }
            let sorted = sort_hand(&hands[p]);
            self.players[p].hand = sorted;
            p += 1;
        }
        self.current_trick = 1;
        self.phase = GamePhase::WaitingForPlay { current_player_idx: 0 };
        let mut r: Vec<(ConnectionId, ServerMessage)> = Vec::new();
        let mut i: usize = 0;
        while i < self.players.len()
            invariant
                i <= self.players@.len(),
                r@.len() == i,
                forall|k: int|
                    0 <= k < i ==> (#[trigger] r@[k]).0 == self.players@[k].conn_id && is_deal(
                        r@[k].1,
                        tokens(self.players@[k].hand@),
                    ),
            decreases self.players.len() - i,
        {
            let hand = card_tokens(&self.players[i].hand);
            r.push((self.players[i].conn_id, ServerMessage::Deal { hand, total_tricks: TOTAL_TRICKS }));
            i += 1;
        }
        r
    }
}

/// A card is among the cards of suit `s` exactly when the hand holds it and it is of suit `s`.
pub proof fn lemma_cards_of_suit_contains(h: Seq<CardData>, s: Suit, c: CardData)
    ensures
        cards_of_suit(h, s).contains(c) <==> (h.contains(c) && c.suit == s),
    decreases h.len(),
{
    if h.len() > 0 {
        let r = cards_of_suit(h.drop_last(), s);
        lemma_cards_of_suit_contains(h.drop_last(), s, c);
        if h.contains(c) && c.suit == s {
            let j = choose|j: int| 0 <= j < h.len() && h[j] == c;
            if j < h.len() - 1 {
                assert(h.drop_last()[j] == c);
                if h.last().suit == s {
                    let k = choose|k: int| 0 <= k < r.len() && r[k] == c;
                    assert(r.push(h.last())[k] == c);
                }
            } else {
                assert(r.push(h.last())[r.len() as int] == c);
            }
        }
        if cards_of_suit(h, s).contains(c) {
            let k = choose|k: int| 0 <= k < cards_of_suit(h, s).len() && cards_of_suit(h, s)[k] == c;
            if h.last().suit == s && k == r.len() {
                assert(h[h.len() - 1] == c);
            } else {
                assert(r[k] == c);
                let j = choose|j: int| 0 <= j < h.drop_last().len() && h.drop_last()[j] == c;
                assert(h[j] == c);
            }
        }
    }
}

/// The follow-suit rule: with a non-empty table whose lead suit is `L`, the legal
/// cards are the hand's cards of suit `L` when it holds any, else the whole hand.
pub proof fn lemma_legal_move_rule(hand: Seq<CardData>, table: Seq<(usize, CardData)>)
    requires
        table.len() > 0,
    ensures
        ({
            let lead = table[0].1.suit;
            &&& (exists|c: CardData| hand.contains(c) && c.suit == lead) ==> forall|c: CardData|
                #[trigger] legal_moves(hand, table).contains(c) <==> (hand.contains(c) && c.suit == lead)
            &&& !(exists|c: CardData| hand.contains(c) && c.suit == lead) ==> legal_moves(hand, table) == hand
        }),
{
    let lead = table[0].1.suit;
    let same = cards_of_suit(hand, lead);
    if exists|c: CardData| hand.contains(c) && c.suit == lead {
        let w = choose|c: CardData| hand.contains(c) && c.suit == lead;
        lemma_cards_of_suit_contains(hand, lead, w);
        assert(same.len() > 0);
        assert forall|c: CardData| #[trigger] legal_moves(hand, table).contains(c) <==> (hand.contains(c)
            && c.suit == lead) by {
            lemma_cards_of_suit_contains(hand, lead, c);
        }
    } else {
        if same.len() > 0 {
            lemma_cards_of_suit_contains(hand, lead, same[0]);
            assert(same.contains(same[0]));
        }
    }
}

proof fn lemma_best_position(table: Seq<(usize, CardData)>, n: int)
    requires
        1 <= n <= table.len(),
    ensures
        0 <= best_position(table, n) < n,
        table[best_position(table, n)].1.suit == table[0].1.suit,
        forall|k: int|
            0 <= k < n && #[trigger] table[k].1.suit == table[0].1.suit ==> table[k].1.rank.0 <= table[best_position(
                table,
                n,
            )].1.rank.0,
    decreases n,
{
    if n > 1 {
        lemma_best_position(table, n - 1);
    }
}

/// The trick goes to the card of highest rank among those of the lead suit:
/// the winning card is of the lead suit and no lead-suit card on the table outranks it.
pub proof fn lemma_trick_winner(table: Seq<(usize, CardData)>)
    requires
        table.len() > 0,
    ensures
        0 <= winning_position(table) < table.len(),
        table[winning_position(table)].1.suit == table[0].1.suit,
        forall|k: int|
            0 <= k < table.len() && #[trigger] table[k].1.suit == table[0].1.suit ==> table[k].1.rank.0
                <= table[winning_position(table)].1.rank.0,
{
    lemma_best_position(table, table.len() as int);
}

/// Score conservation: a game starts at zero and each resolved trick adds exactly
/// one point to one team, so after thirteen tricks the teams hold thirteen points.
/// `scores[i]` is the score after `i` tricks.
pub proof fn lemma_score_conservation(scores: Seq<Score>)
    requires
        scores.len() == TOTAL_TRICKS + 1,
        scores[0].human == 0 && scores[0].ai == 0,
        forall|i: int|
            0 <= i < TOTAL_TRICKS ==> #[trigger] scores[i + 1].human + scores[i + 1].ai == scores[i].human
                + scores[i].ai + 1,
    ensures
        scores[TOTAL_TRICKS as int].human + scores[TOTAL_TRICKS as int].ai == TOTAL_TRICKS,
{
    lemma_score_prefix(scores, TOTAL_TRICKS as int);
}

proof fn lemma_score_prefix(scores: Seq<Score>, i: int)
    requires
        0 <= i <= TOTAL_TRICKS,
        scores.len() == TOTAL_TRICKS + 1,
        scores[0].human == 0 && scores[0].ai == 0,
        forall|i: int|
            0 <= i < TOTAL_TRICKS ==> #[trigger] scores[i + 1].human + scores[i + 1].ai == scores[i].human
                + scores[i].ai + 1,
    ensures
        scores[i].human + scores[i].ai == i,
    decreases i,
{
    if i > 0 {
        lemma_score_prefix(scores, i - 1);
        assert(scores[(i - 1) + 1].human + scores[(i - 1) + 1].ai == scores[i - 1].human + scores[i - 1].ai + 1);
    }
}

/// Determinism: the order of the shuffled deck and every seat's hand depend on the
/// seed alone, so two deals with the same seed give the same hands.
pub proof fn lemma_deal_deterministic(seed: u64, deck1: Seq<CardData>, deck2: Seq<CardData>)
    requires
        deck1 == full_deck(),
        deck2 == full_deck(),
    ensures
        shuffled(deck1, seed) == shuffled(deck2, seed),
        forall|p: int| 0 <= p < 4 ==> #[trigger] dealt_hand(seed, p) == sorted_hand(
            Seq::new(13, |k: int| shuffled(deck2, seed)[k * 4 + p]),
        ),
{
    assert forall|p: int| 0 <= p < 4 implies #[trigger] dealt_hand(seed, p) == sorted_hand(
        Seq::new(13, |k: int| shuffled(deck2, seed)[k * 4 + p]),
    ) by {
        assert(dealt_cards(seed, p) =~= Seq::new(13, |k: int| shuffled(deck2, seed)[k * 4 + p]));
    }
}

proof fn lemma_select_contains(order: Seq<CardData>, h: Seq<CardData>)
    ensures
        forall|x: CardData| #[trigger] select_in_order(order, h).contains(x) <==> (order.contains(x) && h.contains(x)),
        order.no_duplicates() ==> select_in_order(order, h).no_duplicates(),
    decreases order.len(),
{
    if order.len() > 0 {
        let prev = order.drop_last();
        lemma_select_contains(prev, h);
        let r = select_in_order(prev, h);
        let last = order.last();
        assert forall|x: CardData| #[trigger] select_in_order(order, h).contains(x) <==> (order.contains(x)
            && h.contains(x)) by {
            if order.contains(x) && h.contains(x) {
                let k = choose|k: int| 0 <= k < order.len() && order[k] == x;
                if k < order.len() - 1 {
                    assert(prev[k] == x);
                    assert(prev.contains(x));
                    assert(r.contains(x));
                    if h.contains(last) {
                        let m = choose|m: int| 0 <= m < r.len() && r[m] == x;
                        assert(r.push(last)[m] == x);
                    }
                } else {
                    assert(r.push(last)[r.len() as int] == x);
                }
            }
            if select_in_order(order, h).contains(x) {
                if h.contains(last) && x == last {
                    assert(order[order.len() - 1] == x);
                } else {
                    let m = choose|m: int| 0 <= m < select_in_order(order, h).len() && select_in_order(
                        order,
                        h,
                    )[m] == x;
                    if h.contains(last) {
                        if m == r.len() {
                            assert(x == last);
                            assert(order[order.len() - 1] == x);
                        } else {
                            assert(r[m] == x);
                        }
                    } else {
                        assert(r[m] == x);
                    }
                    assert(r.contains(x));
                    let k = choose|k: int| 0 <= k < prev.len() && prev[k] == x;
                    assert(order[k] == x);
                }
            }
        }
        if order.no_duplicates() {
            assert(prev.no_duplicates()) by {
                assert forall|a: int, b: int| 0 <= a < prev.len() && 0 <= b < prev.len() && a != b implies prev[a]
                    != prev[b] by {
                    assert(prev[a] == order[a] && prev[b] == order[b]);
                }
            }
            if h.contains(last) {
                assert(!r.contains(last)) by {
                    if r.contains(last) {
                        let k = choose|k: int| 0 <= k < prev.len() && prev[k] == last;
                        assert(order[k] == order[order.len() - 1]);
                    }
                }
                let t = r.push(last);
                assert forall|a: int, b: int| 0 <= a < t.len() && 0 <= b < t.len() && a != b implies t[a] != t[b] by {
                    if a == r.len() {
                        assert(r[b] == t[b]);
                    } else if b == r.len() {
                        assert(r[a] == t[a]);
                    }
                }
            }
        }
    }
}

/// The deal partitions the deck: each of the four hands holds thirteen different
/// cards, no card is in two hands, and together they hold the 52 cards of the deck.
pub proof fn lemma_deal_partition(seed: u64)
    ensures
        forall|p: int| 0 <= p < 4 ==> (#[trigger] dealt_hand(seed, p)).len() == 13,
        forall|p: int| 0 <= p < 4 ==> (#[trigger] dealt_hand(seed, p)).no_duplicates(),
        forall|p: int, q: int, c: CardData|
            0 <= p < 4 && 0 <= q < 4 && p != q && #[trigger] dealt_hand(seed, p).contains(c) ==> !#[trigger] dealt_hand(
                seed,
                q,
            ).contains(c),
        forall|c: CardData|
            #[trigger] full_deck().contains(c) <==> exists|p: int| 0 <= p < 4 && #[trigger] dealt_hand(seed, p).contains(c),
{
    let d = shuffled(full_deck(), seed);
    lemma_shuffled_deck(seed);
    lemma_full_deck_distinct();
    assert forall|p: int| 0 <= p < 4 implies (#[trigger] dealt_hand(seed, p)).len() == 13 && dealt_hand(
        seed,
        p,
    ).no_duplicates() by {
        let h = dealt_cards(seed, p);
        lemma_select_contains(full_deck(), h);
        let s = dealt_hand(seed, p);
        assert(h.no_duplicates()) by {
            assert forall|a: int, b: int| 0 <= a < h.len() && 0 <= b < h.len() && a != b implies h[a] != h[b] by {
                assert(h[a] == d[a * 4 + p]);
                assert(h[b] == d[b * 4 + p]);
            }
        }
        assert forall|x: CardData| h.contains(x) implies full_deck().contains(x) by {
            let k = choose|k: int| 0 <= k < h.len() && h[k] == x;
            assert(d[k * 4 + p] == x);
            assert(d.contains(x));
        }
        assert(s.to_set() =~= h.to_set());
        h.unique_seq_to_set();
        s.unique_seq_to_set();
    }
    assert forall|p: int, q: int, c: CardData|
        0 <= p < 4 && 0 <= q < 4 && p != q && #[trigger] dealt_hand(seed, p).contains(c) implies !#[trigger] dealt_hand(
        seed,
        q,
    ).contains(c) by {
        lemma_select_contains(full_deck(), dealt_cards(seed, p));
        lemma_select_contains(full_deck(), dealt_cards(seed, q));
        if dealt_hand(seed, q).contains(c) {
            let hp = dealt_cards(seed, p);
            let hq = dealt_cards(seed, q);
            let k = choose|k: int| 0 <= k < hp.len() && hp[k] == c;
            let m = choose|m: int| 0 <= m < hq.len() && hq[m] == c;
            assert(d[k * 4 + p] == c);
            assert(d[m * 4 + q] == c);
            assert(k * 4 + p == m * 4 + q);
        }
    }
    assert forall|c: CardData| #[trigger] full_deck().contains(c) <==> exists|p: int|
        0 <= p < 4 && #[trigger] dealt_hand(seed, p).contains(c) by {
        if full_deck().contains(c) {
            assert(d.contains(c));
            let i = choose|i: int| 0 <= i < d.len() && d[i] == c;
            let p = i % 4;
            let k = i / 4;
            assert(k * 4 + p == i);
            assert(d[k * 4 + p] == c);
            assert(dealt_cards(seed, p)[k] == c);
            assert(dealt_cards(seed, p).contains(c));
            lemma_select_contains(full_deck(), dealt_cards(seed, p));
            assert(dealt_hand(seed, p).contains(c));
        }
        if exists|p: int| 0 <= p < 4 && #[trigger] dealt_hand(seed, p).contains(c) {
            let p = choose|p: int| 0 <= p < 4 && #[trigger] dealt_hand(seed, p).contains(c);
            lemma_select_contains(full_deck(), dealt_cards(seed, p));
        }
    }
}

/// One move of a game: a seat plays a card, or the trick on the table is resolved.
pub open spec fn game_step(a: GameEngine, b: GameEngine) -> bool {
    (exists|i: int, c: CardData| #[trigger] played(a, b, i, c)) || resolved(a, b)
}

proof fn lemma_score_follows_history(t: Seq<GameEngine>, n: int)
    requires
        1 <= n <= t.len(),
        t[0].score.human + t[0].score.ai == t[0].history@.len(),
        forall|k: int| 0 <= k < t.len() - 1 ==> game_step(#[trigger] t[k], t[k + 1]),
    ensures
        t[n - 1].score.human + t[n - 1].score.ai == t[n - 1].history@.len(),
    decreases n,
{
    if n > 1 {
        lemma_score_follows_history(t, n - 1);
        let a = t[n - 2];
        let b = t[n - 1];
        assert(game_step(t[n - 2], t[(n - 2) + 1]));
        if resolved(a, b) {
            assert(history_view(b.history@).len() == b.history@.len());
            assert(history_view(a.history@).len() == a.history@.len());
        } else {
            let (i, c) = choose|i: int, c: CardData| #[trigger] played(a, b, i, c);
        }
    }
}

/// Score conservation over a played game: from a fresh deal (no points, no
/// tricks recorded), through any sequence of plays and trick resolutions, the two
/// teams hold as many points as tricks were recorded, so after thirteen tricks,
/// thirteen points.
pub proof fn lemma_played_game_score(t: Seq<GameEngine>)
    requires
        t.len() >= 1,
        t[0].score.human == 0 && t[0].score.ai == 0,
        t[0].history@.len() == 0,
        forall|k: int| 0 <= k < t.len() - 1 ==> game_step(#[trigger] t[k], t[k + 1]),
    ensures
        t.last().score.human + t.last().score.ai == t.last().history@.len(),
        t.last().history@.len() == TOTAL_TRICKS ==> t.last().score.human + t.last().score.ai == TOTAL_TRICKS,
{
    lemma_score_follows_history(t, t.len() as int);
}

/// The legal cards are cards of the hand, and a non-empty hand has some.
pub proof fn lemma_legal_in_hand(hand: Seq<CardData>, table: Seq<(usize, CardData)>)
    ensures
        forall|c: CardData| #[trigger] legal_moves(hand, table).contains(c) ==> hand.contains(c),
        hand.len() > 0 ==> legal_moves(hand, table).len() > 0,
{
    if table.len() > 0 {
        assert forall|c: CardData| #[trigger] legal_moves(hand, table).contains(c) implies hand.contains(c) by {
            lemma_cards_of_suit_contains(hand, table[0].1.suit, c);
        }
    }
}

/// The built-in AI's card for a seat with cards is one it holds.
pub proof fn lemma_ai_choice_held(e: GameEngine, i: int)
    requires
        e.hand_of(i).len() > 0,
    ensures
        e.hand_of(i).contains(ai_choice(e, i)),
{
    let h = e.hand_of(i);
    lemma_legal_in_hand(h, e.table@);
    crate::strategy::lemma_smart_choice_legal(h, legal_moves(h, e.table@), e.table@, e.table@.len() == 0);
}

} // verus!
