use vstd::prelude::*;
pub use crate::text::texts;

verus! {

/// Identifies one accepted connection.
pub type ConnectionId = u64;

/// Seat identifier ("P1".."P4").
pub type PlayerId = String;

/// Room identifier ("R001", ...).
pub type RoomId = String;

/// A card token ("AS", "10H", "KC").
pub type Card = String;

/// The role a client announces in its handshake.
#[derive(Debug, Clone, Copy, PartialEq, Eq, Structural)]
pub enum Role {
    Human,
    Ai,
}

/// The two teams of a game.
#[derive(Debug, Clone, Copy, PartialEq, Eq, Hash, Structural)]
pub enum Team {
    Human,
    Ai,
}

/// Error codes carried by `ServerMessage::Error`.
#[derive(Debug, Clone, Copy, PartialEq, Eq, Structural)]
pub enum ErrorCode {
    InvalidHello,
    AuthFailed,
    RoomFull,
    InvalidMove,
    NotYourTurn,
    ProtocolError,
    Timeout,
}

/// Why a play was rejected.
#[derive(Debug, Clone, Copy, PartialEq, Eq, Structural)]
pub enum RejectReason {
    NotInHand,
    NotLegal,
    NotYourTurn,
}

/// A seat as shown to clients.
#[derive(Debug, Clone)]
pub struct PlayerInfo {
    pub id: PlayerId,
    pub nickname: String,
    pub role: Role,
    pub team: Option<Team>,
}

/// One card on the table, with the seat that played it.
#[derive(Debug, Clone)]
pub struct TablePlay {
    pub player_id: PlayerId,
    pub card: Card,
}

/// A completed trick.
#[derive(Debug, Clone)]
pub struct TrickHistory {
    pub trick: u32,
    pub winner: PlayerId,
    pub cards: Vec<Card>,
}

/// Tricks won by each team.
#[derive(Debug, Clone, Copy, PartialEq, Eq, Structural)]
pub struct Score {
    pub human: u32,
    pub ai: u32,
}

impl Default for Score {
    fn default() -> (s: Score)
        ensures
            s.human == 0,
            s.ai == 0,
    {
        Score { human: 0, ai: 0 }
    }
}

/// Client to server requests.
#[derive(Debug, Clone)]
pub enum ClientMessage {
    Hello { role: Role, nickname: String, proto: u32, auth: Option<String> },
    Play { card: Card },
    Ping,
}

/// Server to client messages.
#[derive(Debug, Clone)]
pub enum ServerMessage {
    Welcome { player_id: PlayerId, nickname: String, room: RoomId },
    Error { code: ErrorCode, message: String },
    RoomWait { room: RoomId, players: Vec<PlayerInfo>, need: u32 },
    RoomStart { room: RoomId, players: Vec<PlayerInfo>, seed: u64 },
    Deal { hand: Vec<Card>, total_tricks: u32 },
    YourTurn { trick: u32, table: Vec<TablePlay>, legal: Vec<Card>, timeout_ms: u32 },
    PlayBroadcast { player_id: PlayerId, card: Card, trick: u32 },
    PlayReject { card: Card, reason: RejectReason },
    TrickResult { trick: u32, plays: Vec<TablePlay>, winner: PlayerId, score: Score },
    GameOver { final_score: Score, winner: Team, history: Vec<TrickHistory> },
    Pong,
}

/// Heartbeat request.
#[derive(Debug, Clone)]
pub struct HeartbeatPing {
    pub msg_type: String,
    pub seq: u64,
    pub t_client_ms: u64,
}

/// Heartbeat reply.
#[derive(Debug, Clone)]
pub struct HeartbeatPong {
    pub msg_type: String,
    pub seq: u64,
    pub t_client_ms: u64,
    pub t_server_ms: u64,
}

impl HeartbeatPong {
    /// The reply to `ping`, stamped with the server time.
    pub fn from_ping(ping: &HeartbeatPing, server_time: u64) -> (r: HeartbeatPong)
        ensures
            r.msg_type@ == seq!['H', 'B', '_', 'P', 'O', 'N', 'G'],
            r.seq == ping.seq,
            r.t_client_ms == ping.t_client_ms,
            r.t_server_ms == server_time,
    {
        let msg_type = crate::text::string_from("HB_PONG");
        proof {
            reveal_strlit("HB_PONG");
        }
        HeartbeatPong { msg_type, seq: ping.seq, t_client_ms: ping.t_client_ms, t_server_ms: server_time }
    }
}

/// A copy of a string list with the same contents.
pub fn copy_strings(v: &Vec<String>) -> (r: Vec<String>)
    ensures
        r@ == v@,
{
    let mut r: Vec<String> = Vec::new();
    let mut i: usize = 0;
    while i < v.len()
        invariant
            i <= v@.len(),
            r@ == v@.subrange(0, i as int),
        decreases v.len() - i,
    {
        r.push(v[i].clone());
        i += 1;
        assert(r@ =~= v@.subrange(0, i as int));
    }
    assert(r@ =~= v@);
    r
}

impl View for TrickHistory {
    type V = (u32, Seq<char>, Seq<Seq<char>>);

    open spec fn view(&self) -> (u32, Seq<char>, Seq<Seq<char>>) {
        (self.trick, self.winner@, texts(self.cards@))
    }
}

impl View for PlayerInfo {
    type V = (Seq<char>, Seq<char>, Role, Option<Team>);

    open spec fn view(&self) -> (Seq<char>, Seq<char>, Role, Option<Team>) {
        (self.id@, self.nickname@, self.role, self.team)
    }
}

impl View for TablePlay {
    type V = (Seq<char>, Seq<char>);

    open spec fn view(&self) -> (Seq<char>, Seq<char>) {
        (self.player_id@, self.card@)
    }
}

impl TrickHistory {
    /// A copy with equal fields.
    pub fn copy(&self) -> (r: TrickHistory)
        ensures
            r@ == self@,
    {
        let cards = copy_strings(&self.cards);
        assert(texts(cards@) =~= texts(self.cards@));
        TrickHistory { trick: self.trick, winner: self.winner.clone(), cards }
    }
}

impl PlayerInfo {
    /// A copy with equal fields.
    pub fn copy(&self) -> (r: PlayerInfo)
        ensures
            r@ == self@,
    {
        PlayerInfo { id: self.id.clone(), nickname: self.nickname.clone(), role: self.role, team: self.team }
    }
}

} // verus!
