use vstd::prelude::*;
use vstd::string::*;
use crate::clock::generate_seed;
use vstd::arithmetic::div_mod::lemma_add_mod_noop;
use crate::player::AiPlayer;
use crate::protocol::{ConnectionId, PlayerInfo, Role, RoomId, ServerMessage, Team};
use crate::text::{contains_text, has_prefix, push_char, push_decimal_zero_padded, decimal, pad_zeros, str_eq, string_from, texts};

verus! {

/// Seats in a room.
pub const MAX_PLAYERS: usize = 4;

/// Humans needed to start a room in Bridge Mode.
pub const REQUIRED_HUMANS: usize = 2;

/// Connection id standing for the first built-in AI seat (it has no socket).
pub const AI_VIRTUAL_CONN_ID_1: ConnectionId = 18446744073709551614;

/// Connection id standing for the second built-in AI seat (it has no socket).
pub const AI_VIRTUAL_CONN_ID_2: ConnectionId = 18446744073709551615;

/// A seat in a room.
#[derive(Debug, Clone)]
pub struct Player {
    pub conn_id: ConnectionId,
    pub player_id: String,
    pub nickname: String,
    pub role: Role,
    pub team: Option<Team>,
}

impl View for Player {
    type V = (ConnectionId, Seq<char>, Seq<char>, Role, Option<Team>);

    open spec fn view(&self) -> (ConnectionId, Seq<char>, Seq<char>, Role, Option<Team>) {
        (self.conn_id, self.player_id@, self.nickname@, self.role, self.team)
    }
}

/// Lifecycle of a room.
#[derive(Debug, Clone, Copy, PartialEq, Eq, Structural)]
pub enum RoomState {
    Waiting,
    Playing,
    Finished,
}

/// A lobby of up to four seats.
pub struct Room {
    pub id: RoomId,
    pub state: RoomState,
    pub players: Vec<Player>,
    pub nicknames: Vec<String>,
    pub seed: u64,
    pub bridge_mode: bool,
}

/// The views of a list of seats.
pub open spec fn seats(v: Seq<Player>) -> Seq<(ConnectionId, Seq<char>, Seq<char>, Role, Option<Team>)> {
    v.map_values(|p: Player| p@)
}

/// Number of Human seats.
pub open spec fn humans(players: Seq<Player>) -> nat
    decreases players.len(),
{
    if players.len() == 0 {
        0
    } else {
        humans(players.drop_last()) + if players.last().role == Role::Human {
            1nat
        } else {
            0nat
        }
    }
}

/// Whether a connection id stands for a built-in AI seat.
pub open spec fn is_virtual(conn: ConnectionId) -> bool {
    conn == AI_VIRTUAL_CONN_ID_1 || conn == AI_VIRTUAL_CONN_ID_2
}

/// The seats whose role is AI, in order.
pub open spec fn ai_seats(players: Seq<Player>) -> Seq<Player>
    decreases players.len(),
{
    if players.len() == 0 {
        seq![]
    } else {
        let r = ai_seats(players.drop_last());
        if players.last().role == Role::Ai {
            r.push(players.last())
        } else {
            r
        }
    }
}

/// The connections of the Human seats, in order.
pub open spec fn human_conns(players: Seq<Player>) -> Seq<ConnectionId>
    decreases players.len(),
{
    if players.len() == 0 {
        seq![]
    } else {
        let r = human_conns(players.drop_last());
        if players.last().role == Role::Human {
            r.push(players.last().conn_id)
        } else {
            r
        }
    }
}

/// The connections that are not built-in AI seats, in order.
pub open spec fn real_conns(players: Seq<Player>) -> Seq<ConnectionId>
    decreases players.len(),
{
    if players.len() == 0 {
        seq![]
    } else {
        let r = real_conns(players.drop_last());
        if !is_virtual(players.last().conn_id) {
            r.push(players.last().conn_id)
        } else {
            r
        }
    }
}

/// The names that begin with "AI_", in order.
pub open spec fn ai_names(v: Seq<Seq<char>>) -> Seq<Seq<char>>
    decreases v.len(),
{
    if v.len() == 0 {
        seq![]
    } else {
        let r = ai_names(v.drop_last());
        let t = v.last();
        if 3 <= t.len() && t.subrange(0, 3) == "AI_"@ {
            r.push(t)
        } else {
            r
        }
    }
}

/// `v` without the entries equal to `t`.
pub open spec fn without_text(v: Seq<Seq<char>>, t: Seq<char>) -> Seq<Seq<char>>
    decreases v.len(),
{
    if v.len() == 0 {
        seq![]
    } else {
        let r = without_text(v.drop_last(), t);
        if v.last() != t {
            r.push(v.last())
        } else {
            r
        }
    }
}

/// `v` with `t` added unless it is there already (a set of names).
pub open spec fn with_text(v: Seq<Seq<char>>, t: Seq<char>) -> Seq<Seq<char>> {
    if v.contains(t) {
        v
    } else {
        v.push(t)
    }
}

/// First seat at or after `i` held by connection `conn`.
pub open spec fn seat_of_conn_from(players: Seq<Player>, conn: ConnectionId, i: nat) -> Option<nat>
    decreases players.len() - i,
{
    if i >= players.len() {
        None
    } else if players[i as int].conn_id == conn {
        Some(i)
    } else {
        seat_of_conn_from(players, conn, i + 1)
    }
}

/// First seat with seat id `id` at or after `i`.
pub open spec fn seat_of_id_from(players: Seq<Player>, id: Seq<char>, i: nat) -> Option<nat>
    decreases players.len() - i,
{
    if i >= players.len() {
        None
    } else if players[i as int].player_id@ == id {
        Some(i)
    } else {
        seat_of_id_from(players, id, i + 1)
    }
}

/// The protocol view of a list of seats.
pub open spec fn infos_view(v: Seq<PlayerInfo>) -> Seq<(Seq<char>, Seq<char>, Role, Option<Team>)> {
    v.map_values(|p: PlayerInfo| p@)
}

/// The protocol view of the seats of a room.
pub open spec fn seat_infos(players: Seq<Player>) -> Seq<(Seq<char>, Seq<char>, Role, Option<Team>)> {
    players.map_values(|p: Player| (p.player_id@, p.nickname@, p.role, p.team))
}

proof fn lemma_humans_bound(players: Seq<Player>)
    ensures
        humans(players) <= players.len(),
    decreases players.len(),
{
    if players.len() > 0 {
        lemma_humans_bound(players.drop_last());
    }
}

/// `after` is `before` with the first seat of connection `conn` removed and its
/// nickname freed, `r` being that seat; nothing changes when no seat is held by `conn`.
pub open spec fn seat_removed(before: Room, after: Room, conn: ConnectionId, r: Option<Player>) -> bool {
    &&& match seat_of_conn_from(before.players@, conn, 0) {
        Some(i) => {
            &&& r is Some
            &&& r->0@ == before.players@[i as int]@
            &&& seats(after.players@) == seats(before.players@).remove(i as int)
            &&& texts(after.nicknames@) == without_text(texts(before.nicknames@), before.players@[i as int].nickname@)
        },
        None => {
            &&& r is None
            &&& seats(after.players@) == seats(before.players@)
            &&& texts(after.nicknames@) == texts(before.nicknames@)
        },
    }
    &&& after.id == before.id
    &&& after.state == before.state
    &&& after.seed == before.seed
    &&& after.bridge_mode == before.bridge_mode
}

/// `after` is `before` with a seat for connection `conn`, seat id `pid`, nickname
/// `nick` and role `role`: in Bridge Mode right after the last Human seat (a Human
/// joins the Human team at once), otherwise at the end with no team yet; the
/// nickname becomes taken.
pub open spec fn seated(before: Room, after: Room, conn: ConnectionId, pid: Seq<char>, nick: Seq<char>, role: Role) -> bool {
    let seat = (conn, pid, nick, role, if before.bridge_mode && role == Role::Human {
        Some(Team::Human)
    } else {
        None
    });
    &&& if before.bridge_mode {
        seats(after.players@) == seats(before.players@).insert(humans(before.players@) as int, seat)
    } else {
        seats(after.players@) == seats(before.players@).push(seat)
    }
    &&& texts(after.nicknames@) == with_text(texts(before.nicknames@), nick)
    &&& after.id == before.id
    &&& after.state == before.state
    &&& after.seed == before.seed
    &&& after.bridge_mode == before.bridge_mode
}

impl Player {
    /// The seat as shown to clients.
    pub fn to_player_info(&self) -> (r: PlayerInfo)
        ensures
            r@ == (self.player_id@, self.nickname@, self.role, self.team),
    {
        PlayerInfo { id: self.player_id.clone(), nickname: self.nickname.clone(), role: self.role, team: self.team }
    }

    /// A copy with equal fields.
    pub fn copy(&self) -> (r: Player)
        ensures
            r@ == self@,
    {
        Player {
            conn_id: self.conn_id,
            player_id: self.player_id.clone(),
            nickname: self.nickname.clone(),
            role: self.role,
            team: self.team,
        }
    }
}

impl Room {
    /// The room holds as many seats as it can.
    pub open spec fn full(&self) -> bool {
        if self.bridge_mode {
            humans(self.players@) >= REQUIRED_HUMANS
        } else {
            self.players@.len() >= MAX_PLAYERS
        }
    }

    /// Seats still missing; defined while the room is not over-filled.
    pub open spec fn needed(&self) -> int {
        if self.bridge_mode {
            REQUIRED_HUMANS - humans(self.players@)
        } else {
            MAX_PLAYERS - self.players@.len()
        }
    }

    /// The room is not over-filled.
    pub open spec fn within_capacity(&self) -> bool {
        0 <= self.needed()
    }

    /// A game may start.
    pub open spec fn startable(&self) -> bool {
        if self.bridge_mode {
            humans(self.players@) >= REQUIRED_HUMANS
        } else {
            self.players@.len() == MAX_PLAYERS && exists|i: int|
                0 <= i < self.players@.len() && #[trigger] self.players@[i].role == Role::Human
        }
    }

    /// A classic room, waiting and empty.
    pub fn new(id: &str) -> (r: Room)
        ensures
            r.id@ == id@,
            r.state == RoomState::Waiting,
            r.players@.len() == 0,
            r.nicknames@.len() == 0,
            !r.bridge_mode,
    {
        Room {
            id: string_from(id),
            state: RoomState::Waiting,
            players: Vec::new(),
            nicknames: Vec::new(),
            seed: generate_seed(),
            bridge_mode: false,
        }
    }

    /// A Bridge Mode room: the two built-in AI seats P3 and P4 are already there.
    pub fn new_bridge_mode(id: &str) -> (r: Room)
        ensures
            r.id@ == id@,
            r.state == RoomState::Waiting,
            r.bridge_mode,
            r.is_fresh_bridge(),
            humans(r.players@) == 0,
    {
        let mut room = Room {
            id: string_from(id),
            state: RoomState::Waiting,
            players: Vec::new(),
            nicknames: Vec::new(),
            seed: generate_seed(),
            bridge_mode: true,
        };
        let (ai1, ai2) = AiPlayer::create_partners();
        assert(humans(room.players@) == 0);
        assert(seats(room.players@) =~= seq![]);
        assert(texts(room.nicknames@) =~= seq![]);
        room.add_builtin_ai(&ai1, AI_VIRTUAL_CONN_ID_1);
        room.add_builtin_ai(&ai2, AI_VIRTUAL_CONN_ID_2);
        assert(seats(room.players@) =~= seq![
            (AI_VIRTUAL_CONN_ID_1, "P3"@, "AI_Partner1"@, Role::Ai, Some(Team::Ai)),
            (AI_VIRTUAL_CONN_ID_2, "P4"@, "AI_Partner2"@, Role::Ai, Some(Team::Ai)),
        ]);
        assert(texts(room.nicknames@) =~= seq!["AI_Partner1"@, "AI_Partner2"@]);
        room
    }

    /// The seats and names of a Bridge Mode room before anyone joins.
    pub open spec fn is_fresh_bridge(&self) -> bool {
        &&& seats(self.players@) == seq![
            (AI_VIRTUAL_CONN_ID_1, "P3"@, "AI_Partner1"@, Role::Ai, Some(Team::Ai)),
            (AI_VIRTUAL_CONN_ID_2, "P4"@, "AI_Partner2"@, Role::Ai, Some(Team::Ai)),
        ]
        &&& texts(self.nicknames@) == seq!["AI_Partner1"@, "AI_Partner2"@]
    }

    fn add_builtin_ai(&mut self, ai: &AiPlayer, virtual_conn_id: ConnectionId)
        ensures
            seats(final(self).players@) == seats(old(self).players@).push(
                (virtual_conn_id, ai.player_id@, ai.nickname@, Role::Ai, Some(Team::Ai)),
            ),
            texts(final(self).nicknames@) == texts(old(self).nicknames@).push(ai.nickname@),
            humans(final(self).players@) == humans(old(self).players@),
            final(self).id == old(self).id,
            final(self).state == old(self).state,
            final(self).seed == old(self).seed,
            final(self).bridge_mode == old(self).bridge_mode,
    {
        let player = Player {
            conn_id: virtual_conn_id,
            player_id: ai.player_id.clone(),
            nickname: ai.nickname.clone(),
            role: Role::Ai,
            team: Some(Team::Ai),
        };
        let ghost p0 = self.players@;
        let ghost n0 = self.nicknames@;
        self.nicknames.push(ai.nickname.clone());
        self.players.push(player);
        assert(self.players@.drop_last() =~= p0);
        assert(seats(self.players@) =~= seats(p0).push(player@));
        assert(texts(self.nicknames@) =~= texts(n0).push(ai.nickname@));
    }

    /// Whether the room is full (Bridge Mode: two Humans; classic: four seats).
    pub fn is_full(&self) -> (r: bool)
        ensures
            r == self.full(),
    {
        if self.bridge_mode {
            self.human_count() >= REQUIRED_HUMANS
        } else {
            self.players.len() >= MAX_PLAYERS
        }
    }

    /// The slot number the next joiner gets (Bridge Mode: Humans take P1, P2).
    pub fn next_slot(&self) -> (r: u32)
        ensures
            r as int == (if self.bridge_mode {
                humans(self.players@) + 1
            } else {
                self.players@.len() + 1
            }) % 0x1_0000_0000,
    {
        let n = if self.bridge_mode {
            self.human_count()
        } else {
            self.players.len()
        };
        proof {
            lemma_humans_bound(self.players@);
        }
        let m = ((n as u64) % 0x1_0000_0000) as u32;
        proof {
            lemma_add_mod_noop(n as int, 1, 0x1_0000_0000);
        }
        m.wrapping_add(1)
    }

    /// Number of Human seats.
    pub fn human_count(&self) -> (r: usize)
        ensures
            r == humans(self.players@),
    {
        let mut count: usize = 0;
        let mut i: usize = 0;
        while i < self.players.len()
            invariant
                i <= self.players@.len(),
                count == humans(self.players@.subrange(0, i as int)),
                count <= i,
            decreases self.players.len() - i,
        {
            if self.players[i].role == Role::Human {
                count += 1;
            }
            i += 1;
            assert(self.players@.subrange(0, i as int).drop_last() =~= self.players@.subrange(0, i - 1));
        }
        assert(self.players@.subrange(0, self.players@.len() as int) =~= self.players@);
        count
    }

    /// The nicknames in use.
    pub fn get_nicknames(&self) -> (r: &Vec<String>)
        ensures
            r == &self.nicknames,
    {
        &self.nicknames
    }

    /// Seats a player. Bridge Mode: the seat goes right after the last Human seat,
    /// and a Human joins the Human team at once; classic: at the end, team unset.
    pub fn add_player(&mut self, conn_id: ConnectionId, player_id: &str, nickname: &str, role: Role)
        ensures
            seated(*old(self), *final(self), conn_id, player_id@, nickname@, role),
            ({
                let seat = (
                    conn_id,
                    player_id@,
                    nickname@,
                    role,
                    if old(self).bridge_mode && role == Role::Human {
                        Some(Team::Human)
                    } else {
                        None
                    },
                );
                if old(self).bridge_mode {
                    seats(final(self).players@) == seats(old(self).players@).insert(
                        humans(old(self).players@) as int,
                        seat,
                    )
                } else {
                    seats(final(self).players@) == seats(old(self).players@).push(seat)
                }
            }),
            texts(final(self).nicknames@) == with_text(texts(old(self).nicknames@), nickname@),
            final(self).id == old(self).id,
            final(self).state == old(self).state,
            final(self).seed == old(self).seed,
            final(self).bridge_mode == old(self).bridge_mode,
    {
        let team = if self.bridge_mode && role == Role::Human {
            Some(Team::Human)
        } else {
            None
        };
        let player = Player {
            conn_id,
            player_id: string_from(player_id),
            nickname: string_from(nickname),
            role,
            team,
        };
        let ghost n0 = self.nicknames@;
        if !contains_text(&self.nicknames, nickname) {
            self.nicknames.push(string_from(nickname));
            assert(texts(self.nicknames@) =~= texts(n0).push(nickname@));
        }
        let ghost p0 = self.players@;
        if self.bridge_mode {
            let insert_pos = self.human_count();
            proof {
                lemma_humans_bound(self.players@);
            }
            self.players.insert(insert_pos, player);
            assert(seats(self.players@) =~= seats(p0).insert(insert_pos as int, player@));
        } else {
            self.players.push(player);
            assert(seats(self.players@) =~= seats(p0).push(player@));
        }
    }

    /// Removes the first seat held by `conn_id` and frees its nickname.
    pub fn remove_player(&mut self, conn_id: ConnectionId) -> (r: Option<Player>)
        ensures
            seat_removed(*old(self), *final(self), conn_id, r),
            match seat_of_conn_from(old(self).players@, conn_id, 0) {
                Some(i) => {
                    &&& r is Some
                    &&& r->0@ == old(self).players@[i as int]@
                    &&& seats(final(self).players@) == seats(old(self).players@).remove(i as int)
                    &&& texts(final(self).nicknames@) == without_text(
                        texts(old(self).nicknames@),
                        old(self).players@[i as int].nickname@,
                    )
                },
                None => {
                    &&& r is None
                    &&& seats(final(self).players@) == seats(old(self).players@)
                    &&& texts(final(self).nicknames@) == texts(old(self).nicknames@)
                },
            },
            final(self).id == old(self).id,
            final(self).state == old(self).state,
            final(self).seed == old(self).seed,
            final(self).bridge_mode == old(self).bridge_mode,
    {
        match self.find_index(conn_id) {
            Some(pos) => {
                let ghost p0 = self.players@;
                let player = self.players.remove(pos);
                assert(seats(self.players@) =~= seats(p0).remove(pos as int));
                let names = remove_text(&self.nicknames, player.nickname.as_str());
                self.nicknames = names;
                Some(player)
            },
            None => None,
        }
    }

    fn find_index(&self, conn_id: ConnectionId) -> (r: Option<usize>)
        ensures
            r is Some <==> seat_of_conn_from(self.players@, conn_id, 0) is Some,
            r is Some ==> r->0 as nat == seat_of_conn_from(self.players@, conn_id, 0)->0 && r->0
                < self.players@.len(),
    {
        let mut i: usize = 0;
        while i < self.players.len()
            invariant
                i <= self.players@.len(),
                seat_of_conn_from(self.players@, conn_id, 0) == seat_of_conn_from(
                    self.players@,
                    conn_id,
                    i as nat,
                ),
            decreases self.players.len() - i,
        {
            if self.players[i].conn_id == conn_id {
                return Some(i);
            }
            i += 1;
        }
        None
    }

    /// Whether the room is not over-filled.
    pub fn fits(&self) -> (r: bool)
        ensures
            r == self.within_capacity(),
    {
        if self.bridge_mode {
            self.human_count() <= REQUIRED_HUMANS
        } else {
            self.players.len() <= MAX_PLAYERS
        }
    }

    /// Seats still missing (Bridge Mode: Humans; classic: any seats).
    pub fn players_needed(&self) -> (r: u32)
        requires
            self.within_capacity(),
        ensures
            r == self.needed(),
    {
        if self.bridge_mode {
            (REQUIRED_HUMANS - self.human_count()) as u32
        } else {
            (MAX_PLAYERS - self.players.len()) as u32
        }
    }

    /// Whether a game may start (Bridge Mode: two Humans; classic: four seats, one Human).
    pub fn can_start(&self) -> (r: bool)
        ensures
            r == self.startable(),
    {
        if self.bridge_mode {
            return self.human_count() >= REQUIRED_HUMANS;
        }
        if self.players.len() != MAX_PLAYERS {
            return false;
        }
        let mut i: usize = 0;
        while i < self.players.len()
            invariant
                i <= self.players@.len(),
                self.players@.len() == MAX_PLAYERS,
                !self.bridge_mode,
                forall|k: int| 0 <= k < i ==> self.players@[k].role != Role::Human,
            decreases self.players.len() - i,
        {
            if self.players[i].role == Role::Human {
                assert(self.players@[i as int].role == Role::Human);
                return true;
            }
            i += 1;
        }
        false
    }

    /// Classic mode: the first two seats join the Human team, the others the AI team.
    /// Bridge Mode rooms already have their teams.
    pub fn assign_teams(&mut self)
        ensures
            final(self).players@.len() == old(self).players@.len(),
            forall|i: int|
                0 <= i < old(self).players@.len() ==> {
                    &&& (#[trigger] final(self).players@[i]).conn_id == old(self).players@[i].conn_id
                    &&& final(self).players@[i].player_id == old(self).players@[i].player_id
                    &&& final(self).players@[i].nickname == old(self).players@[i].nickname
                    &&& final(self).players@[i].role == old(self).players@[i].role
                    &&& final(self).players@[i].team == if old(self).bridge_mode {
                        old(self).players@[i].team
                    } else if i < 2 {
                        Some(Team::Human)
                    } else {
                        Some(Team::Ai)
                    }
                },
            final(self).id == old(self).id,
            final(self).state == old(self).state,
            final(self).seed == old(self).seed,
            final(self).nicknames == old(self).nicknames,
            final(self).bridge_mode == old(self).bridge_mode,
    {
        if self.bridge_mode {
            return;
        }
        let mut i: usize = 0;
        while i < self.players.len()
            invariant
                i <= self.players@.len(),
                self.players@.len() == old(self).players@.len(),
                !old(self).bridge_mode,
                forall|k: int|
                    0 <= k < old(self).players@.len() ==> {
                        &&& (#[trigger] self.players@[k]).conn_id == old(self).players@[k].conn_id
                        &&& self.players@[k].player_id == old(self).players@[k].player_id
                        &&& self.players@[k].nickname == old(self).players@[k].nickname
                        &&& self.players@[k].role == old(self).players@[k].role
                        &&& self.players@[k].team == if k >= i {
                            old(self).players@[k].team
                        } else if k < 2 {
                            Some(Team::Human)
                        } else {
                            Some(Team::Ai)
                        }
                    },
                self.id == old(self).id,
                self.state == old(self).state,
                self.seed == old(self).seed,
                self.nicknames == old(self).nicknames,
                self.bridge_mode == old(self).bridge_mode,
            decreases self.players.len() - i,
        {
            self.players[i].team = Some(
                if i < 2 {
                    Team::Human
                } else {
                    Team::Ai
                },
            );
            i += 1;
        }
    }

    /// The seats as shown to clients.
    fn player_infos(&self) -> (r: Vec<PlayerInfo>)
        ensures
            infos_view(r@) == seat_infos(self.players@),
    {
        let mut r: Vec<PlayerInfo> = Vec::new();
        let mut i: usize = 0;
        while i < self.players.len()
            invariant
                i <= self.players@.len(),
                infos_view(r@) == seat_infos(self.players@.subrange(0, i as int)),
            decreases self.players.len() - i,
        {
            let ghost before = r@;
            let info = self.players[i].to_player_info();
            r.push(info);
            proof {
                assert(infos_view(r@) =~= infos_view(before).push(info@));
                assert(seat_infos(self.players@.subrange(0, i + 1)) =~= seat_infos(
                    self.players@.subrange(0, i as int),
                ).push(info@));
            }
            i += 1;
        }
        assert(self.players@.subrange(0, self.players@.len() as int) =~= self.players@);
        r
    }

    /// The ROOM_WAIT message.
    pub fn room_wait_message(&self) -> (m: ServerMessage)
        requires
            self.within_capacity(),
        ensures
            match m {
                ServerMessage::RoomWait { room, players, need } => {
                    &&& room@ == self.id@
                    &&& infos_view(players@) == seat_infos(self.players@)
                    &&& need == self.needed()
                },
                _ => false,
            },
    {
        ServerMessage::RoomWait { room: self.id.clone(), players: self.player_infos(), need: self.players_needed() }
    }

    /// The ROOM_START message.
    pub fn room_start_message(&self) -> (m: ServerMessage)
        ensures
            match m {
                ServerMessage::RoomStart { room, players, seed } => {
                    &&& room@ == self.id@
                    &&& infos_view(players@) == seat_infos(self.players@)
                    &&& seed == self.seed
                },
                _ => false,
            },
    {
        ServerMessage::RoomStart { room: self.id.clone(), players: self.player_infos(), seed: self.seed }
    }

    /// The connections of all seats, in seat order.
    pub fn conn_ids(&self) -> (r: Vec<ConnectionId>)
        ensures
            r@ == self.players@.map_values(|p: Player| p.conn_id),
    {
        let mut r: Vec<ConnectionId> = Vec::new();
        let mut i: usize = 0;
        while i < self.players.len()
            invariant
                i <= self.players@.len(),
                r@ == self.players@.subrange(0, i as int).map_values(|p: Player| p.conn_id),
            decreases self.players.len() - i,
        {
            r.push(self.players[i].conn_id);
            i += 1;
            assert(r@ =~= self.players@.subrange(0, i as int).map_values(|p: Player| p.conn_id));
        }
        assert(self.players@.subrange(0, self.players@.len() as int) =~= self.players@);
        r
    }

    /// The connections of the seats that are not built-in AI seats.
    pub fn real_conn_ids(&self) -> (r: Vec<ConnectionId>)
        ensures
            r@ == real_conns(self.players@),
    {
        let mut r: Vec<ConnectionId> = Vec::new();
        let mut i: usize = 0;
        while i < self.players.len()
            invariant
                i <= self.players@.len(),
                r@ == real_conns(self.players@.subrange(0, i as int)),
            decreases self.players.len() - i,
        {
            if !Room::is_virtual_conn(self.players[i].conn_id) {
                r.push(self.players[i].conn_id);
            }
            i += 1;
            assert(self.players@.subrange(0, i as int).drop_last() =~= self.players@.subrange(0, i - 1));
        }
        assert(self.players@.subrange(0, self.players@.len() as int) =~= self.players@);
        r
    }

    /// Whether `conn_id` stands for a built-in AI seat.
    pub fn is_virtual_conn(conn_id: ConnectionId) -> (r: bool)
        ensures
            r == is_virtual(conn_id),
    {
        conn_id == AI_VIRTUAL_CONN_ID_1 || conn_id == AI_VIRTUAL_CONN_ID_2
    }

    /// Whether `player_id` is one of the built-in AI seat ids, P3 or P4.
    pub fn is_builtin_ai(&self, player_id: &str) -> (r: bool)
        ensures
            r == (player_id@ == "P3"@ || player_id@ == "P4"@),
    {
        str_eq(player_id, "P3") || str_eq(player_id, "P4")
    }

    /// The first seat held by `conn_id`.
    pub fn find_player(&self, conn_id: ConnectionId) -> (r: Option<&Player>)
        ensures
            match seat_of_conn_from(self.players@, conn_id, 0) {
                Some(i) => r is Some && *r->0 == self.players@[i as int],
                None => r is None,
            },
    {
        match self.find_index(conn_id) {
            Some(i) => Some(&self.players[i]),
            None => None,
        }
    }

    /// The first seat with seat id `player_id`.
    pub fn find_player_by_id(&self, player_id: &str) -> (r: Option<&Player>)
        ensures
            match seat_of_id_from(self.players@, player_id@, 0) {
                Some(i) => r is Some && *r->0 == self.players@[i as int],
                None => r is None,
            },
    {
        let mut i: usize = 0;
        while i < self.players.len()
            invariant
                i <= self.players@.len(),
                seat_of_id_from(self.players@, player_id@, 0) == seat_of_id_from(
                    self.players@,
                    player_id@,
                    i as nat,
                ),
            decreases self.players.len() - i,
        {
            if str_eq(self.players[i].player_id.as_str(), player_id) {
                return Some(&self.players[i]);
            }
            i += 1;
        }
        None
    }

    /// Bridge Mode reset: every Human seat leaves, the AI seats stay, only the
    /// "AI_" nicknames stay reserved, the room waits again with a fresh seed.
    /// Returns the connections of the Humans removed. Does nothing in classic mode.
    pub fn reset_for_bridge_mode(&mut self) -> (r: Vec<ConnectionId>)
        ensures
            !old(self).bridge_mode ==> r@.len() == 0 && seats(final(self).players@) == seats(old(self).players@)
                && final(self).nicknames == old(self).nicknames && final(self).state == old(self).state
                && final(self).seed == old(self).seed,
            old(self).bridge_mode ==> {
                &&& r@ == human_conns(old(self).players@)
                &&& seats(final(self).players@) == seats(ai_seats(old(self).players@))
                &&& texts(final(self).nicknames@) == ai_names(texts(old(self).nicknames@))
                &&& final(self).state == RoomState::Waiting
                &&& final(self).seed != old(self).seed
                &&& is_bridge_reset(*old(self), *final(self))
            },
            final(self).id == old(self).id,
            final(self).bridge_mode == old(self).bridge_mode,
    {
        if !self.bridge_mode {
            return Vec::new();
        }
        let mut human_conn_ids: Vec<ConnectionId> = Vec::new();
        let mut kept: Vec<Player> = Vec::new();
        let mut i: usize = 0;
        while i < self.players.len()
            invariant
                i <= self.players@.len(),
                human_conn_ids@ == human_conns(self.players@.subrange(0, i as int)),
                seats(kept@) == seats(ai_seats(self.players@.subrange(0, i as int))),
            decreases self.players.len() - i,
        {
            let ghost k0 = kept@;
            if self.players[i].role == Role::Human {
                human_conn_ids.push(self.players[i].conn_id);
            } else {
                let p = self.players[i].copy();
                kept.push(p);
                assert(seats(kept@) =~= seats(k0).push(p@));
            }
            proof {
                let sub = self.players@.subrange(0, i + 1);
                assert(sub.drop_last() =~= self.players@.subrange(0, i as int));
                assert(seats(ai_seats(sub)) =~= if self.players@[i as int].role == Role::Ai {
                    seats(ai_seats(self.players@.subrange(0, i as int))).push(self.players@[i as int]@)
                } else {
                    seats(ai_seats(self.players@.subrange(0, i as int)))
                });
            }
            i += 1;
        }
        assert(self.players@.subrange(0, self.players@.len() as int) =~= self.players@);
        let mut names: Vec<String> = Vec::new();
        let mut j: usize = 0;
        while j < self.nicknames.len()
            invariant
                j <= self.nicknames@.len(),
                texts(names@) == ai_names(texts(self.nicknames@.subrange(0, j as int))),
            decreases self.nicknames.len() - j,
        {
            let ghost n0 = names@;
            let keep = has_prefix(self.nicknames[j].as_str(), "AI_");
            proof {
                reveal_strlit("AI_");
                let sub = texts(self.nicknames@.subrange(0, j + 1));
                assert(sub.drop_last() =~= texts(self.nicknames@.subrange(0, j as int)));
                assert(sub.last() == self.nicknames@[j as int]@);
            }
            if keep {
                let n = self.nicknames[j].clone();
                names.push(n);
                assert(texts(names@) =~= texts(n0).push(n@));
            }
            j += 1;
        }
        assert(self.nicknames@.subrange(0, self.nicknames@.len() as int) =~= self.nicknames@);
        self.players = kept;
        self.nicknames = names;
        self.state = RoomState::Waiting;
        let fresh = generate_seed();
        self.seed = if fresh == self.seed {
            fresh.wrapping_add(1)
        } else {
            fresh
        };
        human_conn_ids
    }
}

/// `v` without the entries equal to `t`.
fn remove_text(v: &Vec<String>, t: &str) -> (r: Vec<String>)
    ensures
        texts(r@) == without_text(texts(v@), t@),
{
    let mut r: Vec<String> = Vec::new();
    let mut i: usize = 0;
    while i < v.len()
        invariant
            i <= v@.len(),
            texts(r@) == without_text(texts(v@.subrange(0, i as int)), t@),
        decreases v.len() - i,
    {
        let ghost r0 = r@;
        let same = str_eq(v[i].as_str(), t);
        proof {
            let sub = texts(v@.subrange(0, i + 1));
            assert(sub.drop_last() =~= texts(v@.subrange(0, i as int)));
            assert(sub.last() == v@[i as int]@);
        }
        if !same {
            let s = v[i].clone();
            r.push(s);
            assert(texts(r@) =~= texts(r0).push(s@));
        }
        i += 1;
    }
    assert(v@.subrange(0, v@.len() as int) =~= v@);
    r
}

/// Two seat lists with the same views hold as many Humans.
pub proof fn lemma_humans_by_view(a: Seq<Player>, b: Seq<Player>)
    requires
        seats(a) == seats(b),
    ensures
        humans(a) == humans(b),
    decreases a.len(),
{
    assert(a.len() == seats(a).len());
    assert(b.len() == seats(b).len());
    if a.len() > 0 {
        assert forall|k: int| 0 <= k < a.len() - 1 implies seats(a.drop_last())[k] == seats(b.drop_last())[k] by {
            assert(seats(a)[k] == seats(b)[k]);
        }
        assert(seats(a.drop_last()) =~= seats(b.drop_last()));
        lemma_humans_by_view(a.drop_last(), b.drop_last());
        assert(seats(a)[a.len() - 1] == seats(b)[b.len() - 1]);
    }
}

/// The AI seats of a list hold no Human.
pub proof fn lemma_ai_seats_roles(players: Seq<Player>)
    ensures
        humans(ai_seats(players)) == 0,
        forall|i: int| 0 <= i < ai_seats(players).len() ==> (#[trigger] ai_seats(players)[i]).role == Role::Ai,
    decreases players.len(),
{
    if players.len() > 0 {
        lemma_ai_seats_roles(players.drop_last());
        let r = ai_seats(players.drop_last());
        if players.last().role == Role::Ai {
            assert(r.push(players.last()).drop_last() =~= r);
        }
    }
}

/// What a Bridge Mode reset leaves of `before`: its AI seats alone, the "AI_"
/// nicknames, the Waiting state and a seed other than the old one.
pub open spec fn is_bridge_reset(before: Room, after: Room) -> bool {
    &&& seats(after.players@) == seats(ai_seats(before.players@))
    &&& texts(after.nicknames@) == ai_names(texts(before.nicknames@))
    &&& after.state == RoomState::Waiting
    &&& after.seed != before.seed
    &&& after.id == before.id
    &&& after.bridge_mode == before.bridge_mode
}

/// Bridge reset: a Bridge Mode room reset in the middle of a game keeps its two
/// AI seats and nothing else, so it has two seats, both AI, no Human, waits, and
/// deals from a new seed.
/// `before` holds exactly the two built-in AI seats besides its Humans; `after` is
/// what `reset_for_bridge_mode` leaves.
pub proof fn lemma_bridge_reset(before: Room, after: Room)
    requires
        before.bridge_mode,
        before.state == RoomState::Playing,
        ai_seats(before.players@).len() == 2,
        is_bridge_reset(before, after),
    ensures
        after.players@.len() == 2,
        humans(after.players@) == 0,
        forall|i: int| 0 <= i < after.players@.len() ==> (#[trigger] after.players@[i]).role == Role::Ai,
        after.state == RoomState::Waiting,
        after.seed != before.seed,
{
    lemma_ai_seats_roles(before.players@);
    lemma_humans_by_view(after.players@, ai_seats(before.players@));
    assert(after.players@.len() == seats(after.players@).len());
    assert forall|i: int| 0 <= i < after.players@.len() implies (#[trigger] after.players@[i]).role == Role::Ai by {
        assert(seats(after.players@)[i] == seats(ai_seats(before.players@))[i]);
    }
}

/// The id of the `n`-th room: "R" and the number in at least three digits.
pub open spec fn room_name(n: u32) -> Seq<char> {
    seq!['R'] + pad_zeros(decimal(n as nat), 3)
}

/// A room open for joining: waiting and not full.
pub open spec fn is_open(r: Room) -> bool {
    r.state == RoomState::Waiting && !r.full()
}

/// First open room at or after `i`.
pub open spec fn open_room_from(rooms: Seq<Room>, i: nat) -> Option<nat>
    decreases rooms.len() - i,
{
    if i >= rooms.len() {
        None
    } else if is_open(rooms[i as int]) {
        Some(i)
    } else {
        open_room_from(rooms, i + 1)
    }
}

/// First room with id `id` at or after `i`.
pub open spec fn room_from(rooms: Seq<Room>, id: Seq<char>, i: nat) -> Option<nat>
    decreases rooms.len() - i,
{
    if i >= rooms.len() {
        None
    } else if rooms[i as int].id@ == id {
        Some(i)
    } else {
        room_from(rooms, id, i + 1)
    }
}

/// First link of connection `conn` at or after `i`.
pub open spec fn link_from(links: Seq<(ConnectionId, Seq<char>)>, conn: ConnectionId, i: nat) -> Option<nat>
    decreases links.len() - i,
{
    if i >= links.len() {
        None
    } else if links[i as int].0 == conn {
        Some(i)
    } else {
        link_from(links, conn, i + 1)
    }
}

/// A room as created for the `n`-th slot of a manager.
pub open spec fn is_new_room(r: Room, n: u32, bridge: bool) -> bool {
    &&& r.id@ == room_name(n)
    &&& r.state == RoomState::Waiting
    &&& r.bridge_mode == bridge
    &&& bridge ==> r.is_fresh_bridge()
    &&& !bridge ==> r.players@.len() == 0 && r.nicknames@.len() == 0
}

proof fn lemma_link_from_bound(links: Seq<(ConnectionId, Seq<char>)>, conn: ConnectionId, i: nat)
    ensures
        link_from(links, conn, i) is Some ==> i <= link_from(links, conn, i)->0 < links.len()
            && links[link_from(links, conn, i)->0 as int].0 == conn,
    decreases links.len() - i,
{
    if i < links.len() && links[i as int].0 != conn {
        lemma_link_from_bound(links, conn, i + 1);
    }
}

proof fn lemma_room_from_bound(rooms: Seq<Room>, id: Seq<char>, i: nat)
    ensures
        room_from(rooms, id, i) is Some ==> i <= room_from(rooms, id, i)->0 < rooms.len()
            && rooms[room_from(rooms, id, i)->0 as int].id@ == id,
    decreases rooms.len() - i,
{
    if i < rooms.len() && rooms[i as int].id@ != id {
        lemma_room_from_bound(rooms, id, i + 1);
    }
}

proof fn lemma_open_room_from_bound(rooms: Seq<Room>, i: nat)
    ensures
        open_room_from(rooms, i) is Some ==> i <= open_room_from(rooms, i)->0 < rooms.len()
            && is_open(rooms[open_room_from(rooms, i)->0 as int]),
    decreases rooms.len() - i,
{
    if i < rooms.len() && !is_open(rooms[i as int]) {
        lemma_open_room_from_bound(rooms, i + 1);
    }
}

/// The name of a room state.
pub open spec fn state_name(s: RoomState) -> Seq<char> {
    match s {
        RoomState::Waiting => "Waiting"@,
        RoomState::Playing => "Playing"@,
        RoomState::Finished => "Finished"@,
    }
}

/// The name of a role.
pub open spec fn role_name(r: Role) -> Seq<char> {
    match r {
        Role::Human => "Human"@,
        Role::Ai => "Ai"@,
    }
}

/// The seats of a room, each with the room's id.
pub open spec fn room_seats(room: Room) -> Seq<(Seq<char>, Player)> {
    room.players@.map_values(|p: Player| (room.id@, p))
}

/// The seats of all rooms, each with its room's id, rooms in order.
pub open spec fn all_seats(rooms: Seq<Room>) -> Seq<(Seq<char>, Player)>
    decreases rooms.len(),
{
    if rooms.len() == 0 {
        seq![]
    } else {
        all_seats(rooms.drop_last()) + room_seats(rooms.last())
    }
}

/// First position at or after `k` of a seat with id `id`.
pub open spec fn first_seat_with_id(v: Seq<(Seq<char>, Player)>, id: Seq<char>, k: nat) -> Option<nat>
    decreases v.len() - k,
{
    if k >= v.len() {
        None
    } else if v[k as int].1.player_id@ == id {
        Some(k)
    } else {
        first_seat_with_id(v, id, k + 1)
    }
}

proof fn lemma_all_seats_split(rooms: Seq<Room>, i: int)
    requires
        0 <= i <= rooms.len(),
    ensures
        all_seats(rooms) == all_seats(rooms.subrange(0, i)) + all_seats(rooms.subrange(i, rooms.len() as int)),
    decreases rooms.len(),
{
    if rooms.len() == 0 {
        assert(rooms.subrange(0, i) =~= rooms);
        assert(all_seats(rooms.subrange(i, rooms.len() as int)) =~= seq![]);
    } else if i == rooms.len() {
        assert(rooms.subrange(0, i) =~= rooms);
        assert(rooms.subrange(i, rooms.len() as int) =~= seq![]);
        assert(all_seats(rooms) + seq![] =~= all_seats(rooms));
    } else {
        lemma_all_seats_split(rooms.drop_last(), i);
        assert(rooms.drop_last().subrange(0, i) =~= rooms.subrange(0, i));
        let tail = rooms.subrange(i, rooms.len() as int);
        assert(tail.drop_last() =~= rooms.drop_last().subrange(i, rooms.len() - 1));
        assert(tail.last() == rooms.last());
        assert(all_seats(tail) == all_seats(tail.drop_last()) + room_seats(tail.last()));
        assert((all_seats(rooms.subrange(0, i)) + all_seats(tail.drop_last())) + room_seats(rooms.last())
            =~= all_seats(rooms.subrange(0, i)) + (all_seats(tail.drop_last()) + room_seats(rooms.last())));
    }
}

/// Finds or creates rooms and tracks which room each connection joined.
/// Rooms are kept in creation order.
pub struct RoomManager {
    pub rooms: Vec<Room>,
    pub conn_to_room: Vec<(ConnectionId, RoomId)>,
    pub next_room_id: u32,
    pub bridge_mode: bool,
}

impl RoomManager {
    /// The rooms, in creation order.
    pub open spec fn room_list(&self) -> Seq<Room> {
        self.rooms@
    }

    /// Which room each connection joined (one link per connection).
    pub open spec fn links(&self) -> Seq<(ConnectionId, Seq<char>)> {
        self.conn_to_room@.map_values(|e: (ConnectionId, RoomId)| (e.0, e.1@))
    }

    /// The number the next room will get.
    pub open spec fn counter(&self) -> u32 {
        self.next_room_id
    }

    /// The index of the room that connection `conn` joined, if that room exists.
    pub open spec fn room_of_conn(&self, conn: ConnectionId) -> Option<nat> {
        match link_from(self.links(), conn, 0) {
            Some(k) => room_from(self.room_list(), self.links()[k as int].1, 0),
            None => None,
        }
    }

    /// A Bridge Mode manager with no rooms.
    pub fn new() -> (m: RoomManager)
        ensures
            m.room_list().len() == 0,
            m.links().len() == 0,
            m.counter() == 1,
            m.bridge_mode,
    {
        RoomManager { rooms: Vec::new(), conn_to_room: Vec::new(), next_room_id: 1, bridge_mode: true }
    }

    /// A classic manager with no rooms.
    pub fn new_classic() -> (m: RoomManager)
        ensures
            m.room_list().len() == 0,
            m.links().len() == 0,
            m.counter() == 1,
            !m.bridge_mode,
    {
        RoomManager { rooms: Vec::new(), conn_to_room: Vec::new(), next_room_id: 1, bridge_mode: false }
    }

    /// Index of the first room open for joining; creates one ("R001", "R002", ...,
    /// pre-seeded with the AI seats in Bridge Mode) when there is none.
    pub fn waiting_room_index(&mut self) -> (i: usize)
        requires
            old(self).counter() < u32::MAX,
        ensures
            i < final(self).room_list().len(),
            !final(self).room_list()[i as int].full(),
            final(self).room_list()[i as int].state == RoomState::Waiting,
            final(self).links() == old(self).links(),
            final(self).bridge_mode == old(self).bridge_mode,
            match open_room_from(old(self).room_list(), 0) {
                Some(k) => {
                    &&& i == k
                    &&& final(self).room_list() == old(self).room_list()
                    &&& final(self).counter() == old(self).counter()
                },
                None => {
                    &&& i == old(self).room_list().len()
                    &&& final(self).room_list().drop_last() == old(self).room_list()
                    &&& is_new_room(final(self).room_list()[i as int], old(self).counter(), old(self).bridge_mode)
                    &&& final(self).counter() == old(self).counter() + 1
                },
            },
    {
        proof {
            lemma_open_room_from_bound(self.rooms@, 0);
        }
        let mut k: usize = 0;
        while k < self.rooms.len()
            invariant
                k <= self.rooms@.len(),
                open_room_from(self.rooms@, 0) == open_room_from(self.rooms@, k as nat),
            decreases self.rooms.len() - k,
        {
            if self.rooms[k].state == RoomState::Waiting && !self.rooms[k].is_full() {
                return k;
            }
            k += 1;
        }
        let mut room_id = String::new();
        push_char(&mut room_id, 'R');
        push_decimal_zero_padded(&mut room_id, self.next_room_id as u64, 3);
        assert(room_id@ =~= room_name(self.next_room_id));
        self.next_room_id = self.next_room_id + 1;
        let room = if self.bridge_mode {
            Room::new_bridge_mode(room_id.as_str())
        } else {
            Room::new(room_id.as_str())
        };
        let ghost before = self.rooms@;
        self.rooms.push(room);
        assert(self.rooms@.drop_last() =~= before);
        self.rooms.len() - 1
    }

    /// The first room open for joining, created when there is none.
    pub fn get_or_create_waiting_room(&mut self) -> (r: &mut Room)
        requires
            old(self).counter() < u32::MAX,
        ensures
            match open_room_from(old(self).room_list(), 0) {
                Some(k) => {
                    &&& *r == old(self).room_list()[k as int]
                    &&& final(self).room_list() == old(self).room_list().update(k as int, *final(r))
                    &&& final(self).counter() == old(self).counter()
                },
                None => {
                    &&& is_new_room(*r, old(self).counter(), old(self).bridge_mode)
                    &&& final(self).room_list() == old(self).room_list().push(*final(r))
                    &&& final(self).counter() == old(self).counter() + 1
                },
            },
            !r.full(),
            r.state == RoomState::Waiting,
            final(self).links() == old(self).links(),
            final(self).bridge_mode == old(self).bridge_mode,
    {
        let i = self.waiting_room_index();
        proof {
            if open_room_from(old(self).room_list(), 0) is None {
                assert(self.rooms@ =~= old(self).room_list().push(self.rooms@[i as int]));
            }
        }
        &mut self.rooms[i]
    }

    fn link_index(&self, conn_id: ConnectionId) -> (r: Option<usize>)
        ensures
            r is Some <==> link_from(self.links(), conn_id, 0) is Some,
            r is Some ==> r->0 as nat == link_from(self.links(), conn_id, 0)->0 && r->0
                < self.conn_to_room@.len(),
    {
        proof {
            lemma_link_from_bound(self.links(), conn_id, 0);
        }
        let mut i: usize = 0;
        while i < self.conn_to_room.len()
            invariant
                i <= self.conn_to_room@.len(),
                link_from(self.links(), conn_id, 0) == link_from(self.links(), conn_id, i as nat),
            decreases self.conn_to_room.len() - i,
        {
            if self.conn_to_room[i].0 == conn_id {
                assert(self.links()[i as int].0 == conn_id);
                return Some(i);
            }
            assert(self.links()[i as int].0 != conn_id);
            i += 1;
        }
        None
    }

    /// Index of the first room with id `room_id`.
    pub fn room_index(&self, room_id: &str) -> (r: Option<usize>)
        ensures
            r is Some <==> room_from(self.room_list(), room_id@, 0) is Some,
            r is Some ==> r->0 as nat == room_from(self.room_list(), room_id@, 0)->0 && r->0
                < self.room_list().len(),
    {
        proof {
            lemma_room_from_bound(self.rooms@, room_id@, 0);
        }
        let mut i: usize = 0;
        while i < self.rooms.len()
            invariant
                i <= self.rooms@.len(),
                room_from(self.rooms@, room_id@, 0) == room_from(self.rooms@, room_id@, i as nat),
            decreases self.rooms.len() - i,
        {
            if str_eq(self.rooms[i].id.as_str(), room_id) {
                return Some(i);
            }
            i += 1;
        }
        None
    }

    /// Records that `conn_id` joined room `room_id` (replacing an earlier link).
    pub fn associate_conn(&mut self, conn_id: ConnectionId, room_id: &str)
        ensures
            final(self).links() == match link_from(old(self).links(), conn_id, 0) {
                Some(k) => old(self).links().update(k as int, (conn_id, room_id@)),
                None => old(self).links().push((conn_id, room_id@)),
            },
            final(self).room_list() == old(self).room_list(),
            final(self).counter() == old(self).counter(),
            final(self).bridge_mode == old(self).bridge_mode,
    {
        let ghost before = self.conn_to_room@;
        match self.link_index(conn_id) {
            Some(k) => {
                self.conn_to_room.set(k, (conn_id, string_from(room_id)));
                assert(self.links() =~= old(self).links().update(k as int, (conn_id, room_id@)));
            },
            None => {
                self.conn_to_room.push((conn_id, string_from(room_id)));
                assert(self.links() =~= old(self).links().push((conn_id, room_id@)));
            },
        }
    }

    /// The room that `conn_id` joined.
    pub fn get_room_for_conn(&self, conn_id: ConnectionId) -> (r: Option<&Room>)
        ensures
            match self.room_of_conn(conn_id) {
                Some(i) => r is Some && *r->0 == self.room_list()[i as int],
                None => r is None,
            },
    {
        match self.link_index(conn_id) {
            Some(k) => match self.room_index(self.conn_to_room[k].1.as_str()) {
                Some(i) => Some(&self.rooms[i]),
                None => None,
            },
            None => None,
        }
    }

    /// The room that `conn_id` joined, for changes.
    pub fn get_room_for_conn_mut(&mut self, conn_id: ConnectionId) -> (r: Option<&mut Room>)
        ensures
            match old(self).room_of_conn(conn_id) {
                Some(i) => {
                    &&& r is Some
                    &&& *r->0 == old(self).room_list()[i as int]
                    &&& final(self).room_list() == old(self).room_list().update(i as int, *final(r->0))
                },
                None => r is None && final(self).room_list() == old(self).room_list(),
            },
            final(self).links() == old(self).links(),
            final(self).counter() == old(self).counter(),
            final(self).bridge_mode == old(self).bridge_mode,
    {
        match self.link_index(conn_id) {
            Some(k) => {
                let idx = self.room_index(self.conn_to_room[k].1.as_str());
                match idx {
                    Some(i) => Some(&mut self.rooms[i]),
                    None => None,
                }
            },
            None => None,
        }
    }

    /// Forgets the link of `conn_id` and frees its seat in the linked room.
    pub fn handle_disconnect(&mut self, conn_id: ConnectionId) -> (r: Option<Player>)
        ensures
            final(self).counter() == old(self).counter(),
            final(self).bridge_mode == old(self).bridge_mode,
            final(self).room_list().len() == old(self).room_list().len(),
            match link_from(old(self).links(), conn_id, 0) {
                Some(k) => final(self).links() == old(self).links().remove(k as int),
                None => final(self).links() == old(self).links() && r is None,
            },
            match old(self).room_of_conn(conn_id) {
                Some(i) => {
                    &&& final(self).room_list() == old(self).room_list().update(i as int, final(self).room_list()[i as int])
                    &&& seat_removed(old(self).room_list()[i as int], final(self).room_list()[i as int], conn_id, r)
                },
                None => r is None && final(self).room_list() == old(self).room_list(),
            },
    {
        match self.link_index(conn_id) {
            Some(k) => {
                let (_, room_id) = self.conn_to_room.remove(k);
                assert(self.links() =~= old(self).links().remove(k as int));
                match self.room_index(room_id.as_str()) {
                    Some(i) => {
                        let r = self.rooms[i].remove_player(conn_id);
                        assert(self.rooms@ =~= old(self).rooms@.update(i as int, self.rooms@[i as int]));
                        r
                    },
                    None => None,
                }
            },
            None => None,
        }
    }

    /// The first room with id `room_id`.
    pub fn get_room(&self, room_id: &str) -> (r: Option<&Room>)
        ensures
            match room_from(self.room_list(), room_id@, 0) {
                Some(i) => r is Some && *r->0 == self.room_list()[i as int],
                None => r is None,
            },
    {
        match self.room_index(room_id) {
            Some(i) => Some(&self.rooms[i]),
            None => None,
        }
    }

    /// The first room with id `room_id`, for changes.
    pub fn get_room_mut(&mut self, room_id: &str) -> (r: Option<&mut Room>)
        ensures
            match room_from(old(self).room_list(), room_id@, 0) {
                Some(i) => {
                    &&& r is Some
                    &&& *r->0 == old(self).room_list()[i as int]
                    &&& final(self).room_list() == old(self).room_list().update(i as int, *final(r->0))
                },
                None => r is None && final(self).room_list() == old(self).room_list(),
            },
            final(self).links() == old(self).links(),
            final(self).counter() == old(self).counter(),
            final(self).bridge_mode == old(self).bridge_mode,
    {
        match self.room_index(room_id) {
            Some(i) => Some(&mut self.rooms[i]),
            None => None,
        }
    }

    /// Number of rooms.
    pub fn rooms_count(&self) -> (r: usize)
        ensures
            r == self.room_list().len(),
    {
        self.rooms.len()
    }

    /// The room at position `i` of the creation order.
    pub fn room_at(&self, i: usize) -> (r: &Room)
        requires
            i < self.room_list().len(),
        ensures
            *r == self.room_list()[i as int],
    {
        &self.rooms[i]
    }

    /// The room at position `i` of the creation order, for changes.
    pub fn room_at_mut(&mut self, i: usize) -> (r: &mut Room)
        requires
            i < old(self).room_list().len(),
        ensures
            *r == old(self).room_list()[i as int],
            final(self).room_list() == old(self).room_list().update(i as int, *final(r)),
            final(self).links() == old(self).links(),
            final(self).counter() == old(self).counter(),
            final(self).bridge_mode == old(self).bridge_mode,
    {
        &mut self.rooms[i]
    }

    /// Forgets the link of `conn_id`, if any.
    pub fn unlink_conn(&mut self, conn_id: ConnectionId)
        ensures
            final(self).links() == match link_from(old(self).links(), conn_id, 0) {
                Some(k) => old(self).links().remove(k as int),
                None => old(self).links(),
            },
            final(self).room_list() == old(self).room_list(),
            final(self).counter() == old(self).counter(),
            final(self).bridge_mode == old(self).bridge_mode,
    {
        if let Some(k) = self.link_index(conn_id) {
            self.conn_to_room.remove(k);
            assert(self.links() =~= old(self).links().remove(k as int));
        }
    }

    /// Every room as (id, state name, seats, Human seats), in creation order.
    pub fn get_all_rooms_info(&self) -> (r: Vec<(String, String, usize, usize)>)
        ensures
            r@.len() == self.room_list().len(),
            forall|i: int|
                0 <= i < r@.len() ==> {
                    &&& (#[trigger] r@[i]).0@ == self.room_list()[i].id@
                    &&& r@[i].1@ == state_name(self.room_list()[i].state)
                    &&& r@[i].2 == self.room_list()[i].players@.len()
                    &&& r@[i].3 == humans(self.room_list()[i].players@)
                },
    {
        let mut r: Vec<(String, String, usize, usize)> = Vec::new();
        let mut i: usize = 0;
        while i < self.rooms.len()
            invariant
                i <= self.rooms@.len(),
                r@.len() == i,
                forall|k: int|
                    0 <= k < i ==> {
                        &&& (#[trigger] r@[k]).0@ == self.rooms@[k].id@
                        &&& r@[k].1@ == state_name(self.rooms@[k].state)
                        &&& r@[k].2 == self.rooms@[k].players@.len()
                        &&& r@[k].3 == humans(self.rooms@[k].players@)
                    },
            decreases self.rooms.len() - i,
        {
            let room = &self.rooms[i];
            let name = match room.state {
                RoomState::Waiting => string_from("Waiting"),
                RoomState::Playing => string_from("Playing"),
                RoomState::Finished => string_from("Finished"),
            };
            r.push((room.id.clone(), name, room.players.len(), room.human_count()));
            i += 1;
        }
        r
    }

    /// Every seat of every room as (seat id, nickname, room id, role name, is AI),
    /// rooms in creation order, seats in seat order.
    pub fn get_all_players_info(&self) -> (r: Vec<(String, String, String, String, bool)>)
        ensures
            r@.len() == all_seats(self.room_list()).len(),
            forall|i: int|
                0 <= i < r@.len() ==> {
                    let (room, p) = all_seats(self.room_list())[i];
                    &&& (#[trigger] r@[i]).0@ == p.player_id@
                    &&& r@[i].1@ == p.nickname@
                    &&& r@[i].2@ == room
                    &&& r@[i].3@ == role_name(p.role)
                    &&& r@[i].4 == (p.role == Role::Ai)
                },
    {
        let mut r: Vec<(String, String, String, String, bool)> = Vec::new();
        let mut i: usize = 0;
        while i < self.rooms.len()
            invariant
                i <= self.rooms@.len(),
                r@.len() == all_seats(self.rooms@.subrange(0, i as int)).len(),
                forall|k: int|
                    0 <= k < r@.len() ==> {
                        let (room, p) = all_seats(self.rooms@.subrange(0, i as int))[k];
                        &&& (#[trigger] r@[k]).0@ == p.player_id@
                        &&& r@[k].1@ == p.nickname@
                        &&& r@[k].2@ == room
                        &&& r@[k].3@ == role_name(p.role)
                        &&& r@[k].4 == (p.role == Role::Ai)
                    },
            decreases self.rooms.len() - i,
        {
            let room = &self.rooms[i];
            let ghost before = all_seats(self.rooms@.subrange(0, i as int));
            proof {
                assert(self.rooms@.subrange(0, i + 1).drop_last() =~= self.rooms@.subrange(0, i as int));
            }
            let mut j: usize = 0;
            while j < room.players.len()
                invariant
                    j <= room.players@.len(),
                    r@.len() == before.len() + j,
                    forall|k: int|
                        0 <= k < before.len() ==> {
                            let (rm, p) = before[k];
                            &&& (#[trigger] r@[k]).0@ == p.player_id@
                            &&& r@[k].1@ == p.nickname@
                            &&& r@[k].2@ == rm
                            &&& r@[k].3@ == role_name(p.role)
                            &&& r@[k].4 == (p.role == Role::Ai)
                        },
                    forall|k: int|
                        0 <= k < j ==> {
                            let p = room.players@[k];
                            &&& (#[trigger] r@[before.len() + k]).0@ == p.player_id@
                            &&& r@[before.len() + k].1@ == p.nickname@
                            &&& r@[before.len() + k].2@ == room.id@
                            &&& r@[before.len() + k].3@ == role_name(p.role)
                            &&& r@[before.len() + k].4 == (p.role == Role::Ai)
                        },
                decreases room.players.len() - j,
            {
                let p = &room.players[j];
                let role = match p.role {
                    Role::Human => string_from("Human"),
                    Role::Ai => string_from("Ai"),
                };
                r.push((p.player_id.clone(), p.nickname.clone(), room.id.clone(), role, p.role == Role::Ai));
                j += 1;
            }
            proof {
                let after = all_seats(self.rooms@.subrange(0, i + 1));
                assert(after =~= before + room_seats(self.rooms@[i as int]));
                assert forall|k: int| 0 <= k < r@.len() implies {
                    let (rm, p) = after[k];
                    &&& (#[trigger] r@[k]).0@ == p.player_id@
                    &&& r@[k].1@ == p.nickname@
                    &&& r@[k].2@ == rm
                    &&& r@[k].3@ == role_name(p.role)
                    &&& r@[k].4 == (p.role == Role::Ai)
                } by {
                    if k >= before.len() {
                        let j2 = k - before.len();
                        assert(r@[before.len() + j2] == r@[k]);
                    }
                }
            }
            i += 1;
        }
        assert(self.rooms@.subrange(0, self.rooms@.len() as int) =~= self.rooms@);
        r
    }

    /// The connection and room of the first seat with id `player_id`
    /// (rooms in creation order).
    pub fn find_player_conn(&self, player_id: &str) -> (r: Option<(ConnectionId, RoomId)>)
        ensures
            match first_seat_with_id(all_seats(self.room_list()), player_id@, 0) {
                Some(k) => r is Some && (r->0).0 == all_seats(self.room_list())[k as int].1.conn_id
                    && (r->0).1@ == all_seats(self.room_list())[k as int].0,
                None => r is None,
            },
    {
        proof {
            lemma_all_seats_split(self.rooms@, 0);
            assert(self.rooms@.subrange(0, 0) =~= Seq::<Room>::empty());
        }
        let mut i: usize = 0;
        while i < self.rooms.len()
            invariant
                i <= self.rooms@.len(),
                first_seat_with_id(all_seats(self.rooms@), player_id@, 0) == first_seat_with_id(
                    all_seats(self.rooms@),
                    player_id@,
                    all_seats(self.rooms@.subrange(0, i as int)).len(),
                ),
                all_seats(self.rooms@) == all_seats(self.rooms@.subrange(0, i as int)) + all_seats(
                    self.rooms@.subrange(i as int, self.rooms@.len() as int),
                ),
            decreases self.rooms.len() - i,
        {
            let room = &self.rooms[i];
            let ghost base: nat = all_seats(self.rooms@.subrange(0, i as int)).len();
            proof {
                lemma_all_seats_split(self.rooms@, i as int);
                lemma_all_seats_split(self.rooms@, i + 1);
                assert(self.rooms@.subrange(0, i + 1).drop_last() =~= self.rooms@.subrange(0, i as int));
            }
            let mut j: usize = 0;
            while j < room.players.len()
                invariant
                    j <= room.players@.len(),
                    *room == self.rooms@[i as int],
                    i < self.rooms@.len(),
                    base == all_seats(self.rooms@.subrange(0, i as int)).len(),
                    all_seats(self.rooms@.subrange(0, i + 1)) == all_seats(self.rooms@.subrange(0, i as int))
                        + room_seats(*room),
                    all_seats(self.rooms@) == all_seats(self.rooms@.subrange(0, i + 1)) + all_seats(
                        self.rooms@.subrange(i + 1, self.rooms@.len() as int),
                    ),
                    first_seat_with_id(all_seats(self.rooms@), player_id@, 0) == first_seat_with_id(
                        all_seats(self.rooms@),
                        player_id@,
                        (base + j) as nat,
                    ),
                decreases room.players.len() - j,
            {
                proof {
                    assert(all_seats(self.rooms@)[base + j] == (room.id@, room.players@[j as int]));
                }
                if str_eq(room.players[j].player_id.as_str(), player_id) {
                    return Some((room.players[j].conn_id, room.id.clone()));
                }
                j += 1;
            }
            i += 1;
        }
        None
    }
}

impl Default for RoomManager {
    fn default() -> (m: RoomManager)
        ensures
            m.room_list().len() == 0,
            m.links().len() == 0,
            m.counter() == 1,
            m.bridge_mode,
    {
        RoomManager::new()
    }
}

} // verus!
