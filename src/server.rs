use vstd::prelude::*;
use vstd::string::*;
use crate::commands::{AdminEvent, AdminResponse, PlayerInfo, RoomInfo};
use crate::deck::CardData;
use crate::engine::{
    history_view, is_trick_result, legal_moves, plays_view, tokens, winning_position, winning_team, ai_choice, TIMEOUT_MS, cards_left, copy_cards, holds, lemma_cards_left_update, lemma_without_card_len, played, resolvable,
    resolved, GameEngine, GamePhase, PlayError, PlayResult, TrickResolution,
};
use crate::handshake::{hello_error, is_error_message, opt_text, process_hello, HandshakeResult};
use crate::logger::GameLogger;
use crate::protocol::{
    ClientMessage, ConnectionId, ErrorCode, RejectReason, Role, RoomId, ServerMessage, TablePlay, Team, TrickHistory,
};
use crate::room::{is_virtual, Room, RoomManager, RoomState};
use crate::strategy::{AiStrategy, SmartStrategy};
use crate::text::{push_decimal, str_eq, string_from, texts};

verus! {

/// Messages to deliver: (connection, message), in order.
pub type Outbox = Vec<(ConnectionId, ServerMessage)>;

/// Settings of the event loop.
pub struct ServerConfig {
    /// Token AI clients must present; none means AI clients are not checked.
    pub ai_auth_token: Option<String>,
}

/// Events the connection workers hand to the event loop.
#[derive(Debug)]
pub enum GameEvent {
    Connected { conn_id: ConnectionId },
    Disconnected { conn_id: ConnectionId },
    Message { conn_id: ConnectionId, message: ClientMessage },
}

/// Everything the event loop owns: the open connections, the rooms, the games
/// (one per room id) and which room each connection joined.
pub struct ServerState {
    pub clients: Vec<ConnectionId>,
    pub room_manager: RoomManager,
    pub games: Vec<(RoomId, GameEngine)>,
    pub conn_to_room: Vec<(ConnectionId, RoomId)>,
}

/// `after` is `before` with possibly more messages at the end.
pub open spec fn extends(before: Seq<(ConnectionId, ServerMessage)>, after: Seq<(ConnectionId, ServerMessage)>) -> bool {
    before.len() <= after.len() && forall|k: int| 0 <= k < before.len() ==> #[trigger] after[k] == before[k]
}

/// `after` is `before` plus, when `conn` is open, one ERROR with this code and text for it.
pub open spec fn notice(
    before: Seq<(ConnectionId, ServerMessage)>,
    after: Seq<(ConnectionId, ServerMessage)>,
    clients: Seq<ConnectionId>,
    conn: ConnectionId,
    code: ErrorCode,
    text: Seq<char>,
) -> bool {
    if clients.contains(conn) {
        &&& after.len() == before.len() + 1
        &&& extends(before, after)
        &&& after.last().0 == conn
        &&& is_error_message(after.last().1, code, text)
    } else {
        after == before
    }
}

/// `after` is `before` plus, when `conn` is open, one PLAY_REJECT of `card` for it.
pub open spec fn rejected(
    before: Seq<(ConnectionId, ServerMessage)>,
    after: Seq<(ConnectionId, ServerMessage)>,
    clients: Seq<ConnectionId>,
    conn: ConnectionId,
    card: Seq<char>,
    reason: RejectReason,
) -> bool {
    if clients.contains(conn) {
        &&& after.len() == before.len() + 1
        &&& extends(before, after)
        &&& after.last().0 == conn
        &&& after.last().1 matches ServerMessage::PlayReject { card: c, reason: r } && c@ == card && r == reason
    } else {
        after == before
    }
}

/// First link of connection `c` at or after `i`.
pub open spec fn joined_from(v: Seq<(ConnectionId, RoomId)>, c: ConnectionId, i: nat) -> Option<nat>
    decreases v.len() - i,
{
    if i >= v.len() {
        None
    } else if v[i as int].0 == c {
        Some(i)
    } else {
        joined_from(v, c, i + 1)
    }
}

/// First position at or after `i` of room id `id` among the ids of the games.
pub open spec fn game_from(ids: Seq<Seq<char>>, id: Seq<char>, i: nat) -> Option<nat>
    decreases ids.len() - i,
{
    if i >= ids.len() {
        None
    } else if ids[i as int] == id {
        Some(i)
    } else {
        game_from(ids, id, i + 1)
    }
}

proof fn lemma_extends_trans(
    a: Seq<(ConnectionId, ServerMessage)>,
    b: Seq<(ConnectionId, ServerMessage)>,
    c: Seq<(ConnectionId, ServerMessage)>,
)
    requires
        extends(a, b),
        extends(b, c),
    ensures
        extends(a, c),
{
    assert forall|k: int| 0 <= k < a.len() implies #[trigger] c[k] == a[k] by {
        assert(c[k] == b[k]);
    }
}

/// The messages of `msgs` whose connection is a real, open one, in order.
pub open spec fn to_open_humans(
    msgs: Seq<(ConnectionId, ServerMessage)>,
    clients: Seq<ConnectionId>,
) -> Seq<(ConnectionId, ServerMessage)>
    decreases msgs.len(),
{
    if msgs.len() == 0 {
        seq![]
    } else {
        let rest = to_open_humans(msgs.drop_first(), clients);
        if !is_virtual(msgs[0].0) && clients.contains(msgs[0].0) {
            seq![msgs[0]] + rest
        } else {
            rest
        }
    }
}

/// The real, open connections of the seats `players`, in seat order.
pub open spec fn open_human_conns(players: Seq<crate::engine::GamePlayer>, clients: Seq<ConnectionId>) -> Seq<ConnectionId>
    decreases players.len(),
{
    if players.len() == 0 {
        seq![]
    } else {
        let rest = open_human_conns(players.drop_last(), clients);
        let c = players.last().conn_id;
        if !is_virtual(c) && clients.contains(c) {
            rest.push(c)
        } else {
            rest
        }
    }
}

/// The first messages of `msgs` announce, to each of `conns` in order, that seat
/// `id` played `card` in trick `trick`.
pub open spec fn announces_play(
    msgs: Seq<(ConnectionId, ServerMessage)>,
    conns: Seq<ConnectionId>,
    id: Seq<char>,
    card: CardData,
    trick: u32,
) -> bool {
    &&& msgs.len() >= conns.len()
    &&& forall|k: int|
        0 <= k < conns.len() ==> (#[trigger] msgs[k]).0 == conns[k] && crate::engine::is_broadcast(
            msgs[k].1,
            id,
            card,
            trick,
        )
}

/// `d` is the game created for `players` with `seed` and dealt: each of the first
/// four seats holds its dealt hand, trick 1 begins with seat 0 to play.
pub open spec fn freshly_dealt(d: GameEngine, seed: u64, players: Seq<(ConnectionId, String, Team)>) -> bool {
    &&& d.players@.len() == players.len()
    &&& forall|p: int| 0 <= p < 4 ==> #[trigger] d.hand_of(p) == crate::engine::dealt_hand(seed, p)
    &&& forall|p: int|
        0 <= p < players.len() ==> {
            &&& (#[trigger] d.players@[p]).conn_id == players[p].0
            &&& d.players@[p].player_id == players[p].1
            &&& d.players@[p].team == players[p].2
        }
    &&& d.current_trick == 1
    &&& d.phase == (GamePhase::WaitingForPlay { current_player_idx: 0 })
    &&& d.seed == seed
    &&& d.score.human == 0 && d.score.ai == 0
    &&& d.table@.len() == 0
    &&& d.history@.len() == 0
}

proof fn lemma_game_from_fresh(ids: Seq<Seq<char>>, id: Seq<char>, i: nat)
    requires
        i <= ids.len(),
        forall|k: int| i <= k < ids.len() ==> ids[k] != id,
    ensures
        game_from(ids.push(id), id, i) == Some(ids.len()),
    decreases ids.len() - i,
{
    if i < ids.len() {
        assert(ids.push(id)[i as int] == ids[i as int]);
        lemma_game_from_fresh(ids, id, i + 1);
    } else {
        assert(ids.push(id)[i as int] == id);
    }
}

/// The room ids that have a game, in order.
pub open spec fn game_ids(games: Seq<(RoomId, GameEngine)>) -> Seq<Seq<char>> {
    games.map_values(|g: (RoomId, GameEngine)| g.0@)
}

fn conn_position(v: &Vec<ConnectionId>, c: ConnectionId) -> (r: Option<usize>)
    ensures
        r is Some <==> v@.contains(c),
        r is Some ==> r->0 < v@.len() && v@[r->0 as int] == c,
{
    let mut i: usize = 0;
    while i < v.len()
        invariant
            i <= v@.len(),
            forall|k: int| 0 <= k < i ==> v@[k] != c,
        decreases v.len() - i,
    {
        if v[i] == c {
            return Some(i);
        }
        i += 1;
    }
    None
}

fn link_position(v: &Vec<(ConnectionId, RoomId)>, c: ConnectionId) -> (r: Option<usize>)
    ensures
        r is Some ==> r->0 < v@.len() && v@[r->0 as int].0 == c,
        r is None ==> forall|k: int| 0 <= k < v@.len() ==> v@[k].0 != c,
        r is Some <==> joined_from(v@, c, 0) is Some,
        r is Some ==> r->0 as nat == joined_from(v@, c, 0)->0,
{
    let mut i: usize = 0;
    while i < v.len()
        invariant
            i <= v@.len(),
            forall|k: int| 0 <= k < i ==> v@[k].0 != c,
            joined_from(v@, c, 0) == joined_from(v@, c, i as nat),
        decreases v.len() - i,
    {
        if v[i].0 == c {
            return Some(i);
        }
        i += 1;
    }
    None
}

/// Position of the game of room `room_id`.
pub fn game_position(games: &Vec<(RoomId, GameEngine)>, room_id: &str) -> (r: Option<usize>)
    ensures
        r is Some ==> r->0 < games@.len() && games@[r->0 as int].0@ == room_id@,
        r is None ==> !game_ids(games@).contains(room_id@),
        r is Some <==> game_from(game_ids(games@), room_id@, 0) is Some,
        r is Some ==> r->0 as nat == game_from(game_ids(games@), room_id@, 0)->0,
{
    let mut i: usize = 0;
    while i < games.len()
        invariant
            i <= games@.len(),
            forall|k: int| 0 <= k < i ==> games@[k].0@ != room_id@,
            game_from(game_ids(games@), room_id@, 0) == game_from(game_ids(games@), room_id@, i as nat),
        decreases games.len() - i,
    {
        assert(game_ids(games@)[i as int] == games@[i as int].0@);
        if str_eq(games[i].0.as_str(), room_id) {
            return Some(i);
        }
        i += 1;
    }
    assert forall|k: int| 0 <= k < game_ids(games@).len() implies game_ids(games@)[k] != room_id@ by {
        assert(game_ids(games@)[k] == games@[k].0@);
    }
    None
}

/// Queues `msg` for `conn_id` if that connection is open.
pub fn send_to(clients: &Vec<ConnectionId>, conn_id: ConnectionId, msg: ServerMessage, out: &mut Outbox)
    ensures
        clients@.contains(conn_id) ==> final(out)@ == old(out)@.push((conn_id, msg)),
        !clients@.contains(conn_id) ==> final(out)@ == old(out)@,
        extends(old(out)@, final(out)@),
{
    if conn_position(clients, conn_id).is_some() {
        out.push((conn_id, msg));
    }
}

/// An ERROR message.
fn error_message(code: ErrorCode, text: &str) -> (m: ServerMessage)
    ensures
        m matches ServerMessage::Error { code: c, message } && c == code && message@ == text@,
{
    ServerMessage::Error { code, message: string_from(text) }
}

/// Removes the game of room `room_id`, if any.
pub fn remove_game(games: &mut Vec<(RoomId, GameEngine)>, room_id: &str)
    ensures
        !game_ids(final(games)@).contains(room_id@),
        final(games)@.len() <= old(games)@.len(),
{
    let mut i: usize = 0;
    while i < games.len()
        invariant
            i <= games@.len(),
            games@.len() <= old(games)@.len(),
            forall|k: int| 0 <= k < i ==> games@[k].0@ != room_id@,
        decreases games.len() - i,
    {
        if str_eq(games[i].0.as_str(), room_id) {
            games.remove(i);
        } else {
            i += 1;
        }
    }
    assert forall|k: int| 0 <= k < game_ids(games@).len() implies game_ids(games@)[k] != room_id@ by {
        assert(game_ids(games@)[k] == games@[k].0@);
    }
}

/// Closes `conn_id`: it is no longer among the open connections.
fn remove_client(clients: &mut Vec<ConnectionId>, conn_id: ConnectionId)
    ensures
        !final(clients)@.contains(conn_id),
{
    let mut i: usize = 0;
    while i < clients.len()
        invariant
            i <= clients@.len(),
            forall|k: int| 0 <= k < i ==> clients@[k] != conn_id,
        decreases clients.len() - i,
    {
        if clients[i] == conn_id {
            clients.remove(i);
        } else {
            i += 1;
        }
    }
}

impl ServerState {
    /// No connections, no rooms (Bridge Mode), no games.
    pub fn new() -> (s: ServerState)
        ensures
            s.clients@.len() == 0,
            s.games@.len() == 0,
            s.conn_to_room@.len() == 0,
            s.room_manager.room_list().len() == 0,
            s.room_manager.bridge_mode,
    {
        ServerState {
            clients: Vec::new(),
            room_manager: RoomManager::new(),
            games: Vec::new(),
            conn_to_room: Vec::new(),
        }
    }

    /// Applies one event and returns the messages it produces.
    pub fn handle_event(&mut self, event: GameEvent, logger: &mut GameLogger, config: &ServerConfig) -> (out: Outbox)
        ensures
            event matches GameEvent::Connected { conn_id } ==> final(self).clients@.contains(conn_id)
                && out@.len() == 0,
            event matches GameEvent::Disconnected { conn_id } ==> !final(self).clients@.contains(conn_id),
            event matches GameEvent::Disconnected { conn_id } ==> forall|k: int|
                0 <= k < final(self).conn_to_room@.len() ==> (#[trigger] final(self).conn_to_room@[k]).0 != conn_id,
            event matches GameEvent::Disconnected { conn_id } ==> match joined_from(old(self).conn_to_room@, conn_id, 0) {
                Some(k) => match crate::room::room_from(
                    old(self).room_manager.room_list(),
                    old(self).conn_to_room@[k as int].1@,
                    0,
                ) {
                    Some(i) => {
                        let before = old(self).room_manager.room_list()[i as int];
                        let after = final(self).room_manager.room_list()[i as int];
                        before.bridge_mode && before.state == RoomState::Playing ==> {
                            &&& !game_ids(final(self).games@).contains(old(self).conn_to_room@[k as int].1@)
                            &&& exists|mid: Room, p: Option<crate::room::Player>|
                                #[trigger] crate::room::seat_removed(before, mid, conn_id, p)
                                    && crate::room::is_bridge_reset(mid, after)
                        }
                    },
                    None => true,
                },
                None => true,
            },
            event matches GameEvent::Message { conn_id, message } ==> (message matches ClientMessage::Hello {
                role,
                nickname,
                proto,
                auth,
            } ==> hello_handled(
                *old(self),
                *final(self),
                seq![],
                out@,
                conn_id,
                role,
                nickname@,
                proto,
                opt_text(auth),
                opt_text(config.ai_auth_token),
            )),
            event matches GameEvent::Message { conn_id, message } ==> (message matches ClientMessage::Play { card }
                ==> play_handled(*old(self), *final(self), seq![], out@, conn_id, card@)),
            event matches GameEvent::Message { conn_id, message } ==> (message matches ClientMessage::Ping
                ==> out@ == (if old(self).clients@.contains(conn_id) {
                seq![(conn_id, ServerMessage::Pong)]
            } else {
                seq![]
            })),
    {
        let mut out: Outbox = Vec::new();
        match event {
            GameEvent::Connected { conn_id } => {
                if conn_position(&self.clients, conn_id).is_none() {
                    self.clients.push(conn_id);
                    assert(self.clients@[self.clients@.len() - 1] == conn_id);
                }
            },
            GameEvent::Disconnected { conn_id } => {
                remove_client(&mut self.clients, conn_id);
                let room_id = match link_position(&self.conn_to_room, conn_id) {
                    Some(k) => Some(self.conn_to_room[k].1.clone()),
                    None => None,
                };
                unlink_all(&mut self.conn_to_room, conn_id);
                match room_id {
                    Some(room_id) => {
                        handle_bridge_mode_disconnect(conn_id, room_id.as_str(), self, logger, &mut out);
                    },
                    None => {
                        if let Some(player) = self.room_manager.handle_disconnect(conn_id) {
                            logger.player_leave(player.player_id.as_str(), player.nickname.as_str(), "unknown");
                        }
                    },
                }
            },
            GameEvent::Message { conn_id, message } => {
                handle_message(conn_id, &message, self, logger, config, &mut out);
            },
        }
        out
    }
}

/// What `handle_play` does for a PLAY of `card` by `conn`.
pub open spec fn play_handled(
    os: ServerState,
    ns: ServerState,
    oo: Seq<(ConnectionId, ServerMessage)>,
    no: Seq<(ConnectionId, ServerMessage)>,
    conn_id: ConnectionId,
    card: Seq<char>,
) -> bool {
    &&& extends(oo, no)
    &&& ns.clients == os.clients
    &&& match joined_from(os.conn_to_room@, conn_id, 0) {
            None => notice(
                oo,
                no,
                os.clients@,
                conn_id,
                ErrorCode::ProtocolError,
                "Not in a game"@,
            ) && ns.games == os.games,
            Some(k) => match game_from(game_ids(os.games@), os.conn_to_room@[k as int].1@, 0) {
                None => notice(
                    oo,
                    no,
                    os.clients@,
                    conn_id,
                    ErrorCode::NotYourTurn,
                    "Game not started"@,
                ) && ns.games == os.games,
                Some(g) => match os.games@[g as int].1.play_check(conn_id, card) {
                    Err(e) => rejected(oo, no, os.clients@, conn_id, card, reject_reason(e))
                        && ns.games == os.games,
                    Ok((i, c)) => {
                        &&& ns.games@ == os.games@.update(g as int, ns.games@[g as int])
                        &&& ns.games@[g as int].0 == os.games@[g as int].0
                        &&& ai_done(ns.games@[g as int].1)
                        &&& play_outcome(
                            os.games@[g as int].1,
                            ns.games@[g as int].1,
                            i as int,
                            c,
                            os.clients@,
                            no.subrange(oo.len() as int, no.len() as int),
                        )
                    },
                },
            },
        }
}

/// What `handle_hello` does for a HELLO of `conn`.
pub open spec fn hello_handled(
    os: ServerState,
    ns: ServerState,
    oo: Seq<(ConnectionId, ServerMessage)>,
    no: Seq<(ConnectionId, ServerMessage)>,
    conn_id: ConnectionId,
    role: Role,
    nickname: Seq<char>,
    proto: u32,
    auth: Option<Seq<char>>,
    token: Option<Seq<char>>,
) -> bool {
    &&& extends(oo, no)
    &&& ns.clients == os.clients
    &&& os.room_manager.next_room_id == u32::MAX ==> notice(
            oo,
            no,
            os.clients@,
            conn_id,
            ErrorCode::RoomFull,
            "Room is full"@,
        )
    &&& os.room_manager.next_room_id < u32::MAX ==> match hello_error(
            role,
            nickname,
            proto,
            auth,
            token,
        ) {
            Some(e) => notice(oo, no, os.clients@, conn_id, e.0, e.1),
            None => exists|before: Room, joined: Room, pid: Seq<char>, nick: Seq<char>|
                #[trigger] hello_joined(
                    os,
                    ns,
                    oo,
                    no,
                    conn_id,
                    nickname,
                    role,
                    before,
                    joined,
                    pid,
                    nick,
                ),
        }
}

/// Dispatches one client request.
pub fn handle_message(
    conn_id: ConnectionId,
    msg: &ClientMessage,
    state: &mut ServerState,
    logger: &mut GameLogger,
    config: &ServerConfig,
    out: &mut Outbox,
)
    ensures
        *msg matches ClientMessage::Ping ==> final(out)@ == (if old(state).clients@.contains(conn_id) {
            old(out)@.push((conn_id, ServerMessage::Pong))
        } else {
            old(out)@
        }),
        extends(old(out)@, final(out)@),
        final(state).clients == old(state).clients,
        *msg matches ClientMessage::Hello { role, nickname, proto, auth } ==> hello_handled(
            *old(state),
            *final(state),
            old(out)@,
            final(out)@,
            conn_id,
            role,
            nickname@,
            proto,
            opt_text(auth),
            opt_text(config.ai_auth_token),
        ),
        *msg matches ClientMessage::Play { card } ==> play_handled(*old(state), *final(state), old(out)@, final(out)@, conn_id, card@),
{
    match msg {
        ClientMessage::Ping => {
            send_to(&state.clients, conn_id, ServerMessage::Pong, out);
        },
        ClientMessage::Hello { role, nickname, proto, auth } => {
            handle_hello(conn_id, role, nickname.as_str(), *proto, auth, state, logger, config, out);
        },
        ClientMessage::Play { card } => {
            handle_play(conn_id, card.as_str(), state, logger, out);
        },
    }
}

/// Seats a joiner: finds or creates a waiting room, checks the HELLO, seats the
/// player, tells the room, and starts the game when the room can start.
pub fn handle_hello(
    conn_id: ConnectionId,
    role: &Role,
    nickname: &str,
    proto: u32,
    auth: &Option<String>,
    state: &mut ServerState,
    logger: &mut GameLogger,
    config: &ServerConfig,
    out: &mut Outbox,
)
    ensures
        hello_handled(*old(state), *final(state), old(out)@, final(out)@, conn_id, *role, nickname@, proto, opt_text(*auth), opt_text(config.ai_auth_token)),

{
    if state.room_manager.next_room_id == u32::MAX {
        send_to(&state.clients, conn_id, error_message(ErrorCode::RoomFull, "Room is full"), out);
        return;
    }
    let ri = state.room_manager.waiting_room_index();
    let ghost before = state.room_manager.room_list()[ri as int];
    if state.room_manager.room_at(ri).is_full() {
        send_to(&state.clients, conn_id, error_message(ErrorCode::RoomFull, "Room is full"), out);
        return;
    }
    let token: Option<&str> = match &config.ai_auth_token {
        Some(t) => Some(t.as_str()),
        None => None,
    };
    let result = {
        let room = state.room_manager.room_at(ri);
        process_hello(
            role,
            nickname,
            proto,
            auth,
            room.get_nicknames(),
            room.next_slot(),
            room.id.as_str(),
            token,
        )
    };
    match result {
        HandshakeResult::Success(welcome_msg) => {
            let (player_id, final_nickname, room_id) = match &welcome_msg {
                ServerMessage::Welcome { player_id, nickname, room } => (
                    player_id.clone(),
                    nickname.clone(),
                    room.clone(),
                ),
                _ => {
                    return;
                },
            };
            let room = state.room_manager.room_at_mut(ri);
            room.add_player(conn_id, player_id.as_str(), final_nickname.as_str(), *role);
            let ghost joined = *room;
            let wait_msg = if room.fits() {
                Some(room.room_wait_message())
            } else {
                None
            };
            let conn_ids = room.conn_ids();
            let can_start = room.can_start();
            let seed = room.seed;
            let ghost rooms_joined = state.room_manager.room_list();
            assert(rooms_joined[ri as int] == joined);
            state.room_manager.associate_conn(conn_id, room_id.as_str());
            match link_position(&state.conn_to_room, conn_id) {
                Some(k) => {
                    state.conn_to_room.set(k, (conn_id, room_id.clone()));
                    assert(state.conn_to_room@[k as int].0 == conn_id && state.conn_to_room@[k as int].1@ == joined.id@);
                },
                None => {
                    state.conn_to_room.push((conn_id, room_id.clone()));
                    assert(state.conn_to_room@[state.conn_to_room@.len() - 1].0 == conn_id
                        && state.conn_to_room@[state.conn_to_room@.len() - 1].1@ == joined.id@);
                },
            }
            let ghost links = state.conn_to_room@;
            assert(exists|k: int|
                0 <= k < links.len() && (#[trigger] links[k]).0 == conn_id && links[k].1@ == joined.id@);
            send_to(&state.clients, conn_id, welcome_msg, out);
            let ghost mark = out@;
            logger.player_join(player_id.as_str(), final_nickname.as_str(), room_id.as_str());
            if let Some(wait_msg) = wait_msg {
                let mut i: usize = 0;
                while i < conn_ids.len()
                    invariant
                        extends(mark, out@),
                    decreases conn_ids.len() - i,
                {
                    send_to(&state.clients, conn_ids[i], wait_msg.clone(), out);
                    i += 1;
                }
            }
            if can_start {
                let room = state.room_manager.room_at_mut(ri);
                room.state = RoomState::Playing;
                room.assign_teams();
                let start_msg = room.room_start_message();
                let conn_ids = room.conn_ids();
                let mut players_with_teams: Vec<(ConnectionId, String, Team)> = Vec::new();
                let mut k: usize = 0;
                while k < room.players.len()
                    invariant
                        players_with_teams@.len() == k,
                        k <= room.players@.len(),
                    decreases room.players.len() - k,
                {
                    let p = &room.players[k];
                    let team = match p.team {
                        Some(t) => t,
                        None => Team::Human,
                    };
                    players_with_teams.push((p.conn_id, p.player_id.clone(), team));
                    k += 1;
                }
                logger.game_start(room_id.as_str(), seed);
                let mut i: usize = 0;
                while i < conn_ids.len()
                    invariant
                        extends(mark, out@),
                    decreases conn_ids.len() - i,
                {
                    send_to(&state.clients, conn_ids[i], start_msg.clone(), out);
                    i += 1;
                }
                let ghost pwt = players_with_teams@;
                let ghost out_s = out@;
                start_game(room_id.as_str(), seed, players_with_teams, state, out);
                let ghost st = *state;
                let ghost out_e = out@;
                process_ai_turns(room_id.as_str(), state, logger, out);
                proof {
                    if pwt.len() >= 4 {
                        let g = game_from(game_ids(st.games@), room_id@, 0)->0 as int;
                        let d = st.games@[g].1;
                        let dm = choose|dm: Seq<(ConnectionId, ServerMessage)>| #[trigger] dealt_and_sent(
                            st.games@[game_from(game_ids(st.games@), room_id@, 0)->0 as int].1,
                            dm,
                            seed,
                            pwt,
                            old(state).clients@,
                            out_s,
                            out_e,
                        );
                        assert(freshly_dealt(d, seed, pwt));
                        let t = choose|t: Seq<GameEngine>| #[trigger] ai_trace(t, st.games@[g].1, state.games@[g].1);
                        assert(ai_trace(t, d, state.games@[g].1));
                        assert(dealt_then_played(d, t, seed, *state, room_id@));
                    }
                }
            }
            proof {
                assert(state.conn_to_room@ == links);
                lemma_extends_trans(old(out)@, mark, out@);
                if old(state).clients@.contains(conn_id) {
                    assert(mark[old(out)@.len() as int] == out@[old(out)@.len() as int]);
                }
                assert(hello_joined(
                    *old(state),
                    *state,
                    old(out)@,
                    out@,
                    conn_id,
                    nickname@,
                    *role,
                    before,
                    joined,
                    player_id@,
                    final_nickname@,
                ));
            }
        },
        HandshakeResult::Error(error_msg) => {
            send_to(&state.clients, conn_id, error_msg, out);
        },
    }
}

/// `d` is the game dealt for `players` with `seed`; its DEAL messages `dm` went to
/// the open Human seats, appended to `before`.
pub open spec fn dealt_and_sent(
    d: GameEngine,
    dm: Seq<(ConnectionId, ServerMessage)>,
    seed: u64,
    players: Seq<(ConnectionId, String, Team)>,
    clients: Seq<ConnectionId>,
    before: Seq<(ConnectionId, ServerMessage)>,
    after: Seq<(ConnectionId, ServerMessage)>,
) -> bool {
    &&& freshly_dealt(d, seed, players)
    &&& dm.len() == d.players@.len()
    &&& forall|k: int|
        0 <= k < dm.len() ==> (#[trigger] dm[k]).0 == d.players@[k].conn_id && crate::engine::is_deal(
            dm[k].1,
            crate::engine::tokens(d.hand_of(k)),
        )
    &&& after == before + to_open_humans(dm, clients)
}

/// Creates and deals the game of `players` with `seed` and sends each open Human
/// seat its DEAL; a game needs four seats.
fn deal_new_game(
    seed: u64,
    players: Vec<(ConnectionId, String, Team)>,
    clients: &Vec<ConnectionId>,
    out: &mut Outbox,
) -> (r: Option<GameEngine>)
    ensures
        r is Some <==> players@.len() >= 4,
        r is None ==> final(out)@ == old(out)@,
        r is Some ==> exists|dm: Seq<(ConnectionId, ServerMessage)>| #[trigger] dealt_and_sent(
            r->0,
            dm,
            seed,
            players@,
            clients@,
            old(out)@,
            final(out)@,
        ),
{
    let ghost ps = players@;
    let mut engine = GameEngine::new(seed, players);
    if engine.players.len() < 4 {
        return None;
    }
    let deal_messages = engine.deal();
    let ghost dm = deal_messages@;
    assert(freshly_dealt(engine, seed, ps));
    assert(dm.len() == engine.players@.len());
    send_to_open_humans(deal_messages, clients, out);
    assert(out@ == old(out)@ + to_open_humans(dm, clients@));
    assert(dealt_and_sent(engine, dm, seed, ps, clients@, old(out)@, out@));
    let r = Some(engine);
    assert(dealt_and_sent(r->0, dm, seed, players@, clients@, old(out)@, out@));
    r
}

/// Queues each of `msgs` whose connection is a real, open one, in order.
fn send_to_open_humans(msgs: Vec<(ConnectionId, ServerMessage)>, clients: &Vec<ConnectionId>, out: &mut Outbox)
    ensures
        final(out)@ == old(out)@ + to_open_humans(msgs@, clients@),
{
    let mut msgs = msgs;
    let ghost all = msgs@;
    let ghost base = out@;
    while msgs.len() > 0
        invariant
            out@.subrange(base.len() as int, out@.len() as int) + to_open_humans(msgs@, clients@) == to_open_humans(all, clients@),
            out@.len() >= base.len(),
            out@.subrange(0, base.len() as int) == base,
        decreases msgs.len(),
    {
        let ghost rest = msgs@;
        let ghost before = out@;
        let (conn_id, msg) = msgs.remove(0);
        assert(msgs@ =~= rest.drop_first());
        if !Room::is_virtual_conn(conn_id) {
            send_to(clients, conn_id, msg, out);
        }
        proof {
            let sent0 = before.subrange(base.len() as int, before.len() as int);
            let sent1 = out@.subrange(base.len() as int, out@.len() as int);
            if !is_virtual(conn_id) && clients@.contains(conn_id) {
                assert(sent1 =~= sent0 + seq![rest[0]]);
                assert(sent0 + (seq![rest[0]] + to_open_humans(rest.drop_first(), clients@)) =~= sent1
                    + to_open_humans(msgs@, clients@));
            } else {
                assert(sent1 =~= sent0);
            }
            assert(out@.subrange(0, base.len() as int) =~= base);
        }
    }
    assert(out@.subrange(base.len() as int, out@.len() as int) + to_open_humans(msgs@, clients@) =~= out@.subrange(
        base.len() as int,
        out@.len() as int,
    ));
    assert(out@ =~= base + to_open_humans(all, clients@));
}

/// The slot number a joiner of room `r` gets (Bridge Mode: Humans take P1, P2).
pub open spec fn slot_of(r: Room) -> nat {
    ((if r.bridge_mode {
        crate::room::humans(r.players@) + 1
    } else {
        r.players@.len() + 1
    }) % 0x1_0000_0000) as nat
}

/// `m` is a WELCOME naming seat `pid`, nickname `nick` and room `room`.
pub open spec fn welcome_for(m: ServerMessage, pid: Seq<char>, nick: Seq<char>, room: Seq<char>) -> bool {
    match m {
        ServerMessage::Welcome { player_id, nickname, room: r } => player_id@ == pid && nickname@ == nick && r@
            == room,
        _ => false,
    }
}

/// The game of room `room` in `state` was dealt as `d` from `seed` (each of the
/// first four seats holds its dealt hand, trick 1, seat 0 due), then AI seats
/// played as `t` records.
pub open spec fn dealt_then_played(d: GameEngine, t: Seq<GameEngine>, seed: u64, state: ServerState, room: Seq<char>) -> bool {
    let g = game_from(game_ids(state.games@), room, 0)->0 as int;
    &&& game_from(game_ids(state.games@), room, 0) is Some
    &&& d.seed == seed
    &&& forall|p: int| 0 <= p < 4 ==> #[trigger] d.hand_of(p) == crate::engine::dealt_hand(seed, p)
    &&& d.current_trick == 1
    &&& d.phase == (GamePhase::WaitingForPlay { current_player_idx: 0 })
    &&& ai_trace(t, d, state.games@[g].1)
}

/// A valid HELLO of `conn` seated it: `before` is the first room open for joining
/// (or the room created for it), `joined` is that room with the new seat
/// `P<slot>` under the nickname `nick` (made unique), the connection is linked to
/// that room, the joiner got its WELCOME first, and a room that can start got its game.
pub open spec fn hello_joined(
    old_state: ServerState,
    new_state: ServerState,
    old_out: Seq<(ConnectionId, ServerMessage)>,
    new_out: Seq<(ConnectionId, ServerMessage)>,
    conn: ConnectionId,
    nickname: Seq<char>,
    role: Role,
    before: Room,
    joined: Room,
    pid: Seq<char>,
    nick: Seq<char>,
) -> bool {
    let rooms = old_state.room_manager.room_list();
    let i = match crate::room::open_room_from(rooms, 0) {
        Some(k) => k as int,
        None => rooms.len() as int,
    };
    &&& match crate::room::open_room_from(rooms, 0) {
        Some(k) => before == rooms[k as int],
        None => crate::room::is_new_room(before, old_state.room_manager.counter(), old_state.room_manager.bridge_mode),
    }
    &&& pid == seq!['P'] + crate::text::decimal(slot_of(before))
    &&& !crate::handshake::all_suffixes_taken(nickname, crate::text::texts(before.nicknames@)) ==> nick
        == crate::handshake::unique_nickname(nickname, crate::text::texts(before.nicknames@))
    &&& crate::room::seated(before, joined, conn, pid, nick, role)
    &&& exists|k: int|
        0 <= k < new_state.conn_to_room@.len() && (#[trigger] new_state.conn_to_room@[k]).0 == conn
            && new_state.conn_to_room@[k].1@ == joined.id@
    &&& old_state.clients@.contains(conn) ==> new_out.len() > old_out.len() && new_out[old_out.len() as int].0
        == conn && welcome_for(new_out[old_out.len() as int].1, pid, nick, joined.id@)
    &&& joined.startable() && joined.players@.len() >= 4 ==> game_ids(new_state.games@).contains(joined.id@)
    &&& joined.startable() && joined.players@.len() >= 4 ==> exists|d: GameEngine, t: Seq<GameEngine>|
        #[trigger] dealt_then_played(d, t, joined.seed, new_state, joined.id@)
    &&& joined.startable() ==> new_state.room_manager.room_list()[i].state == RoomState::Playing
        && new_state.room_manager.room_list()[i].players@.len() == joined.players@.len()
    &&& !joined.startable() ==> new_state.room_manager.room_list()[i] == joined
}

/// Creates the game of a room and deals (DEAL goes to the open Human seats only),
/// then records it as the room's game; a game needs four seats.
pub fn start_game(
    room_id: &str,
    seed: u64,
    players: Vec<(ConnectionId, String, Team)>,
    state: &mut ServerState,
    out: &mut Outbox,
)
    ensures
        players@.len() >= 4 ==> game_from(game_ids(final(state).games@), room_id@, 0) is Some,
        players@.len() >= 4 ==> exists|dm: Seq<(ConnectionId, ServerMessage)>| #[trigger] dealt_and_sent(
            final(state).games@[game_from(game_ids(final(state).games@), room_id@, 0)->0 as int].1,
            dm,
            seed,
            players@,
            old(state).clients@,
            old(out)@,
            final(out)@,
        ),
        players@.len() < 4 ==> *final(state) == *old(state) && final(out)@ == old(out)@,
        players@.len() >= 4 ==> game_ids(final(state).games@).contains(room_id@),
        final(state).clients == old(state).clients,
        final(state).conn_to_room == old(state).conn_to_room,
        final(state).room_manager == old(state).room_manager,
        extends(old(out)@, final(out)@),
{
    let ghost ps = players@;
    let engine = match deal_new_game(seed, players, &state.clients, out) {
        Some(e) => e,
        None => return,
    };
    let ghost d = engine;
    let ghost dm = choose|dm: Seq<(ConnectionId, ServerMessage)>| #[trigger] dealt_and_sent(d, dm, seed, ps, state.clients@, old(out)@, out@);
    proof {
        assert forall|k: int| 0 <= k < old(out)@.len() implies #[trigger] out@[k] == old(out)@[k] by {
            assert(out@ == old(out)@ + to_open_humans(dm, state.clients@));
        }
    }
    let g = store_game(room_id, engine, state);
    assert(game_from(game_ids(state.games@), room_id@, 0)->0 as int == g as int);
    assert(dealt_and_sent(
        state.games@[game_from(game_ids(state.games@), room_id@, 0)->0 as int].1,
        dm,
        seed,
        ps,
        old(state).clients@,
        old(out)@,
        out@,
    ));
    assert(game_ids(state.games@)[g as int] == room_id@);
}

/// Records `engine` as the game of room `room_id`, replacing any earlier one.
fn store_game(room_id: &str, engine: GameEngine, state: &mut ServerState) -> (g: usize)
    ensures
        game_from(game_ids(final(state).games@), room_id@, 0) == Some(g as nat),
        g < final(state).games@.len(),
        game_ids(final(state).games@)[g as int] == room_id@,
        final(state).games@[g as int].1 == engine,
        final(state).clients == old(state).clients,
        final(state).conn_to_room == old(state).conn_to_room,
        final(state).room_manager == old(state).room_manager,
{
    remove_game(&mut state.games, room_id);
    let ghost ids = game_ids(state.games@);
    state.games.push((string_from(room_id), engine));
    assert(game_ids(state.games@) =~= ids.push(room_id@));
    proof {
        assert forall|k: int| 0 <= k < ids.len() implies ids[k] != room_id@ by {
            assert(!ids.contains(room_id@));
        }
        lemma_game_from_fresh(ids, room_id@, 0);
    }
    state.games.len() - 1
}

/// The reject reason reported for a play error.
pub open spec fn reject_reason(e: PlayError) -> RejectReason {
    match e {
        PlayError::NotYourTurn => RejectReason::NotYourTurn,
        PlayError::NotInHand => RejectReason::NotInHand,
        PlayError::NotLegal => RejectReason::NotLegal,
        PlayError::InvalidCard => RejectReason::NotInHand,
        PlayError::NotInGame => RejectReason::NotYourTurn,
    }
}

fn reject_reason_of(e: PlayError) -> (r: RejectReason)
    ensures
        r == reject_reason(e),
{
    match e {
        PlayError::NotYourTurn => RejectReason::NotYourTurn,
        PlayError::NotInHand => RejectReason::NotInHand,
        PlayError::NotLegal => RejectReason::NotLegal,
        PlayError::InvalidCard => RejectReason::NotInHand,
        PlayError::NotInGame => RejectReason::NotYourTurn,
    }
}

/// Handles a PLAY: a play outside a room or game is an error; a play the engine
/// refuses is answered with PLAY_REJECT to the player only and changes nothing;
/// an accepted play is broadcast, completes and resolves the trick when it is
/// the fourth card, and lets AI seats play on.
pub fn handle_play(conn_id: ConnectionId, card: &str, state: &mut ServerState, logger: &mut GameLogger, out: &mut Outbox)
    ensures
        extends(old(out)@, final(out)@),
        final(state).clients == old(state).clients,
        match joined_from(old(state).conn_to_room@, conn_id, 0) {
        None => notice(
            old(out)@,
            final(out)@,
            old(state).clients@,
            conn_id,
            ErrorCode::ProtocolError,
            "Not in a game"@,
        ) && final(state).games == old(state).games,
        Some(k) => match game_from(game_ids(old(state).games@), old(state).conn_to_room@[k as int].1@, 0) {
            None => notice(
                old(out)@,
                final(out)@,
                old(state).clients@,
                conn_id,
                ErrorCode::NotYourTurn,
                "Game not started"@,
            ) && final(state).games == old(state).games,
            Some(g) => match old(state).games@[g as int].1.play_check(conn_id, card@) {
                Err(e) => rejected(old(out)@, final(out)@, old(state).clients@, conn_id, card@, reject_reason(e))
                    && final(state).games == old(state).games,
                Ok((i, c)) => {
                    &&& final(state).games@ == old(state).games@.update(g as int, final(state).games@[g as int])
                    &&& final(state).games@[g as int].0 == old(state).games@[g as int].0
                    &&& ai_done(final(state).games@[g as int].1)
                    &&& play_outcome(
                        old(state).games@[g as int].1,
                        final(state).games@[g as int].1,
                        i as int,
                        c,
                        old(state).clients@,
                        final(out)@.subrange(old(out)@.len() as int, final(out)@.len() as int),
                    )
                },
            },
        },
    },

{
    let room_id = match link_position(&state.conn_to_room, conn_id) {
        Some(k) => state.conn_to_room[k].1.clone(),
        None => {
            send_to(&state.clients, conn_id, error_message(ErrorCode::ProtocolError, "Not in a game"), out);
            return;
        },
    };
    let gi = match game_position(&state.games, room_id.as_str()) {
        Some(gi) => gi,
        None => {
            send_to(&state.clients, conn_id, error_message(ErrorCode::NotYourTurn, "Game not started"), out);
            return;
        },
    };
    let (player_idx, card_data) = match state.games[gi].1.validate_play(conn_id, card) {
        Ok(r) => r,
        Err(e) => {
            let reason = reject_reason_of(e);
            send_to(
                &state.clients,
                conn_id,
                ServerMessage::PlayReject { card: string_from(card), reason },
                out,
            );
            return;
        },
    };
    let player_id = state.games[gi].1.players[player_idx].player_id.clone();
    let current_trick = state.games[gi].1.current_trick;
    logger.play(player_id.as_str(), card, current_trick);
    let ghost before = state.games@[gi as int].1;
    let play_result = state.games[gi].1.play_card(player_idx, card_data);
    assert(state.games@ =~= old(state).games@.update(gi as int, state.games@[gi as int]));
    assert(game_ids(state.games@) =~= game_ids(old(state).games@));
    let ghost mid = state.games@[gi as int].1;
    let ghost out_before = out@;
    broadcast_play(gi, &player_id, card_data, current_trick, state, out);
    let ghost out_mid = out@;
    let go_on = match play_result {
        PlayResult::Continue(_, _next_idx) => true,
        PlayResult::TrickComplete(_) => finish_trick(room_id.as_str(), gi, state, logger, out),
    };
    let ghost next = state.games@[gi as int].1;
    assert(if mid.table@.len() == 4 && resolvable(mid) {
        resolved(mid, next)
    } else {
        next == mid
    });
    if go_on {
        process_ai_turns(room_id.as_str(), state, logger, out);
    }
    proof {
        let fin = state.games@[gi as int].1;
        let t = if go_on {
            choose|t: Seq<GameEngine>| #[trigger] ai_trace(t, next, fin)
        } else {
            seq![next]
        };
        assert(ai_trace(t, next, fin));
        let conns = open_human_conns(mid.players@, old(state).clients@);
        let m0 = out_mid.subrange(out_before.len() as int, out_mid.len() as int);
        let m1 = out@.subrange(out_before.len() as int, out@.len() as int);
        assert forall|k: int| 0 <= k < conns.len() implies (#[trigger] m1[k]).0 == conns[k]
            && crate::engine::is_broadcast(m1[k].1, player_id@, card_data, current_trick) by {
            assert(m0[k] == out_mid[out_before.len() + k]);
            assert(out@[out_before.len() + k] == out_mid[out_before.len() + k]);
        }
        assert(play_outcome(before, fin, player_idx as int, card_data, old(state).clients@, m1));
        lemma_extends_trans(old(out)@, out_before, out_mid);
        lemma_extends_trans(old(out)@, out_mid, out@);
        assert(old(state).games@[gi as int].1.play_check(conn_id, card@) == Ok::<(usize, CardData), PlayError>((player_idx, card_data)));
    }
}

/// Seat `i` of `before` played `c`: the engine became `mid` as `played` states; the
/// trick was then resolved when complete; AI seats then played as `ai_trace` records,
/// ending in `after`. The messages `msgs` begin with the PLAY_BROADCAST of the card
/// to every open Human seat.
pub open spec fn play_outcome(
    before: GameEngine,
    after: GameEngine,
    i: int,
    c: CardData,
    clients: Seq<ConnectionId>,
    msgs: Seq<(ConnectionId, ServerMessage)>,
) -> bool {
    exists|mid: GameEngine, next: GameEngine, t: Seq<GameEngine>|
        #![trigger played(before, mid, i, c), ai_trace(t, next, after)]
        {
            &&& played(before, mid, i, c)
            &&& if mid.table@.len() == 4 && resolvable(mid) {
                resolved(mid, next)
            } else {
                next == mid
            }
            &&& ai_trace(t, next, after)
            &&& announces_play(msgs, open_human_conns(mid.players@, clients), before.players@[i].player_id@, c, before.current_trick)
        }
}

/// One AI turn: the seat due is a built-in AI seat holding its choice; it plays
/// the card `ai_choice` names, then the trick is resolved when it was the fourth
/// card (when it can be without overflow).
#[verifier::opaque]
pub open spec fn ai_step(a: GameEngine, b: GameEngine) -> bool {
    exists|mid: GameEngine|
        {
            &&& a.turn() is Some
            &&& due(a) < a.players@.len()
            &&& is_virtual(a.players@[due(a)].conn_id)
            &&& a.hand_of(due(a)).contains(ai_choice(a, due(a)))
            &&& #[trigger] played(a, mid, due(a), ai_choice(a, due(a)))
            &&& if mid.table@.len() == 4 && resolvable(mid) {
                resolved(mid, b)
            } else {
                b == mid
            }
        }
}

/// The seat due to act in `e` (meaningful when one is).
pub open spec fn due(e: GameEngine) -> int {
    e.turn()->0 as int
}

/// No AI turn can be taken: the game waits for nobody, or for a Human seat, or
/// for an AI seat that holds no card.
pub open spec fn ai_done(e: GameEngine) -> bool {
    match e.turn() {
        None => true,
        Some(i) => i >= e.players@.len() || !is_virtual(e.players@[i as int].conn_id) || e.hand_of(i as int).len()
            == 0,
    }
}

/// The messages of one AI turn from `a` (through `mid`, after the card) to `b`:
/// the PLAY_BROADCAST of the card to each open Human seat, then, when the trick
/// was resolved, its TRICK_RESULT (and GAME_OVER at the end of the game).
pub open spec fn step_sent(
    a: GameEngine,
    mid: GameEngine,
    b: GameEngine,
    msgs: Seq<(ConnectionId, ServerMessage)>,
    clients: Seq<ConnectionId>,
) -> bool {
    let conns = open_human_conns(a.players@, clients);
    let n = conns.len() as int;
    &&& msgs.len() >= n
    &&& announces_play(msgs, conns, a.players@[due(a)].player_id@, ai_choice(a, due(a)), a.current_trick)
    &&& if mid.table@.len() == 4 && resolvable(mid) {
        resolution_sent(mid, b, msgs.subrange(n, msgs.len() as int), clients)
    } else {
        msgs.len() == n
    }
}

/// One AI turn from `a` to `b` (as `ai_step` states) that sent `msgs`.
#[verifier::opaque]
pub open spec fn ai_step_sent(
    a: GameEngine,
    b: GameEngine,
    msgs: Seq<(ConnectionId, ServerMessage)>,
    clients: Seq<ConnectionId>,
) -> bool {
    exists|mid: GameEngine|
        {
            &&& a.turn() is Some
            &&& due(a) < a.players@.len()
            &&& is_virtual(a.players@[due(a)].conn_id)
            &&& a.hand_of(due(a)).contains(ai_choice(a, due(a)))
            &&& #[trigger] played(a, mid, due(a), ai_choice(a, due(a)))
            &&& if mid.table@.len() == 4 && resolvable(mid) {
                resolved(mid, b)
            } else {
                b == mid
            }
            &&& step_sent(a, mid, b, msgs, clients)
        }
}

/// The messages of consecutive turns, one after another.
pub open spec fn flat(ms: Seq<Seq<(ConnectionId, ServerMessage)>>) -> Seq<(ConnectionId, ServerMessage)>
    decreases ms.len(),
{
    if ms.len() == 0 {
        seq![]
    } else {
        flat(ms.drop_last()) + ms.last()
    }
}

/// `m` is the YOUR_TURN for seat `i` of `e`: its trick, its table, the legal cards
/// of that seat, and the advertised timeout.
pub open spec fn is_your_turn(m: ServerMessage, e: GameEngine, i: int) -> bool {
    match m {
        ServerMessage::YourTurn { trick, table, legal, timeout_ms } => {
            &&& trick == e.current_trick
            &&& plays_view(table@) == e.table_view()
            &&& texts(legal@) == tokens(legal_moves(e.hand_of(i), e.table@))
            &&& timeout_ms == TIMEOUT_MS
        },
        _ => false,
    }
}

/// When `e` waits for a Human seat with an open connection (and a well-formed
/// table), `tail` is that seat's one YOUR_TURN; otherwise `tail` is empty.
pub open spec fn your_turn_tail(e: GameEngine, clients: Seq<ConnectionId>, tail: Seq<(ConnectionId, ServerMessage)>) -> bool {
    let i = due(e);
    if e.turn() is Some && i < e.players@.len() && !is_virtual(e.players@[i].conn_id) && e.table_seats_ok()
        && clients.contains(e.players@[i].conn_id) {
        tail.len() == 1 && tail[0].0 == e.players@[i].conn_id && is_your_turn(tail[0].1, e, i)
    } else {
        tail.len() == 0
    }
}

/// AI turns ran from `start` to `end` through the engines `t`, turn `k` sending
/// `ms[k]`; then the Human due, if any, got `tail`; `after` is `before` with
/// all of these messages appended.
pub open spec fn ai_messages(
    t: Seq<GameEngine>,
    ms: Seq<Seq<(ConnectionId, ServerMessage)>>,
    tail: Seq<(ConnectionId, ServerMessage)>,
    start: GameEngine,
    end: GameEngine,
    clients: Seq<ConnectionId>,
    before: Seq<(ConnectionId, ServerMessage)>,
    after: Seq<(ConnectionId, ServerMessage)>,
) -> bool {
    &&& t.len() >= 1
    &&& t[0] == start
    &&& t.last() == end
    &&& ms.len() + 1 == t.len()
    &&& forall|k: int| 0 <= k < ms.len() ==> ai_step_sent(#[trigger] t[k], t[k + 1], ms[k], clients)
    &&& your_turn_tail(end, clients, tail)
    &&& after == before + flat(ms) + tail
}

proof fn lemma_open_conns_same(ps: Seq<crate::engine::GamePlayer>, qs: Seq<crate::engine::GamePlayer>, clients: Seq<ConnectionId>)
    requires
        ps.len() == qs.len(),
        forall|j: int| 0 <= j < ps.len() ==> #[trigger] ps[j].conn_id == qs[j].conn_id,
    ensures
        open_human_conns(ps, clients) == open_human_conns(qs, clients),
    decreases ps.len(),
{
    if ps.len() > 0 {
        assert forall|j: int| 0 <= j < ps.drop_last().len() implies #[trigger] ps.drop_last()[j].conn_id
            == qs.drop_last()[j].conn_id by {
            assert(ps[j].conn_id == qs[j].conn_id);
        }
        lemma_open_conns_same(ps.drop_last(), qs.drop_last(), clients);
        assert(ps[ps.len() - 1].conn_id == qs[qs.len() - 1].conn_id);
    }
}

/// `t` runs from `start` to `end` by AI turns.
pub open spec fn ai_trace(t: Seq<GameEngine>, start: GameEngine, end: GameEngine) -> bool {
    &&& t.len() >= 1
    &&& t[0] == start
    &&& t.last() == end
    &&& forall|k: int| 0 <= k < t.len() - 1 ==> ai_step(#[trigger] t[k], t[k + 1])
}

proof fn lemma_ai_trace_push(t: Seq<GameEngine>, start: GameEngine, end: GameEngine, next: GameEngine)
    requires
        ai_trace(t, start, end),
        ai_step(end, next),
    ensures
        ai_trace(t.push(next), start, next),
{
    let u = t.push(next);
    assert forall|k: int| 0 <= k < u.len() - 1 implies ai_step(#[trigger] u[k], u[k + 1]) by {
        if k < t.len() - 1 {
            assert(u[k] == t[k] && u[k + 1] == t[k + 1]);
        } else {
            assert(u[k] == end);
        }
    }
}

/// A copy of a table.
fn copy_table(t: &Vec<(usize, CardData)>) -> (r: Vec<(usize, CardData)>)
    ensures
        r@ == t@,
{
    let mut r: Vec<(usize, CardData)> = Vec::new();
    let mut i: usize = 0;
    while i < t.len()
        invariant
            i <= t@.len(),
            r@ == t@.subrange(0, i as int),
        decreases t.len() - i,
    {
        r.push(t[i]);
        i += 1;
        assert(r@ =~= t@.subrange(0, i as int));
    }
    assert(r@ =~= t@);
    r
}

/// The seat id of the card that wins the trick on the table of `e`.
pub open spec fn trick_winner_id(e: GameEngine) -> Seq<char> {
    e.players@[e.table@[winning_position(e.table@)].0 as int].player_id@
}

/// `m` is the GAME_OVER message of `e`: its score, the winning team, its history.
pub open spec fn is_game_over(m: ServerMessage, e: GameEngine) -> bool {
    match m {
        ServerMessage::GameOver { final_score, winner, history } => {
            &&& final_score == e.score
            &&& winner == winning_team(e.score)
            &&& history_view(history@) == history_view(e.history@)
        },
        _ => false,
    }
}

/// `r` is a TRICK_RESULT or GAME_OVER with the same contents as `m`.
#[verifier::opaque]
pub open spec fn same_message(r: ServerMessage, m: ServerMessage) -> bool {
    match (r, m) {
        (
            ServerMessage::TrickResult { trick: t1, plays: p1, winner: w1, score: s1 },
            ServerMessage::TrickResult { trick: t2, plays: p2, winner: w2, score: s2 },
        ) => t1 == t2 && plays_view(p1@) == plays_view(p2@) && w1@ == w2@ && s1 == s2,
        (
            ServerMessage::GameOver { final_score: s1, winner: w1, history: h1 },
            ServerMessage::GameOver { final_score: s2, winner: w2, history: h2 },
        ) => s1 == s2 && w1 == w2 && history_view(h1@) == history_view(h2@),
        _ => false,
    }
}

/// `msgs` tell the open Human seats of `after` how the trick of `before` went:
/// one TRICK_RESULT each, then, when the game is over, one GAME_OVER each.
pub open spec fn resolution_sent(
    before: GameEngine,
    after: GameEngine,
    msgs: Seq<(ConnectionId, ServerMessage)>,
    clients: Seq<ConnectionId>,
) -> bool {
    let conns = open_human_conns(after.players@, clients);
    let n = conns.len() as int;
    &&& msgs.len() == n + (if after.phase == GamePhase::GameOver { n } else { 0 })
    &&& forall|k: int|
        0 <= k < n ==> msgs[k].0 == #[trigger] conns[k] && is_trick_result(
            msgs[k].1,
            before.current_trick,
            before.table_view(),
            trick_winner_id(before),
            after.score,
        )
    &&& after.phase == GamePhase::GameOver ==> forall|k: int|
        0 <= k < n ==> msgs[n + k].0 == #[trigger] conns[k] && is_game_over(msgs[n + k].1, after)
}

fn copy_plays(v: &Vec<TablePlay>) -> (r: Vec<TablePlay>)
    ensures
        plays_view(r@) == plays_view(v@),
{
    let mut r: Vec<TablePlay> = Vec::new();
    let mut i: usize = 0;
    while i < v.len()
        invariant
            i <= v@.len(),
            plays_view(r@) == plays_view(v@.subrange(0, i as int)),
        decreases v.len() - i,
    {
        let ghost before = r@;
        let tp = TablePlay { player_id: v[i].player_id.clone(), card: v[i].card.clone() };
        r.push(tp);
        proof {
            assert(plays_view(r@) =~= plays_view(before).push(tp@));
            assert(plays_view(v@.subrange(0, i + 1)) =~= plays_view(v@.subrange(0, i as int)).push(v@[i as int]@));
        }
        i += 1;
    }
    assert(v@.subrange(0, v@.len() as int) =~= v@);
    r
}

fn copy_history(v: &Vec<TrickHistory>) -> (r: Vec<TrickHistory>)
    ensures
        history_view(r@) == history_view(v@),
{
    let mut r: Vec<TrickHistory> = Vec::new();
    let mut i: usize = 0;
    while i < v.len()
        invariant
            i <= v@.len(),
            history_view(r@) == history_view(v@.subrange(0, i as int)),
        decreases v.len() - i,
    {
        let ghost before = r@;
        let h = v[i].copy();
        r.push(h);
        proof {
            assert(history_view(r@) =~= history_view(before).push(h@));
            assert(history_view(v@.subrange(0, i + 1)) =~= history_view(v@.subrange(0, i as int)).push(v@[i as int]@));
        }
        i += 1;
    }
    assert(v@.subrange(0, v@.len() as int) =~= v@);
    r
}

/// A copy of a TRICK_RESULT or GAME_OVER.
fn copy_message(m: &ServerMessage) -> (r: ServerMessage)
    requires
        m is TrickResult || m is GameOver,
    ensures
        same_message(r, *m),
{
    reveal(same_message);
    match m {
        ServerMessage::TrickResult { trick, plays, winner, score } => ServerMessage::TrickResult {
            trick: *trick,
            plays: copy_plays(plays),
            winner: winner.clone(),
            score: *score,
        },
        ServerMessage::GameOver { final_score, winner, history } => ServerMessage::GameOver {
            final_score: *final_score,
            winner: *winner,
            history: copy_history(history),
        },
        _ => ServerMessage::Pong,
    }
}

/// Sends a copy of `m` to every open Human seat of game `gi`, in seat order.
fn broadcast_copies(gi: usize, m: &ServerMessage, state: &ServerState, out: &mut Outbox)
    requires
        gi < state.games@.len(),
        m is TrickResult || m is GameOver,
    ensures
        ({
            let conns = open_human_conns(state.games@[gi as int].1.players@, state.clients@);
            let sent = final(out)@.subrange(old(out)@.len() as int, final(out)@.len() as int);
            &&& final(out)@ == old(out)@ + sent
            &&& sent.len() == conns.len()
            &&& forall|k: int| 0 <= k < conns.len() ==> sent[k].0 == #[trigger] conns[k] && same_message(sent[k].1, *m)
        }),
{
    let engine = &state.games[gi].1;
    let ghost base = old(out)@;
    let ghost mut conns: Seq<ConnectionId> = seq![];
    let mut i: usize = 0;
    while i < engine.players.len()
        invariant
            *engine == state.games@[gi as int].1,
            m is TrickResult || m is GameOver,
            i <= engine.players@.len(),
            base == old(out)@,
            conns == open_human_conns(engine.players@.subrange(0, i as int), state.clients@),
            out@.len() == base.len() + conns.len(),
            forall|k: int| 0 <= k < base.len() ==> #[trigger] out@[k] == base[k],
            forall|k: int|
                0 <= k < conns.len() ==> out@[base.len() + k].0 == #[trigger] conns[k] && same_message(
                    out@[base.len() + k].1,
                    *m,
                ),
        decreases engine.players.len() - i,
    {
        let conn = engine.players[i].conn_id;
        let ghost before = out@;
        let ghost conns0 = conns;
        proof {
            assert(engine.players@.subrange(0, i + 1).drop_last() =~= engine.players@.subrange(0, i as int));
            assert(engine.players@.subrange(0, i + 1).last() == engine.players@[i as int]);
        }
        if !Room::is_virtual_conn(conn) && conn_position(&state.clients, conn).is_some() {
            let c = copy_message(m);
            out.push((conn, c));
            proof {
                conns = conns0.push(conn);
                assert(out@ == before.push((conn, c)));
                assert(out@[(base.len() + conns0.len()) as int] == (conn, c));
                assert(conns[conns0.len() as int] == conn);
                assert forall|k: int| 0 <= k < conns.len() implies out@[base.len() + k].0 == #[trigger] conns[k]
                    && same_message(out@[base.len() + k].1, *m) by {
                    if k < conns0.len() {
                        assert(out@[base.len() + k] == before[base.len() + k]);
                        assert(conns[k] == conns0[k]);
                        assert(before[base.len() + k].0 == conns0[k] && same_message(before[base.len() + k].1, *m));
                    } else {
                        assert(k == conns0.len());
                    }
                }
            }
        }
        assert(forall|k: int|
            0 <= k < conns.len() ==> out@[base.len() + k].0 == #[trigger] conns[k] && same_message(
                out@[base.len() + k].1,
                *m,
            ));
        i += 1;
    }
    assert(engine.players@.subrange(0, engine.players@.len() as int) =~= engine.players@);
    assert(conns == open_human_conns(state.games@[gi as int].1.players@, state.clients@));
    let ghost sent = out@.subrange(base.len() as int, out@.len() as int);
    assert(out@ =~= base + sent);
    assert forall|k: int| 0 <= k < conns.len() implies sent[k].0 == #[trigger] conns[k] && same_message(sent[k].1, *m) by {
        assert(sent[k] == out@[base.len() + k]);
        assert(out@[base.len() + k].0 == conns[k] && same_message(out@[base.len() + k].1, *m));
    }
}

/// Resolves the completed trick of game `gi` and tells the Humans; at the end of
/// the game also sends GAME_OVER. Returns whether play goes on.
fn finish_trick(room_id: &str, gi: usize, state: &mut ServerState, logger: &mut GameLogger, out: &mut Outbox) -> (r: bool)
    requires
        gi < old(state).games@.len(),
        old(state).games@[gi as int].1.phase == GamePhase::TrickComplete,
    ensures
        final(state).games@ == old(state).games@.update(gi as int, final(state).games@[gi as int]),
        final(state).games@[gi as int].0 == old(state).games@[gi as int].0,
        resolvable(old(state).games@[gi as int].1) ==> resolved(old(state).games@[gi as int].1, final(state).games@[gi as int].1)
            && (r <==> final(state).games@[gi as int].1.turn() is Some),
        !resolvable(old(state).games@[gi as int].1) ==> final(state).games@[gi as int].1 == old(state).games@[gi as int].1
            && !r && final(out)@ == old(out)@,
        resolvable(old(state).games@[gi as int].1) ==> {
            let sent = final(out)@.subrange(old(out)@.len() as int, final(out)@.len() as int);
            &&& final(out)@ == old(out)@ + sent
            &&& resolution_sent(old(state).games@[gi as int].1, final(state).games@[gi as int].1, sent, old(state).clients@)
        },
        game_ids(final(state).games@) == game_ids(old(state).games@),
        final(state).clients == old(state).clients,
        final(state).conn_to_room == old(state).conn_to_room,
        final(state).room_manager == old(state).room_manager,
        extends(old(out)@, final(out)@),
{
    {
        let engine = &state.games[gi].1;
        if engine.table.len() == 0 || !engine.table_seats_valid() || engine.score.human == u32::MAX
            || engine.score.ai == u32::MAX || engine.current_trick == u32::MAX {
            return false;
        }
    }
    let ghost ids = game_ids(state.games@);
    let resolution = state.games[gi].1.resolve_trick();
    assert(state.games@ =~= old(state).games@.update(gi as int, state.games@[gi as int]));
    assert(game_ids(state.games@) =~= ids);
    let ghost before_g = old(state).games@[gi as int].1;
    let ghost after_g = state.games@[gi as int].1;
    let ghost base = out@;
    match resolution {
        TrickResolution::NextTrick(result_msg, next_idx) => {
            broadcast_copies(gi, &result_msg, state, out);
            proof {
                reveal(same_message);
                let sent = out@.subrange(base.len() as int, out@.len() as int);
                assert(resolution_sent(before_g, after_g, sent, old(state).clients@));
            }
            let engine = &state.games[gi].1;
            if next_idx < engine.players.len() {
                let winner_id = engine.players[next_idx].player_id.clone();
                let trick_num = if engine.current_trick > 0 {
                    engine.current_trick - 1
                } else {
                    0
                };
                logger.trick_result(winner_id.as_str(), trick_num);
            }
            true
        },
        TrickResolution::GameOver(result_msg) => {
            broadcast_copies(gi, &result_msg, state, out);
            let ghost mid_out = out@;
            let game_over_msg = state.games[gi].1.game_over_message();
            broadcast_copies(gi, &game_over_msg, state, out);
            let ghost conns2 = open_human_conns(state.games@[gi as int].1.players@, state.clients@);
            let ghost s2b = out@.subrange(mid_out.len() as int, out@.len() as int);
            assert(forall|k: int| 0 <= k < conns2.len() ==> s2b[k].0 == #[trigger] conns2[k] && same_message(s2b[k].1, game_over_msg));
            proof {
                reveal(same_message);
                let conns = open_human_conns(after_g.players@, old(state).clients@);
                let n = conns.len() as int;
                let s1 = mid_out.subrange(base.len() as int, mid_out.len() as int);
                let s2 = out@.subrange(mid_out.len() as int, out@.len() as int);
                let sent = out@.subrange(base.len() as int, out@.len() as int);
                assert(sent =~= s1 + s2);
                assert(out@ =~= base + sent);
                assert forall|k: int| 0 <= k < n implies sent[k].0 == #[trigger] conns[k] && is_trick_result(
                    sent[k].1,
                    before_g.current_trick,
                    before_g.table_view(),
                    trick_winner_id(before_g),
                    after_g.score,
                ) by {
                    assert(sent[k] == s1[k]);
                    assert(s1[k].0 == conns[k] && same_message(s1[k].1, result_msg));
                }
                assert forall|k: int| 0 <= k < n implies sent[n + k].0 == #[trigger] conns[k] && is_game_over(
                    sent[n + k].1,
                    after_g,
                ) by {
                    assert(sent[n + k] == s2[k]);
                    assert(conns2 == conns);
                    assert(s2 == s2b);
                    assert(s2b[k].0 == conns2[k] && same_message(s2b[k].1, game_over_msg));
                }
                assert(resolution_sent(before_g, after_g, sent, old(state).clients@));
            }
            let human_score = state.games[gi].1.score.human;
            let ai_score = state.games[gi].1.score.ai;
            logger.game_end(room_id, human_score, ai_score);
            false
        },
    }
}

proof fn lemma_sent_step(a: GameEngine, b: GameEngine, msgs: Seq<(ConnectionId, ServerMessage)>, clients: Seq<ConnectionId>)
    requires
        ai_step_sent(a, b, msgs, clients),
    ensures
        ai_step(a, b),
{
    reveal(ai_step_sent);
    reveal(ai_step);
    let mid = choose|mid: GameEngine| {
        &&& a.turn() is Some
        &&& due(a) < a.players@.len()
        &&& is_virtual(a.players@[due(a)].conn_id)
        &&& a.hand_of(due(a)).contains(ai_choice(a, due(a)))
        &&& #[trigger] played(a, mid, due(a), ai_choice(a, due(a)))
        &&& if mid.table@.len() == 4 && resolvable(mid) {
            resolved(mid, b)
        } else {
            b == mid
        }
        &&& step_sent(a, mid, b, msgs, clients)
    };
    assert(played(a, mid, due(a), ai_choice(a, due(a))));
}

proof fn lemma_append_extends(a: Seq<(ConnectionId, ServerMessage)>, b: Seq<(ConnectionId, ServerMessage)>)
    ensures
        extends(a, a + b),
{
    assert forall|k: int| 0 <= k < a.len() implies #[trigger] (a + b)[k] == a[k] by {}
}

/// Records one AI turn: the trace grows by the new engine and the messages the
/// turn sent.
#[verifier::rlimit(100)]
proof fn lemma_record_step(
    trace: Seq<GameEngine>,
    ms: Seq<Seq<(ConnectionId, ServerMessage)>>,
    start: GameEngine,
    cur: GameEngine,
    mid: GameEngine,
    next: GameEngine,
    clients: Seq<ConnectionId>,
    old_out: Seq<(ConnectionId, ServerMessage)>,
    out0: Seq<(ConnectionId, ServerMessage)>,
    out1: Seq<(ConnectionId, ServerMessage)>,
    outf: Seq<(ConnectionId, ServerMessage)>,
) -> (chunk: Seq<(ConnectionId, ServerMessage)>)
    requires
        ai_trace(trace, start, cur),
        ms.len() + 1 == trace.len(),
        forall|k: int| 0 <= k < ms.len() ==> ai_step_sent(#[trigger] trace[k], trace[k + 1], ms[k], clients),
        out0 == old_out + flat(ms),
        cur.turn() is Some,
        due(cur) < cur.players@.len(),
        is_virtual(cur.players@[due(cur)].conn_id),
        cur.hand_of(due(cur)).contains(ai_choice(cur, due(cur))),
        played(cur, mid, due(cur), ai_choice(cur, due(cur))),
        open_human_conns(mid.players@, clients) == open_human_conns(cur.players@, clients),
        if mid.table@.len() == 4 && resolvable(mid) {
            resolved(mid, next)
        } else {
            next == mid
        },
        extends(out0, out1),
        out1.len() == out0.len() + open_human_conns(mid.players@, clients).len(),
        announces_play(
            out1.subrange(out0.len() as int, out1.len() as int),
            open_human_conns(mid.players@, clients),
            cur.players@[due(cur)].player_id@,
            ai_choice(cur, due(cur)),
            cur.current_trick,
        ),
        mid.table@.len() == 4 && resolvable(mid) ==> outf == out1 + outf.subrange(out1.len() as int, outf.len() as int)
            && resolution_sent(mid, next, outf.subrange(out1.len() as int, outf.len() as int), clients),
        !(mid.table@.len() == 4 && resolvable(mid)) ==> outf == out1,
    ensures
        chunk == outf.subrange(out0.len() as int, outf.len() as int),
        ai_trace(trace.push(next), start, next),
        ms.push(chunk).len() + 1 == trace.push(next).len(),
        forall|k: int|
            0 <= k < ms.push(chunk).len() ==> ai_step_sent(#[trigger] trace.push(next)[k], trace.push(next)[k + 1], ms.push(chunk)[k], clients),
        outf == old_out + flat(ms.push(chunk)),
{
    let chunk = outf.subrange(out0.len() as int, outf.len() as int);
    lemma_step_messages(cur, mid, next, clients, out0, out1, outf);
    assert(ai_step_sent(cur, next, chunk, clients)) by {
        reveal(ai_step_sent);
        assert(played(cur, mid, due(cur), ai_choice(cur, due(cur))));
    }
    lemma_sent_step(cur, next, chunk, clients);
    lemma_ai_trace_push(trace, start, cur, next);
    let ms2 = ms.push(chunk);
    assert(ms2.drop_last() =~= ms);
    assert(outf =~= old_out + flat(ms2));
    let t2 = trace.push(next);
    assert forall|k: int| 0 <= k < ms2.len() implies ai_step_sent(#[trigger] t2[k], t2[k + 1], ms2[k], clients) by {
        if k < ms.len() {
            assert(t2[k] == trace[k] && t2[k + 1] == trace[k + 1] && ms2[k] == ms[k]);
        } else {
            assert(t2[k] == cur);
        }
    }
    chunk
}

proof fn lemma_step_messages(
    cur: GameEngine,
    mid: GameEngine,
    next: GameEngine,
    clients: Seq<ConnectionId>,
    out0: Seq<(ConnectionId, ServerMessage)>,
    out1: Seq<(ConnectionId, ServerMessage)>,
    outf: Seq<(ConnectionId, ServerMessage)>,
)
    requires
        open_human_conns(mid.players@, clients) == open_human_conns(cur.players@, clients),
        extends(out0, out1),
        out1.len() == out0.len() + open_human_conns(mid.players@, clients).len(),
        announces_play(
            out1.subrange(out0.len() as int, out1.len() as int),
            open_human_conns(mid.players@, clients),
            cur.players@[due(cur)].player_id@,
            ai_choice(cur, due(cur)),
            cur.current_trick,
        ),
        mid.table@.len() == 4 && resolvable(mid) ==> outf == out1 + outf.subrange(out1.len() as int, outf.len() as int)
            && resolution_sent(mid, next, outf.subrange(out1.len() as int, outf.len() as int), clients),
        !(mid.table@.len() == 4 && resolvable(mid)) ==> outf == out1,
    ensures
        outf == out0 + outf.subrange(out0.len() as int, outf.len() as int),
        step_sent(cur, mid, next, outf.subrange(out0.len() as int, outf.len() as int), clients),
{
    let chunk = outf.subrange(out0.len() as int, outf.len() as int);
    let conns = open_human_conns(cur.players@, clients);
    let n = conns.len() as int;
    let s1 = out1.subrange(out0.len() as int, out1.len() as int);
    assert(out1 =~= out0 + s1) by {
        assert forall|k: int| 0 <= k < out0.len() implies #[trigger] out1[k] == out0[k] by {}
    }
    assert(outf =~= out0 + chunk);
    assert(chunk.subrange(0, n) =~= s1);
    assert forall|k: int| 0 <= k < n implies (#[trigger] chunk[k]).0 == conns[k] && crate::engine::is_broadcast(
        chunk[k].1,
        cur.players@[due(cur)].player_id@,
        ai_choice(cur, due(cur)),
        cur.current_trick,
    ) by {
        assert(chunk[k] == s1[k]);
        assert(s1[k].0 == conns[k]);
    }
    if mid.table@.len() == 4 && resolvable(mid) {
        let s2 = outf.subrange(out1.len() as int, outf.len() as int);
        assert(chunk.subrange(n, chunk.len() as int) =~= s2);
    } else {
        assert(chunk =~= s1);
    }
}

proof fn lemma_stop(
    trace: Seq<GameEngine>,
    ms: Seq<Seq<(ConnectionId, ServerMessage)>>,
    tail: Seq<(ConnectionId, ServerMessage)>,
    start: GameEngine,
    cur: GameEngine,
    clients: Seq<ConnectionId>,
    old_out: Seq<(ConnectionId, ServerMessage)>,
    out: Seq<(ConnectionId, ServerMessage)>,
)
    requires
        ai_trace(trace, start, cur),
        ms.len() + 1 == trace.len(),
        forall|k: int| 0 <= k < ms.len() ==> ai_step_sent(#[trigger] trace[k], trace[k + 1], ms[k], clients),
        your_turn_tail(cur, clients, tail),
        out == old_out + flat(ms) + tail,
    ensures
        ai_messages(trace, ms, tail, start, cur, clients, old_out, out),
        extends(old_out, out),
{
    assert forall|k: int| 0 <= k < old_out.len() implies #[trigger] out[k] == old_out[k] by {}
}

proof fn lemma_extend_trace(
    trace: Seq<GameEngine>,
    ms: Seq<Seq<(ConnectionId, ServerMessage)>>,
    start: GameEngine,
    cur: GameEngine,
    next: GameEngine,
    clients: Seq<ConnectionId>,
    old_out: Seq<(ConnectionId, ServerMessage)>,
    out0: Seq<(ConnectionId, ServerMessage)>,
    out: Seq<(ConnectionId, ServerMessage)>,
)
    requires
        ai_trace(trace, start, cur),
        ms.len() + 1 == trace.len(),
        forall|k: int| 0 <= k < ms.len() ==> ai_step_sent(#[trigger] trace[k], trace[k + 1], ms[k], clients),
        out0 == old_out + flat(ms),
        out == out0 + out.subrange(out0.len() as int, out.len() as int),
        ai_step_sent(cur, next, out.subrange(out0.len() as int, out.len() as int), clients),
    ensures
        ai_trace(trace.push(next), start, next),
        ms.push(out.subrange(out0.len() as int, out.len() as int)).len() + 1 == trace.push(next).len(),
        forall|k: int|
            0 <= k < ms.len() + 1 ==> ai_step_sent(
                #[trigger] trace.push(next)[k],
                trace.push(next)[k + 1],
                ms.push(out.subrange(out0.len() as int, out.len() as int))[k],
                clients,
            ),
        out == old_out + flat(ms.push(out.subrange(out0.len() as int, out.len() as int))),
        extends(old_out, out),
{
    let chunk = out.subrange(out0.len() as int, out.len() as int);
    lemma_sent_step(cur, next, chunk, clients);
    lemma_ai_trace_push(trace, start, cur, next);
    let ms2 = ms.push(chunk);
    let t2 = trace.push(next);
    assert(ms2.drop_last() =~= ms);
    assert(out =~= old_out + flat(ms2));
    assert forall|k: int| 0 <= k < ms2.len() implies ai_step_sent(#[trigger] t2[k], t2[k + 1], ms2[k], clients) by {
        if k < ms.len() {
            assert(t2[k] == trace[k] && t2[k + 1] == trace[k + 1] && ms2[k] == ms[k]);
        } else {
            assert(t2[k] == cur);
        }
    }
    assert forall|k: int| 0 <= k < old_out.len() implies #[trigger] out[k] == old_out[k] by {}
}

/// Plays one AI turn in game `gi`: the AI seat due plays the strategy's card, the
/// card is announced, and a completed trick is resolved and announced.
/// Returns whether play goes on.
fn ai_turn(room_id: &str, gi: usize, state: &mut ServerState, logger: &mut GameLogger, out: &mut Outbox) -> (r: bool)
    requires
        gi < old(state).games@.len(),
        old(state).games@[gi as int].1.turn() is Some,
        due(old(state).games@[gi as int].1) < old(state).games@[gi as int].1.players@.len(),
        is_virtual(old(state).games@[gi as int].1.players@[due(old(state).games@[gi as int].1)].conn_id),
        old(state).games@[gi as int].1.hand_of(due(old(state).games@[gi as int].1)).len() > 0,
    ensures
        final(state).clients == old(state).clients,
        final(state).conn_to_room == old(state).conn_to_room,
        final(state).room_manager == old(state).room_manager,
        game_ids(final(state).games@) == game_ids(old(state).games@),
        final(state).games@ == old(state).games@.update(gi as int, final(state).games@[gi as int]),
        final(state).games@[gi as int].0 == old(state).games@[gi as int].0,
        final(out)@ == old(out)@ + final(out)@.subrange(old(out)@.len() as int, final(out)@.len() as int),
        ai_step_sent(
            old(state).games@[gi as int].1,
            final(state).games@[gi as int].1,
            final(out)@.subrange(old(out)@.len() as int, final(out)@.len() as int),
            old(state).clients@,
        ),
        !r ==> final(state).games@[gi as int].1.turn() is None,
        cards_left(final(state).games@[gi as int].1.players@) < cards_left(old(state).games@[gi as int].1.players@),
{
    let ghost cur = state.games@[gi as int].1;
    let strategy = SmartStrategy;
    let current_idx = match state.games[gi].1.current_player_idx() {
        Some(idx) => idx,
        None => {
            return false;
        },
    };
    let (player_id, chosen_card, card_str, current_trick) = {
        let engine = &state.games[gi].1;
        let player_id = engine.players[current_idx].player_id.clone();
        let hand = copy_cards(&engine.players[current_idx].hand);
        let legal_moves = engine.get_legal_moves(current_idx);
        let table = copy_table(&engine.table);
        let is_leader = table.len() == 0;
        let chosen = strategy.choose_card(hand.as_slice(), legal_moves.as_slice(), table.as_slice(), is_leader);
        assert(chosen == ai_choice(cur, current_idx as int));
        proof {
            crate::engine::lemma_ai_choice_held(cur, current_idx as int);
        }
        (player_id, chosen, chosen.to_protocol_string(), engine.current_trick)
    };
    logger.play(player_id.as_str(), card_str.as_str(), current_trick);
    let ghost ids = game_ids(state.games@);
    let ghost out0 = out@;
    let play_result = state.games[gi].1.play_card(current_idx, chosen_card);
    assert(state.games@ =~= old(state).games@.update(gi as int, state.games@[gi as int]));
    assert(game_ids(state.games@) =~= ids);
    let ghost mid = state.games@[gi as int].1;
    proof {
        lemma_without_card_len(cur.hand_of(current_idx as int), chosen_card);
        lemma_cards_left_update(cur.players@, mid.players@, current_idx as int);
        assert forall|j: int| 0 <= j < mid.players@.len() implies #[trigger] mid.players@[j].conn_id
            == cur.players@[j].conn_id by {
            if j != current_idx as int {
                assert(mid.players@[j] == cur.players@[j]);
            }
        }
        lemma_open_conns_same(mid.players@, cur.players@, state.clients@);
    }
    broadcast_play(gi, &player_id, chosen_card, current_trick, state, out);
    let ghost out1 = out@;
    let go_on = match play_result {
        PlayResult::Continue(_, _next_idx) => true,
        PlayResult::TrickComplete(_) => finish_trick(room_id, gi, state, logger, out),
    };
    proof {
        let next = state.games@[gi as int].1;
        let no_turns: Seq<Seq<(ConnectionId, ServerMessage)>> = seq![];
        assert(out0 =~= out0 + flat(no_turns));
        let c = lemma_record_step(seq![cur], no_turns, cur, cur, mid, next, old(state).clients@, out0, out0, out1, out@);
        let t2 = seq![cur].push(next);
        assert(t2[0] == cur && t2[1] == next);
        assert(no_turns.push(c)[0] == c);
        assert(ai_step_sent(t2[0], t2[0int + 1], no_turns.push(c)[0], old(state).clients@));
        assert(out@ =~= out0 + c);
    }
    go_on
}

/// Lets the built-in AI seats of the room's game play, one card per turn as the
/// strategy chooses (see `ai_step_sent`), until no AI turn can be taken
/// (`ai_done`): the game is over, a Human seat is due, or the AI seat due holds
/// no card. Each turn sends its PLAY_BROADCAST, TRICK_RESULT and GAME_OVER
/// messages; a Human seat due at the end gets its YOUR_TURN (`your_turn_tail`),
/// and nothing else is sent. Each turn takes a card from a hand, so this ends.
#[verifier::rlimit(100)]
pub fn process_ai_turns(room_id: &str, state: &mut ServerState, logger: &mut GameLogger, out: &mut Outbox)
    ensures
        final(state).clients == old(state).clients,
        final(state).conn_to_room == old(state).conn_to_room,
        final(state).room_manager == old(state).room_manager,
        game_ids(final(state).games@) == game_ids(old(state).games@),
        extends(old(out)@, final(out)@),
        match game_from(game_ids(old(state).games@), room_id@, 0) {
            None => final(state).games == old(state).games && final(out)@ == old(out)@,
            Some(g) => {
                &&& final(state).games@ == old(state).games@.update(g as int, final(state).games@[g as int])
                &&& final(state).games@[g as int].0 == old(state).games@[g as int].0
                &&& exists|t: Seq<GameEngine>| #[trigger] ai_trace(t, old(state).games@[g as int].1, final(state).games@[g as int].1)
                &&& ai_done(final(state).games@[g as int].1)
                &&& exists|t: Seq<GameEngine>, ms: Seq<Seq<(ConnectionId, ServerMessage)>>, tail: Seq<(ConnectionId, ServerMessage)>|
                    #[trigger] ai_messages(
                        t,
                        ms,
                        tail,
                        old(state).games@[g as int].1,
                        final(state).games@[g as int].1,
                        old(state).clients@,
                        old(out)@,
                        final(out)@,
                    )
            },
        },
{
    let gi = match game_position(&state.games, room_id) {
        Some(gi) => gi,
        None => return,
    };
    let ghost start = state.games@[gi as int].1;
    let ghost mut trace: Seq<GameEngine> = seq![start];
    let ghost mut ms: Seq<Seq<(ConnectionId, ServerMessage)>> = seq![];
    assert(trace.last() == start);
    assert(out@ =~= old(out)@ + flat(ms));
    proof {
        lemma_append_extends(old(out)@, flat(ms));
    }
    loop
        invariant
            state.clients == old(state).clients,
            state.conn_to_room == old(state).conn_to_room,
            state.room_manager == old(state).room_manager,
            game_ids(state.games@) == game_ids(old(state).games@),
            gi < state.games@.len(),
            game_from(game_ids(old(state).games@), room_id@, 0) == Some(gi as nat),
            state.games@ == old(state).games@.update(gi as int, state.games@[gi as int]),
            state.games@[gi as int].0 == old(state).games@[gi as int].0,
            start == old(state).games@[gi as int].1,
            ai_trace(trace, start, state.games@[gi as int].1),
            ms.len() + 1 == trace.len(),
            forall|k: int| 0 <= k < ms.len() ==> ai_step_sent(#[trigger] trace[k], trace[k + 1], ms[k], old(state).clients@),
            out@ == old(out)@ + flat(ms),
            extends(old(out)@, out@),
        decreases cards_left(state.games@[gi as int].1.players@),
    {
        let ghost cur = state.games@[gi as int].1;
        let ghost out0 = out@;
        let current_idx = match state.games[gi].1.current_player_idx() {
            Some(idx) => idx,
            None => {
                proof {
                    assert(out@ =~= old(out)@ + flat(ms) + seq![]);
                    lemma_stop(trace, ms, seq![], start, cur, old(state).clients@, old(out)@, out@);
                }
                return;
            },
        };
        if current_idx >= state.games[gi].1.players.len() {
            proof {
                assert(out@ =~= old(out)@ + flat(ms) + seq![]);
                lemma_stop(trace, ms, seq![], start, cur, old(state).clients@, old(out)@, out@);
            }
            return;
        }
        let current_conn_id = state.games[gi].1.players[current_idx].conn_id;
        if !Room::is_virtual_conn(current_conn_id) {
            if state.games[gi].1.table_seats_valid() {
                let your_turn_msg = state.games[gi].1.your_turn_message(current_idx);
                send_to(&state.clients, current_conn_id, your_turn_msg, out);
            }
            proof {
                let tail = out@.subrange(out0.len() as int, out@.len() as int);
                assert(out@ =~= old(out)@ + flat(ms) + tail);
                assert(your_turn_tail(cur, old(state).clients@, tail));
                lemma_stop(trace, ms, tail, start, cur, old(state).clients@, old(out)@, out@);
            }
            return;
        }
        if state.games[gi].1.players[current_idx].hand.len() == 0 {
            proof {
                assert(out@ =~= old(out)@ + flat(ms) + seq![]);
                lemma_stop(trace, ms, seq![], start, cur, old(state).clients@, old(out)@, out@);
            }
            return;
        }
        let go_on = ai_turn(room_id, gi, state, logger, out);
        proof {
            let next = state.games@[gi as int].1;
            let chunk = out@.subrange(out0.len() as int, out@.len() as int);
            lemma_extend_trace(trace, ms, start, cur, next, old(state).clients@, old(out)@, out0, out@);
            trace = trace.push(next);
            ms = ms.push(chunk);
        }
        if !go_on {
            proof {
                assert(out@ =~= old(out)@ + flat(ms) + seq![]);
                lemma_stop(trace, ms, seq![], start, state.games@[gi as int].1, old(state).clients@, old(out)@, out@);
            }
            return;
        }
    }
}

/// Announces to every open Human seat of game `gi` that seat `id` played `card`.
fn broadcast_play(gi: usize, id: &String, card: CardData, trick: u32, state: &ServerState, out: &mut Outbox)
    requires
        gi < state.games@.len(),
    ensures
        extends(old(out)@, final(out)@),
        final(out)@.len() == old(out)@.len() + open_human_conns(state.games@[gi as int].1.players@, state.clients@).len(),
        announces_play(
            final(out)@.subrange(old(out)@.len() as int, final(out)@.len() as int),
            open_human_conns(state.games@[gi as int].1.players@, state.clients@),
            id@,
            card,
            trick,
        ),
{
    let engine = &state.games[gi].1;
    let ghost base = old(out)@.len();
    let mut i: usize = 0;
    while i < engine.players.len()
        invariant
            *engine == state.games@[gi as int].1,
            i <= engine.players@.len(),
            extends(old(out)@, out@),
            base == old(out)@.len(),
            out@.len() == base + open_human_conns(engine.players@.subrange(0, i as int), state.clients@).len(),
            announces_play(
                out@.subrange(base as int, out@.len() as int),
                open_human_conns(engine.players@.subrange(0, i as int), state.clients@),
                id@,
                card,
                trick,
            ),
        decreases engine.players.len() - i,
    {
        let conn = engine.players[i].conn_id;
        let ghost before = out@;
        proof {
            assert(engine.players@.subrange(0, i + 1).drop_last() =~= engine.players@.subrange(0, i as int));
        }
        if !Room::is_virtual_conn(conn) && conn_position(&state.clients, conn).is_some() {
            let m = ServerMessage::PlayBroadcast { player_id: id.clone(), card: card.to_protocol_string(), trick };
            out.push((conn, m));
            proof {
                let conns = open_human_conns(engine.players@.subrange(0, i + 1), state.clients@);
                let msgs = out@.subrange(base as int, out@.len() as int);
                assert forall|k: int| 0 <= k < conns.len() implies (#[trigger] msgs[k]).0 == conns[k]
                    && crate::engine::is_broadcast(msgs[k].1, id@, card, trick) by {
                    if k < conns.len() - 1 {
                        assert(msgs[k] == before.subrange(base as int, before.len() as int)[k]);
                    }
                }
            }
        } else {
            proof {
                assert(out@.subrange(base as int, out@.len() as int) =~= before.subrange(base as int, before.len() as int));
            }
        }
        i += 1;
    }
    assert(engine.players@.subrange(0, engine.players@.len() as int) =~= engine.players@);
}

/// The notice a Human gets when a disconnect resets its game.
pub open spec fn reset_notice_text() -> Seq<char> {
    "Game reset due to player disconnect. Waiting for players..."@
}

/// `m` is the ROOM_WAIT message of `room`.
pub open spec fn is_room_wait(m: ServerMessage, room: Room) -> bool {
    match m {
        ServerMessage::RoomWait { room: id, players, need } => {
            &&& id@ == room.id@
            &&& crate::room::infos_view(players@) == crate::room::seat_infos(room.players@)
            &&& need == room.needed()
        },
        _ => false,
    }
}

/// `msgs` are, for each connection of `conns` in order that is open, the reset
/// notice and then the ROOM_WAIT of `room`.
pub open spec fn reset_notices(
    msgs: Seq<(ConnectionId, ServerMessage)>,
    conns: Seq<ConnectionId>,
    clients: Seq<ConnectionId>,
    room: Room,
) -> bool
    decreases conns.len(),
{
    if conns.len() == 0 {
        msgs.len() == 0
    } else {
        let c = conns.last();
        if clients.contains(c) {
            &&& msgs.len() >= 2
            &&& msgs[msgs.len() - 2].0 == c
            &&& is_error_message(msgs[msgs.len() - 2].1, ErrorCode::ProtocolError, reset_notice_text())
            &&& msgs[msgs.len() - 1].0 == c
            &&& is_room_wait(msgs[msgs.len() - 1].1, room)
            &&& reset_notices(msgs.subrange(0, msgs.len() - 2), conns.drop_last(), clients, room)
        } else {
            reset_notices(msgs, conns.drop_last(), clients, room)
        }
    }
}

/// Forgets every link of `conn_id`.
fn unlink_all(links: &mut Vec<(ConnectionId, RoomId)>, conn_id: ConnectionId)
    ensures
        forall|k: int| 0 <= k < final(links)@.len() ==> (#[trigger] final(links)@[k]).0 != conn_id,
        forall|k: int|
            0 <= k < final(links)@.len() ==> old(links)@.contains(#[trigger] final(links)@[k]),
{
    let mut i: usize = 0;
    while i < links.len()
        invariant
            i <= links@.len(),
            forall|k: int| 0 <= k < i ==> (#[trigger] links@[k]).0 != conn_id,
            forall|k: int| 0 <= k < links@.len() ==> old(links)@.contains(#[trigger] links@[k]),
        decreases links.len() - i,
    {
        if links[i].0 == conn_id {
            let ghost before = links@;
            links.remove(i);
            assert forall|k: int| 0 <= k < links@.len() implies old(links)@.contains(#[trigger] links@[k]) by {
                if k < i {
                    assert(links@[k] == before[k]);
                } else {
                    assert(links@[k] == before[k + 1]);
                }
            }
        } else {
            i += 1;
        }
    }
}

/// A connection left a room. In Bridge Mode during a game the whole room is
/// reset: the game is dropped, every Human seat is evicted and loses its room
/// link, the AI seats stay, the seed changes, and each evicted Human still
/// connected gets a notice, then ROOM_WAIT.
pub fn handle_bridge_mode_disconnect(
    conn_id: ConnectionId,
    room_id: &str,
    state: &mut ServerState,
    logger: &mut GameLogger,
    out: &mut Outbox,
)
    ensures
        final(state).clients == old(state).clients,
        extends(old(out)@, final(out)@),
        forall|k: int|
            0 <= k < final(state).conn_to_room@.len() ==> old(state).conn_to_room@.contains(
                #[trigger] final(state).conn_to_room@[k],
            ),
        final(state).room_manager.room_list().len() == old(state).room_manager.room_list().len(),
        match crate::room::room_from(old(state).room_manager.room_list(), room_id@, 0) {
            Some(i) => {
                let before = old(state).room_manager.room_list()[i as int];
                let after = final(state).room_manager.room_list()[i as int];
                &&& final(state).room_manager.room_list() == old(state).room_manager.room_list().update(i as int, after)
                &&& exists|mid: Room, p: Option<crate::room::Player>| {
                    &&& crate::room::seat_removed(before, mid, conn_id, p)
                    &&& if before.bridge_mode && before.state == RoomState::Playing {
                        &&& crate::room::is_bridge_reset(mid, after)
                        &&& !game_ids(final(state).games@).contains(room_id@)
                        &&& forall|k: int|
                            0 <= k < final(state).conn_to_room@.len() ==> !crate::room::human_conns(mid.players@).contains(
                                (#[trigger] final(state).conn_to_room@[k]).0,
                            )
                        &&& reset_notices(
                            final(out)@.subrange(old(out)@.len() as int, final(out)@.len() as int),
                            crate::room::human_conns(mid.players@),
                            old(state).clients@,
                            after,
                        )
                    } else {
                        &&& after == mid
                        &&& final(state).games == old(state).games
                        &&& final(state).conn_to_room == old(state).conn_to_room
                        &&& final(out)@ == old(out)@
                    }
                }
            },
            None => final(state).room_manager == old(state).room_manager && final(state).games == old(
                state,
            ).games && final(out)@ == old(out)@,
        },
{
    let ri = match state.room_manager.room_index(room_id) {
        Some(ri) => ri,
        None => return,
    };
    let ghost before = state.room_manager.room_list()[ri as int];
    let (player, is_bridge_mode, was_playing) = {
        let room = state.room_manager.room_at_mut(ri);
        let player = room.remove_player(conn_id);
        (player, room.bridge_mode, room.state == RoomState::Playing)
    };
    let ghost mid = state.room_manager.room_list()[ri as int];
    let ghost rooms_mid = state.room_manager.room_list();
    assert(rooms_mid =~= old(state).room_manager.room_list().update(ri as int, mid));
    if let Some(p) = &player {
        logger.player_leave(p.player_id.as_str(), p.nickname.as_str(), room_id);
    }
    if !(is_bridge_mode && was_playing) {
        assert(crate::room::seat_removed(before, mid, conn_id, player));
        return;
    }
    remove_game(&mut state.games, room_id);
    let removed_humans = {
        let room = state.room_manager.room_at_mut(ri);
        room.reset_for_bridge_mode()
    };
    let ghost after = state.room_manager.room_list()[ri as int];
    assert(state.room_manager.room_list() =~= old(state).room_manager.room_list().update(ri as int, after));
    let mut i: usize = 0;
    while i < removed_humans.len()
        invariant
            state.clients == old(state).clients,
            !game_ids(state.games@).contains(room_id@),
            state.room_manager.room_list() == old(state).room_manager.room_list().update(ri as int, after),
            ri < old(state).room_manager.room_list().len(),
            i <= removed_humans@.len(),
            forall|k: int, j: int|
                0 <= k < state.conn_to_room@.len() && 0 <= j < i ==> (#[trigger] state.conn_to_room@[k]).0
                    != #[trigger] removed_humans@[j],
            forall|k: int|
                0 <= k < state.conn_to_room@.len() ==> old(state).conn_to_room@.contains(
                    #[trigger] state.conn_to_room@[k],
                ),
        decreases removed_humans.len() - i,
    {
        let ghost prev = state.conn_to_room@;
        unlink_all(&mut state.conn_to_room, removed_humans[i]);
        proof {
            assert forall|k: int| 0 <= k < state.conn_to_room@.len() implies old(state).conn_to_room@.contains(
                #[trigger] state.conn_to_room@[k],
            ) by {
                let e = state.conn_to_room@[k];
                assert(prev.contains(e));
                let m = choose|m: int| 0 <= m < prev.len() && prev[m] == e;
                assert(old(state).conn_to_room@.contains(prev[m]));
            }
            assert forall|k: int, j: int|
                0 <= k < state.conn_to_room@.len() && 0 <= j < i + 1 implies (#[trigger] state.conn_to_room@[k]).0
                    != #[trigger] removed_humans@[j] by {
                let e = state.conn_to_room@[k];
                assert(prev.contains(e));
                let m = choose|m: int| 0 <= m < prev.len() && prev[m] == e;
                if j < i {
                    assert(prev[m].0 != removed_humans@[j]);
                }
            }
        }
        i += 1;
    }
    assert forall|k: int|
        0 <= k < state.conn_to_room@.len() implies !crate::room::human_conns(mid.players@).contains(
        (#[trigger] state.conn_to_room@[k]).0,
    ) by {
        if removed_humans@.contains(state.conn_to_room@[k].0) {
            let j = choose|j: int| 0 <= j < removed_humans@.len() && removed_humans@[j] == state.conn_to_room@[k].0;
            assert(state.conn_to_room@[k].0 != removed_humans@[j]);
        }
    }
    let room = state.room_manager.room_at(ri);
    proof {
        crate::room::lemma_ai_seats_roles(mid.players@);
        crate::room::lemma_humans_by_view(after.players@, crate::room::ai_seats(mid.players@));
    }
    let ghost start = out@;
    let mut k: usize = 0;
    while k < removed_humans.len()
        invariant
            *room == after,
            after.within_capacity(),
            extends(old(out)@, start),
            extends(start, out@),
            start == old(out)@,
            k <= removed_humans@.len(),
            state.clients == old(state).clients,
            reset_notices(out@.subrange(start.len() as int, out@.len() as int), removed_humans@.subrange(0, k as int), state.clients@, after),
        decreases removed_humans.len() - k,
    {
        let c = removed_humans[k];
        let ghost before_out = out@;
        if conn_position(&state.clients, c).is_some() {
            send_to(
                &state.clients,
                c,
                error_message(ErrorCode::ProtocolError, "Game reset due to player disconnect. Waiting for players..."),
                out,
            );
            send_to(&state.clients, c, room.room_wait_message(), out);
        }
        proof {
            let conns = removed_humans@.subrange(0, k + 1);
            assert(conns.drop_last() =~= removed_humans@.subrange(0, k as int));
            assert(conns.last() == c);
            let msgs = out@.subrange(start.len() as int, out@.len() as int);
            if state.clients@.contains(c) {
                assert(msgs.subrange(0, msgs.len() - 2) =~= before_out.subrange(start.len() as int, before_out.len() as int));
            } else {
                assert(msgs =~= before_out.subrange(start.len() as int, before_out.len() as int));
            }
        }
        k += 1;
    }
    assert(removed_humans@.subrange(0, removed_humans@.len() as int) =~= removed_humans@);
    assert(crate::room::seat_removed(before, mid, conn_id, player));
}

/// Sends "Game reset by admin" to the Human seats of room `ri`.
fn notify_reset(ri: usize, state: &ServerState, out: &mut Outbox)
    requires
        ri < state.room_manager.room_list().len(),
    ensures
        extends(old(out)@, final(out)@),
        admin_notices(
            final(out)@.subrange(old(out)@.len() as int, final(out)@.len() as int),
            state.room_manager.room_list()[ri as int].players@,
            state.clients@,
        ),
{
    let room = state.room_manager.room_at(ri);
    let ghost base = old(out)@;
    let mut k: usize = 0;
    while k < room.players.len()
        invariant
            *room == state.room_manager.room_list()[ri as int],
            k <= room.players@.len(),
            base == old(out)@,
            extends(base, out@),
            admin_notices(out@.subrange(base.len() as int, out@.len() as int), room.players@.subrange(0, k as int), state.clients@),
        decreases room.players.len() - k,
    {
        let c = room.players[k].conn_id;
        let ghost before = out@;
        if !Room::is_virtual_conn(c) {
            send_to(&state.clients, c, error_message(ErrorCode::ProtocolError, "Game reset by admin"), out);
        }
        proof {
            let ps = room.players@.subrange(0, k + 1);
            assert(ps.drop_last() =~= room.players@.subrange(0, k as int));
            assert(ps.last() == room.players@[k as int]);
            let m0 = before.subrange(base.len() as int, before.len() as int);
            let m1 = out@.subrange(base.len() as int, out@.len() as int);
            if !is_virtual(c) && state.clients@.contains(c) {
                assert(m1.drop_last() =~= m0);
            } else {
                assert(m1 =~= m0);
            }
            lemma_extends_trans(base, before, out@);
        }
        k += 1;
    }
    assert(room.players@.subrange(0, room.players@.len() as int) =~= room.players@);
}

/// `msgs` are, for each seat of `players` in order that is a real, open
/// connection, the notice "Game reset by admin".
pub open spec fn admin_notices(
    msgs: Seq<(ConnectionId, ServerMessage)>,
    players: Seq<crate::room::Player>,
    clients: Seq<ConnectionId>,
) -> bool
    decreases players.len(),
{
    if players.len() == 0 {
        msgs.len() == 0
    } else {
        let c = players.last().conn_id;
        if !is_virtual(c) && clients.contains(c) {
            &&& msgs.len() >= 1
            &&& msgs.last().0 == c
            &&& is_error_message(msgs.last().1, ErrorCode::ProtocolError, "Game reset by admin"@)
            &&& admin_notices(msgs.drop_last(), players.drop_last(), clients)
        } else {
            admin_notices(msgs, players.drop_last(), clients)
        }
    }
}

/// `after` is room `before` reset by an admin: Bridge Mode rooms get the full
/// reset, classic rooms only wait again.
pub open spec fn admin_reset_of(before: Room, after: Room) -> bool {
    if before.bridge_mode {
        crate::room::is_bridge_reset(before, after)
    } else {
        &&& after.state == RoomState::Waiting
        &&& after.players == before.players
        &&& after.nicknames == before.nicknames
        &&& after.id == before.id
        &&& after.seed == before.seed
        &&& after.bridge_mode == before.bridge_mode
    }
}

/// `v` lists `rooms` in order: id, state name, seats and Human seats.
pub open spec fn rooms_listed(v: Seq<RoomInfo>, rooms: Seq<Room>) -> bool {
    &&& v.len() == rooms.len()
    &&& forall|i: int|
        0 <= i < v.len() ==> {
            &&& (#[trigger] v[i]).id@ == rooms[i].id@
            &&& v[i].state@ == crate::room::state_name(rooms[i].state)
            &&& v[i].player_count == rooms[i].players@.len()
            &&& v[i].human_count == crate::room::humans(rooms[i].players@)
        }
}

/// `v` lists every seat of `rooms`, rooms in order, seats in order.
pub open spec fn players_listed(v: Seq<PlayerInfo>, rooms: Seq<Room>) -> bool {
    let all = crate::room::all_seats(rooms);
    &&& v.len() == all.len()
    &&& forall|i: int|
        0 <= i < v.len() ==> {
            &&& (#[trigger] v[i]).player_id@ == all[i].1.player_id@
            &&& v[i].nickname@ == all[i].1.nickname@
            &&& v[i].room_id@ == all[i].0
            &&& v[i].role@ == crate::room::role_name(all[i].1.role)
            &&& v[i].is_ai == (all[i].1.role == Role::Ai)
        }
}

/// What a kick of seat id `id` does to the state and answers.
pub open spec fn kick_outcome(
    id: Seq<char>,
    old_state: ServerState,
    new_state: ServerState,
    old_out: Seq<(ConnectionId, ServerMessage)>,
    new_out: Seq<(ConnectionId, ServerMessage)>,
    r: AdminResponse,
) -> bool {
    let all = crate::room::all_seats(old_state.room_manager.room_list());
    match crate::room::first_seat_with_id(all, id, 0) {
        None => r is Error && new_state == old_state && new_out == old_out,
        Some(k) => {
            let conn = all[k as int].1.conn_id;
            let rid = all[k as int].0;
            if is_virtual(conn) {
                r is Error && new_state == old_state && new_out == old_out
            } else {
                &&& r is Done
                &&& old_state.clients@.contains(conn) ==> new_out.len() == old_out.len() + 1 && new_out[old_out.len() as int].0
                    == conn && is_error_message(
                    new_out[old_out.len() as int].1,
                    ErrorCode::ProtocolError,
                    "You have been kicked by admin"@,
                )
                &&& !old_state.clients@.contains(conn) ==> new_out == old_out
                &&& !new_state.clients@.contains(conn)
                &&& forall|j: int| 0 <= j < new_state.conn_to_room@.len() ==> (#[trigger] new_state.conn_to_room@[j]).0 != conn
                &&& match crate::room::room_from(old_state.room_manager.room_list(), rid, 0) {
                    Some(i) => {
                        let before = old_state.room_manager.room_list()[i as int];
                        let after = new_state.room_manager.room_list()[i as int];
                        &&& new_state.room_manager.room_list() == old_state.room_manager.room_list().update(i as int, after)
                        &&& exists|mid: Room, p: Option<crate::room::Player>| {
                            &&& crate::room::seat_removed(before, mid, conn, p)
                            &&& if p is Some && before.bridge_mode && before.state == RoomState::Playing {
                                crate::room::is_bridge_reset(mid, after) && !game_ids(new_state.games@).contains(rid)
                            } else {
                                after == mid
                            }
                        }
                    },
                    None => new_state.room_manager.room_list() == old_state.room_manager.room_list(),
                }
            }
        },
    }
}

/// Resets room `ri` after an admin request: Bridge Mode rooms get the full reset,
/// classic rooms just wait again.
fn reset_room(ri: usize, state: &mut ServerState)
    requires
        ri < old(state).room_manager.room_list().len(),
    ensures
        final(state).room_manager.room_list() == old(state).room_manager.room_list().update(
            ri as int,
            final(state).room_manager.room_list()[ri as int],
        ),
        admin_reset_of(old(state).room_manager.room_list()[ri as int], final(state).room_manager.room_list()[ri as int]),
        final(state).room_manager.room_list()[ri as int].state == RoomState::Waiting,
        final(state).clients == old(state).clients,
        final(state).games == old(state).games,
        final(state).conn_to_room == old(state).conn_to_room,
{
    let room = state.room_manager.room_at_mut(ri);
    if room.bridge_mode {
        room.reset_for_bridge_mode();
    } else {
        room.state = RoomState::Waiting;
    }
}

/// The rooms, as listed to the console.
fn rooms_report(state: &ServerState) -> (v: Vec<RoomInfo>)
    ensures
        rooms_listed(v@, state.room_manager.room_list()),
{
    let rooms = state.room_manager.get_all_rooms_info();
    let mut infos: Vec<RoomInfo> = Vec::new();
    let mut i: usize = 0;
    while i < rooms.len()
        invariant
            i <= rooms@.len(),
            rooms@.len() == state.room_manager.room_list().len(),
            infos@.len() == i,
            forall|k: int|
                0 <= k < i ==> {
                    &&& (#[trigger] infos@[k]).id@ == rooms@[k].0@
                    &&& infos@[k].state@ == rooms@[k].1@
                    &&& infos@[k].player_count == rooms@[k].2
                    &&& infos@[k].human_count == rooms@[k].3
                },
        decreases rooms.len() - i,
    {
        infos.push(
            RoomInfo {
                id: rooms[i].0.clone(),
                state: rooms[i].1.clone(),
                player_count: rooms[i].2,
                human_count: rooms[i].3,
            },
        );
        i += 1;
    }
    infos
}

/// Every seat, as listed to the console.
fn players_report(state: &ServerState) -> (v: Vec<PlayerInfo>)
    ensures
        players_listed(v@, state.room_manager.room_list()),
{
    let players = state.room_manager.get_all_players_info();
    let mut infos: Vec<PlayerInfo> = Vec::new();
    let mut i: usize = 0;
    while i < players.len()
        invariant
            i <= players@.len(),
            infos@.len() == i,
            forall|k: int|
                0 <= k < i ==> {
                    &&& (#[trigger] infos@[k]).player_id@ == players@[k].0@
                    &&& infos@[k].nickname@ == players@[k].1@
                    &&& infos@[k].room_id@ == players@[k].2@
                    &&& infos@[k].role@ == players@[k].3@
                    &&& infos@[k].is_ai == players@[k].4
                },
        decreases players.len() - i,
    {
        infos.push(
            PlayerInfo {
                player_id: players[i].0.clone(),
                nickname: players[i].1.clone(),
                room_id: players[i].2.clone(),
                role: players[i].3.clone(),
                is_ai: players[i].4,
            },
        );
        i += 1;
    }
    infos
}

/// Kicks the first seat with id `player_id`, see `kick_outcome`.
fn kick_player(player_id: &str, state: &mut ServerState, logger: &mut GameLogger, out: &mut Outbox) -> (r: AdminResponse)
    ensures
        kick_outcome(player_id@, *old(state), *final(state), old(out)@, final(out)@, r),
        extends(old(out)@, final(out)@),
{
    match state.room_manager.find_player_conn(player_id) {
        Some((conn_id, room_id)) => {
            if Room::is_virtual_conn(conn_id) {
                return AdminResponse::Error(string_from("Cannot kick AI player"));
            }
            send_to(
                &state.clients,
                conn_id,
                error_message(ErrorCode::ProtocolError, "You have been kicked by admin"),
                out,
            );
            remove_client(&mut state.clients, conn_id);
            unlink_all(&mut state.conn_to_room, conn_id);
            let ghost links = state.conn_to_room@;
            let ghost clients = state.clients@;
            if let Some(ri) = state.room_manager.room_index(room_id.as_str()) {
                let ghost before = state.room_manager.room_list()[ri as int];
                let (player, bridge, was_playing) = {
                    let room = state.room_manager.room_at_mut(ri);
                    let was_playing = room.state == RoomState::Playing;
                    (room.remove_player(conn_id), room.bridge_mode, was_playing)
                };
                let ghost mid = state.room_manager.room_list()[ri as int];
                if let Some(player) = &player {
                    let mut detail = string_from("Kicked ");
                    detail.append(player.nickname.as_str());
                    detail.append(" from ");
                    detail.append(room_id.as_str());
                    logger.admin_action("KICK", detail.as_str());
                    if bridge && was_playing {
                        remove_game(&mut state.games, room_id.as_str());
                        let room = state.room_manager.room_at_mut(ri);
                        room.reset_for_bridge_mode();
                    }
                }
                let ghost after = state.room_manager.room_list()[ri as int];
                assert(state.room_manager.room_list() =~= old(state).room_manager.room_list().update(ri as int, after));
                assert(crate::room::seat_removed(before, mid, conn_id, player));
            }
            assert(state.conn_to_room@ == links);
            assert(state.clients@ == clients);
            let mut text = string_from("Player ");
            text.append(player_id);
            text.append(" kicked from ");
            text.append(room_id.as_str());
            AdminResponse::Done(text)
        },
        None => {
            let mut text = string_from("Player ");
            text.append(player_id);
            text.append(" not found");
            AdminResponse::Error(text)
        },
    }
}

/// Answers a request of the administrative console: status counts, the room and
/// seat listings, a kick (see `kick_outcome`), or a reset of one playing room or of
/// every room with a game. Refused requests change nothing.
pub fn handle_admin_event(event: AdminEvent, state: &mut ServerState, logger: &mut GameLogger, out: &mut Outbox) -> (r: AdminResponse)
    ensures
        extends(old(out)@, final(out)@),
        match event {
            AdminEvent::GetStatus => r == (AdminResponse::Status {
                total_connections: old(state).clients@.len() as usize,
                total_rooms: old(state).room_manager.room_list().len() as usize,
                games_in_progress: old(state).games@.len() as usize,
            }) && *final(state) == *old(state),
            AdminEvent::GetRooms => r matches AdminResponse::Rooms(v) && rooms_listed(v@, old(state).room_manager.room_list())
                && *final(state) == *old(state),
            AdminEvent::GetPlayers => r matches AdminResponse::Players(v) && players_listed(
                v@,
                old(state).room_manager.room_list(),
            ) && *final(state) == *old(state),
            AdminEvent::KickPlayer { player_id } => kick_outcome(player_id@, *old(state), *final(state), old(out)@, final(out)@, r),
            AdminEvent::ResetRoom { room_id: Some(rid) } => match crate::room::room_from(
                old(state).room_manager.room_list(),
                rid@,
                0,
            ) {
                Some(i) => if old(state).room_manager.room_list()[i as int].state == RoomState::Playing {
                    &&& r is Done
                    &&& admin_notices(
                        final(out)@.subrange(old(out)@.len() as int, final(out)@.len() as int),
                        old(state).room_manager.room_list()[i as int].players@,
                        old(state).clients@,
                    )
                    &&& !game_ids(final(state).games@).contains(rid@)
                    &&& final(state).room_manager.room_list()[i as int].state == RoomState::Waiting
                    &&& admin_reset_of(old(state).room_manager.room_list()[i as int], final(state).room_manager.room_list()[i as int])
                    &&& final(state).room_manager.room_list() == old(state).room_manager.room_list().update(
                        i as int,
                        final(state).room_manager.room_list()[i as int],
                    )
                    &&& final(state).clients == old(state).clients
                } else {
                    r is Error && *final(state) == *old(state) && final(out)@ == old(out)@
                },
                None => r is Error && *final(state) == *old(state) && final(out)@ == old(out)@,
            },
            AdminEvent::ResetRoom { room_id: None } => r is Done && final(state).games@.len() == 0 && final(state).clients
                == old(state).clients,
        },
{
    match event {
        AdminEvent::GetStatus => AdminResponse::Status {
            total_connections: state.clients.len(),
            total_rooms: state.room_manager.rooms_count(),
            games_in_progress: state.games.len(),
        },
        AdminEvent::GetRooms => AdminResponse::Rooms(rooms_report(state)),
        AdminEvent::GetPlayers => AdminResponse::Players(players_report(state)),
        AdminEvent::KickPlayer { player_id } => kick_player(player_id.as_str(), state, logger, out),
        AdminEvent::ResetRoom { room_id } => match room_id {
            Some(rid) => {
                match state.room_manager.room_index(rid.as_str()) {
                    Some(ri) => {
                        if state.room_manager.room_at(ri).state != RoomState::Playing {
                            let mut text = string_from("Room ");
                            text.append(rid.as_str());
                            text.append(" is not in playing state");
                            return AdminResponse::Error(text);
                        }
                        remove_game(&mut state.games, rid.as_str());
                        notify_reset(ri, state, out);
                        reset_room(ri, state);
                        let mut detail = string_from("Reset room ");
                        detail.append(rid.as_str());
                        logger.admin_action("RESET", detail.as_str());
                        let mut text = string_from("Room ");
                        text.append(rid.as_str());
                        text.append(" reset successfully");
                        AdminResponse::Done(text)
                    },
                    None => {
                        let mut text = string_from("Room ");
                        text.append(rid.as_str());
                        text.append(" not found");
                        AdminResponse::Error(text)
                    },
                }
            },
            None => {
                let mut reset_count: usize = 0;
                let n0 = state.games.len();
                while state.games.len() > 0
                    invariant
                        extends(old(out)@, out@),
                        state.clients == old(state).clients,
                        state.games@.len() <= n0,
                        reset_count <= n0 - state.games@.len(),
                    decreases state.games.len(),
                {
                    let ghost before = state.games@.len();
                    let (rid, _) = state.games.remove(0);
                    remove_game(&mut state.games, rid.as_str());
                    if let Some(ri) = state.room_manager.room_index(rid.as_str()) {
                        notify_reset(ri, state, out);
                        reset_room(ri, state);
                        assert(state.games@.len() < before);
                        reset_count += 1;
                    }
                }
                let mut detail = string_from("Reset ");
                push_decimal(&mut detail, reset_count as u64);
                detail.append(" rooms");
                logger.admin_action("RESET", detail.as_str());
                let mut text = String::new();
                push_decimal(&mut text, reset_count as u64);
                text.append(" rooms reset");
                AdminResponse::Done(text)
            },
        },
    }
}

} // verus!
