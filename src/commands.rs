use vstd::prelude::*;
use vstd::string::*;
use crate::logger::{EventType, GameLogger};
use crate::text::{decimal, pad_right, push_decimal, push_padded, push_repeated, repeat_char, string_from, to_upper, upper_of};

verus! {

/// A request of the administrative console to the event loop.
#[derive(Debug, Clone)]
pub enum AdminEvent {
    GetStatus,
    GetRooms,
    GetPlayers,
    KickPlayer { player_id: String },
    ResetRoom { room_id: Option<String> },
}

/// The event loop's answer to an `AdminEvent`.
#[derive(Debug, Clone)]
pub enum AdminResponse {
    Status { total_connections: usize, total_rooms: usize, games_in_progress: usize },
    Rooms(Vec<RoomInfo>),
    Players(Vec<PlayerInfo>),
    Done(String),
    Error(String),
}

/// A room as listed to the console.
#[derive(Debug, Clone)]
pub struct RoomInfo {
    pub id: String,
    pub state: String,
    pub player_count: usize,
    pub human_count: usize,
}

/// A seat as listed to the console.
#[derive(Debug, Clone)]
pub struct PlayerInfo {
    pub player_id: String,
    pub nickname: String,
    pub room_id: String,
    pub role: String,
    pub is_ai: bool,
}

/// A parsed console line.
#[derive(Debug)]
pub enum ParsedCommand {
    Help,
    Auth(String),
    Status,
    Rooms,
    Players,
    Logs(usize, Option<EventType>),
    Kick(String),
    Reset(Option<String>),
    Quit,
    Unknown(String),
}

/// Unicode White_Space, the characters `char::is_whitespace` accepts.
pub open spec fn is_space(c: char) -> bool {
    let u = c as u32;
    (0x9 <= u <= 0xD) || u == 0x20 || u == 0x85 || u == 0xA0 || u == 0x1680 || (0x2000 <= u
        <= 0x200A) || u == 0x2028 || u == 0x2029 || u == 0x202F || u == 0x205F || u == 0x3000
}

fn is_space_char(c: char) -> (r: bool)
    ensures
        r == is_space(c),
{
    let u = c as u32;
    (0x9 <= u && u <= 0xD) || u == 0x20 || u == 0x85 || u == 0xA0 || u == 0x1680 || (0x2000 <= u && u
        <= 0x200A) || u == 0x2028 || u == 0x2029 || u == 0x202F || u == 0x205F || u == 0x3000
}

/// The words of `s` from position `i` on, given the word `cur` in progress and
/// the words `acc` already found: maximal runs of non-space characters.
pub open spec fn words_from(s: Seq<char>, i: nat, cur: Seq<char>, acc: Seq<Seq<char>>) -> Seq<Seq<char>>
    decreases s.len() - i,
{
    if i >= s.len() {
        if cur.len() > 0 {
            acc.push(cur)
        } else {
            acc
        }
    } else if is_space(s[i as int]) {
        words_from(
            s,
            i + 1,
            seq![],
            if cur.len() > 0 {
                acc.push(cur)
            } else {
                acc
            },
        )
    } else {
        words_from(s, i + 1, cur.push(s[i as int]), acc)
    }
}

/// The whitespace-separated words of `s`.
pub open spec fn words(s: Seq<char>) -> Seq<Seq<char>> {
    words_from(s, 0, seq![], seq![])
}

/// The value of a string of decimal digits.
pub open spec fn digits_value(d: Seq<char>) -> nat
    decreases d.len(),
{
    if d.len() == 0 {
        0
    } else {
        digits_value(d.drop_last()) * 10 + match crate::text::digit_value(d.last()) {
            Some(v) => v,
            None => 0,
        }
    }
}

/// Every character is a decimal digit.
pub open spec fn all_digits(d: Seq<char>) -> bool {
    forall|k: int| 0 <= k < d.len() ==> #[trigger] crate::text::digit_value(d[k]) is Some
}

/// What `usize::from_str` accepts: an optional '+', then one or more decimal
/// digits, with a value that fits.
pub open spec fn parse_usize(t: Seq<char>) -> Option<usize> {
    let d = if t.len() > 0 && t[0] == '+' {
        t.drop_first()
    } else {
        t
    };
    if d.len() > 0 && all_digits(d) && digits_value(d) <= usize::MAX {
        Some(digits_value(d) as usize)
    } else {
        None
    }
}

/// The command named by `cmd` (already in upper case) with the line's words `w`;
/// `kind` is the event kind the third word names, if any.
pub open spec fn command_view(cmd: Seq<char>, w: Seq<Seq<char>>, kind: Option<EventType>) -> ParsedCommandView {
    if cmd == "HELP"@ || cmd == "?"@ {
        ParsedCommandView::Help
    } else if cmd == "AUTH"@ {
        if w.len() < 2 {
            ParsedCommandView::Unknown("AUTH requires a token"@)
        } else {
            ParsedCommandView::Auth(w[1])
        }
    } else if cmd == "STATUS"@ {
        ParsedCommandView::Status
    } else if cmd == "ROOMS"@ {
        ParsedCommandView::Rooms
    } else if cmd == "PLAYERS"@ {
        ParsedCommandView::Players
    } else if cmd == "LOGS"@ {
        ParsedCommandView::Logs(
            if w.len() > 1 && parse_usize(w[1]) is Some {
                parse_usize(w[1])->0
            } else {
                20
            },
            if w.len() > 2 {
                kind
            } else {
                None
            },
        )
    } else if cmd == "KICK"@ {
        if w.len() < 2 {
            ParsedCommandView::Unknown("KICK requires a player_id"@)
        } else {
            ParsedCommandView::Kick(w[1])
        }
    } else if cmd == "RESET"@ {
        ParsedCommandView::Reset(
            if w.len() > 1 {
                Some(w[1])
            } else {
                None
            },
        )
    } else if cmd == "QUIT"@ || cmd == "EXIT"@ || cmd == "BYE"@ {
        ParsedCommandView::Quit
    } else {
        ParsedCommandView::Unknown("Unknown command: "@ + cmd)
    }
}

/// The command a console line's words hold: the first word, upper-cased, names it.
pub open spec fn command_of(w: Seq<Seq<char>>) -> ParsedCommandView {
    if w.len() == 0 {
        ParsedCommandView::Unknown(seq![])
    } else {
        command_view(
            upper_of(w[0]),
            w,
            if w.len() > 2 {
                crate::logger::event_of_name(upper_of(w[2]))
            } else {
                None
            },
        )
    }
}

/// A parsed command with its texts as character sequences.
pub enum ParsedCommandView {
    Help,
    Auth(Seq<char>),
    Status,
    Rooms,
    Players,
    Logs(usize, Option<EventType>),
    Kick(Seq<char>),
    Reset(Option<Seq<char>>),
    Quit,
    Unknown(Seq<char>),
}

impl View for ParsedCommand {
    type V = ParsedCommandView;

    open spec fn view(&self) -> ParsedCommandView {
        match self {
            ParsedCommand::Help => ParsedCommandView::Help,
            ParsedCommand::Auth(t) => ParsedCommandView::Auth(t@),
            ParsedCommand::Status => ParsedCommandView::Status,
            ParsedCommand::Rooms => ParsedCommandView::Rooms,
            ParsedCommand::Players => ParsedCommandView::Players,
            ParsedCommand::Logs(n, e) => ParsedCommandView::Logs(*n, *e),
            ParsedCommand::Kick(t) => ParsedCommandView::Kick(t@),
            ParsedCommand::Reset(r) => ParsedCommandView::Reset(
                match r {
                    Some(t) => Some(t@),
                    None => None,
                },
            ),
            ParsedCommand::Quit => ParsedCommandView::Quit,
            ParsedCommand::Unknown(t) => ParsedCommandView::Unknown(t@),
        }
    }
}

/// The words of a line.
pub fn split_words(s: &str) -> (r: Vec<Vec<char>>)
    ensures
        r@.map_values(|w: Vec<char>| w@) == words(s@),
{
    let cs = crate::text::chars_of(s);
    let mut acc: Vec<Vec<char>> = Vec::new();
    let mut cur: Vec<char> = Vec::new();
    assert(acc@.map_values(|w: Vec<char>| w@) =~= Seq::<Seq<char>>::empty());
    assert(cur@ =~= Seq::<char>::empty());
    let mut i: usize = 0;
    while i < cs.len()
        invariant
            i <= cs@.len(),
            cs@ == s@,
            words(s@) == words_from(s@, i as nat, cur@, acc@.map_values(|w: Vec<char>| w@)),
        decreases cs.len() - i,
    {
        let c = cs[i];
        if is_space_char(c) {
            if cur.len() > 0 {
                let ghost a0 = acc@;
                let w = cur;
                acc.push(w);
                assert(acc@.map_values(|w: Vec<char>| w@) =~= a0.map_values(|w: Vec<char>| w@).push(w@));
                cur = Vec::new();
            } else {
                cur = Vec::new();
            }
        } else {
            cur.push(c);
        }
        i += 1;
    }
    if cur.len() > 0 {
        let ghost a0 = acc@;
        let w = cur;
        acc.push(w);
        assert(acc@.map_values(|w: Vec<char>| w@) =~= a0.map_values(|w: Vec<char>| w@).push(w@));
    }
    acc
}

/// Parses a count the way `usize::from_str` does.
pub fn parse_count(t: &Vec<char>) -> (r: Option<usize>)
    ensures
        r == parse_usize(t@),
{
    let mut start: usize = 0;
    if t.len() > 0 && t[0] == '+' {
        start = 1;
    }
    let ghost d = if t@.len() > 0 && t@[0] == '+' {
        t@.drop_first()
    } else {
        t@
    };
    assert(d =~= t@.subrange(start as int, t@.len() as int));
    if start >= t.len() {
        return None;
    }
    let cap: u128 = usize::MAX as u128 + 1;
    let mut v: u128 = 0;
    let mut i: usize = start;
    while i < t.len()
        invariant
            start <= i <= t@.len(),
            d == t@.subrange(start as int, t@.len() as int),
            d == (if t@.len() > 0 && t@[0] == '+' {
                t@.drop_first()
            } else {
                t@
            }),
            cap == usize::MAX + 1,
            all_digits(t@.subrange(start as int, i as int)),
            v == vstd::math::min(digits_value(t@.subrange(start as int, i as int)) as int, cap as int),
        decreases t.len() - i,
    {
        let c = t[i];
        let dv: u128 = if c == '0' {
            0
        } else if c == '1' {
            1
        } else if c == '2' {
            2
        } else if c == '3' {
            3
        } else if c == '4' {
            4
        } else if c == '5' {
            5
        } else if c == '6' {
            6
        } else if c == '7' {
            7
        } else if c == '8' {
            8
        } else if c == '9' {
            9
        } else {
            assert(crate::text::digit_value(d[i - start]) is None);
            assert(!all_digits(d));
            return None;
        };
        let ghost prev = t@.subrange(start as int, i as int);
        let ghost next = t@.subrange(start as int, i + 1);
        assert(next.drop_last() =~= prev);
        assert(crate::text::digit_value(next.last()) == Some(dv as nat));
        if v >= cap {
            v = cap;
            assert(digits_value(next) >= digits_value(prev)) by (nonlinear_arith)
                requires
                    digits_value(next) == digits_value(prev) * 10 + dv,
            ;
        } else {
            let w = v * 10 + dv;
            v = if w >= cap {
                cap
            } else {
                w
            };
        }
        i += 1;
        assert forall|k: int| 0 <= k < next.len() implies #[trigger] crate::text::digit_value(next[k]) is Some by {
            if k < prev.len() {
                assert(next[k] == prev[k]);
            }
        }
    }
    assert(t@.subrange(start as int, t@.len() as int) == d);
    if v >= cap {
        None
    } else {
        Some(v as usize)
    }
}

/// Reads a console line: its first word (in any case) names the command, the
/// following words are its arguments.
pub fn parse_command(input: &str) -> (r: ParsedCommand)
    ensures
        r@ == command_of(words(input@)),
{
    let parts = split_words(input);
    let ghost w = parts@.map_values(|w: Vec<char>| w@);
    if parts.len() == 0 {
        return ParsedCommand::Unknown(String::new());
    }
    assert(w[0] == parts@[0]@);
    let first = crate::text::string_of_chars(&parts[0]);
    let cmd = to_upper(first.as_str());
    let kind = if parts.len() > 2 {
        assert(w[2] == parts@[2]@);
        let t = crate::text::string_of_chars(&parts[2]);
        EventType::from_str(t.as_str())
    } else {
        None
    };
    command_from_words(cmd.as_str(), &parts, kind)
}

/// The command named by `cmd` (already upper-cased) with the line's words;
/// `kind` is the event kind named by the third word, if any.
pub fn command_from_words(cmd: &str, parts: &Vec<Vec<char>>, kind: Option<EventType>) -> (r: ParsedCommand)
    ensures
        r@ == command_view(cmd@, parts@.map_values(|w: Vec<char>| w@), kind),
{
    let ghost w = parts@.map_values(|w: Vec<char>| w@);
    let c = cmd;
    if crate::text::str_eq(c, "HELP") || crate::text::str_eq(c, "?") {
        ParsedCommand::Help
    } else if crate::text::str_eq(c, "AUTH") {
        if parts.len() < 2 {
            ParsedCommand::Unknown(string_from("AUTH requires a token"))
        } else {
            assert(w[1] == parts@[1]@);
            ParsedCommand::Auth(crate::text::string_of_chars(&parts[1]))
        }
    } else if crate::text::str_eq(c, "STATUS") {
        ParsedCommand::Status
    } else if crate::text::str_eq(c, "ROOMS") {
        ParsedCommand::Rooms
    } else if crate::text::str_eq(c, "PLAYERS") {
        ParsedCommand::Players
    } else if crate::text::str_eq(c, "LOGS") {
        let count = if parts.len() > 1 {
            assert(w[1] == parts@[1]@);
            match parse_count(&parts[1]) {
                Some(n) => n,
                None => 20,
            }
        } else {
            20
        };
        let event_type = if parts.len() > 2 {
            kind
        } else {
            None
        };
        ParsedCommand::Logs(count, event_type)
    } else if crate::text::str_eq(c, "KICK") {
        if parts.len() < 2 {
            ParsedCommand::Unknown(string_from("KICK requires a player_id"))
        } else {
            assert(w[1] == parts@[1]@);
            ParsedCommand::Kick(crate::text::string_of_chars(&parts[1]))
        }
    } else if crate::text::str_eq(c, "RESET") {
        if parts.len() > 1 {
            assert(w[1] == parts@[1]@);
            ParsedCommand::Reset(Some(crate::text::string_of_chars(&parts[1])))
        } else {
            ParsedCommand::Reset(None)
        }
    } else if crate::text::str_eq(c, "QUIT") || crate::text::str_eq(c, "EXIT") || crate::text::str_eq(c, "BYE") {
        ParsedCommand::Quit
    } else {
        let mut m = string_from("Unknown command: ");
        m.append(c);
        ParsedCommand::Unknown(m)
    }
}

/// The console's help text.
pub const HELP_TEXT: &'static str = "
=== CardArena Admin Console ===

Commands:
  AUTH <token>       Authenticate with admin token (required first)
  HELP               Show this help message
  STATUS             Show server status
  ROOMS              List all rooms
  PLAYERS            List all players
  LOGS [n] [type]    Show recent n logs (default: 20)
                     Types: PLAYER_JOIN, PLAYER_LEAVE, GAME_START,
                            GAME_END, PLAY, TRICK_RESULT, ADMIN, ERROR
  KICK <player_id>   Kick a player (e.g., KICK P1)
  RESET [room_id]    Reset a room (e.g., RESET R001)
  QUIT               Disconnect from admin console

Examples:
  AUTH my_secret_token
  LOGS 50
  LOGS 10 PLAY
  KICK P1
  RESET R001
";

/// The help text.
pub fn help_message() -> (r: String)
    ensures
        r@ == HELP_TEXT@,
{
    string_from(HELP_TEXT)
}

/// The text of a status report.
pub open spec fn status_text(response: AdminResponse) -> Seq<char> {
    match response {
        AdminResponse::Status { total_connections, total_rooms, games_in_progress } => "\n=== Server Status ===\nTotal Connections: "@
            + decimal(total_connections as nat) + "\nTotal Rooms: "@ + decimal(total_rooms as nat)
            + "\nGames In Progress: "@ + decimal(games_in_progress as nat) + "\n"@,
        _ => "Invalid response"@,
    }
}

/// The text of a rooms table.
pub open spec fn rooms_text(response: AdminResponse) -> Seq<char> {
    match response {
        AdminResponse::Rooms(rooms) => if rooms@.len() == 0 {
            "No rooms found."@
        } else {
            "\n=== Rooms ===\n"@ + room_row("ID"@, "State"@, "Players"@, "Humans"@) + repeat_char('-', 42)
                + "\n"@ + room_rows(rooms@)
        },
        _ => "Invalid response"@,
    }
}

/// The text of a players table.
pub open spec fn players_text(response: AdminResponse) -> Seq<char> {
    match response {
        AdminResponse::Players(players) => if players@.len() == 0 {
            "No players found."@
        } else {
            "\n=== Players ===\n"@ + player_row("ID"@, "Nickname"@, "Room"@, "Role"@, "AI"@) + repeat_char(
                '-',
                50,
            ) + "\n"@ + player_rows(players@)
        },
        _ => "Invalid response"@,
    }
}

/// The text of an operation result.
pub open spec fn result_text(response: AdminResponse) -> Seq<char> {
    match response {
        AdminResponse::Done(msg) => "OK: "@ + msg@,
        AdminResponse::Error(msg) => "ERROR: "@ + msg@,
        _ => "Invalid response"@,
    }
}

/// The status report of a `Status` response; "Invalid response" otherwise.
pub fn format_status(response: &AdminResponse) -> (r: String)
    ensures
        r@ == status_text(*response),
{
    match response {
        AdminResponse::Status { total_connections, total_rooms, games_in_progress } => {
            let mut r = string_from("\n=== Server Status ===\nTotal Connections: ");
            push_decimal(&mut r, *total_connections as u64);
            r.append("\nTotal Rooms: ");
            push_decimal(&mut r, *total_rooms as u64);
            r.append("\nGames In Progress: ");
            push_decimal(&mut r, *games_in_progress as u64);
            r.append("\n");
            r
        },
        _ => string_from("Invalid response"),
    }
}

/// One line of the rooms table.
pub open spec fn room_row(id: Seq<char>, state: Seq<char>, players: Seq<char>, humans: Seq<char>) -> Seq<char> {
    pad_right(id, 8) + " "@ + pad_right(state, 12) + " "@ + pad_right(players, 10) + " "@ + pad_right(humans, 10)
        + "\n"@
}

/// The rows of the rooms table.
pub open spec fn room_rows(rooms: Seq<RoomInfo>) -> Seq<char>
    decreases rooms.len(),
{
    if rooms.len() == 0 {
        seq![]
    } else {
        let r = rooms.last();
        room_rows(rooms.drop_last()) + room_row(
            r.id@,
            r.state@,
            decimal(r.player_count as nat),
            decimal(r.human_count as nat),
        )
    }
}

/// One line of the players table.
pub open spec fn player_row(
    id: Seq<char>,
    nickname: Seq<char>,
    room: Seq<char>,
    role: Seq<char>,
    ai: Seq<char>,
) -> Seq<char> {
    pad_right(id, 8) + " "@ + pad_right(nickname, 16) + " "@ + pad_right(room, 8) + " "@ + pad_right(role, 8) + " "@
        + pad_right(ai, 6) + "\n"@
}

/// The rows of the players table.
pub open spec fn player_rows(players: Seq<PlayerInfo>) -> Seq<char>
    decreases players.len(),
{
    if players.len() == 0 {
        seq![]
    } else {
        let p = players.last();
        player_rows(players.drop_last()) + player_row(
            p.player_id@,
            p.nickname@,
            p.room_id@,
            p.role@,
            if p.is_ai {
                "Yes"@
            } else {
                "No"@
            },
        )
    }
}

/// The rooms table of a `Rooms` response; "No rooms found." for none,
/// "Invalid response" for another response.
pub fn format_rooms(response: &AdminResponse) -> (r: String)
    ensures
        r@ == rooms_text(*response),
{
    match response {
        AdminResponse::Rooms(rooms) => {
            if rooms.len() == 0 {
                return string_from("No rooms found.");
            }
            let mut output = string_from("\n=== Rooms ===\n");
            push_room_row(&mut output, "ID", "State", "Players", "Humans");
            push_repeated(&mut output, '-', 42);
            output.append("\n");
            let ghost head = output@;
            let mut i: usize = 0;
            while i < rooms.len()
                invariant
                    i <= rooms@.len(),
                    output@ == head + room_rows(rooms@.subrange(0, i as int)),
                decreases rooms.len() - i,
            {
                let room = &rooms[i];
                let players = crate::text::decimal_string(room.player_count as u64);
                let humans = crate::text::decimal_string(room.human_count as u64);
                push_room_row(&mut output, room.id.as_str(), room.state.as_str(), players.as_str(), humans.as_str());
                proof {
                    assert(rooms@.subrange(0, i + 1).drop_last() =~= rooms@.subrange(0, i as int));
                    assert(output@ =~= head + room_rows(rooms@.subrange(0, i + 1)));
                }
                i += 1;
            }
            assert(rooms@.subrange(0, rooms@.len() as int) =~= rooms@);
            output
        },
        _ => string_from("Invalid response"),
    }
}

fn push_room_row(s: &mut String, id: &str, state: &str, players: &str, humans: &str)
    ensures
        final(s)@ == old(s)@ + room_row(id@, state@, players@, humans@),
{
    let ghost start = s@;
    push_padded(s, id, 8);
    s.append(" ");
    push_padded(s, state, 12);
    s.append(" ");
    push_padded(s, players, 10);
    s.append(" ");
    push_padded(s, humans, 10);
    s.append("\n");
    assert(s@ =~= start + room_row(id@, state@, players@, humans@));
}

fn push_player_row(s: &mut String, id: &str, nickname: &str, room: &str, role: &str, ai: &str)
    ensures
        final(s)@ == old(s)@ + player_row(id@, nickname@, room@, role@, ai@),
{
    let ghost start = s@;
    push_padded(s, id, 8);
    s.append(" ");
    push_padded(s, nickname, 16);
    s.append(" ");
    push_padded(s, room, 8);
    s.append(" ");
    push_padded(s, role, 8);
    s.append(" ");
    push_padded(s, ai, 6);
    s.append("\n");
    assert(s@ =~= start + player_row(id@, nickname@, room@, role@, ai@));
}

/// The players table of a `Players` response; "No players found." for none,
/// "Invalid response" for another response.
pub fn format_players(response: &AdminResponse) -> (r: String)
    ensures
        r@ == players_text(*response),
{
    match response {
        AdminResponse::Players(players) => {
            if players.len() == 0 {
                return string_from("No players found.");
            }
            let mut output = string_from("\n=== Players ===\n");
            push_player_row(&mut output, "ID", "Nickname", "Room", "Role", "AI");
            push_repeated(&mut output, '-', 50);
            output.append("\n");
            let ghost head = output@;
            let mut i: usize = 0;
            while i < players.len()
                invariant
                    i <= players@.len(),
                    output@ == head + player_rows(players@.subrange(0, i as int)),
                decreases players.len() - i,
            {
                let p = &players[i];
                let ai = if p.is_ai {
                    "Yes"
                } else {
                    "No"
                };
                push_player_row(
                    &mut output,
                    p.player_id.as_str(),
                    p.nickname.as_str(),
                    p.room_id.as_str(),
                    p.role.as_str(),
                    ai,
                );
                proof {
                    assert(players@.subrange(0, i + 1).drop_last() =~= players@.subrange(0, i as int));
                    assert(output@ =~= head + player_rows(players@.subrange(0, i + 1)));
                }
                i += 1;
            }
            assert(players@.subrange(0, players@.len() as int) =~= players@);
            output
        },
        _ => string_from("Invalid response"),
    }
}

/// One formatted log record: "[time] KIND: message".
pub open spec fn log_line(e: (u64, EventType, Seq<char>)) -> Seq<char> {
    seq!['['] + crate::logger::timestamp_text(e.0) + "] "@ + crate::logger::event_name(e.1) + ": "@ + e.2
}

/// The formatted lines of log records, each followed by a newline.
pub open spec fn log_lines(v: Seq<(u64, EventType, Seq<char>)>) -> Seq<char>
    decreases v.len(),
{
    if v.len() == 0 {
        seq![]
    } else {
        log_lines(v.drop_last()) + log_line(v.last()) + "\n"@
    }
}

/// The last `count` log entries (of one kind if given), formatted one per line
/// under a title; "No logs found." for none.
pub fn format_logs(logger: &GameLogger, count: usize, event_type: Option<EventType>) -> (r: String)
    ensures
        ({
            let shown = match event_type {
                Some(k) => crate::logger::last_n(crate::logger::records_of_kind(logger.entries@, k), count as nat),
                None => crate::logger::last_n(crate::logger::records(logger.entries@), count as nat),
            };
            r@ == if shown.len() == 0 {
                "No logs found."@
            } else {
                "\n=== Logs ===\n"@ + log_lines(shown)
            }
        }),
{
    let entries = match event_type {
        Some(et) => logger.get_recent_by_type(count, et),
        None => logger.get_recent(count),
    };
    let ghost shown = crate::logger::records(entries@);
    assert(shown.len() == entries@.len());
    if entries.len() == 0 {
        return string_from("No logs found.");
    }
    let mut output = string_from("\n=== Logs ===\n");
    let ghost head = output@;
    let mut i: usize = 0;
    while i < entries.len()
        invariant
            i <= entries@.len(),
            shown == crate::logger::records(entries@),
            output@ == head + log_lines(shown.subrange(0, i as int)),
        decreases entries.len() - i,
    {
        let line = entries[i].format();
        let ghost before = output@;
        proof {
            assert(shown[i as int] == crate::logger::record(entries@[i as int]));
            assert(line@ == log_line(shown[i as int]));
        }
        output.append(line.as_str());
        output.append("\n");
        proof {
            let next = shown.subrange(0, i + 1);
            assert(next.drop_last() =~= shown.subrange(0, i as int));
            assert(next.last() == shown[i as int]);
            assert(log_lines(next) == log_lines(shown.subrange(0, i as int)) + log_line(shown[i as int]) + "\n"@);
            assert(output@ =~= before + line@ + "\n"@);
            assert(output@ =~= head + log_lines(next));
        }
        i += 1;
    }
    assert(shown.subrange(0, shown.len() as int) =~= shown);
    output
}

/// "OK: message" or "ERROR: message" for a `Done` or `Error` response;
/// "Invalid response" otherwise.
pub fn format_result(response: &AdminResponse) -> (r: String)
    ensures
        r@ == result_text(*response),
{
    match response {
        AdminResponse::Done(msg) => {
            let mut r = string_from("OK: ");
            r.append(msg.as_str());
            r
        },
        AdminResponse::Error(msg) => {
            let mut r = string_from("ERROR: ");
            r.append(msg.as_str());
            r
        },
        _ => string_from("Invalid response"),
    }
}

/// Settings of the administrative console.
pub struct AdminConfig {
    /// Token the console asks for.
    pub auth_token: String,
    /// TCP port of the console.
    pub port: u16,
}

impl AdminConfig {
    /// Port 8890, with the given token or "admin" when none is configured.
    pub fn with_token(token: Option<String>) -> (c: AdminConfig)
        ensures
            c.port == 8890,
            c.auth_token@ == match token {
                Some(t) => t@,
                None => "admin"@,
            },
    {
        let auth_token = match token {
            Some(t) => t,
            None => string_from("admin"),
        };
        AdminConfig { auth_token, port: 8890 }
    }
}

/// What a console session does with one command.
#[derive(Debug)]
pub enum AdminStep {
    /// Send this text.
    Reply(String),
    /// Forward this request to the event loop and show its answer.
    Query(AdminEvent),
    /// Show the recent logs.
    ShowLogs(usize, Option<EventType>),
    /// Say goodbye and close the session.
    Quit,
    /// Send nothing.
    Nothing,
}

/// The text of a `Reply` step, if it is one.
pub open spec fn reply_text(s: AdminStep) -> Option<Seq<char>> {
    match s {
        AdminStep::Reply(t) => Some(t@),
        _ => None,
    }
}

/// Decides one console command: HELP, AUTH, QUIT and blank or unknown lines are
/// open to anyone; every other command needs an authenticated session. Returns
/// whether the session is authenticated afterwards, and the step to take.
pub fn admin_step(authenticated: bool, auth_token: &str, command: &ParsedCommand) -> (r: (bool, AdminStep))
    ensures
        match command@ {
            ParsedCommandView::Help => r.0 == authenticated && reply_text(r.1) == Some(HELP_TEXT@),
            ParsedCommandView::Auth(token) => if token == auth_token@ {
                r.0 && reply_text(r.1) == Some("OK: Authentication successful"@)
            } else {
                r.0 == authenticated && reply_text(r.1) == Some("ERROR: Invalid token"@)
            },
            ParsedCommandView::Quit => r.0 == authenticated && r.1 is Quit,
            ParsedCommandView::Unknown(m) => r.0 == authenticated && if m.len() == 0 {
                r.1 is Nothing
            } else {
                reply_text(r.1) == Some("ERROR: "@ + m)
            },
            _ => r.0 == authenticated && if !authenticated {
                reply_text(r.1) == Some("ERROR: Not authenticated. Use AUTH <token> first."@)
            } else {
                match command@ {
                    ParsedCommandView::Status => r.1 matches AdminStep::Query(AdminEvent::GetStatus),
                    ParsedCommandView::Rooms => r.1 matches AdminStep::Query(AdminEvent::GetRooms),
                    ParsedCommandView::Players => r.1 matches AdminStep::Query(AdminEvent::GetPlayers),
                    ParsedCommandView::Logs(n, k) => r.1 == AdminStep::ShowLogs(n, k),
                    ParsedCommandView::Kick(id) => r.1 matches AdminStep::Query(AdminEvent::KickPlayer { player_id })
                        && player_id@ == id,
                    ParsedCommandView::Reset(room) => r.1 matches AdminStep::Query(AdminEvent::ResetRoom { room_id })
                        && match room_id {
                        Some(t) => room == Some(t@),
                        None => room is None,
                    },
                    _ => false,
                }
            },
        },
{
    match command {
        ParsedCommand::Help => (authenticated, AdminStep::Reply(help_message())),
        ParsedCommand::Auth(token) => {
            if crate::text::str_eq(token.as_str(), auth_token) {
                (true, AdminStep::Reply(string_from("OK: Authentication successful")))
            } else {
                (authenticated, AdminStep::Reply(string_from("ERROR: Invalid token")))
            }
        },
        ParsedCommand::Quit => (authenticated, AdminStep::Quit),
        ParsedCommand::Unknown(m) => {
            if m.as_str().unicode_len() == 0 {
                (authenticated, AdminStep::Nothing)
            } else {
                let mut t = string_from("ERROR: ");
                t.append(m.as_str());
                (authenticated, AdminStep::Reply(t))
            }
        },
        _ => {
            if !authenticated {
                return (
                    authenticated,
                    AdminStep::Reply(string_from("ERROR: Not authenticated. Use AUTH <token> first.")),
                );
            }
            match command {
                ParsedCommand::Status => (authenticated, AdminStep::Query(AdminEvent::GetStatus)),
                ParsedCommand::Rooms => (authenticated, AdminStep::Query(AdminEvent::GetRooms)),
                ParsedCommand::Players => (authenticated, AdminStep::Query(AdminEvent::GetPlayers)),
                ParsedCommand::Logs(n, k) => (authenticated, AdminStep::ShowLogs(*n, *k)),
                ParsedCommand::Kick(id) => (
                    authenticated,
                    AdminStep::Query(AdminEvent::KickPlayer { player_id: id.clone() }),
                ),
                ParsedCommand::Reset(room) => {
                    let room_id = match room {
                        Some(t) => Some(t.clone()),
                        None => None,
                    };
                    (authenticated, AdminStep::Query(AdminEvent::ResetRoom { room_id }))
                },
                _ => (authenticated, AdminStep::Nothing),
            }
        },
    }
}

/// The text a console shows for the answer to a forwarded request, or the
/// failure notice when no answer came.
pub fn query_reply(event: &AdminEvent, response: &Option<AdminResponse>) -> (r: String)
    ensures
        response is Some ==> r@ == match event {
            AdminEvent::GetStatus => status_text(response->0),
            AdminEvent::GetRooms => rooms_text(response->0),
            AdminEvent::GetPlayers => players_text(response->0),
            _ => result_text(response->0),
        },
        response is None ==> r@ == match event {
            AdminEvent::GetStatus => "ERROR: Failed to get status"@,
            AdminEvent::GetRooms => "ERROR: Failed to get rooms"@,
            AdminEvent::GetPlayers => "ERROR: Failed to get players"@,
            AdminEvent::KickPlayer { .. } => "ERROR: Failed to kick player"@,
            AdminEvent::ResetRoom { .. } => "ERROR: Failed to reset room"@,
        },
{
    match response {
        Some(resp) => match event {
            AdminEvent::GetStatus => format_status(resp),
            AdminEvent::GetRooms => format_rooms(resp),
            AdminEvent::GetPlayers => format_players(resp),
            _ => format_result(resp),
        },
        None => match event {
            AdminEvent::GetStatus => string_from("ERROR: Failed to get status"),
            AdminEvent::GetRooms => string_from("ERROR: Failed to get rooms"),
            AdminEvent::GetPlayers => string_from("ERROR: Failed to get players"),
            AdminEvent::KickPlayer { .. } => string_from("ERROR: Failed to kick player"),
            AdminEvent::ResetRoom { .. } => string_from("ERROR: Failed to reset room"),
        },
    }
}

} // verus!
