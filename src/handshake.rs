use vstd::prelude::*;
use vstd::string::*;
use crate::clock::rand_u16;
use crate::protocol::{ErrorCode, PlayerInfo, Role, ServerMessage};
use crate::text::{contains_text, decimal, push_char, push_decimal, str_eq, string_from, texts};

verus! {

/// Shortest nickname, in characters.
pub const MIN_NICKNAME_LEN: usize = 1;

/// Longest nickname, in characters.
pub const MAX_NICKNAME_LEN: usize = 16;

/// The protocol version this server speaks.
pub const PROTOCOL_VERSION: u32 = 1;

/// Outcome of a HELLO.
pub enum HandshakeResult {
    /// The WELCOME message.
    Success(ServerMessage),
    /// The ERROR message.
    Error(ServerMessage),
}

/// A lowercase hexadecimal digit.
pub open spec fn hex_digit(d: nat) -> char {
    if d < 10 {
        crate::text::digit_char(d)
    } else if d == 10 {
        'a'
    } else if d == 11 {
        'b'
    } else if d == 12 {
        'c'
    } else if d == 13 {
        'd'
    } else if d == 14 {
        'e'
    } else {
        'f'
    }
}

/// A 16-bit value as four lowercase hexadecimal digits.
pub open spec fn hex4(v: u16) -> Seq<char> {
    seq![
        hex_digit((v / 4096) as nat),
        hex_digit(((v / 256) % 16) as nat),
        hex_digit(((v / 16) % 16) as nat),
        hex_digit((v % 16) as nat),
    ]
}

/// `n` with the suffix `_i`.
pub open spec fn suffixed(n: Seq<char>, i: nat) -> Seq<char> {
    n + seq!['_'] + decimal(i)
}

/// The first suffix number from `i` up to 99 whose name is free.
pub open spec fn free_suffix_from(n: Seq<char>, taken: Seq<Seq<char>>, i: nat) -> Option<nat>
    decreases 100 - i,
{
    if i > 99 {
        None
    } else if !taken.contains(suffixed(n, i)) {
        Some(i)
    } else {
        free_suffix_from(n, taken, i + 1)
    }
}

/// Every name from `n` to `n_99` is taken.
pub open spec fn all_suffixes_taken(n: Seq<char>, taken: Seq<Seq<char>>) -> bool {
    taken.contains(n) && free_suffix_from(n, taken, 2) is None
}

/// The nickname a joiner gets while some name up to `n_99` is free: `n` itself,
/// else `n_2`, `n_3`, ... the first that is free.
pub open spec fn unique_nickname(n: Seq<char>, taken: Seq<Seq<char>>) -> Seq<char> {
    if !taken.contains(n) {
        n
    } else {
        match free_suffix_from(n, taken, 2) {
            Some(i) => suffixed(n, i),
            None => n,
        }
    }
}

/// The error a HELLO gets, if any: code and message text.
pub open spec fn hello_error(
    role: Role,
    nickname: Seq<char>,
    proto: u32,
    auth: Option<Seq<char>>,
    token: Option<Seq<char>>,
) -> Option<(ErrorCode, Seq<char>)> {
    if proto != PROTOCOL_VERSION {
        Some(
            (
                ErrorCode::InvalidHello,
                "Unsupported protocol version: "@ + decimal(proto as nat) + ". Expected: "@ + decimal(
                    PROTOCOL_VERSION as nat,
                ),
            ),
        )
    } else if nickname.len() < MIN_NICKNAME_LEN || nickname.len() > MAX_NICKNAME_LEN {
        Some(
            (
                ErrorCode::InvalidHello,
                "Nickname must be "@ + decimal(MIN_NICKNAME_LEN as nat) + "-"@ + decimal(
                    MAX_NICKNAME_LEN as nat,
                ) + " characters, got: "@ + decimal(nickname.len()),
            ),
        )
    } else if role == Role::Ai && token is Some {
        match auth {
            Some(a) => if a == token->0 {
                None
            } else {
                Some((ErrorCode::AuthFailed, "Invalid AI authentication token"@))
            },
            None => Some((ErrorCode::AuthFailed, "AI client requires authentication token"@)),
        }
    } else {
        None
    }
}

/// The view of an optional string.
pub open spec fn opt_text(o: Option<String>) -> Option<Seq<char>> {
    match o {
        Some(s) => Some(s@),
        None => None,
    }
}

/// The view of an optional string slice.
pub open spec fn opt_str(o: Option<&str>) -> Option<Seq<char>> {
    match o {
        Some(s) => Some(s@),
        None => None,
    }
}

/// `m` is an ERROR message with this code and text.
pub open spec fn is_error_message(m: ServerMessage, code: ErrorCode, text: Seq<char>) -> bool {
    match m {
        ServerMessage::Error { code: c, message } => c == code && message@ == text,
        _ => false,
    }
}

fn hex_digit_char(d: u16) -> (c: char)
    requires
        d < 16,
    ensures
        c == hex_digit(d as nat),
{
    if d < 10 {
        crate::text::digit_to_char(d as u64)
    } else if d == 10 {
        'a'
    } else if d == 11 {
        'b'
    } else if d == 12 {
        'c'
    } else if d == 13 {
        'd'
    } else if d == 14 {
        'e'
    } else {
        'f'
    }
}

/// Appends `v` as four lowercase hexadecimal digits.
fn push_hex4(s: &mut String, v: u16)
    ensures
        final(s)@ == old(s)@ + hex4(v),
{
    let ghost start = s@;
    push_char(s, hex_digit_char(v / 4096));
    push_char(s, hex_digit_char((v / 256) % 16));
    push_char(s, hex_digit_char((v / 16) % 16));
    push_char(s, hex_digit_char(v % 16));
    assert(s@ =~= start + hex4(v));
}

/// `nickname` followed by `_` and the decimal `i`.
fn suffixed_name(nickname: &str, i: u64) -> (r: String)
    ensures
        r@ == suffixed(nickname@, i as nat),
{
    let mut r = string_from(nickname);
    push_char(&mut r, '_');
    push_decimal(&mut r, i);
    assert(r@ =~= suffixed(nickname@, i as nat));
    r
}

/// A nickname nobody in `existing` uses: the nickname itself, else the first free of
/// `nickname_2` .. `nickname_99`, else `nickname_` with four hexadecimal digits of the clock.
pub fn ensure_unique_nickname(nickname: &str, existing: &Vec<String>) -> (r: String)
    ensures
        !all_suffixes_taken(nickname@, texts(existing@)) ==> r@ == unique_nickname(
            nickname@,
            texts(existing@),
        ),
        all_suffixes_taken(nickname@, texts(existing@)) ==> exists|v: u16|
            r@ == nickname@ + seq!['_'] + hex4(v),
{
    if !contains_text(existing, nickname) {
        return string_from(nickname);
    }
    let mut i: u64 = 2;
    while i <= 99
        invariant
            2 <= i <= 100,
            texts(existing@).contains(nickname@),
            free_suffix_from(nickname@, texts(existing@), 2) == free_suffix_from(
                nickname@,
                texts(existing@),
                i as nat,
            ),
        decreases 100 - i,
    {
        let new_name = suffixed_name(nickname, i);
        if !contains_text(existing, new_name.as_str()) {
            return new_name;
        }
        i += 1;
    }
    let mut r = string_from(nickname);
    push_char(&mut r, '_');
    let v = rand_u16();
    push_hex4(&mut r, v);
    assert(r@ =~= nickname@ + seq!['_'] + hex4(v));
    r
}

/// Checks a HELLO: protocol version, nickname length (1 to 16 characters), and,
/// for an AI client when a token is configured, its token. On success the WELCOME
/// names seat `P<player_slot>`, a nickname made unique among `existing_nicknames`,
/// and the room.
pub fn process_hello(
    role: &Role,
    nickname: &str,
    proto: u32,
    auth: &Option<String>,
    existing_nicknames: &Vec<String>,
    player_slot: u32,
    room_id: &str,
    ai_auth_token: Option<&str>,
) -> (r: HandshakeResult)
    ensures
        match hello_error(*role, nickname@, proto, opt_text(*auth), opt_str(ai_auth_token)) {
            Some(e) => r matches HandshakeResult::Error(m) && is_error_message(m, e.0, e.1),
            None => r matches HandshakeResult::Success(m) && (m matches ServerMessage::Welcome {
                player_id,
                nickname: n,
                room,
            } && player_id@ == seq!['P'] + decimal(player_slot as nat) && room@ == room_id@ && (
            !all_suffixes_taken(nickname@, texts(existing_nicknames@)) ==> n@ == unique_nickname(
                nickname@,
                texts(existing_nicknames@),
            ))),
        },
{
    if proto != PROTOCOL_VERSION {
        let mut message = string_from("Unsupported protocol version: ");
        push_decimal(&mut message, proto as u64);
        message.append(". Expected: ");
        push_decimal(&mut message, PROTOCOL_VERSION as u64);
        return HandshakeResult::Error(ServerMessage::Error { code: ErrorCode::InvalidHello, message });
    }
    let nickname_len = nickname.unicode_len();
    if nickname_len < MIN_NICKNAME_LEN || nickname_len > MAX_NICKNAME_LEN {
        let mut message = string_from("Nickname must be ");
        push_decimal(&mut message, MIN_NICKNAME_LEN as u64);
        message.append("-");
        push_decimal(&mut message, MAX_NICKNAME_LEN as u64);
        message.append(" characters, got: ");
        push_decimal(&mut message, nickname_len as u64);
        return HandshakeResult::Error(ServerMessage::Error { code: ErrorCode::InvalidHello, message });
    }
    if *role == Role::Ai {
        if let Some(expected_token) = ai_auth_token {
            match auth {
                Some(token) => {
                    if !str_eq(token.as_str(), expected_token) {
                        return HandshakeResult::Error(
                            ServerMessage::Error {
                                code: ErrorCode::AuthFailed,
                                message: string_from("Invalid AI authentication token"),
                            },
                        );
                    }
                },
                None => {
                    return HandshakeResult::Error(
                        ServerMessage::Error {
                            code: ErrorCode::AuthFailed,
                            message: string_from("AI client requires authentication token"),
                        },
                    );
                },
            }
        }
    }
    let final_nickname = ensure_unique_nickname(nickname, existing_nicknames);
    let mut player_id = String::new();
    push_char(&mut player_id, 'P');
    push_decimal(&mut player_id, player_slot as u64);
    assert(player_id@ =~= seq!['P'] + decimal(player_slot as nat));
    HandshakeResult::Success(
        ServerMessage::Welcome { player_id, nickname: final_nickname, room: string_from(room_id) },
    )
}

/// The protocol view of a new seat, team not yet assigned.
pub fn create_player_info(player_id: &str, nickname: &str, role: Role) -> (r: PlayerInfo)
    ensures
        r@ == (player_id@, nickname@, role, None::<crate::protocol::Team>),
{
    PlayerInfo { id: string_from(player_id), nickname: string_from(nickname), role, team: None }
}

/// Nickname collision: joining as `n` while `n` is taken gives `n_2`; joining as
/// `n` again, with `n_2` now taken too, gives `n_3`.
pub proof fn lemma_nickname_collision(n: Seq<char>, taken: Seq<Seq<char>>)
    requires
        taken.contains(n),
        !taken.contains(suffixed(n, 2)),
        !taken.contains(suffixed(n, 3)),
    ensures
        unique_nickname(n, taken) == suffixed(n, 2),
        unique_nickname(n, taken.push(suffixed(n, 2))) == suffixed(n, 3),
{
    assert(decimal(2) =~= seq!['2']);
    assert(decimal(3) =~= seq!['3']);
    let t2 = taken.push(suffixed(n, 2));
    assert(t2.contains(n)) by {
        let k = choose|k: int| 0 <= k < taken.len() && taken[k] == n;
        assert(t2[k] == n);
    }
    assert(t2[taken.len() as int] == suffixed(n, 2));
    assert(suffixed(n, 3) != suffixed(n, 2)) by {
        assert(suffixed(n, 3)[n.len() as int + 1] != suffixed(n, 2)[n.len() as int + 1]);
    }
    assert(!t2.contains(suffixed(n, 3))) by {
        if t2.contains(suffixed(n, 3)) {
            let k = choose|k: int| 0 <= k < t2.len() && t2[k] == suffixed(n, 3);
            if k < taken.len() {
                assert(taken[k] == suffixed(n, 3));
            }
        }
    }
    assert(free_suffix_from(n, t2, 2) == free_suffix_from(n, t2, 3));
}

} // verus!
