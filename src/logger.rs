use vstd::prelude::*;
use vstd::string::*;
use crate::clock::unix_time_secs;
use crate::text::{
    decimal, has_substring, lower_of, occurs_in, pad_zeros, push_char, push_decimal, push_decimal_zero_padded,
    str_eq, string_from, to_lower, to_upper, upper_of,
};

verus! {

/// Entries kept by default.
pub const DEFAULT_CAPACITY: usize = 500;

/// Kinds of logged events.
#[derive(Debug, Clone, Copy, PartialEq, Eq, Structural)]
pub enum EventType {
    PlayerJoin,
    PlayerLeave,
    GameStart,
    GameEnd,
    Play,
    TrickResult,
    AdminAction,
    Error,
}

/// The name of an event kind.
pub open spec fn event_name(e: EventType) -> Seq<char> {
    match e {
        EventType::PlayerJoin => "PLAYER_JOIN"@,
        EventType::PlayerLeave => "PLAYER_LEAVE"@,
        EventType::GameStart => "GAME_START"@,
        EventType::GameEnd => "GAME_END"@,
        EventType::Play => "PLAY"@,
        EventType::TrickResult => "TRICK_RESULT"@,
        EventType::AdminAction => "ADMIN"@,
        EventType::Error => "ERROR"@,
    }
}

/// The event kind with upper-case name `t`, if any.
pub open spec fn event_of_name(t: Seq<char>) -> Option<EventType> {
    if t == "PLAYER_JOIN"@ {
        Some(EventType::PlayerJoin)
    } else if t == "PLAYER_LEAVE"@ {
        Some(EventType::PlayerLeave)
    } else if t == "GAME_START"@ {
        Some(EventType::GameStart)
    } else if t == "GAME_END"@ {
        Some(EventType::GameEnd)
    } else if t == "PLAY"@ {
        Some(EventType::Play)
    } else if t == "TRICK_RESULT"@ {
        Some(EventType::TrickResult)
    } else if t == "ADMIN"@ {
        Some(EventType::AdminAction)
    } else if t == "ERROR"@ {
        Some(EventType::Error)
    } else {
        None
    }
}

impl EventType {
    pub fn as_str(&self) -> (r: &'static str)
        ensures
            r@ == event_name(*self),
    {
        match self {
            EventType::PlayerJoin => "PLAYER_JOIN",
            EventType::PlayerLeave => "PLAYER_LEAVE",
            EventType::GameStart => "GAME_START",
            EventType::GameEnd => "GAME_END",
            EventType::Play => "PLAY",
            EventType::TrickResult => "TRICK_RESULT",
            EventType::AdminAction => "ADMIN",
            EventType::Error => "ERROR",
        }
    }

    /// The event kind named by `s`, in any case.
    pub fn from_str(s: &str) -> (r: Option<EventType>)
        ensures
            r == event_of_name(upper_of(s@)),
    {
        let up = to_upper(s);
        EventType::from_upper(up.as_str())
    }

    /// The event kind with upper-case name `t`.
    pub fn from_upper(t: &str) -> (r: Option<EventType>)
        ensures
            r == event_of_name(t@),
    {
        if str_eq(t, "PLAYER_JOIN") {
            Some(EventType::PlayerJoin)
        } else if str_eq(t, "PLAYER_LEAVE") {
            Some(EventType::PlayerLeave)
        } else if str_eq(t, "GAME_START") {
            Some(EventType::GameStart)
        } else if str_eq(t, "GAME_END") {
            Some(EventType::GameEnd)
        } else if str_eq(t, "PLAY") {
            Some(EventType::Play)
        } else if str_eq(t, "TRICK_RESULT") {
            Some(EventType::TrickResult)
        } else if str_eq(t, "ADMIN") {
            Some(EventType::AdminAction)
        } else if str_eq(t, "ERROR") {
            Some(EventType::Error)
        } else {
            None
        }
    }
}

/// A logged event.
#[derive(Debug, Clone)]
pub struct LogEntry {
    pub timestamp: u64,
    pub event_type: EventType,
    pub message: String,
}

/// Calendar-like rendering of a Unix time, simplified to 365-day years and 30-day
/// months: "YYYY-MM-DD hh:mm:ss".
#[verifier::opaque]
pub open spec fn timestamp_text(t: u64) -> Seq<char> {
    let secs = t % 86400;
    let days = t / 86400;
    pad_zeros(decimal((1970 + days / 365) as nat), 4) + seq!['-'] + pad_zeros(
        decimal(((days % 365) / 30 + 1) as nat),
        2,
    ) + seq!['-'] + pad_zeros(decimal(((days % 365) % 30 + 1) as nat), 2) + seq![' '] + pad_zeros(
        decimal((secs / 3600) as nat),
        2,
    ) + seq![':'] + pad_zeros(decimal(((secs % 3600) / 60) as nat), 2) + seq![':'] + pad_zeros(
        decimal((secs % 60) as nat),
        2,
    )
}

/// Renders a Unix time as "YYYY-MM-DD hh:mm:ss" (365-day years, 30-day months).
pub fn format_timestamp(timestamp: u64) -> (r: String)
    ensures
        r@ == timestamp_text(timestamp),
{
    let secs = timestamp % 86400;
    let hours = secs / 3600;
    let mins = (secs % 3600) / 60;
    let s = secs % 60;
    let days = timestamp / 86400;
    let year = 1970 + days / 365;
    let day_of_year = days % 365;
    let month = day_of_year / 30 + 1;
    let day = day_of_year % 30 + 1;
    let mut r = String::new();
    push_decimal_zero_padded(&mut r, year, 4);
    push_char(&mut r, '-');
    push_decimal_zero_padded(&mut r, month, 2);
    push_char(&mut r, '-');
    push_decimal_zero_padded(&mut r, day, 2);
    push_char(&mut r, ' ');
    push_decimal_zero_padded(&mut r, hours, 2);
    push_char(&mut r, ':');
    push_decimal_zero_padded(&mut r, mins, 2);
    push_char(&mut r, ':');
    push_decimal_zero_padded(&mut r, s, 2);
    reveal(timestamp_text);
    assert(r@ =~= timestamp_text(timestamp));
    r
}

/// What the log shows of an entry, without its time: kind and message.
pub open spec fn entry_view(e: LogEntry) -> (EventType, Seq<char>) {
    (e.event_type, e.message@)
}

/// The entries as (kind, message) pairs.
pub open spec fn entries_view(v: Seq<LogEntry>) -> Seq<(EventType, Seq<char>)> {
    v.map_values(|e: LogEntry| entry_view(e))
}

/// An entry with its time: (seconds, kind, message).
pub open spec fn record(e: LogEntry) -> (u64, EventType, Seq<char>) {
    (e.timestamp, e.event_type, e.message@)
}

/// The entries with their times.
pub open spec fn records(v: Seq<LogEntry>) -> Seq<(u64, EventType, Seq<char>)> {
    v.map_values(|e: LogEntry| record(e))
}

/// The entries of kind `k` with their times, in order.
pub open spec fn records_of_kind(v: Seq<LogEntry>, k: EventType) -> Seq<(u64, EventType, Seq<char>)>
    decreases v.len(),
{
    if v.len() == 0 {
        seq![]
    } else {
        let r = records_of_kind(v.drop_last(), k);
        if v.last().event_type == k {
            r.push(record(v.last()))
        } else {
            r
        }
    }
}

/// The last `n` entries (all of them if fewer).
pub open spec fn last_n<T>(v: Seq<T>, n: nat) -> Seq<T> {
    if v.len() <= n {
        v
    } else {
        v.subrange(v.len() - n, v.len() as int)
    }
}

/// The entries whose lower-cased message holds `key`, in order.
pub open spec fn mentioning(v: Seq<LogEntry>, key: Seq<char>) -> Seq<(EventType, Seq<char>)>
    decreases v.len(),
{
    if v.len() == 0 {
        seq![]
    } else {
        let r = mentioning(v.drop_last(), key);
        if occurs_in(lower_of(v.last().message@), key) {
            r.push(entry_view(v.last()))
        } else {
            r
        }
    }
}

/// The entries of kind `k`, in order.
pub open spec fn of_kind(v: Seq<(EventType, Seq<char>)>, k: EventType) -> Seq<(EventType, Seq<char>)>
    decreases v.len(),
{
    if v.len() == 0 {
        seq![]
    } else {
        let r = of_kind(v.drop_last(), k);
        if v.last().0 == k {
            r.push(v.last())
        } else {
            r
        }
    }
}

impl LogEntry {
    /// An entry stamped with the current time.
    pub fn new(event_type: EventType, message: &str) -> (e: LogEntry)
        ensures
            e.event_type == event_type,
            e.message@ == message@,
    {
        LogEntry { timestamp: unix_time_secs(), event_type, message: string_from(message) }
    }

    /// "[time] KIND: message".
    pub fn format(&self) -> (r: String)
        ensures
            r@ == seq!['['] + timestamp_text(self.timestamp) + "] "@ + event_name(self.event_type) + ": "@
                + self.message@,
    {
        let mut r = String::new();
        push_char(&mut r, '[');
        let t = format_timestamp(self.timestamp);
        r.append(t.as_str());
        r.append("] ");
        r.append(self.event_type.as_str());
        r.append(": ");
        r.append(self.message.as_str());
        r
    }

    /// A copy with equal fields.
    pub fn copy(&self) -> (r: LogEntry)
        ensures
            r.timestamp == self.timestamp,
            entry_view(r) == entry_view(*self),
    {
        LogEntry { timestamp: self.timestamp, event_type: self.event_type, message: self.message.clone() }
    }
}

impl Default for GameLogger {
    fn default() -> (l: GameLogger)
        ensures
            l.entries@.len() == 0,
            l.capacity == DEFAULT_CAPACITY,
    {
        GameLogger::new()
    }
}

/// The most recent events, at most `capacity` of them (but always the last one).
pub struct GameLogger {
    pub entries: Vec<LogEntry>,
    pub capacity: usize,
}

impl GameLogger {
    /// A logger keeping the default number of entries.
    pub fn new() -> (l: GameLogger)
        ensures
            l.entries@.len() == 0,
            l.capacity == DEFAULT_CAPACITY,
    {
        GameLogger::with_capacity(DEFAULT_CAPACITY)
    }

    /// A logger keeping `capacity` entries.
    pub fn with_capacity(capacity: usize) -> (l: GameLogger)
        ensures
            l.entries@.len() == 0,
            l.capacity == capacity,
    {
        GameLogger { entries: Vec::new(), capacity }
    }

    /// Records an event; when full, the oldest entry goes.
    pub fn log(&mut self, event_type: EventType, message: &str)
        ensures
            final(self).capacity == old(self).capacity,
            entries_view(final(self).entries@) == (if old(self).entries@.len() >= old(self).capacity
                && old(self).entries@.len() > 0 {
                entries_view(old(self).entries@).drop_first()
            } else {
                entries_view(old(self).entries@)
            }).push((event_type, message@)),
    {
        let entry = LogEntry::new(event_type, message);
        let ghost before = self.entries@;
        if self.entries.len() >= self.capacity && self.entries.len() > 0 {
            self.entries.remove(0);
            assert(entries_view(self.entries@) =~= entries_view(before).drop_first());
        }
        let ghost mid = self.entries@;
        self.entries.push(entry);
        assert(entries_view(self.entries@) =~= entries_view(mid).push((event_type, message@)));
    }

    /// The last `n` entries, oldest first.
    pub fn get_recent(&self, n: usize) -> (r: Vec<LogEntry>)
        ensures
            entries_view(r@) == last_n(entries_view(self.entries@), n as nat),
            records(r@) == last_n(records(self.entries@), n as nat),
    {
        let len = self.entries.len();
        let start = if len > n {
            len - n
        } else {
            0
        };
        let mut r: Vec<LogEntry> = Vec::new();
        let mut i: usize = start;
        while i < len
            invariant
                start <= i <= len,
                len == self.entries@.len(),
                entries_view(r@) == entries_view(self.entries@).subrange(start as int, i as int),
                records(r@) == records(self.entries@).subrange(start as int, i as int),
            decreases len - i,
        {
            let ghost before = r@;
            let e = self.entries[i].copy();
            r.push(e);
            assert(entries_view(r@) =~= entries_view(before).push(entry_view(e)));
            assert(entries_view(r@) =~= entries_view(self.entries@).subrange(start as int, i + 1));
            assert(records(r@) =~= records(before).push(record(e)));
            assert(records(r@) =~= records(self.entries@).subrange(start as int, i + 1));
            i += 1;
        }
        assert(entries_view(r@) =~= last_n(entries_view(self.entries@), n as nat));
        assert(records(r@) =~= last_n(records(self.entries@), n as nat));
        r
    }

    /// The last `n` entries of kind `event_type`, oldest first.
    pub fn get_recent_by_type(&self, n: usize, event_type: EventType) -> (r: Vec<LogEntry>)
        ensures
            entries_view(r@) == last_n(of_kind(entries_view(self.entries@), event_type), n as nat),
            records(r@) == last_n(records_of_kind(self.entries@, event_type), n as nat),
    {
        let mut matching: Vec<LogEntry> = Vec::new();
        let mut i: usize = 0;
        while i < self.entries.len()
            invariant
                i <= self.entries@.len(),
                entries_view(matching@) == of_kind(entries_view(self.entries@.subrange(0, i as int)), event_type),
                records(matching@) == records_of_kind(self.entries@.subrange(0, i as int), event_type),
            decreases self.entries.len() - i,
        {
            let ghost before = matching@;
            proof {
                let sub = entries_view(self.entries@.subrange(0, i + 1));
                assert(sub.drop_last() =~= entries_view(self.entries@.subrange(0, i as int)));
                assert(sub.last() == entry_view(self.entries@[i as int]));
                assert(self.entries@.subrange(0, i + 1).drop_last() =~= self.entries@.subrange(0, i as int));
            }
            if self.entries[i].event_type == event_type {
                let e = self.entries[i].copy();
                matching.push(e);
                assert(entries_view(matching@) =~= entries_view(before).push(entry_view(e)));
                assert(records(matching@) =~= records(before).push(record(e)));
            }
            i += 1;
        }
        assert(self.entries@.subrange(0, self.entries@.len() as int) =~= self.entries@);
        let len = matching.len();
        let start = if len > n {
            len - n
        } else {
            0
        };
        let mut r: Vec<LogEntry> = Vec::new();
        let mut j: usize = start;
        while j < len
            invariant
                start <= j <= len,
                len == matching@.len(),
                entries_view(r@) == entries_view(matching@).subrange(start as int, j as int),
                records(r@) == records(matching@).subrange(start as int, j as int),
            decreases len - j,
        {
            let ghost before = r@;
            let e = matching[j].copy();
            r.push(e);
            assert(entries_view(r@) =~= entries_view(before).push(entry_view(e)));
            assert(entries_view(r@) =~= entries_view(matching@).subrange(start as int, j + 1));
            assert(records(r@) =~= records(before).push(record(e)));
            assert(records(r@) =~= records(matching@).subrange(start as int, j + 1));
            j += 1;
        }
        assert(entries_view(r@) =~= last_n(entries_view(matching@), n as nat));
        assert(records(r@) =~= last_n(records(matching@), n as nat));
        r
    }

    /// The last `limit` entries whose message holds `keyword`, ignoring case, oldest first.
    pub fn search(&self, keyword: &str, limit: usize) -> (r: Vec<LogEntry>)
        ensures
            entries_view(r@) == last_n(mentioning(self.entries@, lower_of(keyword@)), limit as nat),
    {
        let key = to_lower(keyword);
        let mut matching: Vec<LogEntry> = Vec::new();
        let mut i: usize = 0;
        while i < self.entries.len()
            invariant
                i <= self.entries@.len(),
                key@ == lower_of(keyword@),
                entries_view(matching@) == mentioning(self.entries@.subrange(0, i as int), key@),
            decreases self.entries.len() - i,
        {
            let ghost before = matching@;
            proof {
                assert(self.entries@.subrange(0, i + 1).drop_last() =~= self.entries@.subrange(0, i as int));
            }
            let lowered = to_lower(self.entries[i].message.as_str());
            if has_substring(lowered.as_str(), key.as_str()) {
                let e = self.entries[i].copy();
                matching.push(e);
                assert(entries_view(matching@) =~= entries_view(before).push(entry_view(e)));
            }
            i += 1;
        }
        assert(self.entries@.subrange(0, self.entries@.len() as int) =~= self.entries@);
        let len = matching.len();
        let start = if len > limit {
            len - limit
        } else {
            0
        };
        let mut r: Vec<LogEntry> = Vec::new();
        let mut j: usize = start;
        while j < len
            invariant
                start <= j <= len,
                len == matching@.len(),
                entries_view(r@) == entries_view(matching@).subrange(start as int, j as int),
            decreases len - j,
        {
            let ghost before = r@;
            let e = matching[j].copy();
            r.push(e);
            assert(entries_view(r@) =~= entries_view(before).push(entry_view(e)));
            assert(entries_view(r@) =~= entries_view(matching@).subrange(start as int, j + 1));
            j += 1;
        }
        assert(entries_view(r@) =~= last_n(entries_view(matching@), limit as nat));
        r
    }

    /// Number of entries.
    pub fn len(&self) -> (r: usize)
        ensures
            r == self.entries@.len(),
    {
        self.entries.len()
    }

    /// Drops all entries.
    pub fn clear(&mut self)
        ensures
            final(self).entries@.len() == 0,
            final(self).capacity == old(self).capacity,
    {
        self.entries.clear();
    }

    /// Logs "nickname (player_id) joined room_id".
    pub fn player_join(&mut self, player_id: &str, nickname: &str, room_id: &str)
        ensures
            final(self).capacity == old(self).capacity,
            entries_view(final(self).entries@).last() == (
                EventType::PlayerJoin,
                nickname@ + " ("@ + player_id@ + ") joined "@ + room_id@,
            ),
    {
        let mut m = string_from(nickname);
        m.append(" (");
        m.append(player_id);
        m.append(") joined ");
        m.append(room_id);
        self.log(EventType::PlayerJoin, m.as_str());
    }

    /// Logs "nickname (player_id) left room_id".
    pub fn player_leave(&mut self, player_id: &str, nickname: &str, room_id: &str)
        ensures
            final(self).capacity == old(self).capacity,
            entries_view(final(self).entries@).last() == (
                EventType::PlayerLeave,
                nickname@ + " ("@ + player_id@ + ") left "@ + room_id@,
            ),
    {
        let mut m = string_from(nickname);
        m.append(" (");
        m.append(player_id);
        m.append(") left ");
        m.append(room_id);
        self.log(EventType::PlayerLeave, m.as_str());
    }

    /// Logs "room_id started (seed: seed)".
    pub fn game_start(&mut self, room_id: &str, seed: u64)
        ensures
            final(self).capacity == old(self).capacity,
            entries_view(final(self).entries@).last() == (
                EventType::GameStart,
                room_id@ + " started (seed: "@ + decimal(seed as nat) + ")"@,
            ),
    {
        let mut m = string_from(room_id);
        m.append(" started (seed: ");
        push_decimal(&mut m, seed);
        m.append(")");
        self.log(EventType::GameStart, m.as_str());
    }

    /// Logs "room_id ended (HUMAN: h, AI: a)".
    pub fn game_end(&mut self, room_id: &str, human_score: u32, ai_score: u32)
        ensures
            final(self).capacity == old(self).capacity,
            entries_view(final(self).entries@).last() == (
                EventType::GameEnd,
                room_id@ + " ended (HUMAN: "@ + decimal(human_score as nat) + ", AI: "@ + decimal(
                    ai_score as nat,
                ) + ")"@,
            ),
    {
        let mut m = string_from(room_id);
        m.append(" ended (HUMAN: ");
        push_decimal(&mut m, human_score as u64);
        m.append(", AI: ");
        push_decimal(&mut m, ai_score as u64);
        m.append(")");
        self.log(EventType::GameEnd, m.as_str());
    }

    /// Logs "player_id plays card (trick n)".
    pub fn play(&mut self, player_id: &str, card: &str, trick: u32)
        ensures
            final(self).capacity == old(self).capacity,
            entries_view(final(self).entries@).last() == (
                EventType::Play,
                player_id@ + " plays "@ + card@ + " (trick "@ + decimal(trick as nat) + ")"@,
            ),
    {
        let mut m = string_from(player_id);
        m.append(" plays ");
        m.append(card);
        m.append(" (trick ");
        push_decimal(&mut m, trick as u64);
        m.append(")");
        self.log(EventType::Play, m.as_str());
    }

    /// Logs "winner wins trick n".
    pub fn trick_result(&mut self, winner: &str, trick: u32)
        ensures
            final(self).capacity == old(self).capacity,
            entries_view(final(self).entries@).last() == (
                EventType::TrickResult,
                winner@ + " wins trick "@ + decimal(trick as nat),
            ),
    {
        let mut m = string_from(winner);
        m.append(" wins trick ");
        push_decimal(&mut m, trick as u64);
        self.log(EventType::TrickResult, m.as_str());
    }

    /// Logs "action: detail".
    pub fn admin_action(&mut self, action: &str, detail: &str)
        ensures
            final(self).capacity == old(self).capacity,
            entries_view(final(self).entries@).last() == (EventType::AdminAction, action@ + ": "@ + detail@),
    {
        let mut m = string_from(action);
        m.append(": ");
        m.append(detail);
        self.log(EventType::AdminAction, m.as_str());
    }

    /// Logs an error message.
    pub fn error(&mut self, message: &str)
        ensures
            final(self).capacity == old(self).capacity,
            entries_view(final(self).entries@).last() == (EventType::Error, message@),
    {
        self.log(EventType::Error, message);
    }
}

} // verus!
