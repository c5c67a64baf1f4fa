use vstd::prelude::*;
use crate::protocol::{PlayerId, Team};
use crate::text::string_from;

verus! {

/// A seat played by the server itself; it holds no connection.
#[derive(Debug, Clone)]
pub struct AiPlayer {
    pub player_id: PlayerId,
    pub nickname: String,
    pub team: Team,
}

impl AiPlayer {
    /// The first built-in partner: seat P3, nickname "AI_Partner1".
    pub fn partner1() -> (a: AiPlayer)
        ensures
            a.player_id@ == "P3"@,
            a.nickname@ == "AI_Partner1"@,
            a.team == Team::Ai,
    {
        AiPlayer { player_id: string_from("P3"), nickname: string_from("AI_Partner1"), team: Team::Ai }
    }

    /// The second built-in partner: seat P4, nickname "AI_Partner2".
    pub fn partner2() -> (a: AiPlayer)
        ensures
            a.player_id@ == "P4"@,
            a.nickname@ == "AI_Partner2"@,
            a.team == Team::Ai,
    {
        AiPlayer { player_id: string_from("P4"), nickname: string_from("AI_Partner2"), team: Team::Ai }
    }

    /// Both built-in partners.
    pub fn create_partners() -> (r: (AiPlayer, AiPlayer))
        ensures
            r.0.player_id@ == "P3"@,
            r.0.nickname@ == "AI_Partner1"@,
            r.0.team == Team::Ai,
            r.1.player_id@ == "P4"@,
            r.1.nickname@ == "AI_Partner2"@,
            r.1.team == Team::Ai,
    {
        (AiPlayer::partner1(), AiPlayer::partner2())
    }
}

} // verus!
