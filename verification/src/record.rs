use vstd::prelude::*;

verus! {

/// The current UTC time as an RFC 3339 timestamp (`chrono::Utc::now().to_rfc3339()`).
/// Nothing is stated of the text: it depends on the clock.
#[verifier::external_body]
pub(crate) fn now_rfc3339() -> String {
    chrono::Utc::now().to_rfc3339()
}

/// One match for the history: room, players, winner, start and end times, duration.
#[derive(Debug, Clone)]
pub struct GameRecord {
    pub room_code: String,
    pub player1_name: String,
    pub player2_name: String,
    pub winner_name: Option<String>,
    pub started_at: String,
    pub ended_at: Option<String>,
    pub duration_secs: Option<i64>,
}

impl GameRecord {
    /// A record of a match between `p1` and `p2` in room `room_code` that started at
    /// `started_at` and has no winner, end or duration yet.
    pub fn starting(room_code: String, p1: String, p2: String, started_at: String) -> (r: GameRecord)
        ensures
            r.room_code@ == room_code@,
            r.player1_name@ == p1@,
            r.player2_name@ == p2@,
            r.winner_name.is_none(),
            r.started_at@ == started_at@,
            r.ended_at.is_none(),
            r.duration_secs.is_none(),
    {
        GameRecord {
            room_code,
            player1_name: p1,
            player2_name: p2,
            winner_name: None,
            started_at,
            ended_at: None,
            duration_secs: None,
        }
    }

    /// A record of a match between `p1` and `p2` in room `room_code` starting now.
    pub fn new(room_code: String, p1: String, p2: String) -> (r: GameRecord)
        ensures
            r.room_code@ == room_code@,
            r.player1_name@ == p1@,
            r.player2_name@ == p2@,
            r.winner_name.is_none(),
            r.ended_at.is_none(),
            r.duration_secs.is_none(),
    {
        let now = now_rfc3339();
        GameRecord::starting(room_code, p1, p2, now)
    }
}

} // verus!
