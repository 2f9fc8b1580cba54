use vstd::prelude::*;
use rand::Rng;

use crate::record::{GameRecord, now_rfc3339};
use crate::text::{trim, trims_to, push_char};

verus! {

/// The lifecycle of a room.
#[derive(Debug, Clone, Copy, PartialEq, Eq, Structural)]
pub enum RoomState {
    /// waiting for player 2
    Waiting,
    /// both connected, game starting
    Ready,
    /// game in progress
    Playing,
    /// game over
    Finished,
}

/// A player seated in a room.
#[derive(Debug, Clone)]
pub struct PlayerInfo {
    pub name: String,
    /// 1 or 2
    pub slot: u8,
}

/// A two-player room.
#[derive(Debug, Clone)]
pub struct Room {
    pub code: String,
    pub player1: Option<PlayerInfo>,
    pub player2: Option<PlayerInfo>,
    pub state: RoomState,
    pub created_at: String,
    /// Lines cleared by player 1 this game
    pub p1_lines: u32,
    /// Lines cleared by player 2 this game
    pub p2_lines: u32,
    /// Current shared global level (starts at 1, increases every 10 total lines)
    pub global_level: u32,
}

/// The body of a room-creation request.
pub struct CreateRoomBody {
    pub player_name: String,
}

/// The answer to a room creation: the room code and the creator's slot.
pub struct CreateRoomResponse {
    pub code: String,
    pub slot: u8,
}

/// The public view of a room.
pub struct GetRoomResponse {
    pub code: String,
    pub state: RoomState,
    pub player1: Option<String>,
    pub player2: Option<String>,
}

/// The outcome of a join: the slot taken, the slot of a seated player who connects
/// again, no such room, or a full room.
#[derive(Debug, Clone, Copy, PartialEq, Eq, Structural)]
pub enum SlotResult {
    Joined(u8),
    Reconnected(u8),
    NotFound,
    Full,
}

/// Why a room could not be created.
#[derive(Debug, Clone, Copy, PartialEq, Eq, Structural)]
pub enum RoomError {
    InvalidName,
}

/// The result of a finished match: the winner's slot and name, and the history record.
pub struct GameOver {
    pub winner_slot: u8,
    pub winner_name: String,
    pub record: GameRecord,
}

/// Longest player name, in UTF-8 bytes.
pub const MAX_NAME_BYTES: usize = 20;

/// Length of a room code.
pub const CODE_LEN: usize = 6;

/// The byte length of a text as `str::len` reports it: its UTF-8 length.
pub open spec fn byte_len(t: Seq<char>) -> usize {
    vstd::utf8::encode_utf8(t).len() as usize
}

/// A trimmed name is usable: not empty, and at most 20 bytes in UTF-8.
pub open spec fn name_fits(t: Seq<char>) -> bool {
    t.len() > 0 && byte_len(t) <= MAX_NAME_BYTES
}

/// The characters of room codes: capital letters and digits without the look-alikes
/// I, O, 0 and 1.
pub open spec fn code_alphabet() -> Seq<char> {
    seq![
        'A', 'B', 'C', 'D', 'E', 'F', 'G', 'H', 'J', 'K', 'L', 'M', 'N', 'P', 'Q', 'R',
        'S', 'T', 'U', 'V', 'W', 'X', 'Y', 'Z', '2', '3', '4', '5', '6', '7', '8', '9',
    ]
}

/// A room code: six characters of the code alphabet.
pub open spec fn is_room_code(s: Seq<char>) -> bool {
    s.len() == CODE_LEN && forall|i: int| 0 <= i < s.len() ==> code_alphabet().contains(#[trigger] s[i])
}

/// The seat is taken by a player of that name.
pub open spec fn seated_as(p: Option<PlayerInfo>, name: Seq<char>) -> bool {
    p matches Some(info) && info.name@ == name
}

/// The name of a seat, or the empty text when the seat is free.
pub open spec fn seat_name(p: Option<PlayerInfo>) -> Seq<char> {
    match p {
        Some(info) => info.name@,
        None => Seq::empty(),
    }
}

/// The winner's slot when the player reporting the loss sent `from_slot`: the
/// report is read as a byte, and a loss by slot 1 makes slot 2 the winner, any
/// other report slot 1.
pub open spec fn winner_for(from_slot: u64) -> u8 {
    if from_slot % 256 == 1 {
        2
    } else {
        1
    }
}

/// The thread-local random generator of `rand`.
#[verifier::external_type_specification]
#[verifier::external_body]
pub struct ExThreadRng(rand::rngs::ThreadRng);

/// The thread-local generator (`rand::thread_rng`); nothing is stated of its state.
#[verifier::external_body]
fn thread_rng() -> rand::rngs::ThreadRng {
    rand::thread_rng()
}

/// A uniformly drawn index below `n` (`Rng::gen_range(0..n)`, which panics on an
/// empty range): only its range is stated, the value is random.
#[verifier::external_body]
fn gen_index(rng: &mut rand::rngs::ThreadRng, n: usize) -> (i: usize)
    requires
        n > 0,
    ensures
        i < n,
{
    rng.gen_range(0..n)
}

/// The room code that six indices into the code alphabet spell.
pub fn code_from_picks(picks: &Vec<usize>) -> (code: String)
    requires
        picks@.len() == CODE_LEN,
        forall|k: int| 0 <= k < CODE_LEN ==> #[trigger] picks@[k] < 32,
    ensures
        code@ == Seq::new(CODE_LEN as nat, |k: int| code_alphabet()[picks@[k] as int]),
        is_room_code(code@),
{
    let chars: Vec<char> = vec![
        'A', 'B', 'C', 'D', 'E', 'F', 'G', 'H', 'J', 'K', 'L', 'M', 'N', 'P', 'Q', 'R',
        'S', 'T', 'U', 'V', 'W', 'X', 'Y', 'Z', '2', '3', '4', '5', '6', '7', '8', '9',
    ];
    assert(chars@ =~= code_alphabet());
    let ghost goal = Seq::new(CODE_LEN as nat, |k: int| code_alphabet()[picks@[k] as int]);
    let mut code = String::new();
    for k in 0..CODE_LEN
        invariant
            chars@ == code_alphabet(),
            picks@.len() == CODE_LEN,
            forall|m: int| 0 <= m < CODE_LEN ==> #[trigger] picks@[m] < 32,
            goal == Seq::new(CODE_LEN as nat, |m: int| code_alphabet()[picks@[m] as int]),
            code@ == goal.take(k as int),
    {
        push_char(&mut code, chars[picks[k]]);
        assert(code@ =~= goal.take(k + 1));
    }
    assert(goal.take(CODE_LEN as int) =~= goal);
    assert forall|i: int| 0 <= i < code@.len() implies code_alphabet().contains(#[trigger] code@[i]) by {
        assert(code_alphabet()[picks@[i] as int] == code@[i]);
    }
    code
}

/// The code that six indices into the code alphabet spell.
pub open spec fn spelled(picks: Seq<usize>) -> Seq<char> {
    Seq::new(CODE_LEN as nat, |k: int| code_alphabet()[picks[k] as int])
}

/// A random room code: six indices drawn uniformly below 32, spelled in the code
/// alphabet. The ghost result lists the indices the generator returned, in the order
/// drawn; the code spells exactly those, one character per draw.
fn generate_code() -> (r: (String, Ghost<Seq<usize>>))
    ensures
        r.1@.len() == CODE_LEN,
        forall|k: int| 0 <= k < CODE_LEN ==> #[trigger] r.1@[k] < 32,
        r.0@ == spelled(r.1@),
        is_room_code(r.0@),
{
    let mut rng = thread_rng();
    let mut picks: Vec<usize> = Vec::new();
    let ghost mut drawn: Seq<usize> = Seq::empty();
    for k in 0..CODE_LEN
        invariant
            picks@.len() == k,
            picks@ == drawn,
            forall|m: int| 0 <= m < k ==> #[trigger] picks@[m] < 32,
    {
        let i = gen_index(&mut rng, 32);
        proof {
            drawn = drawn.push(i);
        }
        picks.push(i);
    }
    let code = code_from_picks(&picks);
    proof {
        assert(code@ =~= spelled(drawn));
    }
    (code, Ghost(drawn))
}

/// The trimmed player name, when it is not empty and at most 20 bytes long.
pub fn valid_player_name(raw: &str) -> (r: Option<String>)
    ensures
        r matches Some(n) ==> trims_to(raw@, n@) && name_fits(n@),
        r is None ==> forall|t: Seq<char>| trims_to(raw@, t) ==> !name_fits(t),
{
    let t = trim(raw);
    if t.is_empty() || t.len() > MAX_NAME_BYTES {
        proof {
            lemma_trim_unique(raw@);
        }
        None
    } else {
        let name = t.to_owned();
        Some(name)
    }
}

/// A new room for a creator named `player_name`: refused when the trimmed name is
/// empty or longer than 20 bytes; otherwise a fresh random code, created now,
/// waiting, with both seats free (the creator takes a seat when joining), no lines
/// and level 1.
pub fn open_room(player_name: &str) -> (r: Result<Room, RoomError>)
    ensures
        r is Err <==> forall|t: Seq<char>| trims_to(player_name@, t) ==> !name_fits(t),
        r matches Err(e) ==> e == RoomError::InvalidName,
        r matches Ok(room) ==> {
            &&& is_room_code(room.code@)
            &&& room.player1.is_none()
            &&& room.player2.is_none()
            &&& room.state == RoomState::Waiting
            &&& room.p1_lines == 0
            &&& room.p2_lines == 0
            &&& room.global_level == 1
        },
{
    match valid_player_name(player_name) {
        None => Err(RoomError::InvalidName),
        Some(_name) => {
            let (code, _drawn) = generate_code();
            let created_at = now_rfc3339();
            Ok(Room::waiting(code, created_at))
        },
    }
}

/// The name of a seat, or the empty text when the seat is free.
pub fn seat_name_of(p: &Option<PlayerInfo>) -> (n: String)
    ensures
        n@ == seat_name(*p),
{
    match p {
        Some(info) => info.name.clone(),
        None => String::new(),
    }
}

/// The winner's slot when the loser reported `from_slot` (read as a byte): 2 when
/// slot 1 lost, 1 otherwise.
pub fn winner_slot(from_slot: u64) -> (w: u8)
    ensures
        w == winner_for(from_slot),
{
    let loser = from_slot as u8;
    assert((from_slot as u8 == 1) == (from_slot % 256 == 1)) by (bit_vector);
    if loser == 1 {
        2
    } else {
        1
    }
}

impl Room {
    /// A room with code `code`, created at `created_at`, waiting, with both seats
    /// free, no lines and level 1.
    pub fn waiting(code: String, created_at: String) -> (room: Room)
        ensures
            room.code@ == code@,
            room.created_at@ == created_at@,
            room.player1.is_none(),
            room.player2.is_none(),
            room.state == RoomState::Waiting,
            room.p1_lines == 0,
            room.p2_lines == 0,
            room.global_level == 1,
    {
        Room {
            code,
            player1: None,
            player2: None,
            state: RoomState::Waiting,
            created_at,
            p1_lines: 0,
            p2_lines: 0,
            global_level: 1,
        }
    }

    /// Seats a joining player: the first free seat of slot 1 and slot 2 is taken.
    /// When both seats are taken, a player whose name is seated there reconnects to
    /// that seat (slot 1 first) and a room seating two other names is full; either
    /// way the seats stay as they were.
    pub fn assign_slot(&mut self, name: String) -> (r: SlotResult)
        ensures
            old(self).player1.is_none() ==> {
                &&& r == SlotResult::Joined(1)
                &&& final(self).player1 matches Some(p) && p.name@ == name@ && p.slot == 1
                &&& final(self).player2 == old(self).player2
            },
            old(self).player1.is_some() && old(self).player2.is_none() ==> {
                &&& r == SlotResult::Joined(2)
                &&& final(self).player2 matches Some(p) && p.name@ == name@ && p.slot == 2
                &&& final(self).player1 == old(self).player1
            },
            old(self).player1.is_some() && old(self).player2.is_some() ==> {
                &&& final(self).player1 == old(self).player1
                &&& final(self).player2 == old(self).player2
                &&& r == if seated_as(old(self).player1, name@) {
                    SlotResult::Reconnected(1)
                } else if seated_as(old(self).player2, name@) {
                    SlotResult::Reconnected(2)
                } else {
                    SlotResult::Full
                }
            },
            final(self).code == old(self).code,
            final(self).state == old(self).state,
            final(self).created_at == old(self).created_at,
            final(self).p1_lines == old(self).p1_lines,
            final(self).p2_lines == old(self).p2_lines,
            final(self).global_level == old(self).global_level,
    {
        if self.player1.is_none() {
            self.player1 = Some(PlayerInfo { name, slot: 1 });
            return SlotResult::Joined(1);
        }
        if self.player2.is_none() {
            self.player2 = Some(PlayerInfo { name, slot: 2 });
            return SlotResult::Joined(2);
        }
        let same1 = match &self.player1 {
            Some(p) => p.name == name,
            None => false,
        };
        if same1 {
            return SlotResult::Reconnected(1);
        }
        let same2 = match &self.player2 {
            Some(p) => p.name == name,
            None => false,
        };
        if same2 {
            SlotResult::Reconnected(2)
        } else {
            SlotResult::Full
        }
    }

    /// The names to send a reconnecting player when the game is on: both seats taken
    /// and the room playing; otherwise nothing.
    pub fn resume(&self) -> (r: Option<(String, String)>)
        ensures
            ({
                let on = self.player1.is_some() && self.player2.is_some() && self.state
                    == RoomState::Playing;
                &&& on ==> (r matches Some((a, b)) && a@ == seat_name(self.player1) && b@
                    == seat_name(self.player2))
                &&& !on ==> r is None
            }),
    {
        if self.player1.is_some() && self.player2.is_some() && self.state == RoomState::Playing {
            Some((seat_name_of(&self.player1), seat_name_of(&self.player2)))
        } else {
            None
        }
    }

    /// Starts the game when both seats are taken and the room is waiting, returning
    /// the two names; otherwise nothing changes.
    pub fn try_start(&mut self) -> (r: Option<(String, String)>)
        ensures
            ({
                let starts = old(self).player1.is_some() && old(self).player2.is_some()
                    && old(self).state == RoomState::Waiting;
                &&& starts ==> final(self).state == RoomState::Playing
                &&& starts ==> (r matches Some((a, b)) && a@ == seat_name(old(self).player1) && b@
                    == seat_name(old(self).player2))
                &&& !starts ==> r is None && final(self).state == old(self).state
            }),
            final(self).player1 == old(self).player1,
            final(self).player2 == old(self).player2,
            final(self).code == old(self).code,
            final(self).created_at == old(self).created_at,
            final(self).p1_lines == old(self).p1_lines,
            final(self).p2_lines == old(self).p2_lines,
            final(self).global_level == old(self).global_level,
    {
        if self.player1.is_some() && self.player2.is_some() && self.state == RoomState::Waiting {
            self.state = RoomState::Playing;
            let p1 = seat_name_of(&self.player1);
            let p2 = seat_name_of(&self.player2);
            Some((p1, p2))
        } else {
            None
        }
    }

    /// The result of a match in which the player in `from_slot` lost, stamped with the
    /// time `now`: the winner's slot and name (empty when the seat is free), and a
    /// history record that starts and ends at `now` with both names and the winner.
    pub fn game_result(&self, from_slot: u64, now: String) -> (g: GameOver)
        ensures
            g.winner_slot == winner_for(from_slot),
            g.winner_name@ == if winner_for(from_slot) == 1 {
                seat_name(self.player1)
            } else {
                seat_name(self.player2)
            },
            g.record.room_code@ == self.code@,
            g.record.player1_name@ == seat_name(self.player1),
            g.record.player2_name@ == seat_name(self.player2),
            g.record.winner_name matches Some(w) && w@ == g.winner_name@,
            g.record.started_at@ == now@,
            g.record.ended_at matches Some(e) && e@ == now@,
            g.record.duration_secs.is_none(),
    {
        let w = winner_slot(from_slot);
        let winner_name = if w == 1 {
            seat_name_of(&self.player1)
        } else {
            seat_name_of(&self.player2)
        };
        let p1 = seat_name_of(&self.player1);
        let p2 = seat_name_of(&self.player2);
        let record = GameRecord {
            room_code: self.code.clone(),
            player1_name: p1,
            player2_name: p2,
            winner_name: Some(winner_name.clone()),
            started_at: now.clone(),
            ended_at: Some(now),
            duration_secs: None,
        };
        GameOver { winner_slot: w, winner_name, record }
    }

    /// Ends the match in which the player in `from_slot` lost: the room is finished,
    /// and the result is stamped with the current time (see `game_result`).
    pub fn conclude(&mut self, from_slot: u64) -> (g: GameOver)
        ensures
            final(self).state == RoomState::Finished,
            g.winner_slot == winner_for(from_slot),
            g.winner_name@ == if winner_for(from_slot) == 1 {
                seat_name(old(self).player1)
            } else {
                seat_name(old(self).player2)
            },
            g.record.room_code@ == old(self).code@,
            g.record.player1_name@ == seat_name(old(self).player1),
            g.record.player2_name@ == seat_name(old(self).player2),
            g.record.winner_name matches Some(w) && w@ == g.winner_name@,
            g.record.ended_at matches Some(e) && e@ == g.record.started_at@,
            g.record.duration_secs.is_none(),
            final(self).player1 == old(self).player1,
            final(self).player2 == old(self).player2,
            final(self).code == old(self).code,
            final(self).created_at == old(self).created_at,
            final(self).p1_lines == old(self).p1_lines,
            final(self).p2_lines == old(self).p2_lines,
            final(self).global_level == old(self).global_level,
    {
        let now = now_rfc3339();
        let g = self.game_result(from_slot, now);
        self.state = RoomState::Finished;
        g
    }

    /// What the room's creator is told: the code and slot 1.
    pub fn creation_response(&self) -> (r: CreateRoomResponse)
        ensures
            r.code@ == self.code@,
            r.slot == 1,
    {
        CreateRoomResponse { code: self.code.clone(), slot: 1 }
    }

    /// The public view of the room: its code, state and seated names.
    pub fn summary(&self) -> (r: GetRoomResponse)
        ensures
            r.code@ == self.code@,
            r.state == self.state,
            r.player1 matches Some(n) ==> self.player1 matches Some(p) && n@ == p.name@,
            r.player1 is None <==> self.player1 is None,
            r.player2 matches Some(n) ==> self.player2 matches Some(p) && n@ == p.name@,
            r.player2 is None <==> self.player2 is None,
    {
        let player1 = match &self.player1 {
            Some(p) => Some(p.name.clone()),
            None => None,
        };
        let player2 = match &self.player2 {
            Some(p) => Some(p.name.clone()),
            None => None,
        };
        GetRoomResponse { code: self.code.clone(), state: self.state, player1, player2 }
    }
}

/// `str::trim` has one result: the leading and trailing whitespace are determined.
pub proof fn lemma_trim_unique(s: Seq<char>)
    ensures
        forall|t1: Seq<char>, t2: Seq<char>| trims_to(s, t1) && trims_to(s, t2) ==> t1 == t2,
{
    assert forall|t1: Seq<char>, t2: Seq<char>| trims_to(s, t1) && trims_to(s, t2) implies t1 == t2 by {
        let (i1, j1) = choose|i: int, j: int|
            0 <= i <= j <= s.len() && t1 == s.subrange(i, j) && (forall|k: int|
                0 <= k < i ==> crate::text::is_space(#[trigger] s[k])) && (forall|k: int|
                j <= k < s.len() ==> crate::text::is_space(#[trigger] s[k])) && (i < j
                ==> !crate::text::is_space(s[i]) && !crate::text::is_space(s[j - 1]));
        let (i2, j2) = choose|i: int, j: int|
            0 <= i <= j <= s.len() && t2 == s.subrange(i, j) && (forall|k: int|
                0 <= k < i ==> crate::text::is_space(#[trigger] s[k])) && (forall|k: int|
                j <= k < s.len() ==> crate::text::is_space(#[trigger] s[k])) && (i < j
                ==> !crate::text::is_space(s[i]) && !crate::text::is_space(s[j - 1]));
        if i1 < j1 && i2 < j2 {
            if i1 < i2 {
                assert(crate::text::is_space(s[i1]));
            }
            if i2 < i1 {
                assert(crate::text::is_space(s[i2]));
            }
            if j1 < j2 {
                assert(crate::text::is_space(s[j2 - 1]));
            }
            if j2 < j1 {
                assert(crate::text::is_space(s[j1 - 1]));
            }
        } else if i1 < j1 {
            assert(crate::text::is_space(s[i1]));
        } else if i2 < j2 {
            assert(crate::text::is_space(s[i2]));
        }
        assert(t1 =~= t2);
    }
}

} // verus!
