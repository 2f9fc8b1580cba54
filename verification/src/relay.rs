//! The decisions of a player's connection: the join it must open with, and what
//! becomes of each frame relayed to the room afterwards.
use vstd::prelude::*;

verus! {

/// The first frame of a connection, as far as the join decision reads it.
pub enum FirstFrame {
    /// A text frame that parses as a message with a string `type` and a string
    /// `player_name`, given as `(type, player_name)`.
    Message(String, String),
    /// A text frame that does not parse as such a message.
    Unreadable,
    /// No text frame: the connection closed, failed, or sent another kind of frame.
    NotText,
}

/// What to do with a connection's first frame.
#[derive(Debug, PartialEq, Eq)]
pub enum JoinStep {
    /// It is a join: seat the player whose raw (untrimmed) name is given.
    Join(String),
    /// Answer that the first message must be a join, and close.
    Refuse,
    /// Close without an answer.
    Leave,
}

/// A frame received after the join, as far as the relay reads it.
pub enum Incoming {
    /// A text frame holding JSON that can be tagged with the sender's slot (an
    /// object, or `null`); the text is its `type` field when that is a string, and
    /// empty otherwise.
    Tagged(String),
    /// A text frame holding JSON that is neither an object nor `null`.
    Untaggable,
    /// A text frame that is not JSON.
    Unparsed,
    /// A close frame, the end of the stream, or a receive error.
    Closed,
    /// Any other frame (binary, ping, pong).
    Other,
}

/// What the relay does with a frame.
#[derive(Debug, PartialEq, Eq)]
pub enum RelayStep {
    /// Tag the frame with `from_slot` and broadcast it to the room; when `concludes`
    /// holds, first end the game with the sender as the player who lost.
    Forward { from_slot: u8, concludes: bool },
    /// Drop the frame and go on.
    Skip,
    /// Stop relaying and tell the room that the player in `slot` has left.
    Disconnect { slot: u8 },
    /// Stop relaying without a notice: the frame cannot be tagged.
    Abort,
}

/// The message type that opens a connection.
pub open spec fn join_kind() -> Seq<char> {
    "join"@
}

/// The message type with which a player reports that their game is over.
pub open spec fn game_over_kind() -> Seq<char> {
    "game_over"@
}

/// The decision on a connection's first frame: a message of type `join` joins with
/// its name, any other text is refused, and anything else ends the connection.
pub fn join_step(first: FirstFrame) -> (step: JoinStep)
    ensures
        match first {
            FirstFrame::Message(kind, name) => if kind@ == join_kind() {
                step matches JoinStep::Join(n) && n@ == name@
            } else {
                step == JoinStep::Refuse
            },
            FirstFrame::Unreadable => step == JoinStep::Refuse,
            FirstFrame::NotText => step == JoinStep::Leave,
        },
{
    match first {
        FirstFrame::Message(kind, name) => {
            let join = "join".to_owned();
            if kind == join {
                JoinStep::Join(name)
            } else {
                JoinStep::Refuse
            }
        },
        FirstFrame::Unreadable => JoinStep::Refuse,
        FirstFrame::NotText => JoinStep::Leave,
    }
}

/// The decision on a frame from the player in `slot`: taggable JSON is forwarded
/// with the sender's slot, and a `game_over` ends the game first; text that is not
/// JSON and frames that are not text are skipped; JSON that cannot be tagged stops
/// the relay without a notice; the end of the connection stops it with a notice.
pub fn relay_step(slot: u8, frame: Incoming) -> (step: RelayStep)
    ensures
        match frame {
            Incoming::Tagged(kind) => step == (RelayStep::Forward {
                from_slot: slot,
                concludes: kind@ == game_over_kind(),
            }),
            Incoming::Untaggable => step == RelayStep::Abort,
            Incoming::Unparsed => step == RelayStep::Skip,
            Incoming::Closed => step == (RelayStep::Disconnect { slot }),
            Incoming::Other => step == RelayStep::Skip,
        },
{
    match frame {
        Incoming::Tagged(kind) => {
            let game_over = "game_over".to_owned();
            RelayStep::Forward { from_slot: slot, concludes: kind == game_over }
        },
        Incoming::Untaggable => RelayStep::Abort,
        Incoming::Unparsed => RelayStep::Skip,
        Incoming::Closed => RelayStep::Disconnect { slot },
        Incoming::Other => RelayStep::Skip,
    }
}

} // verus!
