//! Phases of a room and the kinds of failure an operation can report.

use vstd::prelude::*;

verus! {

/// Phase of a room within a match.
#[derive(Clone, Copy, Debug, PartialEq, Eq, Structural)]
pub enum RoomStatus {
    /// Players are gathering; no match has started.
    Waiting,
    /// The leader is choosing one of the drawn prompts.
    LeaderOptions,
    /// The other players are choosing a finisher from their hands.
    LackeyOptions,
    /// Every other player has submitted; the leader picks the winner.
    LeaderPick,
    /// A round winner is shown until every player has acknowledged.
    RoundWinner,
    /// The last round is over; the owner may start a new match.
    GameWinner,
}

/// Why an operation was refused.
#[derive(Clone, Copy, Debug, PartialEq, Eq, Structural)]
pub enum GameError {
    /// The caller's input is malformed or out of range.
    ValidationError,
    /// The room, join code or membership does not resolve.
    NotFound,
    /// The room is in the wrong phase, or the caller has the wrong role. The
    /// phase named is the one that the request is for: the next phase in
    /// which the room takes such a request from this caller.
    PreconditionFailed(RoomStatus),
    /// The player has already submitted a finisher this round.
    Conflict,
    /// The engine's own bookkeeping cannot serve the request.
    InternalInvariantViolation,
}

impl RoomStatus {
    /// The tag under which the phase is reported to clients.
    pub open spec fn tag(self) -> Seq<char> {
        match self {
            RoomStatus::Waiting => "WAITING"@,
            RoomStatus::LeaderOptions => "LEADER_OPTIONS"@,
            RoomStatus::LackeyOptions => "LACKEY_OPTIONS"@,
            RoomStatus::LeaderPick => "LEADER_PICK"@,
            RoomStatus::RoundWinner => "ROUND_WINNER"@,
            RoomStatus::GameWinner => "GAME_WINNER"@,
        }
    }

    /// Whether a prompt has been selected in this phase.
    pub open spec fn has_prompt(self) -> bool {
        self == RoomStatus::LackeyOptions || self == RoomStatus::LeaderPick || self
            == RoomStatus::RoundWinner
    }

    /// Renders the phase as its client-facing tag.
    pub fn to_tag(&self) -> (s: String)
        ensures
            s@ == self.tag(),
    {
        match self {
            RoomStatus::Waiting => "WAITING".to_owned(),
            RoomStatus::LeaderOptions => "LEADER_OPTIONS".to_owned(),
            RoomStatus::LackeyOptions => "LACKEY_OPTIONS".to_owned(),
            RoomStatus::LeaderPick => "LEADER_PICK".to_owned(),
            RoomStatus::RoundWinner => "ROUND_WINNER".to_owned(),
            RoomStatus::GameWinner => "GAME_WINNER".to_owned(),
        }
    }
}

} // verus!
