//! What a polling client is shown of a room.

use crate::model::{MemberModel, RoomModel};
use crate::status::RoomStatus;
use vstd::prelude::*;

verus! {

/// One player's line of a snapshot.
pub struct PlayerSnapshot {
    pub player_id: u32,
    pub player_name: String,
    pub score: u8,
    /// Whether the player has submitted this round; nothing for the leader.
    pub is_finisher_ready: Option<bool>,
    /// Whether the player has acknowledged the round's result; nothing
    /// outside that phase.
    pub is_next_round_ready: Option<bool>,
    /// Seconds since the player last polled.
    pub last_check: u64,
}

/// One submission as shown with the round's result.
pub struct FinisherSnapshot {
    pub player_name: String,
    pub finisher_text: String,
    pub is_winner: bool,
}

/// The state of a room as one poll reports it.
pub struct Snapshot {
    pub players: Vec<PlayerSnapshot>,
    pub room_status: String,
    pub owner_id: u32,
    pub leader_id: u32,
    pub round_counter: u8,
    pub round_total: u8,
    pub prompt_text: Option<String>,
    pub finishers: Option<Vec<FinisherSnapshot>>,
}

/// A player's line, as a value.
#[verifier::ext_equal]
pub struct PlayerLine {
    pub player_id: u32,
    pub player_name: Seq<char>,
    pub score: u8,
    pub is_finisher_ready: Option<bool>,
    pub is_next_round_ready: Option<bool>,
    pub last_check: u64,
}

/// A shown submission, as a value.
#[verifier::ext_equal]
pub struct FinisherLine {
    pub player_name: Seq<char>,
    pub finisher_text: Seq<char>,
    pub is_winner: bool,
}

/// A snapshot, as a value.
#[verifier::ext_equal]
pub struct SnapshotModel {
    pub players: Seq<PlayerLine>,
    pub room_status: Seq<char>,
    pub owner_id: u32,
    pub leader_id: u32,
    pub round_counter: u8,
    pub round_total: u8,
    pub prompt_text: Option<Seq<char>>,
    pub finishers: Option<Seq<FinisherLine>>,
}

impl PlayerSnapshot {
    pub open spec fn view(&self) -> PlayerLine {
        PlayerLine {
            player_id: self.player_id,
            player_name: self.player_name@,
            score: self.score,
            is_finisher_ready: self.is_finisher_ready,
            is_next_round_ready: self.is_next_round_ready,
            last_check: self.last_check,
        }
    }
}

impl FinisherSnapshot {
    pub open spec fn view(&self) -> FinisherLine {
        FinisherLine {
            player_name: self.player_name@,
            finisher_text: self.finisher_text@,
            is_winner: self.is_winner,
        }
    }
}

impl Snapshot {
    pub open spec fn view(&self) -> SnapshotModel {
        SnapshotModel {
            players: Seq::new(self.players@.len(), |i: int| self.players@[i]@),
            room_status: self.room_status@,
            owner_id: self.owner_id,
            leader_id: self.leader_id,
            round_counter: self.round_counter,
            round_total: self.round_total,
            prompt_text: match self.prompt_text {
                Some(text) => Some(text@),
                None => None,
            },
            finishers: match self.finishers {
                Some(lines) => Some(Seq::new(lines@.len(), |i: int| lines@[i]@)),
                None => None,
            },
        }
    }
}

/// The texts of a corpus, by card id.
pub open spec fn texts(corpus: Seq<String>) -> Seq<Seq<char>> {
    Seq::new(corpus.len(), |i: int| corpus[i]@)
}

/// Seconds from `then` to `now`; a clock that went back counts as none.
pub open spec fn age(now: u64, then: u64) -> u64 {
    if now >= then {
        (now - then) as u64
    } else {
        0
    }
}

/// The line shown for the member at `i`.
pub open spec fn player_line(m: RoomModel, i: int, now: u64) -> PlayerLine {
    let member = m.members[i];
    PlayerLine {
        player_id: member.id,
        player_name: member.name,
        score: member.score,
        is_finisher_ready: if i == m.leader_position {
            None
        } else {
            Some(member.submission is Some)
        },
        is_next_round_ready: if m.status == RoomStatus::RoundWinner {
            Some(!member.not_ready)
        } else {
            None
        },
        last_check: age(now, member.last_poll),
    }
}

/// The submissions of `members`, in join order, each with its text and
/// with whether its submitter is the round's winner.
pub open spec fn finisher_lines(
    members: Seq<MemberModel>,
    winner: Option<u32>,
    finishers: Seq<Seq<char>>,
) -> Seq<FinisherLine>
    decreases members.len(),
{
    if members.len() == 0 {
        Seq::empty()
    } else {
        let rest = finisher_lines(members.drop_last(), winner, finishers);
        match members.last().submission {
            Some(f) => rest.push(
                FinisherLine {
                    player_name: members.last().name,
                    finisher_text: finishers[f as int],
                    is_winner: winner == Some(members.last().id),
                },
            ),
            None => rest,
        }
    }
}

/// What a poll at time `now` shows of the room: the phase, the round, who
/// owns and who leads, a line for every member, the prompt's text once one
/// is selected, and the submissions while a round's result is shown.
pub open spec fn project(
    m: RoomModel,
    now: u64,
    prompts: Seq<Seq<char>>,
    finishers: Seq<Seq<char>>,
) -> SnapshotModel {
    SnapshotModel {
        players: Seq::new(m.members.len(), |i: int| player_line(m, i, now)),
        room_status: m.status.tag(),
        owner_id: m.owner_id,
        leader_id: m.leader_id(),
        round_counter: m.round_counter,
        round_total: m.round_total,
        prompt_text: match m.selected_prompt_id {
            Some(p) => Some(prompts[p as int]),
            None => None,
        },
        finishers: if m.status == RoomStatus::RoundWinner {
            Some(finisher_lines(m.members, m.winner_player_id, finishers))
        } else {
            None
        },
    }
}

} // verus!
