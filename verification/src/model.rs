//! The mathematical model of a room: its state, the rule that every
//! reachable state obeys, and the transitions between states.

use crate::bag::{filled, is_pool};
use crate::status::{GameError, RoomStatus};
use vstd::prelude::*;

verus! {

/// Number of prompts laid out for the leader.
pub const PROMPT_CHOICES: usize = 3;

/// Number of finishers a player's hand is filled up to.
pub const HAND_SIZE: usize = 8;

/// Where the options offered to a player come from.
pub enum OptionSource {
    /// The prompts laid out for the leader.
    Prompts,
    /// The player's own hand of finishers.
    Hand,
    /// The finishers that the other players submitted.
    Submissions,
}

/// A player as the rules see them.
#[verifier::ext_equal]
pub struct MemberModel {
    pub id: u32,
    pub name: Seq<char>,
    pub score: u8,
    /// Time of the player's last poll, in seconds.
    pub last_poll: u64,
    /// Finishers held and not yet submitted.
    pub hand: Seq<u16>,
    /// The finisher submitted this round, if any.
    pub submission: Option<u16>,
    /// Whether the player has yet to acknowledge the round's result.
    pub not_ready: bool,
}

/// A room as the rules see it. Members stand in join order, which is also
/// the order in which they lead.
#[verifier::ext_equal]
pub struct RoomModel {
    pub id: u32,
    pub code: Seq<char>,
    pub status: RoomStatus,
    pub owner_id: u32,
    pub round_counter: u8,
    pub round_total: u8,
    pub leader_position: nat,
    pub selected_prompt_id: Option<u16>,
    pub winner_player_id: Option<u32>,
    pub winner_finisher_id: Option<u16>,
    pub members: Seq<MemberModel>,
    /// The prompts laid out for the leader this round.
    pub drawn_prompts: Seq<u16>,
    /// Prompts not yet drawn in the current shuffle.
    pub prompt_pool: Seq<u16>,
    /// Finishers not yet drawn in the current shuffle.
    pub finisher_pool: Seq<u16>,
    pub prompt_count: nat,
    pub finisher_count: nat,
}

/// The player who enters a room at time `now` under `id` and `name`.
pub open spec fn newcomer(id: u32, name: Seq<char>, now: u64) -> MemberModel {
    MemberModel {
        id,
        name,
        score: 0,
        last_poll: now,
        hand: Seq::empty(),
        submission: None,
        not_ready: false,
    }
}

/// Two states of one room with the same players in the same seats: the
/// room's identity, its settings, and who sits where are alike.
pub open spec fn same_seats(a: RoomModel, b: RoomModel) -> bool {
    &&& a.id == b.id
    &&& a.code == b.code
    &&& a.owner_id == b.owner_id
    &&& a.round_total == b.round_total
    &&& a.prompt_count == b.prompt_count
    &&& a.finisher_count == b.finisher_count
    &&& a.members.len() == b.members.len()
    &&& forall|i: int|
        0 <= i < a.members.len() ==> (#[trigger] a.members[i]).id == b.members[i].id
            && a.members[i].name == b.members[i].name
}

/// The next phase, seen from `status`, in which it is the leader who picks
/// and is offered options: the choice among the submissions while these are
/// awaited, the prompt draft otherwise.
pub open spec fn leader_turn(status: RoomStatus) -> RoomStatus {
    if status == RoomStatus::LackeyOptions {
        RoomStatus::LeaderPick
    } else {
        RoomStatus::LeaderOptions
    }
}

/// The members with every submission taken back.
pub open spec fn without_submissions(members: Seq<MemberModel>) -> Seq<MemberModel> {
    Seq::new(members.len(), |i: int| MemberModel { submission: None, ..members[i] })
}

/// The members with every score back at zero.
pub open spec fn without_scores(members: Seq<MemberModel>) -> Seq<MemberModel> {
    Seq::new(members.len(), |i: int| MemberModel { score: 0, ..members[i] })
}

/// The members, all of them yet to acknowledge, after the one at `winner`
/// has scored a point.
pub open spec fn after_win(members: Seq<MemberModel>, winner: int) -> Seq<MemberModel> {
    Seq::new(
        members.len(),
        |i: int|
            MemberModel {
                not_ready: true,
                score: if i == winner {
                    (members[i].score + 1) as u8
                } else {
                    members[i].score
                },
                ..members[i]
            },
    )
}

/// The hand without any copy of `card`, the other cards in their order.
pub open spec fn without_card(hand: Seq<u16>, card: u16) -> Seq<u16>
    decreases hand.len(),
{
    if hand.len() == 0 {
        hand
    } else if hand.last() == card {
        without_card(hand.drop_last(), card)
    } else {
        without_card(hand.drop_last(), card).push(hand.last())
    }
}

/// The number of submissions on record.
pub open spec fn submission_count(members: Seq<MemberModel>) -> nat
    decreases members.len(),
{
    if members.len() == 0 {
        0
    } else {
        submission_count(members.drop_last()) + if members.last().submission is Some {
            1nat
        } else {
            0nat
        }
    }
}

/// The finishers on record, in the order of their submitters.
pub open spec fn submitted_finishers(members: Seq<MemberModel>) -> Seq<u16>
    decreases members.len(),
{
    if members.len() == 0 {
        Seq::empty()
    } else if members.last().submission is Some {
        submitted_finishers(members.drop_last()).push(members.last().submission->0)
    } else {
        submitted_finishers(members.drop_last())
    }
}

impl RoomModel {
    pub open spec fn member_count(self) -> nat {
        self.members.len()
    }

    /// Whether `player` has joined the room.
    pub open spec fn has_member(self, player: u32) -> bool {
        exists|i: int| 0 <= i < self.members.len() && #[trigger] self.members[i].id == player
    }

    /// The position of `player` among the members.
    pub open spec fn index_of(self, player: u32) -> int {
        choose|i: int| 0 <= i < self.members.len() && #[trigger] self.members[i].id == player
    }

    /// The member whose turn it is to lead.
    pub open spec fn leader_id(self) -> u32 {
        self.members[self.leader_position as int].id
    }

    /// Every member other than the leader has a submission on record.
    pub open spec fn has_quorum(self) -> bool {
        forall|i: int|
            0 <= i < self.members.len() && i != self.leader_position ==> (
            #[trigger] self.members[i]).submission is Some
    }

    /// The member at `i` submitted `option`, and nobody before them did.
    pub open spec fn is_first_submitter(self, i: int, option: u16) -> bool {
        &&& 0 <= i < self.members.len()
        &&& self.members[i].submission == Some(option)
        &&& forall|j: int| 0 <= j < i ==> (#[trigger] self.members[j]).submission != Some(option)
    }

    /// Whether `option` is among the submissions.
    pub open spec fn was_submitted(self, option: u16) -> bool {
        exists|i: int| #[trigger] self.is_first_submitter(i, option)
    }

    /// The position of the first member, in join order, who submitted
    /// `option`.
    pub open spec fn first_submitter(self, option: u16) -> int {
        choose|i: int| #[trigger] self.is_first_submitter(i, option)
    }

    /// Whether some member has yet to acknowledge the round's result.
    pub open spec fn anyone_not_ready(self) -> bool {
        exists|i: int| 0 <= i < self.members.len() && (#[trigger] self.members[i]).not_ready
    }

    /// The position that leads after the current one.
    pub open spec fn next_leader_position(self) -> nat {
        (self.leader_position + 1) % self.members.len()
    }

    /// The rule that every state of a room obeys.
    pub open spec fn wf(self) -> bool {
        &&& 0 < self.prompt_count
        &&& 0 < self.finisher_count
        &&& is_pool(self.prompt_pool, self.prompt_count)
        &&& is_pool(self.finisher_pool, self.finisher_count)
        &&& self.members.len() > 0
        &&& self.members[0].id == self.owner_id
        &&& forall|i: int, j: int|
            0 <= i < j < self.members.len() ==> (#[trigger] self.members[i]).id != (
            #[trigger] self.members[j]).id
        &&& self.leader_position < self.members.len()
        &&& 1 <= self.round_counter <= self.round_total
        &&& self.status == RoomStatus::Waiting ==> self.leader_position == 0
        &&& self.status != RoomStatus::Waiting ==> self.members.len() > 2
        &&& self.selected_prompt_id is Some <==> self.status.has_prompt()
        &&& self.selected_prompt_id matches Some(p) ==> (p as nat) < self.prompt_count
        &&& self.winner_player_id is Some <==> self.status == RoomStatus::RoundWinner
        &&& self.winner_finisher_id is Some <==> self.status == RoomStatus::RoundWinner
        &&& self.status == RoomStatus::RoundWinner ==> {
            &&& self.was_submitted(self.winner_finisher_id->0)
            &&& self.winner_player_id->0 == self.members[self.first_submitter(
                self.winner_finisher_id->0,
            )].id
        }
        &&& self.members[self.leader_position as int].submission is None
        &&& forall|i: int|
            0 <= i < self.members.len() ==> self.member_wf(#[trigger] self.members[i])
        &&& forall|i: int|
            0 <= i < self.drawn_prompts.len() ==> (#[trigger] self.drawn_prompts[i] as nat)
                < self.prompt_count
    }

    /// What the rule asks of each member.
    pub open spec fn member_wf(self, m: MemberModel) -> bool {
        &&& forall|k: int|
            0 <= k < m.hand.len() ==> (#[trigger] m.hand[k] as nat) < self.finisher_count
        &&& m.submission matches Some(f) ==> (f as nat) < self.finisher_count
        &&& m.submission is Some ==> self.status.has_prompt()
        &&& m.not_ready ==> self.status == RoomStatus::RoundWinner
        &&& if self.status == RoomStatus::RoundWinner || self.status == RoomStatus::GameWinner {
            m.score <= self.round_counter
        } else {
            m.score < self.round_counter
        }
    }
}

impl RoomModel {
    /// The room right after `owner` has created it.
    pub open spec fn created(
        id: u32,
        code: Seq<char>,
        owner: MemberModel,
        round_total: u8,
        prompt_count: nat,
        finisher_count: nat,
    ) -> RoomModel {
        RoomModel {
            id,
            code,
            status: RoomStatus::Waiting,
            owner_id: owner.id,
            round_counter: 1,
            round_total,
            leader_position: 0,
            selected_prompt_id: None,
            winner_player_id: None,
            winner_finisher_id: None,
            members: seq![owner],
            drawn_prompts: Seq::empty(),
            prompt_pool: Seq::empty(),
            finisher_pool: Seq::empty(),
            prompt_count,
            finisher_count,
        }
    }

    /// The room after `member` has joined at the end of the turn order.
    pub open spec fn joined(self, member: MemberModel) -> RoomModel {
        RoomModel { members: self.members.push(member), ..self }
    }

    /// The room after `player` has polled at time `now`.
    pub open spec fn polled(self, player: u32, now: u64) -> RoomModel {
        let i = self.index_of(player);
        RoomModel {
            members: self.members.update(i, MemberModel { last_poll: now, ..self.members[i] }),
            ..self
        }
    }

    /// The room after `player` has acknowledged the round's result.
    pub open spec fn acknowledged(self, player: u32) -> RoomModel {
        let i = self.index_of(player);
        RoomModel {
            members: self.members.update(i, MemberModel { not_ready: false, ..self.members[i] }),
            ..self
        }
    }

    /// The room at the start of the round after this one: the round's
    /// artifacts and the prompt draft are gone, and the lead moves on.
    pub open spec fn next_round(self) -> RoomModel {
        RoomModel {
            status: RoomStatus::LeaderOptions,
            round_counter: (self.round_counter + 1) as u8,
            leader_position: self.next_leader_position(),
            selected_prompt_id: None,
            winner_player_id: None,
            winner_finisher_id: None,
            members: without_submissions(self.members),
            drawn_prompts: Seq::empty(),
            ..self
        }
    }

    /// The room once the last round is over: the round's artifacts are
    /// gone, scores and lead stay as they are.
    pub open spec fn match_over(self) -> RoomModel {
        RoomModel {
            status: RoomStatus::GameWinner,
            selected_prompt_id: None,
            winner_player_id: None,
            winner_finisher_id: None,
            members: without_submissions(self.members),
            ..self
        }
    }

    /// The room at the start of a new match: scores are back at zero, the
    /// round counter is back at one, and the lead moves on.
    pub open spec fn new_match(self) -> RoomModel {
        RoomModel {
            status: RoomStatus::LeaderOptions,
            round_counter: 1,
            leader_position: self.next_leader_position(),
            selected_prompt_id: None,
            winner_player_id: None,
            winner_finisher_id: None,
            members: without_scores(without_submissions(self.members)),
            drawn_prompts: Seq::empty(),
            ..self
        }
    }

    /// What a start-or-advance signal from `player` leads to.
    pub open spec fn advanced(self, player: u32) -> Result<RoomModel, GameError> {
        if !self.has_member(player) {
            Err(GameError::NotFound)
        } else {
            match self.status {
                RoomStatus::Waiting => {
                    if player != self.owner_id || self.members.len() <= 2 {
                        Err(GameError::PreconditionFailed(RoomStatus::Waiting))
                    } else {
                        Ok(
                            RoomModel {
                                status: RoomStatus::LeaderOptions,
                                leader_position: 0,
                                ..self
                            },
                        )
                    }
                },
                RoomStatus::RoundWinner => {
                    let acked = self.acknowledged(player);
                    if acked.anyone_not_ready() {
                        Ok(acked)
                    } else if self.round_counter < self.round_total {
                        Ok(acked.next_round())
                    } else {
                        Ok(acked.match_over())
                    }
                },
                RoomStatus::GameWinner => {
                    if player != self.owner_id {
                        Err(GameError::PreconditionFailed(RoomStatus::GameWinner))
                    } else {
                        Ok(self.new_match())
                    }
                },
                _ => Err(GameError::PreconditionFailed(RoomStatus::RoundWinner)),
            }
        }
    }

    /// The room after the leader has chosen the prompt `option`.
    pub open spec fn prompt_chosen(self, option: u16) -> RoomModel {
        RoomModel {
            status: RoomStatus::LackeyOptions,
            selected_prompt_id: Some(option),
            members: without_submissions(self.members),
            ..self
        }
    }

    /// The room after the member at `i` has put the finisher `option`
    /// forward: every copy of it leaves their hand, and the phase moves on
    /// once nobody but the leader is missing.
    pub open spec fn finisher_submitted(self, i: int, option: u16) -> RoomModel {
        let member = MemberModel {
            hand: without_card(self.members[i].hand, option),
            submission: Some(option),
            ..self.members[i]
        };
        let recorded = RoomModel { members: self.members.update(i, member), ..self };
        RoomModel {
            status: if recorded.has_quorum() {
                RoomStatus::LeaderPick
            } else {
                RoomStatus::LackeyOptions
            },
            ..recorded
        }
    }

    /// The room after the leader has picked the finisher `option` as the
    /// round's winner: the first member who submitted it scores.
    pub open spec fn winner_picked(self, option: u16) -> RoomModel {
        let w = self.first_submitter(option);
        RoomModel {
            status: RoomStatus::RoundWinner,
            winner_player_id: Some(self.members[w].id),
            winner_finisher_id: Some(option),
            members: after_win(self.members, w),
            ..self
        }
    }

    /// What `player` picking `option` leads to.
    pub open spec fn picked(self, player: u32, option: u16) -> Result<RoomModel, GameError> {
        if !self.has_member(player) {
            Err(GameError::NotFound)
        } else if player == self.leader_id() {
            match self.status {
                RoomStatus::LeaderOptions => {
                    if self.drawn_prompts.contains(option) {
                        Ok(self.prompt_chosen(option))
                    } else {
                        Err(GameError::ValidationError)
                    }
                },
                RoomStatus::LeaderPick => {
                    if self.was_submitted(option) {
                        Ok(self.winner_picked(option))
                    } else {
                        Err(GameError::ValidationError)
                    }
                },
                _ => Err(GameError::PreconditionFailed(leader_turn(self.status))),
            }
        } else {
            match self.status {
                RoomStatus::LackeyOptions => {
                    let i = self.index_of(player);
                    if self.members[i].submission is Some {
                        Err(GameError::Conflict)
                    } else if !self.members[i].hand.contains(option) {
                        Err(GameError::ValidationError)
                    } else {
                        Ok(self.finisher_submitted(i, option))
                    }
                },
                _ => Err(GameError::PreconditionFailed(RoomStatus::LackeyOptions)),
            }
        }
    }
}

impl RoomModel {
    /// What `player` is offered in the current phase: the leader is offered
    /// prompts while drafting and the submissions once they are complete,
    /// every other member their hand while submissions are awaited.
    pub open spec fn options_source(self, player: u32) -> Result<OptionSource, GameError> {
        if !self.has_member(player) {
            Err(GameError::NotFound)
        } else if player == self.leader_id() {
            match self.status {
                RoomStatus::LeaderOptions => Ok(OptionSource::Prompts),
                RoomStatus::LeaderPick => Ok(OptionSource::Submissions),
                _ => Err(GameError::PreconditionFailed(leader_turn(self.status))),
            }
        } else {
            match self.status {
                RoomStatus::LackeyOptions => Ok(OptionSource::Hand),
                _ => Err(GameError::PreconditionFailed(RoomStatus::LackeyOptions)),
            }
        }
    }

    /// The room goes to `after` by offering `player` the cards `ids`. The
    /// prompt draft is first filled up to three cards and a hand up to
    /// eight, each from its bag; nothing else changes. Looking at the
    /// submissions changes nothing at all.
    pub open spec fn options_served(self, player: u32, after: RoomModel, ids: Seq<u16>) -> bool {
        match self.options_source(player) {
            Ok(OptionSource::Prompts) => {
                &&& after == (RoomModel {
                    drawn_prompts: ids,
                    prompt_pool: after.prompt_pool,
                    ..self
                })
                &&& filled(
                    self.drawn_prompts,
                    ids,
                    self.prompt_pool,
                    after.prompt_pool,
                    PROMPT_CHOICES as nat,
                    self.prompt_count,
                )
            },
            Ok(OptionSource::Hand) => {
                let i = self.index_of(player);
                &&& after == (RoomModel {
                    members: self.members.update(i, MemberModel { hand: ids, ..self.members[i] }),
                    finisher_pool: after.finisher_pool,
                    ..self
                })
                &&& filled(
                    self.members[i].hand,
                    ids,
                    self.finisher_pool,
                    after.finisher_pool,
                    HAND_SIZE as nat,
                    self.finisher_count,
                )
            },
            Ok(OptionSource::Submissions) => after == self && ids == submitted_finishers(
                self.members,
            ),
            Err(_) => false,
        }
    }
}

} // verus!
