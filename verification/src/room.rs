//! A room in memory, and the operations that move it from state to state.

use crate::bag::{CardBag, MAX_DOMAIN};
use crate::model::{
    after_win, leader_turn, newcomer, submitted_finishers, without_card, without_scores,
    without_submissions, MemberModel, OptionSource, RoomModel, HAND_SIZE, PROMPT_CHOICES,
};
use crate::snapshot::{
    finisher_lines, player_line, project, texts, FinisherLine, FinisherSnapshot, PlayerSnapshot,
    Snapshot,
};
use crate::status::{GameError, RoomStatus};
use crate::steps::{
    lemma_advanced_wf, lemma_created_wf, lemma_first_submitter_unique, lemma_index_of,
    lemma_index_of_member, lemma_joined_wf, lemma_options_wf, lemma_picked_wf, lemma_polled_wf,
};
use rand::rngs::ThreadRng;
use vstd::prelude::*;

verus! {

/// A player of a room.
pub struct Member {
    id: u32,
    name: String,
    score: u8,
    last_poll: u64,
    hand: Vec<u16>,
    submission: Option<u16>,
    not_ready: bool,
}

impl Member {
    /// The player as the rules see them.
    pub closed spec fn view(&self) -> MemberModel {
        MemberModel {
            id: self.id,
            name: self.name@,
            score: self.score,
            last_poll: self.last_poll,
            hand: self.hand@,
            submission: self.submission,
            not_ready: self.not_ready,
        }
    }

    /// The player's identifier.
    pub fn id(&self) -> (id: u32)
        ensures
            id == self@.id,
    {
        self.id
    }

    /// The player's display name.
    pub fn name(&self) -> (name: &str)
        ensures
            name@ == self@.name,
    {
        self.name.as_str()
    }

    /// The rounds the player has won in the current match.
    pub fn score(&self) -> (score: u8)
        ensures
            score == self@.score,
    {
        self.score
    }

    /// The time of the player's last poll, in seconds.
    pub fn last_poll_time(&self) -> (time: u64)
        ensures
            time == self@.last_poll,
    {
        self.last_poll
    }

    /// A player who has just entered a room: no points, no cards.
    fn fresh(id: u32, name: String, now: u64) -> (member: Member)
        ensures
            member@ == newcomer(id, name@, now),
    {
        Member {
            id,
            name,
            score: 0,
            last_poll: now,
            hand: Vec::new(),
            submission: None,
            not_ready: false,
        }
    }
}

/// One game session: its members in join order, the phase of the match,
/// and the two card bags it deals from.
pub struct Room {
    id: u32,
    code: String,
    status: RoomStatus,
    owner_id: u32,
    round_counter: u8,
    round_total: u8,
    leader_position: usize,
    selected_prompt_id: Option<u16>,
    winner_player_id: Option<u32>,
    winner_finisher_id: Option<u16>,
    members: Vec<Member>,
    drawn_prompts: Vec<u16>,
    prompt_bag: CardBag,
    finisher_bag: CardBag,
}

/// The members as the rules see them.
pub closed spec fn members_view(members: Seq<Member>) -> Seq<MemberModel> {
    Seq::new(members.len(), |i: int| members[i]@)
}

/// Takes every submission back.
fn clear_submissions(members: &mut Vec<Member>)
    ensures
        members_view(final(members)@) == without_submissions(members_view(old(members)@)),
{
    let ghost before = members_view(members@);
    let mut i: usize = 0;
    while i < members.len()
        invariant
            i <= members@.len() == before.len(),
            forall|k: int|
                0 <= k < i ==> (#[trigger] members@[k])@ == (MemberModel {
                    submission: None,
                    ..before[k]
                }),
            forall|k: int| i <= k < before.len() ==> (#[trigger] members@[k])@ == before[k],
        decreases members@.len() - i,
    {
        let member = &mut members[i];
        member.submission = None;
        i = i + 1;
    }
    assert(members_view(members@) =~= without_submissions(before));
}

/// Sets every score back to zero.
fn reset_scores(members: &mut Vec<Member>)
    ensures
        members_view(final(members)@) == without_scores(members_view(old(members)@)),
{
    let ghost before = members_view(members@);
    let mut i: usize = 0;
    while i < members.len()
        invariant
            i <= members@.len() == before.len(),
            forall|k: int|
                0 <= k < i ==> (#[trigger] members@[k])@ == (MemberModel { score: 0, ..before[k] }),
            forall|k: int| i <= k < before.len() ==> (#[trigger] members@[k])@ == before[k],
        decreases members@.len() - i,
    {
        let member = &mut members[i];
        member.score = 0;
        i = i + 1;
    }
    assert(members_view(members@) =~= without_scores(before));
}

/// Whether some member has yet to acknowledge the round's result.
fn some_not_ready(members: &Vec<Member>) -> (any: bool)
    ensures
        any == exists|i: int|
            0 <= i < members@.len() && (#[trigger] members_view(members@)[i]).not_ready,
{
    let mut i: usize = 0;
    while i < members.len()
        invariant
            i <= members@.len(),
            forall|k: int| 0 <= k < i ==> !(#[trigger] members_view(members@)[k]).not_ready,
        decreases members@.len() - i,
    {
        if members[i].not_ready {
            assert(members_view(members@)[i as int].not_ready);
            return true;
        }
        i = i + 1;
    }
    false
}

/// The next phase in which it is the leader who picks and is offered
/// options.
fn next_leader_turn(status: RoomStatus) -> (turn: RoomStatus)
    ensures
        turn == leader_turn(status),
{
    match status {
        RoomStatus::LackeyOptions => RoomStatus::LeaderPick,
        _ => RoomStatus::LeaderOptions,
    }
}

/// Whether `card` is among `cards`.
fn holds(cards: &Vec<u16>, card: u16) -> (held: bool)
    ensures
        held == cards@.contains(card),
{
    let mut i: usize = 0;
    while i < cards.len()
        invariant
            i <= cards@.len(),
            forall|k: int| 0 <= k < i ==> cards@[k] != card,
        decreases cards@.len() - i,
    {
        if cards[i] == card {
            return true;
        }
        i = i + 1;
    }
    false
}

/// Takes every copy of `card` out of `hand`.
fn take_out(hand: &mut Vec<u16>, card: u16)
    ensures
        final(hand)@ == without_card(old(hand)@, card),
{
    let mut kept: Vec<u16> = Vec::new();
    let mut i: usize = 0;
    assert(hand@.take(0) =~= Seq::<u16>::empty());
    while i < hand.len()
        invariant
            i <= hand@.len(),
            kept@ == without_card(hand@.take(i as int), card),
        decreases hand@.len() - i,
    {
        assert(hand@.take(i as int + 1).drop_last() =~= hand@.take(i as int));
        if hand[i] != card {
            kept.push(hand[i]);
        }
        i = i + 1;
    }
    assert(hand@.take(i as int) =~= hand@);
    *hand = kept;
}

/// The first member, in join order, whose submission is `option`.
fn first_submitter_of(members: &Vec<Member>, option: u16) -> (found: Option<usize>)
    ensures
        found matches Some(i) ==> i < members@.len() && members_view(members@)[i as int].submission
            == Some(option) && forall|j: int|
            0 <= j < i ==> (#[trigger] members_view(members@)[j]).submission != Some(option),
        found is None ==> forall|j: int|
            0 <= j < members@.len() ==> (#[trigger] members_view(members@)[j]).submission != Some(
                option,
            ),
{
    let mut i: usize = 0;
    while i < members.len()
        invariant
            i <= members@.len(),
            forall|j: int|
                0 <= j < i ==> (#[trigger] members_view(members@)[j]).submission != Some(option),
        decreases members@.len() - i,
    {
        match members[i].submission {
            Some(f) => {
                if f == option {
                    return Some(i);
                }
            },
            None => {},
        }
        i = i + 1;
    }
    None
}

/// Whether every member but the one at `leader` has submitted.
fn all_but_leader_submitted(members: &Vec<Member>, leader: usize) -> (all: bool)
    ensures
        all == forall|i: int|
            0 <= i < members@.len() && i != leader ==> (#[trigger] members_view(
                members@,
            )[i]).submission is Some,
{
    let mut i: usize = 0;
    while i < members.len()
        invariant
            i <= members@.len(),
            forall|k: int|
                0 <= k < i && k != leader ==> (#[trigger] members_view(members@)[k]).submission
                    is Some,
        decreases members@.len() - i,
    {
        if i != leader && members[i].submission.is_none() {
            assert(members_view(members@)[i as int].submission is None);
            return false;
        }
        i = i + 1;
    }
    true
}

/// Gives the member at `winner` a point and marks everyone as yet to
/// acknowledge.
fn record_win(members: &mut Vec<Member>, winner: usize)
    requires
        winner < old(members)@.len(),
        old(members)@[winner as int]@.score < u8::MAX,
    ensures
        members_view(final(members)@) == after_win(members_view(old(members)@), winner as int),
{
    let ghost before = members_view(members@);
    let mut i: usize = 0;
    while i < members.len()
        invariant
            i <= members@.len() == before.len(),
            winner < before.len(),
            before[winner as int].score < u8::MAX,
            forall|k: int|
                0 <= k < i ==> (#[trigger] members@[k])@ == after_win(before, winner as int)[k],
            forall|k: int| i <= k < before.len() ==> (#[trigger] members@[k])@ == before[k],
        decreases members@.len() - i,
    {
        let member = &mut members[i];
        member.not_ready = true;
        if i == winner {
            member.score = member.score + 1;
        }
        i = i + 1;
    }
    assert(members_view(members@) =~= after_win(before, winner as int));
}

/// The card ids offered to a player, by kind.
pub enum OptionList {
    /// Prompts for the leader to choose from.
    Prompts(Vec<u16>),
    /// Finishers: a player's hand, or the submissions for the leader.
    Finishers(Vec<u16>),
}

impl OptionList {
    /// The ids on offer, in order.
    pub open spec fn ids(self) -> Seq<u16> {
        match self {
            OptionList::Prompts(ids) => ids@,
            OptionList::Finishers(ids) => ids@,
        }
    }
}

/// A copy of `cards`.
fn copy_of(cards: &Vec<u16>) -> (copy: Vec<u16>)
    ensures
        copy@ == cards@,
{
    let mut copy: Vec<u16> = Vec::new();
    let mut i: usize = 0;
    while i < cards.len()
        invariant
            i <= cards@.len(),
            copy@ == cards@.take(i as int),
        decreases cards@.len() - i,
    {
        copy.push(cards[i]);
        assert(copy@ =~= cards@.take(i as int + 1));
        i = i + 1;
    }
    assert(cards@.take(i as int) =~= cards@);
    copy
}

/// The finishers on record, in the order of their submitters.
fn submissions_of(members: &Vec<Member>) -> (cards: Vec<u16>)
    ensures
        cards@ == submitted_finishers(members_view(members@)),
{
    let ghost all = members_view(members@);
    let mut cards: Vec<u16> = Vec::new();
    let mut i: usize = 0;
    assert(all.take(0) =~= Seq::<MemberModel>::empty());
    while i < members.len()
        invariant
            i <= members@.len(),
            all == members_view(members@),
            cards@ == submitted_finishers(all.take(i as int)),
        decreases members@.len() - i,
    {
        assert(all.take(i as int + 1).drop_last() =~= all.take(i as int));
        assert(all.take(i as int + 1).last() == all[i as int]);
        match members[i].submission {
            Some(f) => {
                cards.push(f);
            },
            None => {},
        }
        i = i + 1;
    }
    assert(all.take(i as int) =~= all);
    cards
}

impl Room {
    /// The room as the rules see it.
    pub closed spec fn view(&self) -> RoomModel {
        RoomModel {
            id: self.id,
            code: self.code@,
            status: self.status,
            owner_id: self.owner_id,
            round_counter: self.round_counter,
            round_total: self.round_total,
            leader_position: self.leader_position as nat,
            selected_prompt_id: self.selected_prompt_id,
            winner_player_id: self.winner_player_id,
            winner_finisher_id: self.winner_finisher_id,
            members: members_view(self.members@),
            drawn_prompts: self.drawn_prompts@,
            prompt_pool: self.prompt_bag@,
            finisher_pool: self.finisher_bag@,
            prompt_count: self.prompt_bag.domain(),
            finisher_count: self.finisher_bag.domain(),
        }
    }

    /// The room obeys the rule of its states, and its bags are sound.
    pub closed spec fn wf(&self) -> bool {
        &&& self@.wf()
        &&& self.prompt_bag.wf()
        &&& self.finisher_bag.wf()
    }

    /// What a well-formed room promises to everyone.
    pub proof fn lemma_wf(&self)
        requires
            self.wf(),
        ensures
            self@.wf(),
            self@.prompt_count <= MAX_DOMAIN,
            self@.finisher_count <= MAX_DOMAIN,
    {
        self.prompt_bag.lemma_wf();
        self.finisher_bag.lemma_wf();
    }

    /// Opens a room for its owner. The match length and the sizes of the two
    /// card domains are fixed here; a match of no rounds, an empty domain or
    /// one wider than the card ids is refused.
    pub fn new(
        id: u32,
        code: String,
        owner_id: u32,
        owner_name: String,
        now: u64,
        round_total: u8,
        prompt_count: usize,
        finisher_count: usize,
    ) -> (made: Result<Room, GameError>)
        ensures
            made is Ok <==> round_total >= 1 && 0 < prompt_count <= MAX_DOMAIN && 0
                < finisher_count <= MAX_DOMAIN,
            made matches Ok(room) ==> room.wf() && room@ == RoomModel::created(
                id,
                code@,
                newcomer(owner_id, owner_name@, now),
                round_total,
                prompt_count as nat,
                finisher_count as nat,
            ),
            made matches Err(e) ==> e == GameError::ValidationError,
    {
        if round_total == 0 || prompt_count == 0 || prompt_count > MAX_DOMAIN || finisher_count == 0
            || finisher_count > MAX_DOMAIN {
            return Err(GameError::ValidationError);
        }
        let owner = Member::fresh(owner_id, owner_name, now);
        let mut members: Vec<Member> = Vec::new();
        members.push(owner);
        let room = Room {
            id,
            code,
            status: RoomStatus::Waiting,
            owner_id,
            round_counter: 1,
            round_total,
            leader_position: 0,
            selected_prompt_id: None,
            winner_player_id: None,
            winner_finisher_id: None,
            members,
            drawn_prompts: Vec::new(),
            prompt_bag: CardBag::new(prompt_count),
            finisher_bag: CardBag::new(finisher_count),
        };
        proof {
            let expected = RoomModel::created(
                id,
                code@,
                newcomer(owner_id, owner_name@, now),
                round_total,
                prompt_count as nat,
                finisher_count as nat,
            );
            assert(room@.members =~= expected.members);
            assert(room@.prompt_pool =~= expected.prompt_pool);
            assert(room@.finisher_pool =~= expected.finisher_pool);
            assert(room@.drawn_prompts =~= expected.drawn_prompts);
            assert(room@ =~= expected);
            lemma_created_wf(
                id,
                code@,
                newcomer(owner_id, owner_name@, now),
                round_total,
                prompt_count as nat,
                finisher_count as nat,
            );
        }
        Ok(room)
    }

    /// Looks a player up among the members.
    pub fn find_member(&self, player: u32) -> (found: Option<usize>)
        requires
            self.wf(),
        ensures
            found is Some <==> self@.has_member(player),
            found matches Some(i) ==> i == self@.index_of(player) && i < self@.members.len(),
    {
        let mut i: usize = 0;
        while i < self.members.len()
            invariant
                i <= self.members@.len(),
                self.wf(),
                forall|k: int| 0 <= k < i ==> (#[trigger] self@.members[k]).id != player,
            decreases self.members@.len() - i,
        {
            if self.members[i].id == player {
                proof {
                    assert(self@.members[i as int].id == player);
                    lemma_index_of(self@, i as int);
                }
                return Some(i);
            }
            i = i + 1;
        }
        None
    }

    /// Lets a new player in at the end of the turn order. An id that a
    /// member already has is refused.
    pub fn add_member(&mut self, id: u32, name: String, now: u64) -> (added: Result<(), GameError>)
        requires
            old(self).wf(),
        ensures
            final(self).wf(),
            added is Ok <==> !old(self)@.has_member(id),
            added is Ok ==> final(self)@ == old(self)@.joined(newcomer(id, name@, now)),
            added matches Err(e) ==> e == GameError::Conflict && final(self)@ == old(self)@,
    {
        if self.find_member(id).is_some() {
            return Err(GameError::Conflict);
        }
        let ghost before = self@;
        let member = Member::fresh(id, name, now);
        self.members.push(member);
        proof {
            let expected = before.joined(newcomer(id, name@, now));
            assert(self@.members =~= expected.members);
            assert(self@ =~= expected);
            lemma_joined_wf(before, newcomer(id, name@, now));
        }
        Ok(())
    }

    /// Takes a start-or-advance signal from `player`: the owner starts the
    /// first match and every later one, and each member acknowledges a
    /// round's result; the last acknowledgement opens the next round or ends
    /// the match. A signal that is refused changes nothing.
    pub fn start_or_advance(&mut self, player: u32) -> (done: Result<(), GameError>)
        requires
            old(self).wf(),
        ensures
            final(self).wf(),
            match done {
                Ok(()) => old(self)@.advanced(player) == Ok::<RoomModel, GameError>(final(self)@),
                Err(e) => old(self)@.advanced(player) == Err::<RoomModel, GameError>(e)
                    && final(self)@ == old(self)@,
            },
    {
        let ghost before = self@;
        let position = match self.find_member(player) {
            None => {
                return Err(GameError::NotFound);
            },
            Some(i) => i,
        };
        assert(before.leader_position < before.members.len());
        let count = self.members.len();
        let next_leader = (self.leader_position + 1) % count;
        match self.status {
            RoomStatus::Waiting => {
                if player != self.owner_id || count <= 2 {
                    return Err(GameError::PreconditionFailed(RoomStatus::Waiting));
                }
                self.status = RoomStatus::LeaderOptions;
                self.leader_position = 0;
                assert(self@ =~= before.advanced(player)->Ok_0);
            },
            RoomStatus::RoundWinner => {
                let member = &mut self.members[position];
                member.not_ready = false;
                let ghost acked = before.acknowledged(player);
                assert(self@.members =~= acked.members);
                assert(self@ =~= acked);
                if some_not_ready(&self.members) {
                    assert(acked.anyone_not_ready());
                } else {
                    assert(!acked.anyone_not_ready());
                    self.selected_prompt_id = None;
                    self.winner_player_id = None;
                    self.winner_finisher_id = None;
                    clear_submissions(&mut self.members);
                    if self.round_counter < self.round_total {
                        self.drawn_prompts.clear();
                        self.round_counter = self.round_counter + 1;
                        self.leader_position = next_leader;
                        self.status = RoomStatus::LeaderOptions;
                        assert(self@ =~= acked.next_round());
                    } else {
                        self.status = RoomStatus::GameWinner;
                        assert(self@ =~= acked.match_over());
                    }
                }
            },
            RoomStatus::GameWinner => {
                if player != self.owner_id {
                    return Err(GameError::PreconditionFailed(RoomStatus::GameWinner));
                }
                clear_submissions(&mut self.members);
                reset_scores(&mut self.members);
                self.drawn_prompts.clear();
                self.leader_position = next_leader;
                self.status = RoomStatus::LeaderOptions;
                self.round_counter = 1;
                self.selected_prompt_id = None;
                self.winner_player_id = None;
                self.winner_finisher_id = None;
                assert(self@ =~= before.new_match());
            },
            _ => {
                return Err(GameError::PreconditionFailed(RoomStatus::RoundWinner));
            },
        }
        proof {
            lemma_advanced_wf(before, player);
        }
        Ok(())
    }

    /// Takes a pick from `player`. The leader picks a prompt while drafting
    /// and the winning finisher once everyone has submitted; every other
    /// member submits one finisher from their hand per round. A pick that is
    /// refused changes nothing.
    pub fn submit_pick(&mut self, player: u32, option: u16) -> (done: Result<(), GameError>)
        requires
            old(self).wf(),
        ensures
            final(self).wf(),
            match done {
                Ok(()) => old(self)@.picked(player, option) == Ok::<RoomModel, GameError>(
                    final(self)@,
                ),
                Err(e) => old(self)@.picked(player, option) == Err::<RoomModel, GameError>(e)
                    && final(self)@ == old(self)@,
            },
    {
        let ghost before = self@;
        let position = match self.find_member(player) {
            None => {
                return Err(GameError::NotFound);
            },
            Some(i) => i,
        };
        assert(before.leader_position < before.members.len());
        if self.members[self.leader_position].id == player {
            match self.status {
                RoomStatus::LeaderOptions => {
                    if !holds(&self.drawn_prompts, option) {
                        return Err(GameError::ValidationError);
                    }
                    clear_submissions(&mut self.members);
                    self.status = RoomStatus::LackeyOptions;
                    self.selected_prompt_id = Some(option);
                    assert(self@ =~= before.prompt_chosen(option));
                },
                RoomStatus::LeaderPick => {
                    let winner = match first_submitter_of(&self.members, option) {
                        None => {
                            assert(!before.was_submitted(option)) by {
                                if before.was_submitted(option) {
                                    let w = before.first_submitter(option);
                                    assert(before.is_first_submitter(w, option));
                                    assert(before.members[w].submission != Some(option));
                                }
                            }
                            return Err(GameError::ValidationError);
                        },
                        Some(w) => w,
                    };
                    proof {
                        assert(before.is_first_submitter(winner as int, option));
                        lemma_first_submitter_unique(before, winner as int, option);
                        assert(before.member_wf(before.members[winner as int]));
                    }
                    let winner_id = self.members[winner].id;
                    record_win(&mut self.members, winner);
                    self.status = RoomStatus::RoundWinner;
                    self.winner_player_id = Some(winner_id);
                    self.winner_finisher_id = Some(option);
                    assert(self@ =~= before.winner_picked(option));
                },
                _ => {
                    return Err(GameError::PreconditionFailed(next_leader_turn(self.status)));
                },
            }
        } else {
            match self.status {
                RoomStatus::LackeyOptions => {
                    let leader = self.leader_position;
                    if self.members[position].submission.is_some() {
                        return Err(GameError::Conflict);
                    }
                    if !holds(&self.members[position].hand, option) {
                        return Err(GameError::ValidationError);
                    }
                    let member = &mut self.members[position];
                    take_out(&mut member.hand, option);
                    member.submission = Some(option);
                    let ghost recorded = RoomModel {
                        members: before.members.update(
                            position as int,
                            MemberModel {
                                hand: without_card(before.members[position as int].hand, option),
                                submission: Some(option),
                                ..before.members[position as int]
                            },
                        ),
                        ..before
                    };
                    assert(self@.members =~= recorded.members);
                    assert(self@ =~= recorded);
                    if all_but_leader_submitted(&self.members, leader) {
                        self.status = RoomStatus::LeaderPick;
                    }
                    assert(self@ =~= before.finisher_submitted(position as int, option));
                },
                _ => {
                    return Err(GameError::PreconditionFailed(RoomStatus::LackeyOptions));
                },
            }
        }
        proof {
            lemma_picked_wf(before, player, option);
        }
        Ok(())
    }

    /// Offers `player` their options for the current phase, dealing from the
    /// bags first where the prompt draft or the hand is short. A request
    /// that is refused changes nothing.
    pub fn get_options(&mut self, player: u32, rng: &mut ThreadRng) -> (offer: Result<
        OptionList,
        GameError,
    >)
        requires
            old(self).wf(),
        ensures
            final(self).wf(),
            match offer {
                Ok(list) => old(self)@.options_served(player, final(self)@, list.ids()) && (
                list is Prompts <==> old(self)@.options_source(player) == Ok::<
                    OptionSource,
                    GameError,
                >(OptionSource::Prompts)),
                Err(e) => old(self)@.options_source(player) == Err::<OptionSource, GameError>(e)
                    && final(self)@ == old(self)@,
            },
    {
        let ghost before = self@;
        let position = match self.find_member(player) {
            None => {
                return Err(GameError::NotFound);
            },
            Some(i) => i,
        };
        assert(before.leader_position < before.members.len());
        if self.members[self.leader_position].id == player {
            match self.status {
                RoomStatus::LeaderOptions => {
                    self.prompt_bag.ensure_filled(&mut self.drawn_prompts, PROMPT_CHOICES, rng);
                    let ids = copy_of(&self.drawn_prompts);
                    proof {
                        self.prompt_bag.lemma_wf();
                        self.finisher_bag.lemma_wf();
                        assert(self@ =~= (RoomModel {
                            drawn_prompts: ids@,
                            prompt_pool: self@.prompt_pool,
                            ..before
                        }));
                        lemma_options_wf(before, player, self@, ids@);
                    }
                    Ok(OptionList::Prompts(ids))
                },
                RoomStatus::LeaderPick => {
                    let ids = submissions_of(&self.members);
                    Ok(OptionList::Finishers(ids))
                },
                _ => Err(GameError::PreconditionFailed(next_leader_turn(self.status))),
            }
        } else {
            match self.status {
                RoomStatus::LackeyOptions => {
                    let member = &mut self.members[position];
                    self.finisher_bag.ensure_filled(&mut member.hand, HAND_SIZE, rng);
                    let ids = copy_of(&self.members[position].hand);
                    proof {
                        self.prompt_bag.lemma_wf();
                        self.finisher_bag.lemma_wf();
                        lemma_index_of_member(before, player);
                        let expected = RoomModel {
                            members: before.members.update(
                                position as int,
                                MemberModel { hand: ids@, ..before.members[position as int] },
                            ),
                            finisher_pool: self@.finisher_pool,
                            ..before
                        };
                        assert(self@.members =~= expected.members);
                        assert(self@ =~= expected);
                        lemma_options_wf(before, player, self@, ids@);
                    }
                    Ok(OptionList::Finishers(ids))
                },
                _ => Err(GameError::PreconditionFailed(RoomStatus::LackeyOptions)),
            }
        }
    }

    /// Records that `player` polled at time `now`.
    pub fn poll(&mut self, player: u32, now: u64) -> (done: Result<(), GameError>)
        requires
            old(self).wf(),
        ensures
            final(self).wf(),
            done is Ok <==> old(self)@.has_member(player),
            done is Ok ==> final(self)@ == old(self)@.polled(player, now),
            done matches Err(e) ==> e == GameError::NotFound && final(self)@ == old(self)@,
    {
        let ghost before = self@;
        let position = match self.find_member(player) {
            None => {
                return Err(GameError::NotFound);
            },
            Some(i) => i,
        };
        let member = &mut self.members[position];
        member.last_poll = now;
        proof {
            assert(self@.members =~= before.polled(player, now).members);
            assert(self@ =~= before.polled(player, now));
            lemma_polled_wf(before, player, now);
        }
        Ok(())
    }

    /// The lines of all members, as a poll at time `now` shows them.
    fn player_lines(&self, now: u64) -> (lines: Vec<PlayerSnapshot>)
        requires
            self.wf(),
        ensures
            lines@.len() == self@.members.len(),
            forall|i: int|
                0 <= i < lines@.len() ==> (#[trigger] lines@[i])@ == player_line(self@, i, now),
    {
        let mut lines: Vec<PlayerSnapshot> = Vec::new();
        let mut i: usize = 0;
        while i < self.members.len()
            invariant
                i <= self.members@.len(),
                lines@.len() == i,
                forall|k: int| 0 <= k < i ==> (#[trigger] lines@[k])@ == player_line(self@, k, now),
            decreases self.members@.len() - i,
        {
            let member = &self.members[i];
            let is_finisher_ready = if i == self.leader_position {
                None
            } else {
                Some(member.submission.is_some())
            };
            let is_next_round_ready = match self.status {
                RoomStatus::RoundWinner => Some(!member.not_ready),
                _ => None,
            };
            let last_check = if now >= member.last_poll {
                now - member.last_poll
            } else {
                0
            };
            let line = PlayerSnapshot {
                player_id: member.id,
                player_name: member.name.clone(),
                score: member.score,
                is_finisher_ready,
                is_next_round_ready,
                last_check,
            };
            assert(line@ =~= player_line(self@, i as int, now));
            lines.push(line);
            i = i + 1;
        }
        lines
    }

    /// The submissions with their texts, as shown with a round's result.
    fn shown_finishers(&self, finishers: &Vec<String>) -> (lines: Vec<FinisherSnapshot>)
        requires
            self.wf(),
            finishers@.len() == self@.finisher_count,
        ensures
            Seq::new(lines@.len(), |i: int| lines@[i]@) == finisher_lines(
                self@.members,
                self@.winner_player_id,
                texts(finishers@),
            ),
    {
        let ghost all = self@.members;
        let ghost winner = self@.winner_player_id;
        let mut lines: Vec<FinisherSnapshot> = Vec::new();
        let mut i: usize = 0;
        assert(all.take(0) =~= Seq::<MemberModel>::empty());
        assert(Seq::new(lines@.len(), |k: int| lines@[k]@) =~= Seq::<FinisherLine>::empty());
        while i < self.members.len()
            invariant
                i <= self.members@.len(),
                self.wf(),
                finishers@.len() == self@.finisher_count,
                all == self@.members,
                winner == self@.winner_player_id,
                Seq::new(lines@.len(), |k: int| lines@[k]@) == finisher_lines(
                    all.take(i as int),
                    winner,
                    texts(finishers@),
                ),
            decreases self.members@.len() - i,
        {
            let ghost shown = Seq::new(lines@.len(), |k: int| lines@[k]@);
            assert(all.take(i as int + 1).drop_last() =~= all.take(i as int));
            assert(all.take(i as int + 1).last() == all[i as int]);
            let member = &self.members[i];
            match member.submission {
                Some(f) => {
                    assert(self@.member_wf(all[i as int]));
                    let is_winner = match self.winner_player_id {
                        Some(w) => w == member.id,
                        None => false,
                    };
                    let line = FinisherSnapshot {
                        player_name: member.name.clone(),
                        finisher_text: finishers[f as usize].clone(),
                        is_winner,
                    };
                    lines.push(line);
                    assert(Seq::new(lines@.len(), |k: int| lines@[k]@) =~= shown.push(line@));
                },
                None => {},
            }
            i = i + 1;
        }
        assert(all.take(i as int) =~= all);
        lines
    }

    /// What a poll at time `now` shows of the room. Card texts are looked up
    /// in the two corpora; corpora of another size than the room deals from
    /// cannot serve it.
    pub fn snapshot(&self, now: u64, prompts: &Vec<String>, finishers: &Vec<String>) -> (shown:
        Result<Snapshot, GameError>)
        requires
            self.wf(),
        ensures
            shown is Ok <==> prompts@.len() == self@.prompt_count && finishers@.len()
                == self@.finisher_count,
            shown matches Ok(snapshot) ==> snapshot@ == project(
                self@,
                now,
                texts(prompts@),
                texts(finishers@),
            ),
            shown matches Err(e) ==> e == GameError::InternalInvariantViolation,
    {
        if prompts.len() != self.prompt_bag.domain_size() || finishers.len()
            != self.finisher_bag.domain_size() {
            return Err(GameError::InternalInvariantViolation);
        }
        let players = self.player_lines(now);
        let prompt_text = match self.selected_prompt_id {
            Some(p) => Some(prompts[p as usize].clone()),
            None => None,
        };
        let shown_finishers = match self.status {
            RoomStatus::RoundWinner => Some(self.shown_finishers(finishers)),
            _ => None,
        };
        assert(self@.leader_position < self@.members.len());
        let shown = Snapshot {
            players,
            room_status: self.status.to_tag(),
            owner_id: self.owner_id,
            leader_id: self.members[self.leader_position].id,
            round_counter: self.round_counter,
            round_total: self.round_total,
            prompt_text,
            finishers: shown_finishers,
        };
        proof {
            let expected = project(self@, now, texts(prompts@), texts(finishers@));
            assert(shown@.players =~= expected.players);
            assert(shown@ =~= expected);
        }
        Ok(shown)
    }

    /// The room's identifier.
    pub fn id(&self) -> (id: u32)
        ensures
            id == self@.id,
    {
        self.id
    }

    /// The code by which players join the room.
    pub fn code(&self) -> (code: &str)
        ensures
            code@ == self@.code,
    {
        self.code.as_str()
    }

    /// The phase the room is in.
    pub fn status(&self) -> (status: RoomStatus)
        ensures
            status == self@.status,
    {
        self.status
    }

    /// The player who created the room.
    pub fn owner_id(&self) -> (id: u32)
        ensures
            id == self@.owner_id,
    {
        self.owner_id
    }

    /// The player whose turn it is to lead.
    pub fn leader_id(&self) -> (id: u32)
        requires
            self.wf(),
        ensures
            id == self@.leader_id(),
    {
        assert(self@.leader_position < self@.members.len());
        self.members[self.leader_position].id
    }

    /// The number of the current round, counted from one.
    pub fn round_counter(&self) -> (round: u8)
        ensures
            round == self@.round_counter,
    {
        self.round_counter
    }

    /// The number of rounds in a match.
    pub fn round_total(&self) -> (rounds: u8)
        ensures
            rounds == self@.round_total,
    {
        self.round_total
    }

    /// The number of players in the room.
    pub fn member_count(&self) -> (count: usize)
        ensures
            count == self@.member_count(),
    {
        self.members.len()
    }

    /// The prompt chosen for the current round, if one has been chosen.
    pub fn selected_prompt_id(&self) -> (prompt: Option<u16>)
        ensures
            prompt == self@.selected_prompt_id,
    {
        self.selected_prompt_id
    }

    /// The winner of the current round, while its result is shown.
    pub fn winner_player_id(&self) -> (winner: Option<u32>)
        ensures
            winner == self@.winner_player_id,
    {
        self.winner_player_id
    }

    /// The winning finisher of the current round, while its result is shown.
    pub fn winner_finisher_id(&self) -> (finisher: Option<u16>)
        ensures
            finisher == self@.winner_finisher_id,
    {
        self.winner_finisher_id
    }

    /// The score of `player`, if they are a member.
    pub fn score_of(&self, player: u32) -> (score: Option<u8>)
        requires
            self.wf(),
        ensures
            score is Some <==> self@.has_member(player),
            score matches Some(points) ==> points == self@.members[self@.index_of(player)].score,
    {
        match self.find_member(player) {
            Some(i) => Some(self.members[i].score),
            None => None,
        }
    }

    /// The record of `player`, if they are a member.
    pub fn member(&self, player: u32) -> (found: Option<&Member>)
        requires
            self.wf(),
        ensures
            found is Some <==> self@.has_member(player),
            found matches Some(member) ==> member@ == self@.members[self@.index_of(player)],
    {
        match self.find_member(player) {
            Some(i) => Some(&self.members[i]),
            None => None,
        }
    }

    /// Whether every member other than the leader has submitted.
    pub fn has_quorum(&self) -> (quorum: bool)
        requires
            self.wf(),
        ensures
            quorum == self@.has_quorum(),
    {
        all_but_leader_submitted(&self.members, self.leader_position)
    }
}

} // verus!
