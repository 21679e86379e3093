//! What holds of every room, whatever its players do.

use crate::model::{same_seats, submission_count, MemberModel, RoomModel};
use crate::status::{GameError, RoomStatus};
use crate::steps::{
    lemma_advanced_wf, lemma_index_of, lemma_index_of_member, lemma_picked_wf,
    lemma_steps_keep_seats,
};
use vstd::arithmetic::div_mod::{lemma_mod_self_0, lemma_small_mod};
use vstd::prelude::*;

verus! {

/// The round counter never leaves the range from one to the match length:
/// it lies there in every state that obeys the rule of rooms, no signal or
/// pick that is accepted takes it out, and nothing else moves it.
pub proof fn law_round_counter_stays_in_range(
    m: RoomModel,
    player: u32,
    option: u16,
    now: u64,
    member: MemberModel,
)
    requires
        m.wf(),
    ensures
        1 <= m.round_counter <= m.round_total,
        m.advanced(player) matches Ok(n) ==> 1 <= n.round_counter <= n.round_total,
        m.picked(player, option) matches Ok(n) ==> 1 <= n.round_counter <= n.round_total,
        m.joined(member).round_counter == m.round_counter,
        m.polled(player, now).round_counter == m.round_counter,
        forall|after: RoomModel, ids: Seq<u16>| #[trigger]
            m.options_served(player, after, ids) ==> after.round_counter == m.round_counter,
{
    if m.advanced(player) is Ok {
        lemma_advanced_wf(m, player);
    }
    if m.picked(player, option) is Ok {
        lemma_picked_wf(m, player, option);
    }
}

/// A match ends only after its last round, and the restart that follows
/// sets the round counter back to one.
pub proof fn law_restart_resets_round_counter(m: RoomModel, player: u32)
    requires
        m.wf(),
        m.advanced(player) is Ok,
    ensures
        m.advanced(player)->Ok_0.status == RoomStatus::GameWinner ==> m.round_counter
            == m.round_total,
        m.status == RoomStatus::GameWinner ==> m.advanced(player)->Ok_0.round_counter == 1
            && m.advanced(player)->Ok_0.status == RoomStatus::LeaderOptions,
{
}

/// A pick raises a score by exactly one where it names this round's
/// winner, and leaves every other score as it was.
pub proof fn law_score_rises_only_for_the_winner(m: RoomModel, player: u32, option: u16, i: int)
    requires
        m.wf(),
        m.picked(player, option) is Ok,
        0 <= i < m.members.len(),
    ensures
        m.picked(player, option)->Ok_0.members[i].score == m.members[i].score + if m.picked(
            player,
            option,
        )->Ok_0.winner_player_id == Some(m.members[i].id) {
            1int
        } else {
            0int
        },
{
    let n = m.picked(player, option)->Ok_0;
    assert(m.member_wf(m.members[i]));
    if player == m.leader_id() && m.status == RoomStatus::LeaderPick {
        let w = m.first_submitter(option);
        assert(m.is_first_submitter(w, option));
        lemma_index_of(m, w);
        lemma_index_of(m, i);
    } else if player != m.leader_id() {
        lemma_index_of_member(m, player);
    }
}

/// Outside a pick, scores change only when a new match sets them back to
/// zero.
pub proof fn law_signals_never_raise_a_score(m: RoomModel, player: u32, i: int)
    requires
        m.wf(),
        m.advanced(player) is Ok,
        0 <= i < m.members.len(),
    ensures
        m.advanced(player)->Ok_0.members[i].score == if m.status == RoomStatus::GameWinner {
            0
        } else {
            m.members[i].score
        },
{
    if m.status == RoomStatus::RoundWinner {
        lemma_index_of_member(m, player);
    }
}

/// Neither a poll, nor an offer of options, nor a newcomer touches the
/// score of a member.
pub proof fn law_nothing_else_moves_a_score(
    m: RoomModel,
    player: u32,
    now: u64,
    member: MemberModel,
    i: int,
)
    requires
        m.wf(),
        0 <= i < m.members.len(),
    ensures
        m.has_member(player) ==> m.polled(player, now).members[i].score == m.members[i].score,
        m.joined(member).members[i].score == m.members[i].score,
        forall|after: RoomModel, ids: Seq<u16>| #[trigger]
            m.options_served(player, after, ids) ==> after.members[i].score == m.members[i].score,
{
    if m.has_member(player) {
        lemma_index_of_member(m, player);
    }
}

/// With one member who has not submitted, the submissions number at most
/// one less than the members, and exactly so when everyone else has
/// submitted.
proof fn lemma_count_with_gap(members: Seq<MemberModel>, gap: int)
    requires
        -1 <= gap < members.len(),
        gap >= 0 ==> members[gap].submission is None,
    ensures
        gap >= 0 ==> submission_count(members) <= members.len() - 1,
        gap >= 0 ==> (submission_count(members) == members.len() - 1 <==> forall|i: int|
            0 <= i < members.len() && i != gap ==> (#[trigger] members[i]).submission is Some),
        gap < 0 ==> submission_count(members) <= members.len(),
        gap < 0 ==> (submission_count(members) == members.len() <==> forall|i: int|
            0 <= i < members.len() ==> (#[trigger] members[i]).submission is Some),
    decreases members.len(),
{
    if members.len() > 0 {
        let rest = members.drop_last();
        let last = members.len() - 1;
        assert(members.last() == members[last]);
        assert forall|i: int| 0 <= i < rest.len() implies #[trigger] rest[i] == members[i] by {}
        if gap == last {
            lemma_count_with_gap(rest, -1);
            if submission_count(members) == members.len() - 1 {
                assert forall|i: int| 0 <= i < members.len() && i != gap implies (
                #[trigger] members[i]).submission is Some by {
                    assert(rest[i].submission is Some);
                }
            }
            if forall|i: int|
                0 <= i < members.len() && i != gap ==> (#[trigger] members[i]).submission is Some {
                assert forall|i: int| 0 <= i < rest.len() implies (
                #[trigger] rest[i]).submission is Some by {
                    assert(members[i].submission is Some);
                }
            }
        } else {
            lemma_count_with_gap(rest, gap);
            if gap >= 0 {
                if submission_count(members) == members.len() - 1 {
                    assert forall|i: int| 0 <= i < members.len() && i != gap implies (
                    #[trigger] members[i]).submission is Some by {
                        if i < last {
                            assert(rest[i].submission is Some);
                        }
                    }
                }
                if forall|i: int|
                    0 <= i < members.len() && i != gap ==> (#[trigger] members[i]).submission
                        is Some {
                    assert(members[last].submission is Some);
                    assert forall|i: int| 0 <= i < rest.len() && i != gap implies (
                    #[trigger] rest[i]).submission is Some by {
                        assert(members[i].submission is Some);
                    }
                }
            } else {
                if submission_count(members) == members.len() {
                    assert forall|i: int| 0 <= i < members.len() implies (
                    #[trigger] members[i]).submission is Some by {
                        if i < last {
                            assert(rest[i].submission is Some);
                        }
                    }
                }
                if forall|i: int|
                    0 <= i < members.len() ==> (#[trigger] members[i]).submission is Some {
                    assert(members[last].submission is Some);
                    assert forall|i: int| 0 <= i < rest.len() implies (
                    #[trigger] rest[i]).submission is Some by {
                        assert(members[i].submission is Some);
                    }
                }
            }
        }
    }
}

/// A first submission by the member at `i` adds one to the count.
proof fn lemma_count_after_submission(members: Seq<MemberModel>, i: int, member: MemberModel)
    requires
        0 <= i < members.len(),
        members[i].submission is None,
        member.submission is Some,
    ensures
        submission_count(members.update(i, member)) == submission_count(members) + 1,
    decreases members.len(),
{
    let after = members.update(i, member);
    if i == members.len() - 1 {
        assert(after.drop_last() =~= members.drop_last());
    } else {
        assert(after.drop_last() =~= members.drop_last().update(i, member));
        lemma_count_after_submission(members.drop_last(), i, member);
    }
}

/// Everyone but the leader has submitted exactly when the submissions
/// number one less than the members.
pub proof fn law_quorum_is_all_but_one(m: RoomModel)
    requires
        m.wf(),
    ensures
        m.has_quorum() <==> submission_count(m.members) == m.member_count() - 1,
{
    lemma_count_with_gap(m.members, m.leader_position as int);
}

/// A submission that is accepted adds one to the submissions on record,
/// and the room goes on to the leader's choice exactly when they then
/// number one less than the members.
pub proof fn law_submission_advances_at_quorum(m: RoomModel, player: u32, option: u16)
    requires
        m.wf(),
        m.status == RoomStatus::LackeyOptions,
        m.picked(player, option) is Ok,
    ensures
        submission_count(m.picked(player, option)->Ok_0.members) == submission_count(m.members)
            + 1,
        m.picked(player, option)->Ok_0.status == RoomStatus::LeaderPick <==> submission_count(
            m.picked(player, option)->Ok_0.members,
        ) == m.member_count() - 1,
        m.picked(player, option)->Ok_0.status == RoomStatus::LeaderPick || m.picked(
            player,
            option,
        )->Ok_0.status == RoomStatus::LackeyOptions,
{
    let n = m.picked(player, option)->Ok_0;
    let i = m.index_of(player);
    lemma_index_of_member(m, player);
    lemma_picked_wf(m, player, option);
    lemma_count_after_submission(m.members, i, n.members[i]);
    assert(n.members =~= m.members.update(i, n.members[i]));
    law_quorum_is_all_but_one(n);
    let recorded = RoomModel { status: m.status, ..n };
    assert(recorded.has_quorum() == n.has_quorum());
}

/// While submissions are still awaited, a player who has submitted cannot
/// submit again: the second pick is a conflict, whatever card it names.
pub proof fn law_second_submission_is_a_conflict(
    m: RoomModel,
    player: u32,
    first: u16,
    second: u16,
)
    requires
        m.wf(),
        m.status == RoomStatus::LackeyOptions,
        m.picked(player, first) is Ok,
        m.picked(player, first)->Ok_0.status == RoomStatus::LackeyOptions,
    ensures
        m.picked(player, first)->Ok_0.picked(player, second) == Err::<RoomModel, GameError>(
            GameError::Conflict,
        ),
{
    let n = m.picked(player, first)->Ok_0;
    let i = m.index_of(player);
    lemma_index_of_member(m, player);
    lemma_picked_wf(m, player, first);
    lemma_steps_keep_seats(m, player, first, 0);
    assert(n.members[i].id == player);
    lemma_index_of(n, i);
}

/// The round that `b` starts follows the round that `a` started: the same
/// players sit in the same seats, and the lead has moved on by one.
pub open spec fn follows(a: RoomModel, b: RoomModel) -> bool {
    &&& same_seats(a, b)
    &&& b.leader_position == a.next_leader_position()
}

/// The lead moves exactly when a round or a match begins, and then by one
/// seat; no other signal and no pick moves it.
pub proof fn law_lead_moves_with_the_round(m: RoomModel, player: u32, option: u16)
    requires
        m.wf(),
    ensures
        m.picked(player, option) matches Ok(n) ==> n.leader_position == m.leader_position,
        m.advanced(player) matches Ok(n) ==> if n.status == RoomStatus::LeaderOptions && m.status
            != RoomStatus::Waiting {
            follows(m, n)
        } else {
            n.leader_position == m.leader_position
        },
{
    lemma_steps_keep_seats(m, player, option, 0);
    if m.has_member(player) {
        lemma_index_of_member(m, player);
    }
}

/// The seat that leads after the seat `x` of `n`.
proof fn lemma_next_seat(x: nat, n: nat)
    requires
        x < n,
    ensures
        (x + 1) % n == if x + 1 == n {
            0
        } else {
            x + 1
        },
{
    if x + 1 == n {
        lemma_mod_self_0(n as int);
    } else {
        lemma_small_mod(x + 1, n);
    }
}

/// After `k` rounds the lead has moved `k` seats on, around the table.
proof fn lemma_lead_after(starts: Seq<RoomModel>, k: int)
    requires
        starts.len() > 0,
        starts[0].leader_position < starts[0].members.len(),
        forall|j: int| 0 <= j < starts.len() - 1 ==> follows(#[trigger] starts[j], starts[j + 1]),
        0 <= k < starts.len(),
        k <= starts[0].members.len(),
    ensures
        same_seats(starts[0], starts[k]),
        starts[k].leader_position == if starts[0].leader_position + k < starts[0].members.len() {
            starts[0].leader_position + k
        } else {
            starts[0].leader_position + k - starts[0].members.len()
        },
    decreases k,
{
    if k > 0 {
        lemma_lead_after(starts, k - 1);
        assert(follows(starts[k - 1], starts[k]));
        lemma_next_seat(starts[k - 1].leader_position, starts[0].members.len());
        assert forall|i: int| 0 <= i < starts[0].members.len() implies (
        #[trigger] starts[0].members[i]).id == starts[k].members[i].id && starts[0].members[i].name
            == starts[k].members[i].name by {
            assert(starts[k - 1].members[i].id == starts[k].members[i].id);
        }
    }
}

/// The lead goes round the table: when as many rounds have begun as the
/// room has members, and nobody has joined meanwhile, the leader is again
/// who it was.
pub proof fn law_leader_rotation_is_cyclic(starts: Seq<RoomModel>)
    requires
        starts.len() == starts[0].members.len() + 1,
        starts[0].leader_position < starts[0].members.len(),
        forall|j: int| 0 <= j < starts.len() - 1 ==> follows(#[trigger] starts[j], starts[j + 1]),
    ensures
        starts.last().leader_position == starts[0].leader_position,
        starts.last().leader_id() == starts[0].leader_id(),
{
    let n = starts[0].members.len() as int;
    lemma_lead_after(starts, n);
    assert(starts[0].members[starts[0].leader_position as int].id
        == starts[n].members[starts[0].leader_position as int].id);
}

} // verus!
