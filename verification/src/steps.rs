//! Proofs that every transition of a room keeps the rule of its states.

use crate::bag::is_pool;
use crate::model::{
    same_seats, submitted_finishers, without_card, MemberModel, OptionSource, RoomModel,
};
use crate::status::{GameError, RoomStatus};
use vstd::prelude::*;

verus! {

/// Two members with the same id stand at the same position.
pub proof fn lemma_index_of(m: RoomModel, i: int)
    requires
        m.wf(),
        0 <= i < m.members.len(),
    ensures
        m.has_member(m.members[i].id),
        m.index_of(m.members[i].id) == i,
{
    let j = m.index_of(m.members[i].id);
    assert(0 <= j < m.members.len() && m.members[j].id == m.members[i].id);
    if i < j {
        assert(m.members[i].id != m.members[j].id);
    }
    if j < i {
        assert(m.members[j].id != m.members[i].id);
    }
}

/// A member's position lies among the members and holds that member.
pub proof fn lemma_index_of_member(m: RoomModel, player: u32)
    requires
        m.has_member(player),
    ensures
        0 <= m.index_of(player) < m.members.len(),
        m.members[m.index_of(player)].id == player,
{
}

/// At most one position is that of the first submitter of `option`.
pub proof fn lemma_first_submitter_unique(m: RoomModel, i: int, option: u16)
    requires
        m.is_first_submitter(i, option),
    ensures
        m.was_submitted(option),
        m.first_submitter(option) == i,
{
    let j = m.first_submitter(option);
    assert(m.is_first_submitter(j, option));
    if i < j {
        assert(m.members[i].submission != Some(option));
    }
    if j < i {
        assert(m.members[j].submission != Some(option));
    }
}

/// Rooms whose members hold the same submissions name the same first
/// submitter.
pub proof fn lemma_same_submissions(a: RoomModel, b: RoomModel, option: u16)
    requires
        a.members.len() == b.members.len(),
        forall|i: int|
            0 <= i < a.members.len() ==> (#[trigger] a.members[i]).submission
                == b.members[i].submission,
        a.was_submitted(option),
    ensures
        b.was_submitted(option),
        b.first_submitter(option) == a.first_submitter(option),
{
    let w = a.first_submitter(option);
    assert(a.is_first_submitter(w, option));
    assert(b.members[w].submission == a.members[w].submission);
    assert forall|j: int| 0 <= j < w implies (#[trigger] b.members[j]).submission != Some(
        option,
    ) by {
        assert(a.members[j].submission == b.members[j].submission);
    }
    assert(b.is_first_submitter(w, option));
    lemma_first_submitter_unique(b, w, option);
}

/// A freshly created room obeys the rule.
pub proof fn lemma_created_wf(
    id: u32,
    code: Seq<char>,
    owner: MemberModel,
    round_total: u8,
    prompt_count: nat,
    finisher_count: nat,
)
    requires
        round_total >= 1,
        prompt_count > 0,
        finisher_count > 0,
        owner.score == 0,
        owner.hand.len() == 0,
        owner.submission is None,
        !owner.not_ready,
    ensures
        RoomModel::created(id, code, owner, round_total, prompt_count, finisher_count).wf(),
{
}

/// A room that a new player joins still obeys the rule.
pub proof fn lemma_joined_wf(m: RoomModel, member: MemberModel)
    requires
        m.wf(),
        !m.has_member(member.id),
        member.score == 0,
        member.hand.len() == 0,
        member.submission is None,
        !member.not_ready,
    ensures
        m.joined(member).wf(),
{
    let n = m.joined(member);
    assert forall|i: int, j: int| 0 <= i < j < n.members.len() implies (
    #[trigger] n.members[i]).id != (#[trigger] n.members[j]).id by {
        if j == m.members.len() {
            assert(m.members[i].id != member.id);
        } else {
            assert(m.members[i].id != m.members[j].id);
        }
    }
    assert forall|i: int| 0 <= i < n.members.len() implies n.member_wf(#[trigger] n.members[i]) by {
        if i < m.members.len() {
            assert(m.member_wf(m.members[i]));
        }
    }
    if m.status == RoomStatus::RoundWinner {
        let f = m.winner_finisher_id->0;
        let w = m.first_submitter(f);
        assert(m.is_first_submitter(w, f));
        assert(n.members[w] == m.members[w]);
        assert forall|j: int| 0 <= j < w implies (#[trigger] n.members[j]).submission != Some(
            f,
        ) by {
            assert(n.members[j] == m.members[j]);
        }
        assert(n.is_first_submitter(w, f));
        lemma_first_submitter_unique(n, w, f);
    }
}

/// A poll keeps the rule.
pub proof fn lemma_polled_wf(m: RoomModel, player: u32, now: u64)
    requires
        m.wf(),
        m.has_member(player),
    ensures
        m.polled(player, now).wf(),
{
    let n = m.polled(player, now);
    let p = m.index_of(player);
    assert forall|i: int, j: int| 0 <= i < j < n.members.len() implies (
    #[trigger] n.members[i]).id != (#[trigger] n.members[j]).id by {
        assert(m.members[i].id != m.members[j].id);
    }
    assert forall|i: int| 0 <= i < n.members.len() implies n.member_wf(#[trigger] n.members[i]) by {
        assert(m.member_wf(m.members[i]));
    }
    if m.status == RoomStatus::RoundWinner {
        lemma_same_submissions(m, n, m.winner_finisher_id->0);
    }
}

/// Taking a card out of a hand leaves only cards that were in it, and
/// none that equals the card.
pub proof fn lemma_without_card(hand: Seq<u16>, card: u16)
    ensures
        without_card(hand, card).len() <= hand.len(),
        forall|k: int|
            0 <= k < without_card(hand, card).len() ==> hand.contains(
                #[trigger] without_card(hand, card)[k],
            ) && without_card(hand, card)[k] != card,
        hand.contains(card) ==> without_card(hand, card).len() < hand.len(),
    decreases hand.len(),
{
    if hand.len() > 0 {
        let rest = hand.drop_last();
        lemma_without_card(rest, card);
        let out = without_card(hand, card);
        assert forall|k: int| 0 <= k < out.len() implies hand.contains(#[trigger] out[k]) && out[k]
            != card by {
            if k < without_card(rest, card).len() {
                let c = without_card(rest, card)[k];
                assert(rest.contains(c));
                let p = choose|p: int| 0 <= p < rest.len() && rest[p] == c;
                assert(hand[p] == c);
            } else {
                assert(hand[hand.len() - 1] == out[k]);
            }
        }
        if hand.contains(card) && hand.last() != card {
            let p = choose|p: int| 0 <= p < hand.len() && hand[p] == card;
            assert(rest[p] == card);
        }
    }
}

/// A start-or-advance signal that is accepted keeps the rule.
pub proof fn lemma_advanced_wf(m: RoomModel, player: u32)
    requires
        m.wf(),
        m.advanced(player) is Ok,
    ensures
        m.advanced(player)->Ok_0.wf(),
{
    let n = m.advanced(player)->Ok_0;
    assert forall|i: int| 0 <= i < m.members.len() implies m.member_wf(#[trigger] m.members[i]) by {}
    match m.status {
        RoomStatus::Waiting => {
            assert forall|i: int| 0 <= i < n.members.len() implies n.member_wf(
                #[trigger] n.members[i],
            ) by {
                assert(m.member_wf(m.members[i]));
            }
        },
        RoomStatus::RoundWinner => {
            let acked = m.acknowledged(player);
            assert forall|i: int, j: int| 0 <= i < j < n.members.len() implies (
            #[trigger] n.members[i]).id != (#[trigger] n.members[j]).id by {
                assert(m.members[i].id != m.members[j].id);
            }
            if acked.anyone_not_ready() {
                lemma_same_submissions(m, n, m.winner_finisher_id->0);
                assert forall|i: int| 0 <= i < n.members.len() implies n.member_wf(
                    #[trigger] n.members[i],
                ) by {
                    assert(m.member_wf(m.members[i]));
                }
            } else {
                assert forall|i: int| 0 <= i < n.members.len() implies n.member_wf(
                    #[trigger] n.members[i],
                ) by {
                    assert(m.member_wf(m.members[i]));
                    assert(!acked.members[i].not_ready);
                }
            }
        },
        RoomStatus::GameWinner => {
            assert forall|i: int, j: int| 0 <= i < j < n.members.len() implies (
            #[trigger] n.members[i]).id != (#[trigger] n.members[j]).id by {
                assert(m.members[i].id != m.members[j].id);
            }
            assert forall|i: int| 0 <= i < n.members.len() implies n.member_wf(
                #[trigger] n.members[i],
            ) by {
                assert(m.member_wf(m.members[i]));
            }
        },
        _ => {},
    }
}

/// A pick that is accepted keeps the rule.
pub proof fn lemma_picked_wf(m: RoomModel, player: u32, option: u16)
    requires
        m.wf(),
        m.picked(player, option) is Ok,
    ensures
        m.picked(player, option)->Ok_0.wf(),
{
    let n = m.picked(player, option)->Ok_0;
    assert forall|i: int, j: int| 0 <= i < j < n.members.len() implies (
    #[trigger] n.members[i]).id != (#[trigger] n.members[j]).id by {
        assert(m.members[i].id != m.members[j].id);
    }
    if player == m.leader_id() {
        if m.status == RoomStatus::LeaderOptions {
            let k = choose|k: int| 0 <= k < m.drawn_prompts.len() && m.drawn_prompts[k] == option;
            assert((m.drawn_prompts[k] as nat) < m.prompt_count);
            assert forall|i: int| 0 <= i < n.members.len() implies n.member_wf(
                #[trigger] n.members[i],
            ) by {
                assert(m.member_wf(m.members[i]));
            }
        } else {
            let w = m.first_submitter(option);
            assert(m.is_first_submitter(w, option));
            lemma_same_submissions(m, n, option);
            assert forall|i: int| 0 <= i < n.members.len() implies n.member_wf(
                #[trigger] n.members[i],
            ) by {
                assert(m.member_wf(m.members[i]));
            }
        }
    } else {
        let i = m.index_of(player);
        lemma_index_of_member(m, player);
        let hand = m.members[i].hand;
        lemma_without_card(hand, option);
        assert(m.member_wf(m.members[i]));
        let p = choose|p: int| 0 <= p < hand.len() && hand[p] == option;
        assert((hand[p] as nat) < m.finisher_count);
        assert forall|k: int| 0 <= k < n.members.len() implies n.member_wf(
            #[trigger] n.members[k],
        ) by {
            assert(m.member_wf(m.members[k]));
            if k == i {
                let kept = n.members[k].hand;
                assert forall|c: int| 0 <= c < kept.len() implies (#[trigger] kept[c] as nat)
                    < n.finisher_count by {
                    assert(hand.contains(kept[c]));
                    let q = choose|q: int| 0 <= q < hand.len() && hand[q] == kept[c];
                    assert((hand[q] as nat) < m.finisher_count);
                }
            }
        }
    }
}

/// Offering options keeps the rule, as long as the bags stay sound.
pub proof fn lemma_options_wf(m: RoomModel, player: u32, after: RoomModel, ids: Seq<u16>)
    requires
        m.wf(),
        m.options_served(player, after, ids),
        is_pool(after.prompt_pool, m.prompt_count),
        is_pool(after.finisher_pool, m.finisher_count),
    ensures
        after.wf(),
{
    assert forall|i: int, j: int| 0 <= i < j < after.members.len() implies (
    #[trigger] after.members[i]).id != (#[trigger] after.members[j]).id by {
        assert(m.members[i].id != m.members[j].id);
    }
    match m.options_source(player) {
        Ok(OptionSource::Prompts) => {
            assert forall|k: int| 0 <= k < after.members.len() implies after.member_wf(
                #[trigger] after.members[k],
            ) by {
                assert(m.member_wf(m.members[k]));
            }
            assert forall|k: int| 0 <= k < ids.len() implies (#[trigger] ids[k] as nat)
                < m.prompt_count by {
                if k < m.drawn_prompts.len() {
                    assert(ids.subrange(0, m.drawn_prompts.len() as int)[k] == ids[k]);
                }
            }
        },
        Ok(OptionSource::Hand) => {
            let i = m.index_of(player);
            lemma_index_of_member(m, player);
            let hand = m.members[i].hand;
            assert(m.member_wf(m.members[i]));
            assert forall|k: int| 0 <= k < after.members.len() implies after.member_wf(
                #[trigger] after.members[k],
            ) by {
                assert(m.member_wf(m.members[k]));
                if k == i {
                    assert forall|c: int| 0 <= c < ids.len() implies (#[trigger] ids[c] as nat)
                        < m.finisher_count by {
                        if c < hand.len() {
                            assert(ids.subrange(0, hand.len() as int)[c] == ids[c]);
                        }
                    }
                }
            }
        },
        _ => {},
    }
}

/// Rooms with the same players in the same seats have the same members.
pub proof fn lemma_same_seats_same_members(a: RoomModel, b: RoomModel, player: u32)
    requires
        same_seats(a, b),
    ensures
        a.has_member(player) == b.has_member(player),
{
    if a.has_member(player) {
        let i = a.index_of(player);
        assert(b.members[i].id == a.members[i].id);
    }
    if b.has_member(player) {
        let i = b.index_of(player);
        assert(a.members[i].id == b.members[i].id);
    }
}

/// No accepted signal, pick, offer or poll moves a player, renames one, or
/// touches the room's identity and settings.
pub proof fn lemma_steps_keep_seats(m: RoomModel, player: u32, option: u16, now: u64)
    requires
        m.wf(),
    ensures
        m.advanced(player) matches Ok(n) ==> same_seats(m, n),
        m.picked(player, option) matches Ok(n) ==> same_seats(m, n),
        m.has_member(player) ==> same_seats(m, m.polled(player, now)),
        forall|after: RoomModel, ids: Seq<u16>| #[trigger]
            m.options_served(player, after, ids) ==> same_seats(m, after),
{
    if m.has_member(player) {
        lemma_index_of_member(m, player);
    }
}

/// Every finisher on record is the submission of some member, so a bound
/// on the submissions bounds the record.
pub proof fn lemma_submitted_in_range(members: Seq<MemberModel>, n: nat)
    requires
        forall|i: int|
            0 <= i < members.len() ==> ((#[trigger] members[i]).submission matches Some(f) ==> (
            f as nat) < n),
    ensures
        submitted_finishers(members).len() <= members.len(),
        forall|k: int|
            0 <= k < submitted_finishers(members).len() ==> (#[trigger] submitted_finishers(
                members,
            )[k] as nat) < n,
    decreases members.len(),
{
    if members.len() > 0 {
        let rest = members.drop_last();
        assert forall|i: int| 0 <= i < rest.len() implies ((#[trigger] rest[i]).submission matches Some(
            f,
        ) ==> (f as nat) < n) by {
            assert(rest[i] == members[i]);
        }
        lemma_submitted_in_range(rest, n);
        assert(members.last() == members[members.len() - 1]);
    }
}

/// The cards offered to a player are ids of the corpus they come from.
pub proof fn lemma_options_in_range(m: RoomModel, player: u32, after: RoomModel, ids: Seq<u16>)
    requires
        m.wf(),
        after.wf(),
        m.options_served(player, after, ids),
    ensures
        forall|k: int|
            0 <= k < ids.len() ==> (#[trigger] ids[k] as nat) < if m.options_source(player) == Ok::<
                OptionSource,
                GameError,
            >(OptionSource::Prompts) {
                m.prompt_count
            } else {
                m.finisher_count
            },
{
    match m.options_source(player) {
        Ok(OptionSource::Prompts) => {
            assert forall|k: int| 0 <= k < ids.len() implies (#[trigger] ids[k] as nat)
                < m.prompt_count by {
                assert((after.drawn_prompts[k] as nat) < after.prompt_count);
            }
        },
        Ok(OptionSource::Hand) => {
            let i = m.index_of(player);
            lemma_index_of_member(m, player);
            assert(after.member_wf(after.members[i]));
        },
        Ok(OptionSource::Submissions) => {
            assert forall|i: int| 0 <= i < m.members.len() implies ((
            #[trigger] m.members[i]).submission matches Some(f) ==> (f as nat)
                < m.finisher_count) by {
                assert(m.member_wf(m.members[i]));
            }
            lemma_submitted_in_range(m.members, m.finisher_count);
        },
        Err(_) => {},
    }
}

} // verus!
