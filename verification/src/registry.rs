//! The mathematical model of the whole service: the two corpora and every
//! live room, with what each of the six operations makes of them.

use crate::bag::MAX_DOMAIN;
use crate::model::{newcomer, same_seats, OptionSource, RoomModel};
use crate::snapshot::{project, SnapshotModel};
use crate::status::GameError;
use crate::steps::{lemma_created_wf, lemma_joined_wf, lemma_same_seats_same_members};
use crate::text::{plausible_code, trimmed, valid_name, well_formed_code};
use vstd::prelude::*;

verus! {

/// Number of rounds in a match.
pub const ROUND_TOTAL: u8 = 10;

/// The service as the rules see it.
#[verifier::ext_equal]
pub struct EngineModel {
    /// The texts of the prompts, by card id.
    pub prompts: Seq<Seq<char>>,
    /// The texts of the finishers, by card id.
    pub finishers: Seq<Seq<char>>,
    /// The live rooms, oldest first.
    pub rooms: Seq<RoomModel>,
}

/// Two rooms share neither identifier nor join code nor any player.
pub open spec fn apart(a: RoomModel, b: RoomModel) -> bool {
    &&& a.id != b.id
    &&& a.code != b.code
    &&& forall|p: u32| !(#[trigger] a.has_member(p) && b.has_member(p))
}

impl EngineModel {
    /// Whether a live room has the identifier `id`.
    pub open spec fn has_room(self, id: u32) -> bool {
        exists|i: int| 0 <= i < self.rooms.len() && (#[trigger] self.rooms[i]).id == id
    }

    /// The position of the room with the identifier `id`.
    pub open spec fn room_index(self, id: u32) -> int {
        choose|i: int| 0 <= i < self.rooms.len() && (#[trigger] self.rooms[i]).id == id
    }

    /// Whether a live room is joined by `code`.
    pub open spec fn code_in_use(self, code: Seq<char>) -> bool {
        exists|i: int| 0 <= i < self.rooms.len() && (#[trigger] self.rooms[i]).code == code
    }

    /// The position of the room that is joined by `code`.
    pub open spec fn code_index(self, code: Seq<char>) -> int {
        choose|i: int| 0 <= i < self.rooms.len() && (#[trigger] self.rooms[i]).code == code
    }

    /// Whether a player of some live room has the identifier `player`.
    pub open spec fn player_in_use(self, player: u32) -> bool {
        exists|i: int| 0 <= i < self.rooms.len() && (#[trigger] self.rooms[i]).has_member(player)
    }

    /// What the service asks of each room: it obeys the rule of rooms, deals
    /// from the service's corpora, and its identifiers can be sent in.
    pub open spec fn room_fits(self, r: RoomModel) -> bool {
        &&& r.wf()
        &&& r.prompt_count == self.prompts.len()
        &&& r.finisher_count == self.finishers.len()
        &&& r.id != 0
        &&& well_formed_code(r.code)
        &&& forall|k: int| 0 <= k < r.members.len() ==> (#[trigger] r.members[k]).id != 0
    }

    /// The rule that every state of the service obeys: identifiers and join
    /// codes are unique among the live rooms, and no player is in two rooms.
    pub open spec fn wf(self) -> bool {
        &&& 0 < self.prompts.len() <= MAX_DOMAIN
        &&& 0 < self.finishers.len() <= MAX_DOMAIN
        &&& forall|i: int| 0 <= i < self.rooms.len() ==> self.room_fits(#[trigger] self.rooms[i])
        &&& forall|i: int, j: int|
            0 <= i < j < self.rooms.len() ==> apart(
                #[trigger] self.rooms[i],
                #[trigger] self.rooms[j],
            )
    }

    /// The service with the room at `i` replaced by `r`.
    pub open spec fn with_room(self, i: int, r: RoomModel) -> EngineModel {
        EngineModel { rooms: self.rooms.update(i, r), ..self }
    }

    /// What becomes of a request to create a room, when `room_id`,
    /// `player_id` and `code` are proposed for it: a bad name is the caller's
    /// fault, as is a proposal that no request could address; a proposal
    /// that is already taken is a conflict; otherwise the room is opened
    /// with the owner as its only member.
    pub open spec fn opened(
        self,
        raw_name: Seq<char>,
        now: u64,
        room_id: u32,
        player_id: u32,
        code: Seq<char>,
    ) -> Result<EngineModel, GameError> {
        if !valid_name(trimmed(raw_name)) {
            Err(GameError::ValidationError)
        } else if room_id == 0 || player_id == 0 || !well_formed_code(code) {
            Err(GameError::ValidationError)
        } else if self.has_room(room_id) || self.player_in_use(player_id) || self.code_in_use(
            code,
        ) {
            Err(GameError::Conflict)
        } else {
            Ok(
                EngineModel {
                    rooms: self.rooms.push(
                        RoomModel::created(
                            room_id,
                            code,
                            newcomer(player_id, trimmed(raw_name), now),
                            ROUND_TOTAL,
                            self.prompts.len(),
                            self.finishers.len(),
                        ),
                    ),
                    ..self
                },
            )
        }
    }

    /// What becomes of a request to join the room with the code `raw_code`,
    /// when `player_id` is proposed for the new player.
    pub open spec fn joined(
        self,
        raw_code: Seq<char>,
        raw_name: Seq<char>,
        now: u64,
        player_id: u32,
    ) -> Result<EngineModel, GameError> {
        if !valid_name(trimmed(raw_name)) || !plausible_code(trimmed(raw_code)) {
            Err(GameError::ValidationError)
        } else if !self.code_in_use(trimmed(raw_code)) {
            Err(GameError::NotFound)
        } else if player_id == 0 {
            Err(GameError::ValidationError)
        } else if self.player_in_use(player_id) {
            Err(GameError::Conflict)
        } else {
            let i = self.code_index(trimmed(raw_code));
            Ok(self.with_room(i, self.rooms[i].joined(newcomer(player_id, trimmed(raw_name), now))))
        }
    }

    /// The room that a request from `player` to `room_id` is about: a zero
    /// identifier is malformed, and an unknown room is not found.
    pub open spec fn located(self, room_id: u32, player: u32) -> Result<int, GameError> {
        if room_id == 0 || player == 0 {
            Err(GameError::ValidationError)
        } else if !self.has_room(room_id) {
            Err(GameError::NotFound)
        } else {
            Ok(self.room_index(room_id))
        }
    }

    /// What a start-or-advance signal from `player` to `room_id` leads to.
    pub open spec fn advanced(self, room_id: u32, player: u32) -> Result<EngineModel, GameError> {
        match self.located(room_id, player) {
            Err(e) => Err(e),
            Ok(i) => match self.rooms[i].advanced(player) {
                Err(e) => Err(e),
                Ok(r) => Ok(self.with_room(i, r)),
            },
        }
    }

    /// What `player` picking `option` in `room_id` leads to.
    pub open spec fn picked(self, room_id: u32, player: u32, option: u16) -> Result<
        EngineModel,
        GameError,
    > {
        match self.located(room_id, player) {
            Err(e) => Err(e),
            Ok(i) => match self.rooms[i].picked(player, option) {
                Err(e) => Err(e),
                Ok(r) => Ok(self.with_room(i, r)),
            },
        }
    }

    /// What a poll by `player` of `room_id` at time `now` leads to, and
    /// what it shows.
    pub open spec fn polled(self, room_id: u32, player: u32, now: u64) -> Result<
        (EngineModel, SnapshotModel),
        GameError,
    > {
        match self.located(room_id, player) {
            Err(e) => Err(e),
            Ok(i) => if !self.rooms[i].has_member(player) {
                Err(GameError::NotFound)
            } else {
                let r = self.rooms[i].polled(player, now);
                Ok((self.with_room(i, r), project(r, now, self.prompts, self.finishers)))
            },
        }
    }

    /// Why a request for options by `player` in `room_id` is refused, if it
    /// is.
    pub open spec fn options_refused(self, room_id: u32, player: u32) -> Option<GameError> {
        match self.located(room_id, player) {
            Err(e) => Some(e),
            Ok(i) => match self.rooms[i].options_source(player) {
                Err(e) => Some(e),
                Ok(_) => None,
            },
        }
    }

    /// The service goes to `after` by offering `player` in `room_id` the
    /// cards `ids` with the texts `shown`: the room deals as its rules say,
    /// and each card is shown with its text from the corpus it belongs to.
    pub open spec fn options_served(
        self,
        room_id: u32,
        player: u32,
        after: EngineModel,
        ids: Seq<u16>,
        shown: Seq<Seq<char>>,
    ) -> bool {
        &&& self.located(room_id, player) matches Ok(i)
        &&& after == self.with_room(i, after.rooms[i])
        &&& self.rooms[i].options_served(player, after.rooms[i], ids)
        &&& shown.len() == ids.len()
        &&& forall|k: int|
            0 <= k < ids.len() ==> #[trigger] shown[k] == if self.rooms[i].options_source(player)
                == Ok::<OptionSource, GameError>(OptionSource::Prompts) {
                self.prompts[ids[k] as int]
            } else {
                self.finishers[ids[k] as int]
            }
    }
}

/// The room with a given identifier stands at one position only.
pub proof fn lemma_room_index(e: EngineModel, i: int)
    requires
        e.wf(),
        0 <= i < e.rooms.len(),
    ensures
        e.has_room(e.rooms[i].id),
        e.room_index(e.rooms[i].id) == i,
        e.code_in_use(e.rooms[i].code),
        e.code_index(e.rooms[i].code) == i,
{
    let j = e.room_index(e.rooms[i].id);
    if i < j {
        assert(apart(e.rooms[i], e.rooms[j]));
    }
    if j < i {
        assert(apart(e.rooms[j], e.rooms[i]));
    }
    let c = e.code_index(e.rooms[i].code);
    if i < c {
        assert(apart(e.rooms[i], e.rooms[c]));
    }
    if c < i {
        assert(apart(e.rooms[c], e.rooms[i]));
    }
}

/// Replacing a room by a later state of itself, with the same players in
/// the same seats, keeps the service's rule.
pub proof fn lemma_with_room_wf(e: EngineModel, i: int, r: RoomModel)
    requires
        e.wf(),
        0 <= i < e.rooms.len(),
        r.wf(),
        same_seats(e.rooms[i], r),
    ensures
        e.with_room(i, r).wf(),
{
    let n = e.with_room(i, r);
    assert(e.room_fits(e.rooms[i]));
    assert forall|k: int| 0 <= k < r.members.len() implies (#[trigger] r.members[k]).id != 0 by {
        assert(e.rooms[i].members[k].id == r.members[k].id);
    }
    assert forall|k: int| 0 <= k < n.rooms.len() implies n.room_fits(#[trigger] n.rooms[k]) by {
        if k != i {
            assert(e.room_fits(e.rooms[k]));
        }
    }
    assert forall|a: int, b: int| 0 <= a < b < n.rooms.len() implies apart(
        #[trigger] n.rooms[a],
        #[trigger] n.rooms[b],
    ) by {
        assert(apart(e.rooms[a], e.rooms[b]));
        assert forall|p: u32|
            !(#[trigger] n.rooms[a].has_member(p) && n.rooms[b].has_member(p)) by {
            lemma_same_seats_same_members(e.rooms[i], r, p);
            assert(!(e.rooms[a].has_member(p) && e.rooms[b].has_member(p)));
        }
    }
}

/// Opening a room under fresh identifiers keeps the service's rule.
pub proof fn lemma_opened_wf(
    e: EngineModel,
    raw_name: Seq<char>,
    now: u64,
    room_id: u32,
    player_id: u32,
    code: Seq<char>,
)
    requires
        e.wf(),
        e.opened(raw_name, now, room_id, player_id, code) is Ok,
    ensures
        e.opened(raw_name, now, room_id, player_id, code)->Ok_0.wf(),
{
    let n = e.opened(raw_name, now, room_id, player_id, code)->Ok_0;
    let owner = newcomer(player_id, trimmed(raw_name), now);
    let room = RoomModel::created(
        room_id,
        code,
        owner,
        ROUND_TOTAL,
        e.prompts.len(),
        e.finishers.len(),
    );
    lemma_created_wf(room_id, code, owner, ROUND_TOTAL, e.prompts.len(), e.finishers.len());
    assert forall|k: int| 0 <= k < n.rooms.len() implies n.room_fits(#[trigger] n.rooms[k]) by {
        if k < e.rooms.len() {
            assert(e.room_fits(e.rooms[k]));
        }
    }
    assert forall|a: int, b: int| 0 <= a < b < n.rooms.len() implies apart(
        #[trigger] n.rooms[a],
        #[trigger] n.rooms[b],
    ) by {
        if b < e.rooms.len() {
            assert(apart(e.rooms[a], e.rooms[b]));
        } else {
            assert(e.rooms[a].id != room_id);
            assert(e.rooms[a].code != code);
            assert forall|p: u32| !(#[trigger] n.rooms[a].has_member(p) && n.rooms[b].has_member(
                p,
            )) by {
                if room.has_member(p) {
                    let k = room.index_of(p);
                    assert(room.members[k].id == player_id);
                    assert(!e.rooms[a].has_member(player_id));
                }
            }
        }
    }
}

/// Letting a player with a fresh identifier into a room keeps the
/// service's rule.
pub proof fn lemma_joined_registry_wf(
    e: EngineModel,
    raw_code: Seq<char>,
    raw_name: Seq<char>,
    now: u64,
    player_id: u32,
)
    requires
        e.wf(),
        e.joined(raw_code, raw_name, now, player_id) is Ok,
    ensures
        e.joined(raw_code, raw_name, now, player_id)->Ok_0.wf(),
{
    let n = e.joined(raw_code, raw_name, now, player_id)->Ok_0;
    let i = e.code_index(trimmed(raw_code));
    let member = newcomer(player_id, trimmed(raw_name), now);
    let room = e.rooms[i].joined(member);
    assert(e.room_fits(e.rooms[i]));
    assert(!e.rooms[i].has_member(player_id));
    lemma_joined_wf(e.rooms[i], member);
    assert forall|k: int| 0 <= k < n.rooms.len() implies n.room_fits(#[trigger] n.rooms[k]) by {
        assert(e.room_fits(e.rooms[k]));
        if k == i {
            assert forall|m: int| 0 <= m < room.members.len() implies (
            #[trigger] room.members[m]).id != 0 by {
                if m < e.rooms[i].members.len() {
                    assert(e.rooms[i].members[m].id != 0);
                }
            }
        }
    }
    assert forall|a: int, b: int| 0 <= a < b < n.rooms.len() implies apart(
        #[trigger] n.rooms[a],
        #[trigger] n.rooms[b],
    ) by {
        assert(apart(e.rooms[a], e.rooms[b]));
        assert forall|p: u32|
            !(#[trigger] n.rooms[a].has_member(p) && n.rooms[b].has_member(p)) by {
            assert(!(e.rooms[a].has_member(p) && e.rooms[b].has_member(p)));
            if n.rooms[a].has_member(p) && n.rooms[b].has_member(p) {
                if a == i {
                    let k = room.index_of(p);
                    if k < e.rooms[i].members.len() {
                        assert(e.rooms[i].members[k].id == p);
                    } else {
                        assert(!e.rooms[b].has_member(player_id));
                    }
                } else if b == i {
                    let k = room.index_of(p);
                    if k < e.rooms[i].members.len() {
                        assert(e.rooms[i].members[k].id == p);
                    } else {
                        assert(!e.rooms[a].has_member(player_id));
                    }
                }
            }
        }
    }
}

} // verus!
