//! The service in memory: the corpora, the live rooms, and the six
//! operations that clients reach.

use crate::bag::MAX_DOMAIN;
use crate::chance::{random_alphanumeric, random_id};
use crate::model::RoomModel;
use crate::registry::{
    lemma_joined_registry_wf, lemma_opened_wf, lemma_room_index, lemma_with_room_wf,
    EngineModel, ROUND_TOTAL,
};
use crate::room::{Member, OptionList, Room};
use crate::snapshot::{texts, Snapshot, SnapshotModel};
use crate::status::GameError;
use crate::steps::{lemma_options_in_range, lemma_steps_keep_seats};
use crate::text::{
    checked_code, checked_name, is_well_formed_code, plausible_code, same_text, to_uppercase,
    trimmed, valid_name, CODE_CHARS,
};
use rand::rngs::ThreadRng;
use vstd::prelude::*;

verus! {

/// How often fresh identifiers are proposed for a new room or player
/// before the service gives up.
pub const PROPOSALS: usize = 16;

/// What the creator of a room is told.
pub struct RoomCreated {
    pub room_id: u32,
    pub room_code: String,
    pub player_id: u32,
}

/// What a player who joined a room is told.
pub struct RoomJoined {
    pub room_id: u32,
    pub player_id: u32,
}

/// A card on offer, with its text.
pub struct GameOption {
    pub option_id: u16,
    pub option_text: String,
}

/// The ids of the cards on offer, in order.
pub open spec fn option_ids(options: Seq<GameOption>) -> Seq<u16> {
    Seq::new(options.len(), |k: int| options[k].option_id)
}

/// The texts of the cards on offer, in order.
pub open spec fn option_texts(options: Seq<GameOption>) -> Seq<Seq<char>> {
    Seq::new(options.len(), |k: int| options[k].option_text@)
}

/// Pairs each card with its text from `corpus`.
fn with_texts(ids: &Vec<u16>, corpus: &Vec<String>) -> (options: Vec<GameOption>)
    requires
        forall|k: int| 0 <= k < ids@.len() ==> (#[trigger] ids@[k] as nat) < corpus@.len(),
    ensures
        option_ids(options@) == ids@,
        options@.len() == ids@.len(),
        forall|k: int|
            0 <= k < ids@.len() ==> (#[trigger] options@[k]).option_text@ == corpus@[ids@[k]
                as int]@,
{
    let mut options: Vec<GameOption> = Vec::new();
    let mut i: usize = 0;
    while i < ids.len()
        invariant
            i <= ids@.len(),
            options@.len() == i,
            forall|k: int| 0 <= k < ids@.len() ==> (#[trigger] ids@[k] as nat) < corpus@.len(),
            forall|k: int| 0 <= k < i ==> (#[trigger] options@[k]).option_id == ids@[k],
            forall|k: int|
                0 <= k < i ==> (#[trigger] options@[k]).option_text@ == corpus@[ids@[k] as int]@,
        decreases ids@.len() - i,
    {
        let id = ids[i];
        assert((ids@[i as int] as nat) < corpus@.len());
        options.push(GameOption { option_id: id, option_text: corpus[id as usize].clone() });
        i = i + 1;
    }
    assert(option_ids(options@) =~= ids@);
    options
}

/// The service: two corpora, loaded once, and the live rooms.
pub struct Engine {
    prompts: Vec<String>,
    finishers: Vec<String>,
    rooms: Vec<Room>,
}

/// The rooms as the rules see them.
pub closed spec fn rooms_view(rooms: Seq<Room>) -> Seq<RoomModel> {
    Seq::new(rooms.len(), |i: int| rooms[i]@)
}

impl Engine {
    /// The service as the rules see it.
    pub closed spec fn view(&self) -> EngineModel {
        EngineModel {
            prompts: texts(self.prompts@),
            finishers: texts(self.finishers@),
            rooms: rooms_view(self.rooms@),
        }
    }

    /// The service obeys its rule, and so does every room in memory.
    pub closed spec fn wf(&self) -> bool {
        &&& self@.wf()
        &&& forall|i: int| 0 <= i < self.rooms@.len() ==> (#[trigger] self.rooms@[i]).wf()
    }

    /// What a well-formed service promises to everyone.
    pub proof fn lemma_wf(&self)
        requires
            self.wf(),
        ensures
            self@.wf(),
    {
    }

    /// Starts the service on its two corpora, with no room yet. A corpus
    /// that is empty, or holds more cards than there are card ids, is
    /// refused.
    pub fn new(prompts: Vec<String>, finishers: Vec<String>) -> (made: Result<Engine, GameError>)
        ensures
            made is Ok <==> 0 < prompts@.len() <= MAX_DOMAIN && 0 < finishers@.len() <= MAX_DOMAIN,
            made matches Ok(engine) ==> engine.wf() && engine@ == (EngineModel {
                prompts: texts(prompts@),
                finishers: texts(finishers@),
                rooms: Seq::empty(),
            }),
            made matches Err(e) ==> e == GameError::ValidationError,
    {
        if prompts.len() == 0 || prompts.len() > MAX_DOMAIN || finishers.len() == 0
            || finishers.len() > MAX_DOMAIN {
            return Err(GameError::ValidationError);
        }
        let engine = Engine { prompts, finishers, rooms: Vec::new() };
        assert(engine@.rooms =~= Seq::<RoomModel>::empty());
        Ok(engine)
    }

    /// Looks up a room by its identifier.
    fn find_room(&self, id: u32) -> (found: Option<usize>)
        requires
            self.wf(),
        ensures
            found is Some <==> self@.has_room(id),
            found matches Some(i) ==> i == self@.room_index(id) && i < self.rooms@.len(),
    {
        let mut i: usize = 0;
        while i < self.rooms.len()
            invariant
                i <= self.rooms@.len(),
                self.wf(),
                forall|k: int| 0 <= k < i ==> (#[trigger] self@.rooms[k]).id != id,
            decreases self.rooms@.len() - i,
        {
            if self.rooms[i].id() == id {
                proof {
                    assert(self@.rooms[i as int].id == id);
                    lemma_room_index(self@, i as int);
                }
                return Some(i);
            }
            i = i + 1;
        }
        None
    }

    /// Looks up a room by its join code.
    fn find_code(&self, code: &str) -> (found: Option<usize>)
        requires
            self.wf(),
        ensures
            found is Some <==> self@.code_in_use(code@),
            found matches Some(i) ==> i == self@.code_index(code@) && i < self.rooms@.len(),
    {
        let mut i: usize = 0;
        while i < self.rooms.len()
            invariant
                i <= self.rooms@.len(),
                self.wf(),
                forall|k: int| 0 <= k < i ==> (#[trigger] self@.rooms[k]).code != code@,
            decreases self.rooms@.len() - i,
        {
            if same_text(self.rooms[i].code(), code) {
                proof {
                    assert(self@.rooms[i as int].code == code@);
                    lemma_room_index(self@, i as int);
                }
                return Some(i);
            }
            i = i + 1;
        }
        None
    }

    /// Whether some player of some room has the identifier `player`.
    fn player_in_use(&self, player: u32) -> (used: bool)
        requires
            self.wf(),
        ensures
            used == self@.player_in_use(player),
    {
        let mut i: usize = 0;
        while i < self.rooms.len()
            invariant
                i <= self.rooms@.len(),
                self.wf(),
                forall|k: int| 0 <= k < i ==> !(#[trigger] self@.rooms[k]).has_member(player),
            decreases self.rooms@.len() - i,
        {
            if self.rooms[i].find_member(player).is_some() {
                assert(self@.rooms[i as int].has_member(player));
                return true;
            }
            i = i + 1;
        }
        false
    }

    /// Creates a room under the identifiers and the join code proposed for
    /// it. A request that is refused changes nothing.
    pub fn open_room(
        &mut self,
        owner_name: &str,
        now: u64,
        room_id: u32,
        player_id: u32,
        code: &str,
    ) -> (made: Result<RoomCreated, GameError>)
        requires
            old(self).wf(),
        ensures
            final(self).wf(),
            match made {
                Ok(told) => old(self)@.opened(owner_name@, now, room_id, player_id, code@) == Ok::<
                    EngineModel,
                    GameError,
                >(final(self)@) && told.room_id == room_id && told.player_id == player_id
                    && told.room_code@ == code@,
                Err(e) => old(self)@.opened(owner_name@, now, room_id, player_id, code@) == Err::<
                    EngineModel,
                    GameError,
                >(e) && final(self)@ == old(self)@,
            },
    {
        let ghost before = self@;
        let name = match checked_name(owner_name) {
            Err(e) => {
                return Err(e);
            },
            Ok(name) => name,
        };
        if room_id == 0 || player_id == 0 || !is_well_formed_code(code) {
            return Err(GameError::ValidationError);
        }
        if self.find_room(room_id).is_some() || self.player_in_use(player_id) || self.find_code(
            code,
        ).is_some() {
            return Err(GameError::Conflict);
        }
        let room = match Room::new(
            room_id,
            code.to_owned(),
            player_id,
            name,
            now,
            ROUND_TOTAL,
            self.prompts.len(),
            self.finishers.len(),
        ) {
            Err(e) => {
                return Err(e);
            },
            Ok(room) => room,
        };
        self.rooms.push(room);
        proof {
            let expected = before.opened(owner_name@, now, room_id, player_id, code@)->Ok_0;
            assert(self@.rooms =~= expected.rooms);
            assert(self@ =~= expected);
            lemma_opened_wf(before, owner_name@, now, room_id, player_id, code@);
        }
        Ok(RoomCreated { room_id, room_code: code.to_owned(), player_id })
    }

    /// Creates a room for `owner_name`. The room's identifier, the owner's
    /// and the join code come from the random source and are proposed again
    /// while they collide with a live room or player; after sixteen
    /// proposals the service gives up. A request that is refused changes
    /// nothing.
    pub fn create_room(&mut self, owner_name: &str, now: u64, rng: &mut ThreadRng) -> (made: Result<
        RoomCreated,
        GameError,
    >)
        requires
            old(self).wf(),
        ensures
            final(self).wf(),
            match made {
                Ok(told) => old(self)@.opened(
                    owner_name@,
                    now,
                    told.room_id,
                    told.player_id,
                    told.room_code@,
                ) == Ok::<EngineModel, GameError>(final(self)@),
                Err(e) => final(self)@ == old(self)@ && e == if valid_name(trimmed(owner_name@)) {
                    GameError::InternalInvariantViolation
                } else {
                    GameError::ValidationError
                },
            },
    {
        let ghost before = self@;
        match checked_name(owner_name) {
            Err(e) => {
                return Err(e);
            },
            Ok(_) => {},
        }
        let mut tries: usize = 0;
        while tries < PROPOSALS
            invariant
                self.wf(),
                self@ == before,
                before == old(self)@,
                valid_name(trimmed(owner_name@)),
            decreases PROPOSALS - tries,
        {
            let room_id = random_id(rng);
            let player_id = random_id(rng);
            let drawn = random_alphanumeric(rng, CODE_CHARS);
            let code = to_uppercase(drawn.as_str());
            match self.open_room(owner_name, now, room_id, player_id, code.as_str()) {
                Ok(told) => {
                    return Ok(told);
                },
                Err(_) => {},
            }
            tries = tries + 1;
        }
        Err(GameError::InternalInvariantViolation)
    }

    /// Lets a player into the room with the join code `code`, under the
    /// identifier proposed for them. A request that is refused changes
    /// nothing.
    pub fn join_room_as(
        &mut self,
        code: &str,
        player_name: &str,
        now: u64,
        player_id: u32,
    ) -> (made: Result<RoomJoined, GameError>)
        requires
            old(self).wf(),
        ensures
            final(self).wf(),
            match made {
                Ok(told) => old(self)@.joined(code@, player_name@, now, player_id) == Ok::<
                    EngineModel,
                    GameError,
                >(final(self)@) && told.player_id == player_id && told.room_id
                    == old(self)@.rooms[old(self)@.code_index(trimmed(code@))].id,
                Err(e) => old(self)@.joined(code@, player_name@, now, player_id) == Err::<
                    EngineModel,
                    GameError,
                >(e) && final(self)@ == old(self)@,
            },
    {
        let ghost before = self@;
        let name = match checked_name(player_name) {
            Err(e) => {
                return Err(e);
            },
            Ok(name) => name,
        };
        let typed = match checked_code(code) {
            Err(e) => {
                return Err(e);
            },
            Ok(typed) => typed,
        };
        let position = match self.find_code(typed.as_str()) {
            None => {
                return Err(GameError::NotFound);
            },
            Some(i) => i,
        };
        if player_id == 0 {
            return Err(GameError::ValidationError);
        }
        if self.player_in_use(player_id) {
            return Err(GameError::Conflict);
        }
        assert(!before.rooms[position as int].has_member(player_id));
        let room_id = self.rooms[position].id();
        let room = &mut self.rooms[position];
        let added = room.add_member(player_id, name, now);
        proof {
            let expected = before.joined(code@, player_name@, now, player_id)->Ok_0;
            assert(self@.rooms =~= expected.rooms);
            assert(self@ =~= expected);
            lemma_joined_registry_wf(before, code@, player_name@, now, player_id);
        }
        Ok(RoomJoined { room_id, player_id })
    }

    /// Lets a player into the room with the join code `code`. The player's
    /// identifier comes from the random source and is proposed again while
    /// it collides with a live player; after sixteen proposals the service
    /// gives up. A request that is refused changes nothing.
    pub fn join_room(
        &mut self,
        code: &str,
        player_name: &str,
        now: u64,
        rng: &mut ThreadRng,
    ) -> (made: Result<RoomJoined, GameError>)
        requires
            old(self).wf(),
        ensures
            final(self).wf(),
            match made {
                Ok(told) => old(self)@.joined(code@, player_name@, now, told.player_id) == Ok::<
                    EngineModel,
                    GameError,
                >(final(self)@) && told.room_id == old(self)@.rooms[old(self)@.code_index(
                    trimmed(code@),
                )].id,
                Err(e) => final(self)@ == old(self)@ && e == if !valid_name(trimmed(player_name@))
                    || !plausible_code(trimmed(code@)) {
                    GameError::ValidationError
                } else if !old(self)@.code_in_use(trimmed(code@)) {
                    GameError::NotFound
                } else {
                    GameError::InternalInvariantViolation
                },
            },
    {
        let ghost before = self@;
        match checked_name(player_name) {
            Err(e) => {
                return Err(e);
            },
            Ok(_) => {},
        }
        let typed = match checked_code(code) {
            Err(e) => {
                return Err(e);
            },
            Ok(typed) => typed,
        };
        if self.find_code(typed.as_str()).is_none() {
            return Err(GameError::NotFound);
        }
        let mut tries: usize = 0;
        while tries < PROPOSALS
            invariant
                self.wf(),
                self@ == before,
                before == old(self)@,
            decreases PROPOSALS - tries,
        {
            let player_id = random_id(rng);
            match self.join_room_as(code, player_name, now, player_id) {
                Ok(told) => {
                    return Ok(told);
                },
                Err(_) => {},
            }
            tries = tries + 1;
        }
        Err(GameError::InternalInvariantViolation)
    }

    /// Finds the room that a request from `player` to `room_id` is about.
    fn locate(&self, room_id: u32, player: u32) -> (found: Result<usize, GameError>)
        requires
            self.wf(),
        ensures
            match found {
                Ok(i) => self@.located(room_id, player) == Ok::<int, GameError>(i as int) && i
                    < self.rooms@.len(),
                Err(e) => self@.located(room_id, player) == Err::<int, GameError>(e),
            },
    {
        if room_id == 0 || player == 0 {
            return Err(GameError::ValidationError);
        }
        match self.find_room(room_id) {
            None => Err(GameError::NotFound),
            Some(i) => Ok(i),
        }
    }

    /// Takes a start-or-advance signal from `player_id` for `room_id`. A
    /// signal that is refused changes nothing.
    pub fn start_or_advance(&mut self, room_id: u32, player_id: u32) -> (done: Result<
        (),
        GameError,
    >)
        requires
            old(self).wf(),
        ensures
            final(self).wf(),
            match done {
                Ok(()) => old(self)@.advanced(room_id, player_id) == Ok::<EngineModel, GameError>(
                    final(self)@,
                ),
                Err(e) => old(self)@.advanced(room_id, player_id) == Err::<
                    EngineModel,
                    GameError,
                >(e) && final(self)@ == old(self)@,
            },
    {
        let ghost before = self@;
        let position = match self.locate(room_id, player_id) {
            Err(e) => {
                return Err(e);
            },
            Ok(i) => i,
        };
        let room = &mut self.rooms[position];
        let done = room.start_or_advance(player_id);
        proof {
            let r = self.rooms@[position as int];
            r.lemma_wf();
            assert(before.room_fits(before.rooms[position as int]));
            lemma_steps_keep_seats(before.rooms[position as int], player_id, 0, 0);
            assert(self@.rooms =~= before.rooms.update(position as int, r@));
            if done is Ok {
                lemma_with_room_wf(before, position as int, r@);
            } else {
                assert(self@.rooms =~= before.rooms);
            }
        }
        done
    }

    /// Takes the pick of `option_id` by `player_id` in `room_id`. A pick
    /// that is refused changes nothing.
    pub fn submit_pick(&mut self, room_id: u32, player_id: u32, option_id: u16) -> (done: Result<
        (),
        GameError,
    >)
        requires
            old(self).wf(),
        ensures
            final(self).wf(),
            match done {
                Ok(()) => old(self)@.picked(room_id, player_id, option_id) == Ok::<
                    EngineModel,
                    GameError,
                >(final(self)@),
                Err(e) => old(self)@.picked(room_id, player_id, option_id) == Err::<
                    EngineModel,
                    GameError,
                >(e) && final(self)@ == old(self)@,
            },
    {
        let ghost before = self@;
        let position = match self.locate(room_id, player_id) {
            Err(e) => {
                return Err(e);
            },
            Ok(i) => i,
        };
        let room = &mut self.rooms[position];
        let done = room.submit_pick(player_id, option_id);
        proof {
            let r = self.rooms@[position as int];
            r.lemma_wf();
            assert(before.room_fits(before.rooms[position as int]));
            lemma_steps_keep_seats(before.rooms[position as int], player_id, option_id, 0);
            assert(self@.rooms =~= before.rooms.update(position as int, r@));
            if done is Ok {
                lemma_with_room_wf(before, position as int, r@);
            } else {
                assert(self@.rooms =~= before.rooms);
            }
        }
        done
    }

    /// Records a poll by `player_id` of `room_id` at time `now` and reports
    /// what the room looks like. A poll that is refused changes nothing.
    pub fn poll_room(&mut self, room_id: u32, player_id: u32, now: u64) -> (shown: Result<
        Snapshot,
        GameError,
    >)
        requires
            old(self).wf(),
        ensures
            final(self).wf(),
            match shown {
                Ok(snapshot) => old(self)@.polled(room_id, player_id, now) == Ok::<
                    (EngineModel, SnapshotModel),
                    GameError,
                >((final(self)@, snapshot@)),
                Err(e) => old(self)@.polled(room_id, player_id, now) == Err::<
                    (EngineModel, SnapshotModel),
                    GameError,
                >(e) && final(self)@ == old(self)@,
            },
    {
        let ghost before = self@;
        let position = match self.locate(room_id, player_id) {
            Err(e) => {
                return Err(e);
            },
            Ok(i) => i,
        };
        let room = &mut self.rooms[position];
        let done = room.poll(player_id, now);
        proof {
            let r = self.rooms@[position as int];
            r.lemma_wf();
            assert(before.room_fits(before.rooms[position as int]));
            lemma_steps_keep_seats(before.rooms[position as int], player_id, 0, now);
            assert(self@.rooms =~= before.rooms.update(position as int, r@));
            if done is Ok {
                lemma_with_room_wf(before, position as int, r@);
            } else {
                assert(self@.rooms =~= before.rooms);
            }
        }
        match done {
            Err(e) => Err(e),
            Ok(()) => {
                assert(self@.room_fits(self@.rooms[position as int]));
                self.rooms[position].snapshot(now, &self.prompts, &self.finishers)
            },
        }
    }

    /// The room with the identifier `room_id`, if it is live.
    pub fn room(&self, room_id: u32) -> (found: Option<&Room>)
        requires
            self.wf(),
        ensures
            found is Some <==> self@.has_room(room_id),
            found matches Some(room) ==> room.wf() && room@ == self@.rooms[self@.room_index(
                room_id,
            )],
    {
        match self.find_room(room_id) {
            None => None,
            Some(i) => Some(&self.rooms[i]),
        }
    }

    /// The record of `player_id` in `room_id`. An unknown room and a player
    /// who is not a member of it are both not found.
    pub fn resolve_member(&self, room_id: u32, player_id: u32) -> (found: Result<
        &Member,
        GameError,
    >)
        requires
            self.wf(),
        ensures
            found is Ok <==> self@.has_room(room_id) && self@.rooms[self@.room_index(
                room_id,
            )].has_member(player_id),
            found matches Ok(member) ==> member@ == self@.rooms[self@.room_index(
                room_id,
            )].members[self@.rooms[self@.room_index(room_id)].index_of(player_id)],
            found matches Err(e) ==> e == GameError::NotFound,
    {
        match self.find_room(room_id) {
            None => Err(GameError::NotFound),
            Some(i) => match self.rooms[i].member(player_id) {
                None => Err(GameError::NotFound),
                Some(member) => Ok(member),
            },
        }
    }

    /// The number of live rooms.
    pub fn room_count(&self) -> (count: usize)
        ensures
            count == self@.rooms.len(),
    {
        self.rooms.len()
    }

    /// Offers `player_id` their options in `room_id`, each card with its
    /// text, dealing from the room's bags first where the prompt draft or
    /// the hand is short. A request that is refused changes nothing.
    pub fn get_options(&mut self, room_id: u32, player_id: u32, rng: &mut ThreadRng) -> (offer:
        Result<Vec<GameOption>, GameError>)
        requires
            old(self).wf(),
        ensures
            final(self).wf(),
            match offer {
                Ok(options) => old(self)@.options_served(
                    room_id,
                    player_id,
                    final(self)@,
                    option_ids(options@),
                    option_texts(options@),
                ),
                Err(e) => old(self)@.options_refused(room_id, player_id) == Some(e) && final(self)@
                    == old(self)@,
            },
    {
        let ghost before = self@;
        let position = match self.locate(room_id, player_id) {
            Err(e) => {
                return Err(e);
            },
            Ok(i) => i,
        };
        let room = &mut self.rooms[position];
        let offer = room.get_options(player_id, rng);
        proof {
            let r = self.rooms@[position as int];
            r.lemma_wf();
            assert(before.room_fits(before.rooms[position as int]));
            lemma_steps_keep_seats(before.rooms[position as int], player_id, 0, 0);
            assert(self@.rooms =~= before.rooms.update(position as int, r@));
            if offer is Ok {
                lemma_with_room_wf(before, position as int, r@);
                lemma_options_in_range(
                    before.rooms[position as int],
                    player_id,
                    r@,
                    offer->Ok_0.ids(),
                );
            } else {
                assert(self@.rooms =~= before.rooms);
            }
        }
        match offer {
            Err(e) => Err(e),
            Ok(OptionList::Prompts(ids)) => {
                let options = with_texts(&ids, &self.prompts);
                assert(self@ =~= before.with_room(position as int, self@.rooms[position as int]));
                Ok(options)
            },
            Ok(OptionList::Finishers(ids)) => {
                let options = with_texts(&ids, &self.finishers);
                assert(self@ =~= before.with_room(position as int, self@.rooms[position as int]));
                Ok(options)
            },
        }
    }
}

} // verus!
