use party_rooms::engine::{Engine, GameOption};
use party_rooms::status::{GameError, RoomStatus};

fn prompts(n: usize) -> Vec<String> {
    (0..n).map(|i| format!("prompt {}", i)).collect()
}

fn finishers(n: usize) -> Vec<String> {
    (0..n).map(|i| format!("finisher {}", i)).collect()
}

/// The refusal that names `phase` as the one the request is for.
fn wants(phase: RoomStatus) -> GameError {
    GameError::PreconditionFailed(phase)
}

fn engine() -> Engine {
    Engine::new(prompts(3), finishers(16)).unwrap()
}

/// An engine with one room: Alice (1001) owns room 500, Bob (1002) and Cara (1003) have joined.
fn engine_of_three() -> Engine {
    let mut e = engine();
    let told = e.open_room("Alice", 0, 500, 1001, "ROOM01").unwrap();
    assert_eq!((told.room_id, told.player_id), (500, 1001));
    assert_eq!(told.room_code, "ROOM01");
    let bob = e.join_room_as("ROOM01", "Bob", 0, 1002).unwrap();
    assert_eq!((bob.room_id, bob.player_id), (500, 1002));
    let cara = e.join_room_as(" ROOM01 ", " Cara ", 0, 1003).unwrap();
    assert_eq!((cara.room_id, cara.player_id), (500, 1003));
    e
}

fn option_ids(options: &[GameOption]) -> Vec<u16> {
    options.iter().map(|o| o.option_id).collect()
}

fn distinct(ids: &[u16]) -> bool {
    let mut seen = ids.to_vec();
    seen.sort();
    seen.dedup();
    seen.len() == ids.len()
}

#[test]
fn the_service_needs_cards_in_both_corpora() {
    assert_eq!(Engine::new(prompts(0), finishers(8)).err(), Some(GameError::ValidationError));
    assert_eq!(Engine::new(prompts(3), finishers(0)).err(), Some(GameError::ValidationError));
    assert_eq!(Engine::new(prompts(65537), finishers(8)).err(), Some(GameError::ValidationError));
    assert_eq!(Engine::new(prompts(3), finishers(65537)).err(), Some(GameError::ValidationError));
    assert!(Engine::new(prompts(1), finishers(1)).is_ok());
    assert!(Engine::new(prompts(65536), finishers(1)).is_ok());
    assert_eq!(engine().room_count(), 0);
}

#[test]
fn a_full_round_goes_as_the_rules_say() {
    let mut rng = rand::thread_rng();
    let mut e = Engine::new(prompts(3), finishers(16)).unwrap();
    let created = e.create_room("Alice", 0, &mut rng).unwrap();
    let room_id = created.room_id;
    let alice = created.player_id;
    let bob = e.join_room(&created.room_code, "Bob", 0, &mut rng).unwrap().player_id;
    let cara = e.join_room(&created.room_code, "Cara", 0, &mut rng).unwrap().player_id;
    assert_eq!(e.room(room_id).unwrap().member_count(), 3);

    assert_eq!(e.start_or_advance(room_id, alice), Ok(()));
    assert_eq!(e.room(room_id).unwrap().status(), RoomStatus::LeaderOptions);

    let offered = e.get_options(room_id, alice, &mut rng).unwrap();
    assert_eq!(offered.len(), 3);
    assert!(distinct(&option_ids(&offered)));
    let prompt_x = offered[1].option_id;

    assert_eq!(e.submit_pick(room_id, alice, prompt_x), Ok(()));
    assert_eq!(e.room(room_id).unwrap().status(), RoomStatus::LackeyOptions);
    assert_eq!(e.room(room_id).unwrap().selected_prompt_id(), Some(prompt_x));

    let bob_hand = e.get_options(room_id, bob, &mut rng).unwrap();
    assert_eq!(bob_hand.len(), 8);
    assert!(distinct(&option_ids(&bob_hand)));
    let cara_hand = e.get_options(room_id, cara, &mut rng).unwrap();
    assert_eq!(cara_hand.len(), 8);
    assert!(distinct(&option_ids(&cara_hand)));

    let f1 = bob_hand[0].option_id;
    let f2 = cara_hand[0].option_id;
    assert_eq!(e.submit_pick(room_id, bob, f1), Ok(()));
    assert_eq!(e.room(room_id).unwrap().status(), RoomStatus::LackeyOptions);
    assert_eq!(e.submit_pick(room_id, cara, f2), Ok(()));
    assert_eq!(e.room(room_id).unwrap().status(), RoomStatus::LeaderPick);

    assert_eq!(e.submit_pick(room_id, alice, f2), Ok(()));
    let room = e.room(room_id).unwrap();
    assert_eq!(room.score_of(cara), Some(1));
    assert_eq!(room.score_of(bob), Some(0));
    assert_eq!(room.status(), RoomStatus::RoundWinner);
    assert_eq!(room.winner_player_id(), Some(cara));

    assert_eq!(e.start_or_advance(room_id, alice), Ok(()));
    assert_eq!(e.start_or_advance(room_id, bob), Ok(()));
    assert_eq!(e.start_or_advance(room_id, cara), Ok(()));
    let room = e.room(room_id).unwrap();
    assert_eq!(room.round_counter(), 2);
    assert_eq!(room.leader_id(), bob);
    assert_eq!(room.status(), RoomStatus::LeaderOptions);
}

#[test]
fn created_rooms_get_fresh_ids_and_upper_case_codes() {
    let mut rng = rand::thread_rng();
    let mut e = engine();
    let mut rooms = Vec::new();
    let mut players = Vec::new();
    let mut codes = Vec::new();
    for _ in 0..200 {
        let told = e.create_room("  Owner ", 0, &mut rng).unwrap();
        assert!(told.room_id != 0);
        assert!(told.player_id != 0);
        assert_eq!(told.room_code.len(), 6);
        assert!(told.room_code.chars().all(|c| c.is_ascii_uppercase() || c.is_ascii_digit()));
        assert!(!rooms.contains(&told.room_id));
        assert!(!players.contains(&told.player_id));
        assert!(!codes.contains(&told.room_code));
        let room = e.room(told.room_id).unwrap();
        assert_eq!(room.code(), told.room_code);
        assert_eq!(room.owner_id(), told.player_id);
        assert_eq!(room.round_total(), 10);
        rooms.push(told.room_id);
        players.push(told.player_id);
        codes.push(told.room_code);
    }
    assert_eq!(e.room_count(), 200);
}

#[test]
fn joined_players_get_fresh_ids() {
    let mut rng = rand::thread_rng();
    let mut e = engine();
    let told = e.create_room("Alice", 0, &mut rng).unwrap();
    let mut players = vec![told.player_id];
    for _ in 0..100 {
        let joined = e.join_room(&told.room_code, "Guest", 0, &mut rng).unwrap();
        assert_eq!(joined.room_id, told.room_id);
        assert!(joined.player_id != 0);
        assert!(!players.contains(&joined.player_id));
        players.push(joined.player_id);
    }
    assert_eq!(e.room(told.room_id).unwrap().member_count(), 101);
}

#[test]
fn creating_a_room_validates_the_owner_name() {
    let mut rng = rand::thread_rng();
    let mut e = engine();
    assert_eq!(e.create_room("", 0, &mut rng).err(), Some(GameError::ValidationError));
    assert_eq!(e.create_room("   ", 0, &mut rng).err(), Some(GameError::ValidationError));
    assert_eq!(
        e.create_room("seventeen letters", 0, &mut rng).err(),
        Some(GameError::ValidationError)
    );
    assert_eq!(e.open_room("", 0, 1, 2, "ABCDEF").err(), Some(GameError::ValidationError));
    assert_eq!(e.room_count(), 0);
}

#[test]
fn proposed_identifiers_must_be_usable_and_free() {
    let mut e = engine_of_three();
    assert_eq!(e.open_room("Dan", 0, 0, 2001, "ROOM02").err(), Some(GameError::ValidationError));
    assert_eq!(e.open_room("Dan", 0, 501, 0, "ROOM02").err(), Some(GameError::ValidationError));
    assert_eq!(e.open_room("Dan", 0, 501, 2001, "room02").err(), Some(GameError::ValidationError));
    assert_eq!(e.open_room("Dan", 0, 501, 2001, "ROOM2").err(), Some(GameError::ValidationError));
    assert_eq!(e.open_room("Dan", 0, 500, 2001, "ROOM02").err(), Some(GameError::Conflict));
    assert_eq!(e.open_room("Dan", 0, 501, 1002, "ROOM02").err(), Some(GameError::Conflict));
    assert_eq!(e.open_room("Dan", 0, 501, 2001, "ROOM01").err(), Some(GameError::Conflict));
    assert_eq!(e.room_count(), 1);
    assert!(e.open_room("Dan", 0, 501, 2001, "ROOM02").is_ok());
    assert_eq!(e.room_count(), 2);
    assert_eq!(e.join_room_as("ROOM02", "Eve", 0, 1003).err(), Some(GameError::Conflict));
    assert_eq!(e.join_room_as("ROOM02", "Eve", 0, 2001).err(), Some(GameError::Conflict));
    assert_eq!(e.join_room_as("ROOM02", "Eve", 0, 0).err(), Some(GameError::ValidationError));
    assert_eq!(e.room(501).unwrap().member_count(), 1);
}

#[test]
fn joining_validates_and_then_looks_the_code_up() {
    let mut rng = rand::thread_rng();
    let mut e = engine_of_three();
    assert_eq!(e.join_room("ROOM01", "", 0, &mut rng).err(), Some(GameError::ValidationError));
    assert_eq!(e.join_room("", "Dan", 0, &mut rng).err(), Some(GameError::ValidationError));
    assert_eq!(e.join_room("ROOM011", "Dan", 0, &mut rng).err(), Some(GameError::ValidationError));
    assert_eq!(e.join_room("NOROOM", "", 0, &mut rng).err(), Some(GameError::ValidationError));
    assert_eq!(e.join_room("NOROOM", "Dan", 0, &mut rng).err(), Some(GameError::NotFound));
    assert_eq!(e.join_room("room01", "Dan", 0, &mut rng).err(), Some(GameError::NotFound));
    assert_eq!(e.join_room_as("NOROOM", "Dan", 0, 0).err(), Some(GameError::NotFound));
    assert_eq!(e.room(500).unwrap().member_count(), 3);
    assert!(e.join_room("  ROOM01\n", "Dan", 0, &mut rng).is_ok());
    assert_eq!(e.room(500).unwrap().member_count(), 4);
}

#[test]
fn requests_with_a_zero_identifier_are_malformed() {
    let mut rng = rand::thread_rng();
    let mut e = engine_of_three();
    assert_eq!(e.start_or_advance(0, 1001), Err(GameError::ValidationError));
    assert_eq!(e.start_or_advance(500, 0), Err(GameError::ValidationError));
    assert_eq!(e.submit_pick(0, 1001, 0), Err(GameError::ValidationError));
    assert_eq!(e.submit_pick(500, 0, 0), Err(GameError::ValidationError));
    assert_eq!(e.get_options(0, 1001, &mut rng).err(), Some(GameError::ValidationError));
    assert_eq!(e.get_options(500, 0, &mut rng).err(), Some(GameError::ValidationError));
    assert_eq!(e.poll_room(0, 1001, 0).err(), Some(GameError::ValidationError));
    assert_eq!(e.poll_room(500, 0, 0).err(), Some(GameError::ValidationError));
    assert_eq!(e.poll_room(0, 0, 0).err(), Some(GameError::ValidationError));
}

#[test]
fn unknown_rooms_and_strangers_are_not_found() {
    let mut rng = rand::thread_rng();
    let mut e = engine_of_three();
    e.open_room("Dan", 0, 501, 2001, "ROOM02").unwrap();
    assert_eq!(e.start_or_advance(999, 1001), Err(GameError::NotFound));
    assert_eq!(e.start_or_advance(500, 2001), Err(GameError::NotFound));
    assert_eq!(e.submit_pick(999, 1001, 0), Err(GameError::NotFound));
    assert_eq!(e.submit_pick(501, 1001, 0), Err(GameError::NotFound));
    assert_eq!(e.get_options(999, 1001, &mut rng).err(), Some(GameError::NotFound));
    assert_eq!(e.get_options(500, 2001, &mut rng).err(), Some(GameError::NotFound));
    assert_eq!(e.poll_room(999, 1001, 0).err(), Some(GameError::NotFound));
    assert_eq!(e.poll_room(501, 1001, 0).err(), Some(GameError::NotFound));
    assert!(e.room(999).is_none());
    assert!(e.room(0).is_none());
}

#[test]
fn actions_in_the_wrong_phase_change_nothing() {
    let mut rng = rand::thread_rng();
    let mut e = engine_of_three();
    assert_eq!(e.start_or_advance(500, 1002), Err(wants(RoomStatus::Waiting)));
    assert_eq!(e.get_options(500, 1001, &mut rng).err(), Some(wants(RoomStatus::LeaderOptions)));
    assert_eq!(e.submit_pick(500, 1001, 0), Err(wants(RoomStatus::LeaderOptions)));
    let room = e.room(500).unwrap();
    assert_eq!(room.status(), RoomStatus::Waiting);
    assert_eq!(room.round_counter(), 1);
    assert_eq!(room.leader_id(), 1001);
    e.start_or_advance(500, 1001).unwrap();
    assert_eq!(e.start_or_advance(500, 1001), Err(wants(RoomStatus::RoundWinner)));
    assert_eq!(e.get_options(500, 1002, &mut rng).err(), Some(wants(RoomStatus::LackeyOptions)));
    assert_eq!(e.submit_pick(500, 1002, 0), Err(wants(RoomStatus::LackeyOptions)));
    assert_eq!(e.room(500).unwrap().status(), RoomStatus::LeaderOptions);
}

#[test]
fn options_come_with_their_texts() {
    let mut rng = rand::thread_rng();
    let mut e = engine_of_three();
    e.start_or_advance(500, 1001).unwrap();
    let offered = e.get_options(500, 1001, &mut rng).unwrap();
    let mut ids = option_ids(&offered);
    for o in &offered {
        assert_eq!(o.option_text, format!("prompt {}", o.option_id));
    }
    ids.sort();
    assert_eq!(ids, vec![0, 1, 2]);
    e.submit_pick(500, 1001, offered[0].option_id).unwrap();
    let hand = e.get_options(500, 1002, &mut rng).unwrap();
    assert_eq!(hand.len(), 8);
    for o in &hand {
        assert!(o.option_id < 16);
        assert_eq!(o.option_text, format!("finisher {}", o.option_id));
    }
    e.submit_pick(500, 1002, hand[0].option_id).unwrap();
    let cara = e.get_options(500, 1003, &mut rng).unwrap();
    e.submit_pick(500, 1003, cara[7].option_id).unwrap();
    let shown = e.get_options(500, 1001, &mut rng).unwrap();
    assert_eq!(option_ids(&shown), vec![hand[0].option_id, cara[7].option_id]);
    for o in &shown {
        assert_eq!(o.option_text, format!("finisher {}", o.option_id));
    }
}

#[test]
fn a_second_submission_is_a_conflict_and_leaves_the_count() {
    let mut rng = rand::thread_rng();
    let mut e = engine_of_three();
    e.start_or_advance(500, 1001).unwrap();
    let offered = e.get_options(500, 1001, &mut rng).unwrap();
    e.submit_pick(500, 1001, offered[0].option_id).unwrap();
    let hand = e.get_options(500, 1002, &mut rng).unwrap();
    e.submit_pick(500, 1002, hand[0].option_id).unwrap();
    let ready = |e: &mut Engine| -> usize {
        let shown = e.poll_room(500, 1001, 0).unwrap();
        shown.players.iter().filter(|p| p.is_finisher_ready == Some(true)).count()
    };
    assert_eq!(ready(&mut e), 1);
    assert_eq!(e.submit_pick(500, 1002, hand[1].option_id), Err(GameError::Conflict));
    assert_eq!(e.submit_pick(500, 1002, hand[0].option_id), Err(GameError::Conflict));
    assert_eq!(ready(&mut e), 1);
    assert_eq!(e.room(500).unwrap().status(), RoomStatus::LackeyOptions);
}

#[test]
fn a_whole_match_ends_after_ten_rounds_and_restarts_at_round_one() {
    let mut rng = rand::thread_rng();
    let mut e = engine_of_three();
    let players = [1001u32, 1002, 1003];
    e.start_or_advance(500, 1001).unwrap();
    let mut wins = [0u8; 3];
    for round in 1..=10u8 {
        let room = e.room(500).unwrap();
        assert_eq!(room.round_counter(), round);
        assert_eq!(room.status(), RoomStatus::LeaderOptions);
        let leader = room.leader_id();
        assert_eq!(leader, players[((round - 1) % 3) as usize]);
        let offered = e.get_options(500, leader, &mut rng).unwrap();
        e.submit_pick(500, leader, offered[0].option_id).unwrap();
        let mut cards = Vec::new();
        for &p in players.iter().filter(|&&p| p != leader) {
            let hand = e.get_options(500, p, &mut rng).unwrap();
            let card = hand.iter().map(|o| o.option_id).find(|c| !cards.contains(c)).unwrap();
            e.submit_pick(500, p, card).unwrap();
            cards.push(card);
        }
        e.submit_pick(500, leader, cards[1]).unwrap();
        let winner = e.room(500).unwrap().winner_player_id().unwrap();
        wins[players.iter().position(|&p| p == winner).unwrap()] += 1;
        for (i, &p) in players.iter().enumerate() {
            assert_eq!(e.room(500).unwrap().score_of(p), Some(wins[i]));
        }
        for &p in &players {
            e.start_or_advance(500, p).unwrap();
        }
    }
    let room = e.room(500).unwrap();
    assert_eq!(room.status(), RoomStatus::GameWinner);
    assert_eq!(room.round_counter(), 10);
    assert_eq!(wins.iter().sum::<u8>(), 10);
    assert_eq!(e.start_or_advance(500, 1002), Err(wants(RoomStatus::GameWinner)));
    assert_eq!(e.start_or_advance(500, 1001), Ok(()));
    let room = e.room(500).unwrap();
    assert_eq!(room.status(), RoomStatus::LeaderOptions);
    assert_eq!(room.round_counter(), 1);
    for &p in &players {
        assert_eq!(room.score_of(p), Some(0));
    }
}

#[test]
fn rooms_do_not_touch_one_another() {
    let mut rng = rand::thread_rng();
    let mut e = engine_of_three();
    e.open_room("Dan", 0, 501, 2001, "ROOM02").unwrap();
    e.join_room_as("ROOM02", "Eve", 0, 2002).unwrap();
    e.join_room_as("ROOM02", "Fay", 0, 2003).unwrap();
    e.start_or_advance(501, 2001).unwrap();
    let offered = e.get_options(501, 2001, &mut rng).unwrap();
    e.submit_pick(501, 2001, offered[0].option_id).unwrap();
    assert_eq!(e.room(501).unwrap().status(), RoomStatus::LackeyOptions);
    let first = e.room(500).unwrap();
    assert_eq!(first.status(), RoomStatus::Waiting);
    assert_eq!(first.member_count(), 3);
    assert_eq!(first.selected_prompt_id(), None);
}

#[test]
fn members_resolve_in_their_own_room_only() {
    let mut e = engine_of_three();
    e.open_room("Dan", 0, 501, 2001, "ROOM02").unwrap();
    let bob = e.resolve_member(500, 1002).ok().unwrap();
    assert_eq!(bob.id(), 1002);
    assert_eq!(bob.name(), "Bob");
    assert_eq!(bob.score(), 0);
    assert_eq!(e.resolve_member(501, 2001).ok().unwrap().name(), "Dan");
    assert_eq!(e.resolve_member(501, 1002).err(), Some(GameError::NotFound));
    assert_eq!(e.resolve_member(500, 2001).err(), Some(GameError::NotFound));
    assert_eq!(e.resolve_member(999, 1002).err(), Some(GameError::NotFound));
    assert_eq!(e.resolve_member(0, 0).err(), Some(GameError::NotFound));
}
