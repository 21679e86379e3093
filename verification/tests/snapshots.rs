use party_rooms::engine::Engine;
use party_rooms::status::GameError;

fn engine_of_three() -> Engine {
    let prompts: Vec<String> = (0..3).map(|i| format!("prompt {}", i)).collect();
    let finishers: Vec<String> = (0..16).map(|i| format!("finisher {}", i)).collect();
    let mut e = Engine::new(prompts, finishers).unwrap();
    e.open_room(" Alice ", 100, 500, 1001, "ROOM01").unwrap();
    e.join_room_as("ROOM01", "Bob", 110, 1002).unwrap();
    e.join_room_as("ROOM01", "Cara", 120, 1003).unwrap();
    e
}

#[test]
fn a_waiting_room_shows_its_players_and_no_cards() {
    let mut e = engine_of_three();
    let shown = e.poll_room(500, 1002, 130).unwrap();
    assert_eq!(shown.room_status, "WAITING");
    assert_eq!(shown.owner_id, 1001);
    assert_eq!(shown.leader_id, 1001);
    assert_eq!(shown.round_counter, 1);
    assert_eq!(shown.round_total, 10);
    assert_eq!(shown.prompt_text, None);
    assert!(shown.finishers.is_none());
    assert_eq!(shown.players.len(), 3);
    let names: Vec<&str> = shown.players.iter().map(|p| p.player_name.as_str()).collect();
    assert_eq!(names, vec!["Alice", "Bob", "Cara"]);
    let ids: Vec<u32> = shown.players.iter().map(|p| p.player_id).collect();
    assert_eq!(ids, vec![1001, 1002, 1003]);
    assert!(shown.players.iter().all(|p| p.score == 0));
    assert!(shown.players.iter().all(|p| p.is_next_round_ready.is_none()));
    assert_eq!(shown.players[0].is_finisher_ready, None);
    assert_eq!(shown.players[1].is_finisher_ready, Some(false));
    assert_eq!(shown.players[2].is_finisher_ready, Some(false));
}

#[test]
fn a_poll_resets_the_age_of_the_polling_player_only() {
    let mut e = engine_of_three();
    let shown = e.poll_room(500, 1002, 130).unwrap();
    assert_eq!(shown.players[0].last_check, 30);
    assert_eq!(shown.players[1].last_check, 0);
    assert_eq!(shown.players[2].last_check, 10);
    let later = e.poll_room(500, 1003, 200).unwrap();
    assert_eq!(later.players[0].last_check, 100);
    assert_eq!(later.players[1].last_check, 70);
    assert_eq!(later.players[2].last_check, 0);
}

#[test]
fn a_clock_that_went_back_shows_no_age() {
    let mut e = engine_of_three();
    let shown = e.poll_room(500, 1001, 105).unwrap();
    assert_eq!(shown.players[0].last_check, 0);
    assert_eq!(shown.players[1].last_check, 0);
    assert_eq!(shown.players[2].last_check, 0);
}

#[test]
fn a_refused_poll_records_nothing() {
    let mut e = engine_of_three();
    assert_eq!(e.poll_room(500, 4004, 500).err(), Some(GameError::NotFound));
    assert_eq!(e.poll_room(999, 1001, 500).err(), Some(GameError::NotFound));
    assert_eq!(e.poll_room(500, 0, 500).err(), Some(GameError::ValidationError));
    let shown = e.poll_room(500, 1001, 130).unwrap();
    assert_eq!(shown.players[1].last_check, 20);
    assert_eq!(shown.players[2].last_check, 10);
}

#[test]
fn the_snapshot_follows_a_round() {
    let mut rng = rand::thread_rng();
    let mut e = engine_of_three();
    e.start_or_advance(500, 1001).unwrap();
    let shown = e.poll_room(500, 1001, 130).unwrap();
    assert_eq!(shown.room_status, "LEADER_OPTIONS");
    assert_eq!(shown.prompt_text, None);
    assert!(shown.finishers.is_none());

    let offered = e.get_options(500, 1001, &mut rng).unwrap();
    e.submit_pick(500, 1001, offered[2].option_id).unwrap();
    let shown = e.poll_room(500, 1001, 130).unwrap();
    assert_eq!(shown.room_status, "LACKEY_OPTIONS");
    assert_eq!(shown.prompt_text, Some(offered[2].option_text.clone()));
    assert!(shown.finishers.is_none());
    assert_eq!(shown.players[1].is_finisher_ready, Some(false));

    let bob = e.get_options(500, 1002, &mut rng).unwrap();
    e.submit_pick(500, 1002, bob[0].option_id).unwrap();
    let shown = e.poll_room(500, 1001, 130).unwrap();
    assert_eq!(shown.room_status, "LACKEY_OPTIONS");
    assert_eq!(shown.players[0].is_finisher_ready, None);
    assert_eq!(shown.players[1].is_finisher_ready, Some(true));
    assert_eq!(shown.players[2].is_finisher_ready, Some(false));

    let cara = e.get_options(500, 1003, &mut rng).unwrap();
    let cara_card = cara.iter().find(|o| o.option_id != bob[0].option_id).unwrap();
    e.submit_pick(500, 1003, cara_card.option_id).unwrap();
    let shown = e.poll_room(500, 1001, 130).unwrap();
    assert_eq!(shown.room_status, "LEADER_PICK");
    assert_eq!(shown.prompt_text, Some(offered[2].option_text.clone()));
    assert!(shown.finishers.is_none());
    assert!(shown.players.iter().all(|p| p.is_next_round_ready.is_none()));

    e.submit_pick(500, 1001, cara_card.option_id).unwrap();
    let shown = e.poll_room(500, 1001, 130).unwrap();
    assert_eq!(shown.room_status, "ROUND_WINNER");
    assert_eq!(shown.prompt_text, Some(offered[2].option_text.clone()));
    let lines = shown.finishers.unwrap();
    assert_eq!(lines.len(), 2);
    assert_eq!(lines[0].player_name, "Bob");
    assert_eq!(lines[0].finisher_text, bob[0].option_text);
    assert!(!lines[0].is_winner);
    assert_eq!(lines[1].player_name, "Cara");
    assert_eq!(lines[1].finisher_text, cara_card.option_text);
    assert!(lines[1].is_winner);
    assert_eq!(shown.players[2].score, 1);
    assert_eq!(shown.players[1].score, 0);
    assert!(shown.players.iter().all(|p| p.is_next_round_ready == Some(false)));

    e.start_or_advance(500, 1002).unwrap();
    let shown = e.poll_room(500, 1001, 130).unwrap();
    assert_eq!(shown.players[0].is_next_round_ready, Some(false));
    assert_eq!(shown.players[1].is_next_round_ready, Some(true));
    assert_eq!(shown.players[2].is_next_round_ready, Some(false));

    e.start_or_advance(500, 1001).unwrap();
    e.start_or_advance(500, 1003).unwrap();
    let shown = e.poll_room(500, 1001, 130).unwrap();
    assert_eq!(shown.room_status, "LEADER_OPTIONS");
    assert_eq!(shown.round_counter, 2);
    assert_eq!(shown.leader_id, 1002);
    assert_eq!(shown.prompt_text, None);
    assert!(shown.finishers.is_none());
    assert_eq!(shown.players[0].is_finisher_ready, Some(false));
    assert_eq!(shown.players[1].is_finisher_ready, None);
    assert_eq!(shown.players[2].is_finisher_ready, Some(false));
    assert!(shown.players.iter().all(|p| p.is_next_round_ready.is_none()));
    assert_eq!(shown.players[2].score, 1);
}
