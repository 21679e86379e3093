use party_rooms::action::{get_game_action, GameAction, HttpMethod};
use party_rooms::status::{GameError, RoomStatus};
use party_rooms::text::{checked_code, checked_name, is_well_formed_code, same_text, trim};

#[test]
fn status_tags_are_the_client_facing_names() {
    assert_eq!(RoomStatus::Waiting.to_tag(), "WAITING");
    assert_eq!(RoomStatus::LeaderOptions.to_tag(), "LEADER_OPTIONS");
    assert_eq!(RoomStatus::LackeyOptions.to_tag(), "LACKEY_OPTIONS");
    assert_eq!(RoomStatus::LeaderPick.to_tag(), "LEADER_PICK");
    assert_eq!(RoomStatus::RoundWinner.to_tag(), "ROUND_WINNER");
    assert_eq!(RoomStatus::GameWinner.to_tag(), "GAME_WINNER");
}

#[test]
fn post_requests_are_routed_by_exact_path() {
    assert_eq!(get_game_action(HttpMethod::Post, "/room-create"), Some(GameAction::RoomCreate));
    assert_eq!(get_game_action(HttpMethod::Post, "/room-join"), Some(GameAction::RoomJoin));
    assert_eq!(get_game_action(HttpMethod::Post, "/room-check"), Some(GameAction::RoomCheck));
    assert_eq!(get_game_action(HttpMethod::Post, "/game-start"), Some(GameAction::GameStart));
    assert_eq!(get_game_action(HttpMethod::Post, "/game-options"), Some(GameAction::GameOptions));
    assert_eq!(get_game_action(HttpMethod::Post, "/game-pick"), Some(GameAction::GamePick));
}

#[test]
fn unknown_post_paths_are_not_served() {
    assert_eq!(get_game_action(HttpMethod::Post, "/"), None);
    assert_eq!(get_game_action(HttpMethod::Post, ""), None);
    assert_eq!(get_game_action(HttpMethod::Post, "/room-create/"), None);
    assert_eq!(get_game_action(HttpMethod::Post, "/ROOM-CREATE"), None);
    assert_eq!(get_game_action(HttpMethod::Post, "room-join"), None);
}

#[test]
fn every_options_request_is_a_preflight() {
    assert_eq!(get_game_action(HttpMethod::Options, "/room-create"), Some(GameAction::CorsOption));
    assert_eq!(get_game_action(HttpMethod::Options, "/anything"), Some(GameAction::CorsOption));
    assert_eq!(get_game_action(HttpMethod::Options, ""), Some(GameAction::CorsOption));
}

#[test]
fn other_methods_are_not_served() {
    let others = [
        HttpMethod::Get,
        HttpMethod::Head,
        HttpMethod::Put,
        HttpMethod::Delete,
        HttpMethod::Connect,
        HttpMethod::Trace,
        HttpMethod::Patch,
        HttpMethod::NonStandard,
    ];
    for method in others {
        assert_eq!(get_game_action(method, "/room-create"), None);
        assert_eq!(get_game_action(method, "/game-pick"), None);
    }
}

#[test]
fn same_text_compares_whole_strings() {
    assert!(same_text("abc", "abc"));
    assert!(same_text("", ""));
    assert!(!same_text("abc", "abd"));
    assert!(!same_text("abc", "ab"));
    assert!(!same_text("abc", "ABC"));
}

#[test]
fn trim_removes_whitespace_at_both_ends_only() {
    assert_eq!(trim("  Alice  "), "Alice");
    assert_eq!(trim("Alice"), "Alice");
    assert_eq!(trim("\t\nBob \r\n"), "Bob");
    assert_eq!(trim(" Mary Ann "), "Mary Ann");
    assert_eq!(trim(""), "");
    assert_eq!(trim("   "), "");
    assert_eq!(trim("x"), "x");
    assert_eq!(trim(" x"), "x");
    assert_eq!(trim("x "), "x");
}

#[test]
fn trim_knows_unicode_whitespace() {
    assert_eq!(trim("\u{00A0}Zoë\u{2003}"), "Zoë");
    assert_eq!(trim("\u{3000}\u{2028}"), "");
    assert_eq!(trim("\u{200B}a"), "\u{200B}a");
}

#[test]
fn trim_agrees_with_the_standard_library() {
    let samples =
        ["", " ", "a", " a", "a ", " a b ", "\t\tq\n", "é ", " \u{1680}ogham\u{1680} "];
    for s in samples {
        assert_eq!(trim(s), s.trim());
    }
}

#[test]
fn names_are_trimmed_and_kept() {
    assert_eq!(checked_name("  Alice "), Ok("Alice".to_string()));
    assert_eq!(checked_name("B"), Ok("B".to_string()));
}

#[test]
fn names_of_sixteen_characters_pass_and_seventeen_fail() {
    assert_eq!(checked_name("abcdefghijklmnop"), Ok("abcdefghijklmnop".to_string()));
    assert_eq!(checked_name("  abcdefghijklmnop  "), Ok("abcdefghijklmnop".to_string()));
    assert_eq!(checked_name("abcdefghijklmnopq"), Err(GameError::ValidationError));
}

#[test]
fn empty_and_blank_names_fail() {
    assert_eq!(checked_name(""), Err(GameError::ValidationError));
    assert_eq!(checked_name("   \t "), Err(GameError::ValidationError));
}

#[test]
fn name_length_counts_characters() {
    assert_eq!(checked_name("éééééééééééééééé"), Ok("éééééééééééééééé".to_string()));
    assert_eq!(checked_name("ééééééééééééééééé"), Err(GameError::ValidationError));
}

#[test]
fn typed_codes_are_trimmed_and_bounded() {
    assert_eq!(checked_code(" AB12CD "), Ok("AB12CD".to_string()));
    assert_eq!(checked_code("A"), Ok("A".to_string()));
    assert_eq!(checked_code("ab12cd"), Ok("ab12cd".to_string()));
    assert_eq!(checked_code("AB12CDE"), Err(GameError::ValidationError));
    assert_eq!(checked_code(""), Err(GameError::ValidationError));
    assert_eq!(checked_code("  "), Err(GameError::ValidationError));
}

#[test]
fn room_codes_are_six_capitals_or_digits() {
    assert!(is_well_formed_code("AB12CD"));
    assert!(is_well_formed_code("000000"));
    assert!(is_well_formed_code("ZZZZZZ"));
    assert!(!is_well_formed_code("AB12C"));
    assert!(!is_well_formed_code("AB12CDE"));
    assert!(!is_well_formed_code("ab12cd"));
    assert!(!is_well_formed_code("AB 2CD"));
    assert!(!is_well_formed_code("AB-2CD"));
    assert!(!is_well_formed_code(""));
    assert!(!is_well_formed_code("ÀB12CD"));
}
