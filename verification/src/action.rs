//! Mapping of a request line onto the operation it asks for.

use crate::text::same_text;
use vstd::prelude::*;

verus! {

/// Method of an inbound request, as far as routing distinguishes it.
#[derive(Clone, Copy, Debug, PartialEq, Eq, Structural)]
pub enum HttpMethod {
    Get,
    Head,
    Post,
    Put,
    Delete,
    Connect,
    Options,
    Trace,
    Patch,
    /// Any method that is none of the above.
    NonStandard,
}

/// Operation that a request asks for.
#[derive(Clone, Copy, Debug, PartialEq, Eq, Structural)]
pub enum GameAction {
    /// Answer a cross-origin preflight.
    CorsOption,
    /// Create a room.
    RoomCreate,
    /// Join a room by its code.
    RoomJoin,
    /// Poll a room's state.
    RoomCheck,
    /// Start a match, or acknowledge a round's result.
    GameStart,
    /// List the cards on offer.
    GameOptions,
    /// Pick one of the cards on offer.
    GamePick,
}

/// The operation that a `POST` to `url` asks for, if any.
pub open spec fn post_action(url: Seq<char>) -> Option<GameAction> {
    if url == "/room-create"@ {
        Some(GameAction::RoomCreate)
    } else if url == "/room-join"@ {
        Some(GameAction::RoomJoin)
    } else if url == "/room-check"@ {
        Some(GameAction::RoomCheck)
    } else if url == "/game-start"@ {
        Some(GameAction::GameStart)
    } else if url == "/game-options"@ {
        Some(GameAction::GameOptions)
    } else if url == "/game-pick"@ {
        Some(GameAction::GamePick)
    } else {
        None
    }
}

/// The operation that a request with `method` and `url` asks for: every
/// `OPTIONS` request is a preflight, a `POST` is routed by its exact path,
/// and nothing else is served.
pub open spec fn route(method: HttpMethod, url: Seq<char>) -> Option<GameAction> {
    match method {
        HttpMethod::Post => post_action(url),
        HttpMethod::Options => Some(GameAction::CorsOption),
        _ => None,
    }
}

/// Routes a request line to its operation.
pub fn get_game_action(method: HttpMethod, url: &str) -> (action: Option<GameAction>)
    ensures
        action == route(method, url@),
{
    match method {
        HttpMethod::Post => {
            if same_text(url, "/room-create") {
                Some(GameAction::RoomCreate)
            } else if same_text(url, "/room-join") {
                Some(GameAction::RoomJoin)
            } else if same_text(url, "/room-check") {
                Some(GameAction::RoomCheck)
            } else if same_text(url, "/game-start") {
                Some(GameAction::GameStart)
            } else if same_text(url, "/game-options") {
                Some(GameAction::GameOptions)
            } else if same_text(url, "/game-pick") {
                Some(GameAction::GamePick)
            } else {
                None
            }
        },
        HttpMethod::Options => Some(GameAction::CorsOption),
        _ => None,
    }
}

} // verus!
