use bigchess::errors::ErrorType;
use bigchess::state::StateHandle;

#[test]
fn unknown_handle() {
    let mut state = StateHandle::default();
    let err = state
        .play(&String::from("x"), String::from("e2"), String::from("e4"))
        .unwrap_err();
    assert!(err.is_type(ErrorType::BadHandle));
    assert_eq!(err.id.as_deref(), Some("x"));

    let err = state.navigate_back(&String::from("x"), 1).unwrap_err();
    assert!(err.is_type(ErrorType::BadHandle));

    let err = state.close_game(&String::from("x")).unwrap_err();
    assert!(err.is_type(ErrorType::BadHandle));
}

#[test]
fn stale_handle() {
    let mut state = StateHandle::default();
    let id = String::from("x");
    state.new_game_default(&id).unwrap();
    state.close_game(&id).unwrap();

    let err = state
        .play(&id, String::from("e2"), String::from("e4"))
        .unwrap_err();
    assert!(err.is_type(ErrorType::StaleHandle));
    assert_eq!(err.id.as_deref(), Some("x"));

    let err = state.navigate_back(&id, 1).unwrap_err();
    assert!(err.is_type(ErrorType::StaleHandle));

    // Closing twice is not idempotent: the second close reports staleness.
    let err = state.close_game(&id).unwrap_err();
    assert!(err.is_type(ErrorType::StaleHandle));
}

#[test]
fn single_game_response_shape() {
    let mut state = StateHandle::default();
    let id = String::from("g");
    state.new_game_default(&id).unwrap();

    let resp = state
        .play(&id, String::from("e2"), String::from("e4"))
        .unwrap();
    assert!(resp.error.is_none());
    assert_eq!(resp.changed_games.len(), 1);
    assert_eq!(resp.changed_games[0].id, "g");
    assert_eq!(
        resp.changed_games[0].game.fen.as_str(),
        "rnbqkbnr/pppppppp/8/8/4P3/8/PPPP1PPP/RNBQKBNR b KQkq - 0 1"
    );

    let resp = state.navigate_back(&id, 1).unwrap();
    assert_eq!(resp.changed_games.len(), 1);
    assert_eq!(
        resp.changed_games[0].game.fen.as_str(),
        "rnbqkbnr/pppppppp/8/8/8/8/PPPPPPPP/RNBQKBNR w KQkq - 0 1"
    );
}

#[test]
fn all_games_response_shape() {
    let mut state = StateHandle::default();
    let resp = state.get_all_games().unwrap();
    assert!(resp.error.is_none());
    assert_eq!(resp.changed_games.len(), 0);

    state.new_game_default(&String::from("a")).unwrap();
    let resp = state.new_game_default(&String::from("b")).unwrap();
    assert!(resp.error.is_none());
    assert_eq!(resp.changed_games.len(), 2);

    let resp = state.get_all_games().unwrap();
    assert_eq!(resp.changed_games.len(), 2);

    // A closed game is skipped; its slot stays addressable.
    let resp = state.close_game(&String::from("a")).unwrap();
    assert_eq!(resp.changed_games.len(), 1);
    assert_eq!(resp.changed_games[0].id, "b");
}

#[test]
fn new_game_replaces() {
    let mut state = StateHandle::default();
    let id = String::from("g");
    state.new_game_default(&id).unwrap();
    state
        .play(&id, String::from("e2"), String::from("e4"))
        .unwrap();
    // Replacing the game resets it to the starting position.
    let resp = state.new_game_default(&id).unwrap();
    assert_eq!(resp.changed_games.len(), 1);
    assert_eq!(
        resp.changed_games[0].game.fen.as_str(),
        "rnbqkbnr/pppppppp/8/8/8/8/PPPPPPPP/RNBQKBNR w KQkq - 0 1"
    );
}

#[test]
fn new_game_fen() {
    let mut state = StateHandle::default();
    let id = String::from("g");
    let fen = String::from("r3r1k1/p2q1ppp/np3n2/3p4/P1pP4/2PQP3/1B2NPPP/R4RK1 w - - 0 15");
    let resp = state.new_game_fen(&id, fen.clone()).unwrap();
    assert_eq!(resp.changed_games.len(), 1);
    assert_eq!(resp.changed_games[0].game.fen, fen);

    let err = state
        .new_game_fen(&id, String::from("not a fen"))
        .unwrap_err();
    assert!(err.is_type(ErrorType::Parse));
    // The failed creation left the earlier game in place.
    let resp = state.get_all_games().unwrap();
    assert_eq!(resp.changed_games.len(), 1);
    assert_eq!(resp.changed_games[0].game.fen, fen);
}

#[test]
fn game_error_propagates_unchanged() {
    let mut state = StateHandle::default();
    let id = String::from("g");
    state.new_game_default(&id).unwrap();
    let err = state
        .play(&id, String::from("e2"), String::from("e5"))
        .unwrap_err();
    assert!(err.is_type(ErrorType::ChessRules));
    let resp = state.get_all_games().unwrap();
    assert_eq!(
        resp.changed_games[0].game.fen.as_str(),
        "rnbqkbnr/pppppppp/8/8/8/8/PPPPPPPP/RNBQKBNR w KQkq - 0 1"
    );
}
