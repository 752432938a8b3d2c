use bigchess::api::{
    dispatch_request, handle_fatal_error, response_from_error, response_from_game, NewGameArgs,
    PlayArgs, NavigateBackArgs, GetAllGamesArgs, Request,
};
use bigchess::errors::{human_readable_message, Error, ErrorType};
use bigchess::state::StateHandle;

#[test]
fn dispatch_play() {
    let mut state = StateHandle::default();
    let resp = dispatch_request(
        Request::NewGame(NewGameArgs { id: String::from("g") }),
        &mut state,
    )
    .unwrap();
    assert!(resp.error.is_none());
    assert_eq!(resp.changed_games.len(), 1);

    let resp = dispatch_request(
        Request::Play(PlayArgs {
            id: String::from("g"),
            from: String::from("e2"),
            to: String::from("e4"),
        }),
        &mut state,
    )
    .unwrap();
    assert!(resp.error.is_none());
    assert_eq!(resp.changed_games.len(), 1);
    assert_eq!(resp.changed_games[0].id, "g");

    let resp = dispatch_request(
        Request::NavigateBack(NavigateBackArgs { id: String::from("g"), back: 1 }),
        &mut state,
    )
    .unwrap();
    assert_eq!(
        resp.changed_games[0].game.fen.as_str(),
        "rnbqkbnr/pppppppp/8/8/8/8/PPPPPPPP/RNBQKBNR w KQkq - 0 1"
    );

    let resp = dispatch_request(Request::GetAllGames(GetAllGamesArgs {}), &mut state).unwrap();
    assert_eq!(resp.changed_games.len(), 1);
}

#[test]
fn dispatch_errors_in_band() {
    let mut state = StateHandle::default();

    // Unknown id: reported in the response, not as a fatal error.
    let resp = dispatch_request(
        Request::Play(PlayArgs {
            id: String::from("nope"),
            from: String::from("e2"),
            to: String::from("e4"),
        }),
        &mut state,
    )
    .unwrap();
    let err = resp.error.expect("must carry an error");
    assert_eq!(err.error_type, ErrorType::BadHandle);
    assert_eq!(err.game_id.as_deref(), Some("nope"));
    assert_eq!(resp.changed_games.len(), 0);

    // Malformed squares: a parse error.
    dispatch_request(Request::NewGame(NewGameArgs { id: String::from("g") }), &mut state)
        .unwrap();
    let resp = dispatch_request(
        Request::Play(PlayArgs {
            id: String::from("g"),
            from: String::from("zz"),
            to: String::from("99"),
        }),
        &mut state,
    )
    .unwrap();
    assert_eq!(resp.error.unwrap().error_type, ErrorType::Parse);
    assert_eq!(resp.changed_games.len(), 0);

    // Illegal move: a chess-rules error.
    let resp = dispatch_request(
        Request::Play(PlayArgs {
            id: String::from("g"),
            from: String::from("e2"),
            to: String::from("e5"),
        }),
        &mut state,
    )
    .unwrap();
    assert_eq!(resp.error.unwrap().error_type, ErrorType::ChessRules);
    assert_eq!(resp.changed_games.len(), 0);
}

#[test]
fn deserialize_error_response() {
    // An input line that is no request is answered with a deserialize error
    // and no changed games; the loop then goes on.
    let resp = response_from_error(Error::new(ErrorType::Deserialize));
    let err = resp.error.expect("must carry an error");
    assert_eq!(err.error_type, ErrorType::Deserialize);
    assert_eq!(err.message, "Could not parse JSON from stdin.");
    assert!(err.game_id.is_none());
    assert_eq!(resp.changed_games.len(), 0);
}

#[test]
fn fatal_error_passes_through() {
    let fatal = Error::new(ErrorType::PoisonedHandle);
    assert!(!fatal.is_recoverable());
    let r = handle_fatal_error(Err(fatal));
    assert!(r.is_err());

    let recoverable = Error::new(ErrorType::BadHandle);
    assert!(recoverable.is_recoverable());
    let r = handle_fatal_error(Err(recoverable));
    let resp = r.unwrap();
    assert_eq!(resp.error.unwrap().error_type, ErrorType::BadHandle);
}

#[test]
fn error_messages() {
    assert_eq!(
        human_readable_message(&ErrorType::Parse),
        "Could not parse given input."
    );
    assert_eq!(
        human_readable_message(&ErrorType::StaleHandle),
        "Tried to use an expired handle to a game."
    );
    let e = Error {
        error_type: ErrorType::IO,
        source: Some(String::from("broken pipe")),
        id: None,
    };
    assert_eq!(e.describe(), "IO operation failed. Comes from broken pipe");
    let e = Error::new(ErrorType::IO);
    assert_eq!(
        e.describe(),
        "IO operation failed. Comes from No underlying error"
    );
}

#[test]
fn response_from_game_shape() {
    let game = bigchess::game::Game::default();
    let resp = response_from_game(String::from("g"), game.get_repr());
    assert!(resp.error.is_none());
    assert_eq!(resp.changed_games.len(), 1);
    assert_eq!(resp.changed_games[0].id, "g");
}
