use bigchess::game::Game;
use bigchess::errors::ErrorType;

#[test]
fn play() {
    let mut game = Game::default();

    // Scholar's mate
    for (from, to) in &[
        ("e2", "e4"),
        ("e7", "e5"),
        ("f1", "c4"),
        ("b8", "c6"),
        ("d1", "h5"),
        ("g8", "f6"),
        ("h5", "f7"),
    ] {
        game.play(&String::from(from.to_owned()), &String::from(to.to_owned()))
            .unwrap();
    }
    let repr = game.get_repr();
    assert!(repr.is_check);
    assert_eq!(
        game.current_fen().as_str(),
        "r1bqkb1r/pppp1Qpp/2n2n2/4p3/2B1P3/8/PPPP1PPP/RNB1K1NR b KQkq - 0 4"
    )
}

#[test]
fn navigate_back() {
    let mut game = Game::default();

    // Opera game: Paul Morphy - Duke of Brunswick and Count Isouard (1858)
    let opera_game = vec![
        "e4", "e5", "Nf3", "d6", "d4", "Bg4", "dxe5", "Bxf3", "Qxf3", "dxe5", "Bc4", "Nf6",
        "Qb3", "Qe7", "Nc3", "c6", "Bg5", "b5", "Nxb5", "cxb5", "Bxb5+", "Nbd7", "O-O-O",
        "Rd8", "Rxd7", "Rxd7", "Rd1", "Qe6", "Bxd7+", "Nxd7", "Qb8+", "Nxb8", "Rd8#",
    ];
    for san in opera_game {
        let parsed: shakmaty::san::SanPlus = san.parse().unwrap();
        game.play_san(String::from(parsed.san.to_string())).unwrap();
    }

    assert_eq!(
        game.current_fen().as_str(),
        "1n1Rkb1r/p4ppp/4q3/4p1B1/4P3/8/PPP2PPP/2K5 b k - 1 17"
    );

    // Should not change position
    game.navigate_back(0);
    assert_eq!(
        game.current_fen().as_str(),
        "1n1Rkb1r/p4ppp/4q3/4p1B1/4P3/8/PPP2PPP/2K5 b k - 1 17"
    );

    game.navigate_back(1);
    assert_eq!(
        game.current_fen().as_str(),
        "1n2kb1r/p4ppp/4q3/4p1B1/4P3/8/PPP2PPP/2KR4 w k - 0 17"
    );

    game.navigate_back(5);
    assert_eq!(
        game.current_fen().as_str(),
        "4kb1r/p2rqppp/5n2/1B2p1B1/4P3/1Q6/PPP2PPP/2KR4 b k - 1 14"
    );

    game.navigate_back(1000);
    assert_eq!(game.current_fen(), Game::default().current_fen());
}

#[test]
fn game_repr() {
    // Botvinik - Capablanca (1937)
    let fen = String::from("r3r1k1/p2q1ppp/np3n2/3p4/P1pP4/2PQP3/1B2NPPP/R4RK1 w - - 0 15");
    let game = Game::from_fen(fen).unwrap();
    let g = game.get_repr();
    assert_eq!(g.is_check, false);
    assert_eq!(g.is_takes, false)
}

#[test]
fn scholars_mate_repr() {
    let mut game = Game::default();
    for (from, to) in &[
        ("e2", "e4"),
        ("e7", "e5"),
        ("f1", "c4"),
        ("b8", "c6"),
        ("d1", "h5"),
        ("g8", "f6"),
        ("h5", "f7"),
    ] {
        game.play(&String::from(from.to_owned()), &String::from(to.to_owned()))
            .unwrap();
    }
    let repr = game.get_repr();
    assert_eq!(
        repr.fen.as_str(),
        "r1bqkb1r/pppp1Qpp/2n2n2/4p3/2B1P3/8/PPPP1PPP/RNB1K1NR b KQkq - 0 4"
    );
    assert!(repr.is_check);
    assert!(repr.is_takes);
    // Checkmate: the side to move has no legal move at all.
    assert_eq!(repr.available_moves.len(), 0);
}

#[test]
fn branching_dedup() {
    let mut game = Game::default();
    game.play(&String::from("e2"), &String::from("e4")).unwrap();
    game.navigate_back(1);
    game.play(&String::from("e2"), &String::from("e3")).unwrap();
    game.navigate_back(1);
    game.play(&String::from("e2"), &String::from("e4")).unwrap();

    let root = game.game_tree();
    assert!(root.san.is_none());
    assert_eq!(root.children.len(), 2);
    assert_eq!(root.children[0].san.as_deref(), Some("e4"));
    assert_eq!(root.children[1].san.as_deref(), Some("e3"));
}

#[test]
fn navigate_past_root() {
    let mut game = Game::default();
    game.play(&String::from("e2"), &String::from("e4")).unwrap();
    game.play(&String::from("e7"), &String::from("e5")).unwrap();
    game.navigate_back(1000);
    assert_eq!(
        game.current_fen().as_str(),
        "rnbqkbnr/pppppppp/8/8/8/8/PPPPPPPP/RNBQKBNR w KQkq - 0 1"
    );
}

#[test]
fn from_fen_illegal_move() {
    let fen = String::from("r3r1k1/p2q1ppp/np3n2/3p4/P1pP4/2PQP3/1B2NPPP/R4RK1 w - - 0 15");
    let mut game = Game::from_fen(fen.clone()).unwrap();
    let before = game.current_fen();
    let err = game
        .play(&String::from("a1"), &String::from("h8"))
        .unwrap_err();
    assert!(err.is_type(ErrorType::ChessRules));
    assert_eq!(game.current_fen(), before);
    assert_eq!(game.game_tree().children.len(), 0);
    assert_eq!(game.current_line().len(), 0);
}

#[test]
fn play_rejects_malformed_squares() {
    let mut game = Game::default();
    let err = game
        .play(&String::from("zz"), &String::from("e4"))
        .unwrap_err();
    assert!(err.is_type(ErrorType::Parse));
    assert_eq!(game.current_line().len(), 0);
}

#[test]
fn from_fen_rejects_garbage() {
    let err = Game::from_fen(String::from("not a fen")).unwrap_err();
    assert!(err.is_type(ErrorType::Parse));
}

#[test]
fn apply_changes_position() {
    // A game whose current FEN still equalled the starting FEN after a move
    // would fail here.
    let mut game = Game::default();
    let start = game.current_fen();
    game.play(&String::from("e2"), &String::from("e4")).unwrap();
    assert_ne!(game.current_fen(), start);
    assert_eq!(
        game.current_fen().as_str(),
        "rnbqkbnr/pppppppp/8/8/4P3/8/PPPP1PPP/RNBQKBNR b KQkq - 0 1"
    );
}

#[test]
fn navigate_inverse() {
    let mut game = Game::default();
    game.play(&String::from("e2"), &String::from("e4")).unwrap();
    let before = game.current_fen();
    game.play(&String::from("e7"), &String::from("e5")).unwrap();
    game.navigate_back(1);
    // Back to the position before the last play; the explored child remains.
    assert_eq!(game.current_fen(), before);
    let root = game.game_tree();
    assert_eq!(root.children[0].children.len(), 1);
    assert_eq!(root.children[0].children[0].san.as_deref(), Some("e5"));
}

#[test]
fn navigate_back_saturates_at_u16_max() {
    let mut game = Game::default();
    game.play(&String::from("e2"), &String::from("e4")).unwrap();
    game.navigate_back(u16::MAX);
    assert_eq!(game.current_fen(), Game::default().current_fen());
}

#[test]
fn repr_deterministic() {
    let mut game = Game::default();
    game.play(&String::from("g1"), &String::from("f3")).unwrap();
    let a = game.get_repr();
    let b = game.get_repr();
    assert_eq!(a.fen, b.fen);
    assert_eq!(a.is_takes, b.is_takes);
    assert_eq!(a.is_check, b.is_check);
    assert_eq!(a.available_moves, b.available_moves);
}

#[test]
fn play_san_errors() {
    let mut game = Game::default();
    let err = game.play_san(String::from("Qz9")).unwrap_err();
    assert!(err.is_type(ErrorType::Parse));
    let err = game.play_san(String::from("Nf6")).unwrap_err();
    assert!(err.is_type(ErrorType::ChessRules));
    assert_eq!(game.current_line().len(), 0);
    game.play_san(String::from("Nf3")).unwrap();
    assert_eq!(game.current_line().as_slice(), &[String::from("Nf3")]);
}

#[test]
fn startpos_moves_grouped() {
    let game = Game::default();
    let repr = game.get_repr();
    // Ten source squares (eight pawns, two knights), twenty moves in all.
    assert_eq!(repr.available_moves.len(), 10);
    let total: usize = repr.available_moves.iter().map(|p| p.1.len()).sum();
    assert_eq!(total, 20);
    let e2 = repr
        .available_moves
        .iter()
        .find(|p| p.0 == "e2")
        .expect("e2 must have moves");
    let mut targets = e2.1.clone();
    targets.sort();
    assert_eq!(targets, vec![String::from("e3"), String::from("e4")]);
}
