use joseki::Board;
use joseki::Game;
use joseki::Stone;

#[test]
fn new_game() {
    let game = Game::new();
    assert_eq!(game.black.name, None);
    assert_eq!(game.white.name, None);
}

#[test]
fn make_move() {
    let mut game = Game::from_str(
        "\
            ... \
            ... \
            ...",
    );

    let expected = Game::from_str(
        "\
            ... \
            .#. \
            ...",
    );

    assert!(game.make_move(Stone::Black, 1, 1));
    assert_eq!(game.board, expected.board);
}

#[test]
fn ko_rule_recapture() {
    let mut game = Game::from_str(
        "\
            .#O.. \
            #O.O. \
            .#O.. \
            ..... \
            .....",
    );

    let expected = Game::from_str(
        "\
            .#O.. \
            #.#O. \
            .#O.. \
            ..... \
            .....",
    );

    // Black capture is a valid play.
    assert!(game.make_move(Stone::Black, 2, 1));
    assert_eq!(game.board, expected.board);

    // White cannot capture due to the ko rule.
    assert!(!game.make_move(Stone::White, 1, 1));
    assert_eq!(game.board, expected.board);
}

#[test]
fn valid_ko_threat_sequence() {
    let mut game = Game::from_str(
        "\
            #.#OO \
            .##O. \
            ##OO. \
            #.#O. \
            ##OO.",
    );

    assert!(game.make_move(Stone::White, 1, 3));
    assert_eq!(
        game.board,
        Board::from_str(
            "\
            #.#OO \
            .##O. \
            ##OO. \
            #O.O. \
            ##OO."
        )
    );

    // Black cannot recapture due to the ko rule, so they play elsewhere instead.
    assert!(!game.make_move(Stone::Black, 2, 3));
    assert!(game.make_move(Stone::Black, 4, 2));
    assert_eq!(
        game.board,
        Board::from_str(
            "\
            #.#OO \
            .##O. \
            ##OO# \
            #O.O. \
            ##OO."
        )
    );

    assert!(game.make_move(Stone::White, 4, 3));
    assert_eq!(
        game.board,
        Board::from_str(
            "\
            #.#OO \
            .##O. \
            ##OO# \
            #O.OO \
            ##OO."
        )
    );

    // Black can capture at the location previously prevented by the ko rule.
    assert!(game.make_move(Stone::Black, 2, 3));
    assert_eq!(
        game.board,
        Board::from_str(
            "\
            #.#OO \
            .##O. \
            ##OO# \
            #.#OO \
            ##OO."
        )
    );

    assert!(game.make_move(Stone::White, 4, 1));
    assert_eq!(
        game.board,
        Board::from_str(
            "\
            #.#OO \
            .##OO \
            ##OO. \
            #.#OO \
            ##OO."
        )
    );

    assert!(game.make_move(Stone::Black, 1, 3));
    assert_eq!(
        game.board,
        Board::from_str(
            "\
            #.#OO \
            .##OO \
            ##OO. \
            ###OO \
            ##OO."
        )
    );
}

#[test]
fn failed_move_is_idempotent() {
    let mut game = Game::from_str(
        "\
            ... \
            .B. \
            ...",
    );
    let expected = Game::from_str(
        "\
            ... \
            .B. \
            ...",
    );

    assert!(!game.make_move(Stone::Black, 1, 1));
    assert_eq!(game.board, expected.board);
    assert!(!game.make_move(Stone::Black, 1, 1));
    assert_eq!(game.board, expected.board);
}

#[test]
fn game_render_without_names() {
    let game = Game::from_str("....");
    let expected = "Black Player: <unknown>\nWhite Player: <unknown>\n\u{22C5} \u{22C5}\n\u{22C5} \u{22C5}";

    assert_eq!(game.render(), expected);
}

#[test]
fn read_sgf_record() {
    let game = Game::from_sgf_text("(;GM[1]SZ[19]PB[Alice]PW[Bob]BR[3d]WR[5p];B[pd];W[dd])")
        .unwrap();

    assert_eq!(game.black.name, Some(String::from("Alice")));
    assert_eq!(game.white.name, Some(String::from("Bob")));
    assert_eq!(game.black.rank, Some(String::from("3d")));
    assert_eq!(game.white.rank, Some(String::from("5p")));
    assert_eq!(game.board.get(15, 3), Stone::Black);
    assert_eq!(game.board.get(3, 3), Stone::White);
}

#[test]
fn sgf_added_stones_bypass_play() {
    let game = Game::from_sgf_text("(;AB[aa]AW[ab])").unwrap();

    assert_eq!(game.board.get(0, 0), Stone::Black);
    assert_eq!(game.board.get(0, 1), Stone::White);
}

#[test]
fn sgf_illegal_move_is_skipped() {
    let game = Game::from_sgf_text("(;B[aa];W[aa])").unwrap();

    assert_eq!(game.board.get(0, 0), Stone::Black);
    assert_eq!(game.board.get(0, 1), Stone::Empty);
}

#[test]
fn sgf_malformed_coordinates_rejected() {
    assert!(Game::from_sgf_text("(;B[a])").is_none());
    assert!(Game::from_sgf_text("(;AB[zz])").is_none());
}

#[test]
fn sgf_names_shown_in_render() {
    let game = Game::from_sgf_text("(;PB[Alice]PW[Bob])").unwrap();
    let text = game.render();
    let mut lines = text.lines();

    assert_eq!(lines.next(), Some("Black Player: Alice"));
    assert_eq!(lines.next(), Some("White Player: Bob"));
}
