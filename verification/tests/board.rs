use joseki::Board;
use joseki::CoordSet;
use joseki::Stone;

#[test]
fn empty_board() {
    let board = Board::new();

    for y in 0..board.size {
        for x in 0..board.size {
            assert_eq!(board.get(x, y), Stone::Empty);
        }
    }
}

#[test]
fn board_from_str() {
    let board = Board::from_str("#O#O.O#O#");

    assert_eq!(board.size, 3);
    assert_eq!(board.get(0, 0), Stone::Black);
    assert_eq!(board.get(1, 0), Stone::White);
    assert_eq!(board.get(1, 1), Stone::Empty);
}

#[test]
fn board_equality() {
    let board_1 = Board::from_str("#O#O.O#O#");
    let board_2 = Board::from_str(
        "\
            BWB \
            W.W \
            BWB",
    );

    assert_eq!(board_1, board_2);
}

#[test]
fn access_board() {
    let mut board = Board::new();

    board.set(0, 0, Stone::Black);
    board.set(1, 1, Stone::White);

    assert_eq!(board.get(0, 0), Stone::Black);
    assert_eq!(board.get(1, 1), Stone::White);
}

#[test]
#[should_panic]
fn access_invalid_position() {
    let board = Board::new();
    board.get(20, 20);
}

#[test]
fn position_neighbours() {
    let board = Board::with_size(3);
    assert_eq!(board.neighbours(0, 0).len(), 2);
    assert_eq!(board.neighbours(0, 1).len(), 3);
    assert_eq!(board.neighbours(1, 1).len(), 4);
    assert_eq!(board.neighbours(2, 2).len(), 2);
}

#[test]
fn connected_stones() {
    let board = Board::from_str(
        "\
            .#..# \
            ##.O# \
            ..O.. \
            O.O#O \
            .#OO.",
    );

    assert_eq!(board.chain_at(0, 0).len(), 0);

    let chain_1 = board.chain_at(0, 1);
    assert_eq!(chain_1.len(), 3);
    assert_eq!(chain_1, board.chain_at(1, 1));
    assert_eq!(chain_1, board.chain_at(1, 0));

    let chain_2 = board.chain_at(2, 2);
    assert_eq!(chain_2.len(), 4);
    assert_eq!(chain_2, board.chain_at(2, 3));
    assert_eq!(chain_2, board.chain_at(2, 4));
    assert_eq!(chain_2, board.chain_at(3, 4));
}

#[test]
fn liberties() {
    let board = Board::from_str(
        "\
            ...O. \
            ..### \
            O#.O. \
            OO### \
            .O.O#",
    );

    let chain_1 = board.liberties(0, 3);
    let expected_1 = CoordSet::from_coords(5, vec![(0, 1), (0, 4), (2, 4)]);
    assert_eq!(chain_1, board.liberties(1, 3));
    assert_eq!(chain_1, expected_1);

    let chain_2 = board.liberties(2, 3);
    let expected_2 = CoordSet::from_coords(5, vec![(2, 2), (2, 4), (4, 2)]);
    assert_eq!(chain_2, board.liberties(4, 4));
    assert_eq!(chain_2, expected_2)
}

#[test]
fn no_capture() {
    let mut board = Board::from_str(
        "\
            .!. \
            #.# \
            .#.",
    );

    let expected = Board::from_str(
        "\
            .#. \
            #.# \
            .#.",
    );

    assert!(board.make_move(Stone::Black, 1, 0));
    assert_eq!(board, expected);
}

#[test]
fn invalid_move() {
    let mut board = Board::from_str(
        "\
            ... \
            .B. \
            ...",
    );

    assert!(!board.make_move(Stone::Black, 1, 1));
    assert!(!board.make_move(Stone::White, 1, 1));
}

#[test]
fn simple_capture() {
    let mut board = Board::from_str(
        "\
            .!. \
            #O# \
            .#.",
    );

    let expected = Board::from_str(
        "\
            .#. \
            #.# \
            .#.",
    );

    assert!(board.make_move(Stone::Black, 1, 0));
    assert_eq!(board, expected);
}

#[test]
fn capture_against_corner() {
    let mut board = Board::from_str(
        "\
            OO#.. \
            O#... \
            !.... \
            ..... \
            .....",
    );

    let expected = Board::from_str(
        "\
            ..#.. \
            .#... \
            #.... \
            ..... \
            .....",
    );

    assert!(board.make_move(Stone::Black, 0, 2));
    assert_eq!(board, expected);
}

#[test]
fn another_capture() {
    let mut board = Board::from_str(
        "\
            ...#. \
            #OO#O \
            !##O. \
            #OO.. \
            .....",
    );

    let expected = Board::from_str(
        "\
            ...#. \
            #OO#O \
            O..O. \
            #OO.. \
            .....",
    );

    assert!(board.make_move(Stone::White, 0, 2));
    assert_eq!(board, expected);
}

#[test]
fn double_capture() {
    let mut board = Board::from_str(
        "\
            .#OOO \
            ..!O# \
            .#O#. \
            .O##. \
            .....",
    );

    let expected = Board::from_str(
        "\
            .#... \
            ..#.# \
            .#.#. \
            .O##. \
            .....",
    );

    assert!(board.make_move(Stone::Black, 2, 1));
    assert_eq!(board, expected);
}

#[test]
fn prevent_self_capture() {
    let mut board = Board::from_str(
        "\
            .#. \
            #!# \
            .#.",
    );

    let expected = board.clone();

    assert!(!board.make_move(Stone::White, 1, 1));
    assert_eq!(board, expected);
}

#[test]
fn prevent_complex_self_capture() {
    let mut board = Board::from_str(
        "\
            ..O.. \
            ..#.. \
            .#OOO \
            .O#!O \
            #.O##",
    );

    let expected = board.clone();

    assert!(!board.make_move(Stone::Black, 3, 3));
    assert_eq!(board, expected);
}

#[test]
fn allow_temporary_self_capture() {
    let mut board = Board::from_str(
        "\
            ###O. \
            #!#O. \
            ###O. \
            OOO.. \
            .....",
    );

    let expected = Board::from_str(
        "\
            ...O. \
            .O.O. \
            ...O. \
            OOO.. \
            .....",
    );

    assert!(board.make_move(Stone::White, 1, 1));
    assert_eq!(board, expected);
}

#[test]
fn stone_glyphs_and_opposites() {
    assert_eq!(Stone::Empty.char(), '\u{22C5}');
    assert_eq!(Stone::Black.char(), '\u{25CF}');
    assert_eq!(Stone::White.char(), '\u{25CB}');
    assert_eq!(Stone::Black.not(), Stone::White);
    assert_eq!(Stone::White.not(), Stone::Black);
    assert_eq!(Stone::Empty.not(), Stone::Empty);
}

#[test]
fn first_move_on_empty_board() {
    let mut board = Board::with_size(5);
    let expected = Board::from_str(
        "\
            ..... \
            ..... \
            ..#.. \
            ..... \
            .....",
    );

    assert!(board.make_move(Stone::Black, 2, 2));
    assert_eq!(board, expected);
}

#[test]
fn rejects_empty_stone_and_out_of_bounds() {
    let mut board = Board::with_size(3);
    let expected = board.clone();

    assert!(!board.make_move(Stone::Empty, 1, 1));
    assert!(!board.make_move(Stone::Black, 3, 0));
    assert!(!board.make_move(Stone::Black, 0, 3));
    assert_eq!(board, expected);
}

#[test]
fn legal_move_checks() {
    let mut board = Board::from_str(
        "\
            .#. \
            #.# \
            .#.",
    );

    assert!(!board.legal_move(Stone::White, 1, 1));
    assert!(board.legal_move(Stone::Black, 1, 1));
    assert!(!board.legal_move(Stone::Black, 0, 1));
    assert!(!board.legal_move(Stone::Empty, 0, 0));
}

#[test]
fn non_square_text_truncates() {
    let board = Board::from_str("#O#O.O#O");

    assert_eq!(board.size, 2);
    assert_eq!(board.get(0, 0), Stone::Black);
    assert_eq!(board.get(1, 0), Stone::White);
    assert_eq!(board.get(0, 1), Stone::Black);
    assert_eq!(board.get(1, 1), Stone::White);
}

#[test]
fn empty_text_gives_empty_board() {
    let mut board = Board::from_str("");

    assert_eq!(board.size, 0);
    assert!(!board.make_move(Stone::Black, 0, 0));
}

#[test]
fn render_small_board() {
    let board = Board::from_str("#O#O.O#O#");
    let expected = "\u{25CF} \u{25CB} \u{25CF}\n\u{25CB} \u{22C5} \u{25CB}\n\u{25CF} \u{25CB} \u{25CF}";

    assert_eq!(board.render(), expected);
}

#[test]
fn star_points_per_size() {
    let nine = Board::with_size(9);
    assert!(nine.star_point(4, 4));
    assert!(nine.star_point(2, 6));
    assert!(!nine.star_point(0, 0));

    let thirteen = Board::with_size(13);
    assert!(thirteen.star_point(6, 6));
    assert!(thirteen.star_point(3, 9));
    assert!(!thirteen.star_point(4, 4));

    let nineteen = Board::with_size(19);
    assert!(nineteen.star_point(3, 3));
    assert!(nineteen.star_point(9, 15));
    assert!(!nineteen.star_point(4, 4));

    let five = Board::with_size(5);
    assert!(!five.star_point(2, 2));
}

#[test]
fn star_points_rendered() {
    let board = Board::with_size(9);
    let text = board.render();
    let row = text.lines().nth(2).unwrap();

    assert_eq!(
        row,
        "\u{22C5} \u{22C5} \u{2022} \u{22C5} \u{22C5} \u{22C5} \u{2022} \u{22C5} \u{22C5}"
    );
}

#[test]
fn empty_board_round_trip() {
    let board = Board::with_size(5);
    let reparsed = Board::from_str(&board.render());

    assert_eq!(board, reparsed);
}

#[test]
fn coord_set_behaviour() {
    let mut set = CoordSet::new(3);
    assert!(set.is_empty());
    assert_eq!(set.len(), 0);

    set.insert(1, 2);
    set.insert(1, 2);
    assert_eq!(set.len(), 1);
    assert!(set.contains(1, 2));
    assert!(!set.contains(2, 1));
    assert!(!set.is_empty());

    let deduped = CoordSet::from_coords(3, vec![(1, 1), (1, 1), (0, 2)]);
    assert_eq!(deduped.len(), 2);

    let a = CoordSet::from_coords(3, vec![(0, 0), (1, 1)]);
    let b = CoordSet::from_coords(3, vec![(1, 1), (0, 0)]);
    assert_eq!(a, b);
}
