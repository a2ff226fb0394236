use othello::board::Board;

fn board_from(rows: [&str; 8]) -> Board {
    let mut board = Board::new();
    for (y, row) in rows.iter().enumerate() {
        for (x, ch) in row.chars().enumerate() {
            match ch {
                'X' => board.set(x as i8, y as i8, false),
                'O' => board.set(x as i8, y as i8, true),
                '_' => board.clear(x as i8, y as i8),
                _ => {}
            }
        }
    }
    board
}

#[test]
fn set_and_clear() {
    let mut board = Board::new();

    for x in 0..8 {
        for y in 0..8 {
            board.clear(x, y);
            assert!(!board.is_occupied(x, y));

            board.set(x, y, true);
            assert!(board.is_occupied(x, y));
            assert!(board.get_color(x, y));

            board.set(x, y, false);
            assert!(board.is_occupied(x, y));
            assert!(!board.get_color(x, y));

            board.clear(x, y);
            assert!(!board.is_occupied(x, y));
        }
    }
}

#[test]
fn starting_board_masks_and_counts() {
    let board = Board::new();
    assert_eq!(board.filled, 0x0000_0018_1800_0000u64);
    assert_eq!(board.color, 0x0000_0010_0800_0000u64);
    assert_eq!(board.count_pieces(true), 2);
    assert_eq!(board.count_pieces(false), 2);
    assert!(board.is_occupied(3, 3) && board.get_color(3, 3));
    assert!(board.is_occupied(4, 3) && !board.get_color(4, 3));
    assert!(board.is_occupied(3, 4) && !board.get_color(3, 4));
    assert!(board.is_occupied(4, 4) && board.get_color(4, 4));
}

#[test]
fn starting_black_moves_are_the_four_sandwiching_cells() {
    let board = Board::new();
    let moves = board.get_all_valid_moves(false);
    assert_eq!(moves, vec![(3, 2), (2, 3), (5, 4), (4, 5)]);
}

#[test]
fn placing_black_flips_one_white_piece() {
    let mut board = Board::new();
    assert!(board.try_place_chip(3, 2, false));
    assert_eq!(board.count_pieces(false), 4);
    assert_eq!(board.count_pieces(true), 1);
    assert!(board.is_occupied(3, 2) && !board.get_color(3, 2));
    assert!(board.is_occupied(3, 3) && !board.get_color(3, 3));
}

#[test]
fn occupied_cell_is_rejected_bit_for_bit() {
    let mut board = Board::new();
    let filled = board.filled;
    let color = board.color;
    assert!(!board.try_place_chip(3, 3, false));
    assert!(!board.try_place_chip(4, 3, true));
    assert_eq!(board.filled, filled);
    assert_eq!(board.color, color);
}

#[test]
fn placement_without_capture_is_rejected() {
    let mut board = Board::new();
    let filled = board.filled;
    let color = board.color;
    // far corner: no adjacent opponent run at all
    assert!(!board.try_place_chip(0, 0, false));
    // adjacent to own color only
    assert!(!board.try_place_chip(2, 2, false));
    assert_eq!(board.filled, filled);
    assert_eq!(board.color, color);
}

#[test]
fn capture_flips_whole_runs_in_all_directions() {
    // Placing black at (3, 3) closes two lines: two white pieces to the
    // right and one white piece below, each ended by a black piece.
    let board = board_from([
        "________",
        "________",
        "________",
        "____OOX_",
        "___O____",
        "___X____",
        "________",
        "________",
    ]);
    assert!(board.is_valid_move(3, 3, false));
    let mut after = board.clone();
    assert!(after.try_place_chip(3, 3, false));
    // the full horizontal run flipped
    assert!(!after.get_color(4, 3) && after.is_occupied(4, 3));
    assert!(!after.get_color(5, 3) && after.is_occupied(5, 3));
    // the vertical run flipped
    assert!(!after.get_color(3, 4) && after.is_occupied(3, 4));
    // untouched cells stayed: terminators keep their color
    assert!(!after.get_color(6, 3));
    assert!(!after.get_color(3, 5));
    // the diagonal (4, 4) was empty and stays empty
    assert!(!after.is_occupied(4, 4));
}

#[test]
fn enumeration_is_row_major_ascending() {
    let board = board_from([
        "________",
        "________",
        "_XO_____",
        "________",
        "________",
        "_OXOOO__",
        "________",
        "________",
    ]);
    let moves = board.get_all_valid_moves(false);
    let mut last_index = -1i32;
    for (x, y) in &moves {
        let idx = *y as i32 * 8 + *x as i32;
        assert!(idx > last_index);
        last_index = idx;
    }
    assert!(moves.contains(&(3, 2)));
    assert!(!moves.is_empty());
}

#[test]
fn has_valid_move_matches_enumeration() {
    let board = Board::new();
    assert!(board.has_valid_move(false));
    assert!(board.has_valid_move(true));

    let empty = board_from([
        "________",
        "________",
        "________",
        "________",
        "________",
        "________",
        "________",
        "________",
    ]);
    assert!(!empty.has_valid_move(false));
    assert!(!empty.has_valid_move(true));
    assert!(empty.get_all_valid_moves(false).is_empty());
}

#[test]
fn is_coord_valid_bounds() {
    assert!(Board::is_coord_valid(0, 0));
    assert!(Board::is_coord_valid(7, 7));
    assert!(!Board::is_coord_valid(-1, 0));
    assert!(!Board::is_coord_valid(0, 8));
    assert!(!Board::is_coord_valid(8, 3));
}

#[test]
fn render_shows_the_starting_position() {
    let board = Board::new();
    let text = board.render();
    let expected = "Board:\n\
        [ _ _ _ _ _ _ _ _ ]\n\
        [ _ _ _ _ _ _ _ _ ]\n\
        [ _ _ _ _ _ _ _ _ ]\n\
        [ _ _ _ O X _ _ _ ]\n\
        [ _ _ _ X O _ _ _ ]\n\
        [ _ _ _ _ _ _ _ _ ]\n\
        [ _ _ _ _ _ _ _ _ ]\n\
        [ _ _ _ _ _ _ _ _ ]\n";
    assert_eq!(text, expected);
}

#[test]
fn count_pieces_tracks_mixed_board() {
    let board = board_from([
        "OOOO____",
        "XXX_____",
        "________",
        "________",
        "________",
        "________",
        "________",
        "_______X",
    ]);
    assert_eq!(board.count_pieces(true), 4);
    assert_eq!(board.count_pieces(false), 4);
}
