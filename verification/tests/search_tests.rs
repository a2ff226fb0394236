use othello::board::Board;
use othello::bots::{deep_heuristic_bot, deep_minmax_bot, deep_score_bot};
use othello::bots::deep_score_bot::{NEG_INF_SCORE, POS_INF_SCORE};

fn board_from(rows: [&str; 8]) -> Board {
    let mut board = Board::new();
    for (y, row) in rows.iter().enumerate() {
        for (x, ch) in row.chars().enumerate() {
            match ch {
                'X' => board.set(x as i8, y as i8, false),
                'O' => board.set(x as i8, y as i8, true),
                '_' => board.clear(x as i8, y as i8),
                _ => {}
            }
        }
    }
    board
}

fn eval_board(board: &Board, color: bool, next_turn_color: bool, depth: u16) -> u16 {
    deep_score_bot::evaluate_board(board, color, next_turn_color, depth, NEG_INF_SCORE, POS_INF_SCORE)
}

#[test]
fn deep_minmax_bot_evaluate_board_starting() {
    let board = board_from([
        "________",
        "________",
        "________",
        "___OX___",
        "___XOX__",
        "_____O__",
        "________",
        "________",
    ]);

    assert_eq!(deep_minmax_bot::evaluate_board(&board, true, false, 0), 3);
}

#[test]
fn evaluate_board_choices() {
    let board = board_from([
        "________",
        "________",
        "_XO_____",
        "________",
        "________",
        "_OXOOO__",
        "________",
        "________",
    ]);

    // at depth 0, we only see that we have two pieces on the board
    assert_eq!(deep_minmax_bot::evaluate_board(&board, false, false, 0), 2);

    // at depth 1, we see that we can place X on (6, 7) to get 6 points
    assert_eq!(deep_minmax_bot::evaluate_board(&board, false, false, 1), 6);

    // At depth 2, we see that our best move is to place on (4, 3) to get 4 points
    // The move at depth 1 is considered bad since O can take back immediately
    assert_eq!(deep_minmax_bot::evaluate_board(&board, false, false, 2), 4);

    // At depth 3, we see the sequence:
    //   - X (4, 3)
    //   - O skip
    //   - X (7, 6)
    assert_eq!(deep_minmax_bot::evaluate_board(&board, false, false, 3), 8);

    // At depth 4, we see the sequence:
    //   - X (1, 6)
    //   - O (1, 3)
    //   - X (7, 6)
    //   - O skip
    assert_eq!(deep_minmax_bot::evaluate_board(&board, false, false, 4), 7);

    // At depth 5, we see the best sequence:
    //   - X (3, 4)
    //   - O skip
    //   - X (1, 6)
    //   - O skip
    //   - X (7, 6)
    assert_eq!(deep_minmax_bot::evaluate_board(&board, false, false, 5), 10);
}

#[test]
fn deep_score_bot_evaluate_board_starting() {
    let board = board_from([
        "________",
        "________",
        "________",
        "___OX___",
        "___XOX__",
        "_____O__",
        "________",
        "________",
    ]);

    assert_eq!(eval_board(&board, true, false, 0), 3);
}

#[test]
fn eval_board_choices() {
    let board = board_from([
        "________",
        "________",
        "_XO_____",
        "________",
        "________",
        "_OXOOO__",
        "________",
        "________",
    ]);

    // at depth 0, we only see that we have two pieces on the board
    assert_eq!(eval_board(&board, false, false, 0), 2);

    // at depth 1, we see that we can place X on (6, 7) to get 6 points
    assert_eq!(eval_board(&board, false, false, 1), 6);

    // At depth 2, we see that our best move is to place on (4, 3) to get 4 points
    // The move at depth 1 is considered bad since O can take back immediately
    assert_eq!(eval_board(&board, false, false, 2), 4);

    // At depth 3, we see the sequence:
    //   - X (4, 3)
    //   - O skip
    //   - X (7, 6)
    assert_eq!(eval_board(&board, false, false, 3), 8);

    // At depth 4, we see the sequence:
    //   - X (1, 6)
    //   - O (1, 3)
    //   - X (7, 6)
    //   - O skip
    assert_eq!(eval_board(&board, false, false, 4), 7);

    // At depth 5, we see the best sequence:
    //   - X (3, 4)
    //   - O skip
    //   - X (1, 6)
    //   - O skip
    //   - X (7, 6)
    assert_eq!(eval_board(&board, false, false, 5), 10);
}

#[test]
fn evaluate_board_game_opening_depth_4() {
    // these evaluations were the results of minmax before
    // implementing alpha-beta pruning

    let board = board_from([
        "________",
        "________",
        "________",
        "___OX___",
        "___OXX__",
        "___O____",
        "________",
        "________",
    ]);

    assert_eq!(eval_board(&board, true, false, 4), 6);

    let board = board_from([
        "________",
        "________",
        "________",
        "___OOO__",
        "___XOX__",
        "__XO____",
        "________",
        "________",
    ]);

    assert_eq!(eval_board(&board, true, false, 4), 8);

    let board = board_from([
        "________",
        "________",
        "___X____",
        "___XXO__",
        "___XOO__",
        "__XO_O__",
        "________",
        "________",
    ]);

    assert_eq!(eval_board(&board, true, false, 4), 9);
}

#[test]
fn pruned_and_unpruned_search_agree() {
    let board = board_from([
        "________",
        "________",
        "_XO_____",
        "________",
        "____O___",
        "_OXOOO__",
        "___X____",
        "________",
    ]);
    for depth in 0..5u16 {
        for (color, turn) in [(false, false), (false, true), (true, false), (true, true)] {
            assert_eq!(
                deep_minmax_bot::evaluate_board(&board, color, turn, depth),
                eval_board(&board, color, turn, depth),
            );
        }
    }
}

#[test]
fn search_passes_when_a_side_cannot_move() {
    // Black has a move; white has none anywhere. With white to move the
    // search must pass the turn, spending one depth unit, rather than
    // treat the position as final.
    let board = board_from([
        "XO______",
        "________",
        "________",
        "________",
        "________",
        "________",
        "________",
        "________",
    ]);
    assert!(board.get_all_valid_moves(true).is_empty());
    assert!(!board.get_all_valid_moves(false).is_empty());
    // white to move at depth 2: pass, then black replies once
    assert_eq!(
        eval_board(&board, false, true, 2),
        eval_board(&board, false, false, 1),
    );
}

#[test]
fn weighted_search_orders_like_its_heuristic() {
    let board = board_from([
        "________",
        "________",
        "_XO_____",
        "________",
        "________",
        "_OXOOO__",
        "________",
        "________",
    ]);
    // at depth 0 the pruned weighted search returns the weighted score itself
    let direct = deep_heuristic_bot::heuristic_score(&board, false);
    let searched = deep_heuristic_bot::evaluate_board(&board, false, false, 0, i32::MIN, i32::MAX);
    assert_eq!(direct, searched);
    // and the weighted score is antisymmetric between the two sides
    assert_eq!(
        deep_heuristic_bot::heuristic_score(&board, false),
        -deep_heuristic_bot::heuristic_score(&board, true),
    );
}

#[test]
fn weighted_heuristic_scores_a_known_position() {
    // Black holds one corner and two non-corner edge cells; white holds
    // one inner cell: s=3, o=1, e=2, eo=0, cr=1, cro=0, 4 pieces total.
    let board = board_from([
        "X_______",
        "X_______",
        "X_______",
        "________",
        "___O____",
        "________",
        "________",
        "________",
    ]);
    // scaled by 64: 64*(3-1) + (3*2 + 10*1) * (128 - 4)
    assert_eq!(deep_heuristic_bot::heuristic_score(&board, false), 64 * 2 + 16 * 124);
}
