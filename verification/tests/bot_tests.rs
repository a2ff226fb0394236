use othello::board::Board;
use othello::bots::{
    AnyBot, BotRunner, MakeMove, center_bot, deep_heuristic_bot, deep_minmax_bot,
    deep_negative_heuristic_bot, deep_score_bot, edge_bot, edge_exclusive_bot, first_valid_bot,
    last_valid_bot, minmax_score_bot, random_bot, shallow_score_bot,
};
use othello::interface::JsInterface;

fn board_from(rows: [&str; 8]) -> Board {
    let mut board = Board::new();
    for (y, row) in rows.iter().enumerate() {
        for (x, ch) in row.chars().enumerate() {
            match ch {
                'X' => board.set(x as i8, y as i8, false),
                'O' => board.set(x as i8, y as i8, true),
                '_' => board.clear(x as i8, y as i8),
                _ => {}
            }
        }
    }
    board
}

#[test]
fn first_and_last_valid_bots_bracket_the_move_list() {
    let board = Board::new();
    let moves = board.get_all_valid_moves(false);
    let first = first_valid_bot::Bot::new().make_move(&board, false);
    let last = last_valid_bot::Bot::new().make_move(&board, false);
    assert_eq!(first, moves[0]);
    assert_eq!(last, moves[moves.len() - 1]);
    assert_eq!(first, (3, 2));
    assert_eq!(last, (4, 5));
}

#[test]
fn bots_return_sentinel_without_moves() {
    let empty = board_from([
        "________",
        "________",
        "________",
        "________",
        "________",
        "________",
        "________",
        "________",
    ]);
    assert_eq!(first_valid_bot::Bot::new().make_move(&empty, false), (-1, -1));
    assert_eq!(last_valid_bot::Bot::new().make_move(&empty, true), (-1, -1));
    assert_eq!(center_bot::Bot::new().make_move(&empty, false), (-1, -1));
    assert_eq!(random_bot::Bot::new().make_move(&empty, false), (-1, -1));
    assert_eq!(edge_bot::Bot::new().make_move(&empty, true), (-1, -1));
    assert_eq!(edge_exclusive_bot::Bot::new().make_move(&empty, false), (-1, -1));
    assert_eq!(shallow_score_bot::Bot::new().make_move(&empty, false), (-1, -1));
    assert_eq!(minmax_score_bot::Bot::new().make_move(&empty, true), (-1, -1));
    assert_eq!(deep_minmax_bot::Bot::new().make_move(&empty, false), (-1, -1));
    assert_eq!(deep_score_bot::Bot::new().make_move(&empty, true), (-1, -1));
    assert_eq!(deep_heuristic_bot::Bot::new().make_move(&empty, false), (-1, -1));
    assert_eq!(deep_negative_heuristic_bot::Bot::new().make_move(&empty, true), (-1, -1));
}

#[test]
fn random_bot_always_picks_a_listed_move() {
    let board = Board::new();
    let moves = board.get_all_valid_moves(false);
    let mut bot = random_bot::Bot::new();
    for _ in 0..50 {
        let m = bot.make_move(&board, false);
        assert!(moves.contains(&m));
    }
}

#[test]
fn edge_exclusive_bot_grabs_a_border_cell_when_one_exists() {
    // Black can play (0, 3) (a border cell) or interior cells.
    let board = board_from([
        "________",
        "________",
        "________",
        "_OX_____",
        "___O____",
        "____X___",
        "________",
        "________",
    ]);
    let moves = board.get_all_valid_moves(false);
    assert!(moves.contains(&(0, 3)));
    let mut bot = edge_exclusive_bot::Bot::new();
    for _ in 0..20 {
        let m = bot.make_move(&board, false);
        assert!(m.0 == 0 || m.0 == 7 || m.1 == 0 || m.1 == 7);
    }
}

#[test]
fn edge_bot_minimizes_distance_to_the_border() {
    let board = board_from([
        "________",
        "________",
        "________",
        "_OX_____",
        "___O____",
        "____X___",
        "________",
        "________",
    ]);
    let dist = |m: (i8, i8)| {
        let dx = if m.0 < 4 { m.0 } else { 7 - m.0 };
        let dy = if m.1 < 4 { m.1 } else { 7 - m.1 };
        dx + dy
    };
    let best = board
        .get_all_valid_moves(false)
        .into_iter()
        .map(dist)
        .min()
        .unwrap();
    let mut bot = edge_bot::Bot::new();
    for _ in 0..20 {
        let m = bot.make_move(&board, false);
        assert_eq!(dist(m), best);
    }
}

#[test]
fn center_bot_picks_the_most_central_move() {
    let board = Board::new();
    let m = center_bot::Bot::new().make_move(&board, false);
    // all four opening moves are equally central; the last in scan order wins
    assert_eq!(m, (4, 5));
}

#[test]
fn shallow_score_bot_maximizes_flips() {
    // (7, 5) flips three whites at once; every other move flips fewer.
    let board = board_from([
        "________",
        "________",
        "________",
        "________",
        "________",
        "_XOOO___",
        "________",
        "________",
    ]);
    let mut with_big = board.clone();
    with_big.set(4, 5, true);
    with_big.set(5, 5, true);
    with_big.set(6, 5, true);
    let moves = with_big.get_all_valid_moves(false);
    assert!(moves.contains(&(7, 5)));
    let mut bot = shallow_score_bot::Bot::new();
    for _ in 0..10 {
        assert_eq!(bot.make_move(&with_big, false), (7, 5));
    }
}

#[test]
fn minmax_score_bot_evaluates_opponent_reply() {
    let board = Board::new();
    // every opening move leaves the same material; evaluate one exactly:
    // after black plays (3, 2), white's best reply leaves black 3 pieces
    let value = minmax_score_bot::evaluate_move(&(3, 2), &board, false);
    assert_eq!(value, 3);
}

#[test]
fn deep_score_bot_plays_a_legal_move_from_the_start() {
    let board = Board::new();
    let moves = board.get_all_valid_moves(false);
    let m = deep_score_bot::Bot::new().make_move(&board, false);
    assert!(moves.contains(&m));
    // the four opening moves are symmetric, so the first in scan order wins
    assert_eq!(m, (3, 2));
}

#[test]
fn negamax_bot_agrees_with_the_two_sided_positional_bot() {
    // Both bots pick the first move maximizing the same searched weighted
    // value: one searches its own perspective, the other negates the
    // opponent's; they must choose identically.
    let boards = [
        Board::new(),
        board_from([
            "________",
            "________",
            "_XO_____",
            "________",
            "____O___",
            "_OXOOO__",
            "___X____",
            "________",
        ]),
    ];
    for board in boards {
        let direct = deep_heuristic_bot::Bot::new().make_move(&board, false);
        let negated = deep_negative_heuristic_bot::Bot::new().make_move(&board, false);
        assert_eq!(direct, negated);
    }
}

#[test]
fn runner_plays_first_valid_bots_to_a_finished_game() {
    let black = AnyBot::FirstValid(first_valid_bot::Bot::new());
    let white = AnyBot::FirstValid(first_valid_bot::Bot::new());
    let mut runner = BotRunner::new(Some(black), Some(white));
    runner.run_game_to_end();
    assert!(!runner.board.has_valid_move(false));
    assert!(!runner.board.has_valid_move(true));
    let total = runner.board.count_pieces(false) + runner.board.count_pieces(true);
    assert!(total > 4);
}

#[test]
fn runner_without_bots_leaves_the_board_alone() {
    let mut runner = BotRunner::new(None, None);
    let filled = runner.board.filled;
    runner.run_game_to_end();
    assert!(!runner.run_black_bot());
    assert!(!runner.run_white_bot());
    assert_eq!(runner.board.filled, filled);
}

#[test]
fn interface_stages_assigns_and_plays() {
    let mut js = JsInterface::new();
    js.create_new_first_valid_move_bot();
    js.set_bot_as_black();
    js.create_new_last_valid_move_bot();
    js.set_bot_as_white();
    js.create_game();

    assert_eq!(js.get_board_filled(), 0x0000_0018_1800_0000u64);
    assert_eq!(js.get_board_color(), 0x0000_0010_0800_0000u64);
    assert_eq!(js.board_count_pieces(true), 2);
    assert_eq!(js.board_count_pieces(false), 2);
    assert!(js.board_has_valid_move(false));

    let played = js.bot_run_black().expect("black has moves at the start");
    assert_eq!(played.len(), 2);
    assert_eq!((played[0], played[1]), (3, 2));
    assert_eq!(js.board_count_pieces(false), 4);

    let reply = js.bot_run_white().expect("white has a reply");
    assert_eq!(reply.len(), 2);

    js.bot_run_to_end();
    assert!(!js.board_has_valid_move(false) && !js.board_has_valid_move(true));
}

#[test]
fn interface_try_place_applies_the_capture_rule() {
    let mut js = JsInterface::new();
    js.create_game();
    assert!(!js.board_try_place(0, 0, false));
    assert!(js.board_try_place(3, 2, false));
    assert_eq!(js.board_count_pieces(false), 4);
    assert_eq!(js.board_count_pieces(true), 1);
}

#[test]
fn interface_tallies_repeated_games() {
    let mut js = JsInterface::new();
    js.create_new_random_bot();
    js.set_bot_as_black();
    js.create_new_random_bot();
    js.set_bot_as_white();
    js.create_game();
    let tally = js.bot_run_to_end_times(3);
    assert_eq!(tally.len(), 2);
    assert!(tally[0] + tally[1] <= 3);
}
