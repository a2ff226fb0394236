//! A bot that maximizes a positional heuristic by alpha-beta pruned search.

use vstd::prelude::*;

use crate::board::{
    Board, has_any_move, lemma_valid_moves_properties, move_valid, place_result, valid_moves,
};
use crate::bots::MakeMove;
use crate::search::{
    EvalKind, best_child, child_value, corner_count, edge_count, edge_count_upto, eval_score,
    lemma_best_child_props, lemma_minimax_bounds, minimax,
};

verus! {

/// This bot maximizes a hand-tuned positional score by a 5-deep minmax
/// search with alpha-beta pruning: material plus edge and corner control,
/// the positional part weighted more heavily while the board is empty.
pub struct Bot {}

impl Bot {
    pub fn new() -> (r: Bot) {
        Bot {  }
    }
}

/// The initial lower search bound.
pub const NEG_INF_SCORE: i32 = i32::MIN;

/// The initial upper search bound.
pub const POS_INF_SCORE: i32 = i32::MAX;

impl MakeMove for Bot {
    fn make_move(&mut self, board: &Board, color: bool) -> (m: (i8, i8))
        ensures
            (m.0 == -1 && m.1 == -1) == !has_any_move(*board, color),
            has_any_move(*board, color) ==> move_valid(*board, m.0 as int, m.1 as int, color)
                && exists|p: int|
                0 <= p < valid_moves(*board, color).len() && m == #[trigger] valid_moves(
                    *board,
                    color,
                )[p] && (forall|q: int|
                    0 <= q < valid_moves(*board, color).len() ==> child_value(
                        EvalKind::Weighted,
                        *board,
                        color,
                        color,
                        5,
                        #[trigger] valid_moves(*board, color)[q],
                    ) <= child_value(
                        EvalKind::Weighted,
                        *board,
                        color,
                        color,
                        5,
                        valid_moves(*board, color)[p],
                    )) && (forall|q: int|
                    0 <= q < p ==> child_value(
                        EvalKind::Weighted,
                        *board,
                        color,
                        color,
                        5,
                        #[trigger] valid_moves(*board, color)[q],
                    ) < child_value(
                        EvalKind::Weighted,
                        *board,
                        color,
                        color,
                        5,
                        valid_moves(*board, color)[p],
                    )),
    {
        proof {
            lemma_valid_moves_properties(*board, color);
        }
        let moves = board.get_all_valid_moves(color);
        if moves.len() == 0 {
            return (-1, -1);
        }
        let ghost k = EvalKind::Weighted;
        let ghost ms = valid_moves(*board, color);

        let mut best_score = NEG_INF_SCORE;
        let mut best_move: (i8, i8) = (-1, -1);
        let mut p: usize = 0;
        while p < moves.len()
            invariant
                moves@ == ms,
                ms.len() > 0,
                forall|t: int| 0 <= t < ms.len() ==> move_valid(
                    *board,
                    (#[trigger] ms[t]).0 as int,
                    ms[t].1 as int,
                    color,
                ),
                k == EvalKind::Weighted,
                0 <= p <= ms.len(),
                p == 0 ==> best_score == NEG_INF_SCORE && best_move == ((-1i8, -1i8)),
                p > 0 ==> exists|pp: int|
                    0 <= pp < p && best_move == #[trigger] ms[pp] && best_score as int
                        == child_value(k, *board, color, color, 5, ms[pp]) && (forall|q: int|
                        0 <= q < p ==> child_value(k, *board, color, color, 5, #[trigger] ms[q])
                            <= best_score as int) && (forall|q: int|
                        0 <= q < pp ==> child_value(k, *board, color, color, 5, #[trigger] ms[q])
                            < best_score as int),
            decreases ms.len() - p,
        {
            let mv = moves[p];
            let mut future = board.clone();
            future.try_place_chip(mv.0, mv.1, color);
            let result = evaluate_board(&future, color, !color, 4, NEG_INF_SCORE, POS_INF_SCORE);
            proof {
                lemma_minimax_bounds(k, future, color, !color, 4);
                assert(result as int == child_value(k, *board, color, color, 5, ms[p as int]));
            }
            if result > best_score {
                best_move = mv;
                best_score = result;
            }
            p = p + 1;
        }
        proof {
            assert(move_valid(*board, best_move.0 as int, best_move.1 as int, color));
        }
        best_move
    }
}

/// The minimax value of `board` under the weighted positional evaluation,
/// with `next_turn_color` to move, `depth` plies of look-ahead and the
/// window (alpha, beta) of alpha-beta pruning. Within the window the
/// result is the exact minimax value; outside it the result lands on the
/// proper side of the bound, so a search over the full window returns the
/// unpruned value.
pub fn evaluate_board(
    board: &Board,
    color: bool,
    next_turn_color: bool,
    depth: u16,
    alpha: i32,
    beta: i32,
) -> (r: i32)
    requires
        alpha < beta,
    ensures
        minimax(EvalKind::Weighted, *board, color, next_turn_color, depth as nat) <= alpha as int
            ==> r <= alpha,
        minimax(EvalKind::Weighted, *board, color, next_turn_color, depth as nat) >= beta as int
            ==> r >= beta,
        (alpha as int) < minimax(EvalKind::Weighted, *board, color, next_turn_color, depth as nat)
            && minimax(EvalKind::Weighted, *board, color, next_turn_color, depth as nat)
            < beta as int ==> r as int == minimax(
            EvalKind::Weighted,
            *board,
            color,
            next_turn_color,
            depth as nat,
        ),
        alpha == NEG_INF_SCORE && beta == POS_INF_SCORE ==> r as int == minimax(
            EvalKind::Weighted,
            *board,
            color,
            next_turn_color,
            depth as nat,
        ),
        depth == 0 ==> r as int == eval_score(EvalKind::Weighted, *board, color),
    decreases depth,
{
    let ghost k = EvalKind::Weighted;
    let ghost d = depth as nat;
    let ghost mm = minimax(k, *board, color, next_turn_color, d);
    proof {
        lemma_minimax_bounds(k, *board, color, next_turn_color, d);
    }
    if depth == 0 {
        return heuristic_score(board, color);
    }
    proof {
        lemma_valid_moves_properties(*board, next_turn_color);
    }
    let next_moves = board.get_all_valid_moves(next_turn_color);
    if next_moves.len() == 0 {
        proof {
            assert(best_child(
                k,
                *board,
                color,
                next_turn_color,
                d,
                valid_moves(*board, next_turn_color),
                0,
            ) is None);
        }
        return evaluate_board(board, color, !next_turn_color, depth - 1, alpha, beta);
    }
    let ghost ms = valid_moves(*board, next_turn_color);
    proof {
        lemma_best_child_props(k, *board, color, next_turn_color, d, ms, 0);
    }
    let mut p: usize = 0;
    if next_turn_color == color {
        let mut max = alpha;
        while p < next_moves.len()
            invariant
                next_moves@ == ms,
                forall|t: int| 0 <= t < ms.len() ==> move_valid(
                    *board,
                    (#[trigger] ms[t]).0 as int,
                    ms[t].1 as int,
                    next_turn_color,
                ),
                k == EvalKind::Weighted,
                d == depth as nat,
                depth >= 1,
                next_turn_color == color,
                alpha < beta,
                mm == minimax(k, *board, color, next_turn_color, d),
                -18432 <= mm <= 18432,
                exists|q: int|
                    0 <= q < ms.len() && mm == child_value(
                        k,
                        *board,
                        color,
                        next_turn_color,
                        d,
                        #[trigger] ms[q],
                    ),
                forall|q: int|
                    0 <= q < ms.len() ==> child_value(
                        k,
                        *board,
                        color,
                        next_turn_color,
                        d,
                        #[trigger] ms[q],
                    ) <= mm,
                0 <= p <= ms.len(),
                alpha <= max < beta,
                forall|q: int|
                    0 <= q < p ==> child_value(k, *board, color, next_turn_color, d, #[trigger] ms[q])
                        <= max as int,
                max == alpha || exists|q: int|
                    0 <= q < p && max as int == child_value(
                        k,
                        *board,
                        color,
                        next_turn_color,
                        d,
                        #[trigger] ms[q],
                    ),
            decreases ms.len() - p,
        {
            let mv = next_moves[p];
            let mut future = board.clone();
            future.try_place_chip(mv.0, mv.1, next_turn_color);
            let ghost max0 = max as int;
            let result = evaluate_board(&future, color, !next_turn_color, depth - 1, max, beta);
            let ghost cv = child_value(k, *board, color, next_turn_color, d, ms[p as int]);
            proof {
                assert(cv == minimax(
                    k,
                    place_result(*board, ms[p as int].0 as int, ms[p as int].1 as int, next_turn_color),
                    color,
                    !next_turn_color,
                    (d - 1) as nat,
                ));
                assert(cv <= max0 ==> result as int <= max0);
                assert(max0 < cv && cv < beta as int ==> result as int == cv);
                assert(cv >= beta as int ==> result as int >= beta as int);
            }
            if result >= max {
                max = result;
                if max >= beta {
                    proof {
                        assert(cv >= beta as int);
                        assert(mm >= beta as int);
                    }
                    return max;
                }
            }
            proof {
                assert(cv <= max as int);
            }
            p = p + 1;
        }
        max
    } else {
        let mut min = beta;
        while p < next_moves.len()
            invariant
                next_moves@ == ms,
                forall|t: int| 0 <= t < ms.len() ==> move_valid(
                    *board,
                    (#[trigger] ms[t]).0 as int,
                    ms[t].1 as int,
                    next_turn_color,
                ),
                k == EvalKind::Weighted,
                d == depth as nat,
                depth >= 1,
                next_turn_color != color,
                alpha < beta,
                mm == minimax(k, *board, color, next_turn_color, d),
                -18432 <= mm <= 18432,
                exists|q: int|
                    0 <= q < ms.len() && mm == child_value(
                        k,
                        *board,
                        color,
                        next_turn_color,
                        d,
                        #[trigger] ms[q],
                    ),
                forall|q: int|
                    0 <= q < ms.len() ==> mm <= child_value(
                        k,
                        *board,
                        color,
                        next_turn_color,
                        d,
                        #[trigger] ms[q],
                    ),
                0 <= p <= ms.len(),
                alpha < min <= beta,
                forall|q: int|
                    0 <= q < p ==> min as int <= child_value(
                        k,
                        *board,
                        color,
                        next_turn_color,
                        d,
                        #[trigger] ms[q],
                    ),
                min == beta || exists|q: int|
                    0 <= q < p && min as int == child_value(
                        k,
                        *board,
                        color,
                        next_turn_color,
                        d,
                        #[trigger] ms[q],
                    ),
            decreases ms.len() - p,
        {
            let mv = next_moves[p];
            let mut future = board.clone();
            future.try_place_chip(mv.0, mv.1, next_turn_color);
            let ghost min0 = min as int;
            let result = evaluate_board(&future, color, !next_turn_color, depth - 1, alpha, min);
            let ghost cv = child_value(k, *board, color, next_turn_color, d, ms[p as int]);
            proof {
                assert(cv == minimax(
                    k,
                    place_result(*board, ms[p as int].0 as int, ms[p as int].1 as int, next_turn_color),
                    color,
                    !next_turn_color,
                    (d - 1) as nat,
                ));
                assert(cv >= min0 ==> result as int >= min0);
                assert((alpha as int) < cv && cv < min0 ==> result as int == cv);
                assert(cv <= alpha as int ==> result as int <= alpha as int);
            }
            if result < min {
                min = result;
                if min <= alpha {
                    proof {
                        assert(cv <= alpha as int);
                        assert(mm <= alpha as int);
                    }
                    return min;
                }
            }
            proof {
                assert(min as int <= cv);
            }
            p = p + 1;
        }
        min
    }
}

/// The positional leaf evaluation, scaled by 64 to stay in integers:
/// material difference plus edge and corner control, the positional part
/// counting for more while much of the board is still empty.
pub fn heuristic_score(board: &Board, color: bool) -> (r: i32)
    ensures
        r as int == eval_score(EvalKind::Weighted, *board, color),
{
    proof {
        crate::search::lemma_piece_counts(*board, color);
    }
    let score = board.count_pieces(color) as i32;
    let opponent_score = board.count_pieces(!color) as i32;

    let mut edge_score: i32 = 0;
    let mut opponent_edge_score: i32 = 0;

    let mut corner_score: i32 = 0;
    let mut opponent_corner_score: i32 = 0;

    // counts the pieces on the boundary for both sides, corners skipped
    let mut i: i8 = 1;
    while i < 7
        invariant
            1 <= i <= 7,
            edge_score == edge_count_upto(*board, color, i as int),
            opponent_edge_score == edge_count_upto(*board, !color, i as int),
            0 <= edge_score <= 4 * (i - 1),
            0 <= opponent_edge_score <= 4 * (i - 1),
        decreases 7 - i,
    {
        // top
        if board.is_occupied(i, 0) {
            if board.get_color(i, 0) == color {
                edge_score = edge_score + 1;
            } else {
                opponent_edge_score = opponent_edge_score + 1;
            }
        }
        // bottom
        if board.is_occupied(i, 7) {
            if board.get_color(i, 7) == color {
                edge_score = edge_score + 1;
            } else {
                opponent_edge_score = opponent_edge_score + 1;
            }
        }
        // left
        if board.is_occupied(0, i) {
            if board.get_color(0, i) == color {
                edge_score = edge_score + 1;
            } else {
                opponent_edge_score = opponent_edge_score + 1;
            }
        }
        // right
        if board.is_occupied(7, i) {
            if board.get_color(7, i) == color {
                edge_score = edge_score + 1;
            } else {
                opponent_edge_score = opponent_edge_score + 1;
            }
        }
        i = i + 1;
    }

    // check four corners
    if board.is_occupied(0, 0) {
        if board.get_color(0, 0) == color {
            corner_score = corner_score + 1;
        } else {
            opponent_corner_score = opponent_corner_score + 1;
        }
    }
    if board.is_occupied(7, 0) {
        if board.get_color(7, 0) == color {
            corner_score = corner_score + 1;
        } else {
            opponent_corner_score = opponent_corner_score + 1;
        }
    }
    if board.is_occupied(0, 7) {
        if board.get_color(0, 7) == color {
            corner_score = corner_score + 1;
        } else {
            opponent_corner_score = opponent_corner_score + 1;
        }
    }
    if board.is_occupied(7, 7) {
        if board.get_color(7, 7) == color {
            corner_score = corner_score + 1;
        } else {
            opponent_corner_score = opponent_corner_score + 1;
        }
    }

    proof {
        assert(edge_score == edge_count(*board, color));
        assert(opponent_edge_score == edge_count(*board, !color));
        assert(corner_score == corner_count(*board, color));
        assert(opponent_corner_score == corner_count(*board, !color));
    }
    let positional = (edge_score - opponent_edge_score) * 3 + (corner_score
        - opponent_corner_score) * 10;
    let remaining = 128 - (score + opponent_score);
    proof {
        assert(-14336 <= positional * remaining <= 14336) by (nonlinear_arith)
            requires
                -112 <= positional <= 112,
                64 <= remaining <= 128,
        ;
    }
    // edges and corners are strong, but don't matter as much in the end game
    (score - opponent_score) * 64 + positional * remaining
}

} // verus!
