//! A bot that maximizes its piece count by alpha-beta pruned search.

use vstd::prelude::*;

use crate::board::{
    Board, has_any_move, lemma_valid_moves_properties, move_valid, place_result, valid_moves,
};
use crate::bots::MakeMove;
use crate::search::{
    EvalKind, best_child, child_value, eval_score, lemma_best_child_props, lemma_minimax_bounds,
    minimax,
};

verus! {

/// This bot maximizes its piece count by a 5-deep minmax search with
/// alpha-beta pruning.
pub struct Bot {}

impl Bot {
    pub fn new() -> (r: Bot) {
        Bot {  }
    }
}

/// The initial lower search bound: no score is below an empty own count.
pub const NEG_INF_SCORE: u16 = 0;

/// The initial upper search bound: no score is above a full board.
pub const POS_INF_SCORE: u16 = 64;

impl MakeMove for Bot {
    fn make_move(&mut self, board: &Board, color: bool) -> (m: (i8, i8))
        ensures
            (m.0 == -1 && m.1 == -1) == !has_any_move(*board, color),
            has_any_move(*board, color) ==> move_valid(*board, m.0 as int, m.1 as int, color)
                && exists|p: int|
                0 <= p < valid_moves(*board, color).len() && m == #[trigger] valid_moves(
                    *board,
                    color,
                )[p] && (forall|q: int|
                    0 <= q < valid_moves(*board, color).len() ==> child_value(
                        EvalKind::Material,
                        *board,
                        color,
                        color,
                        5,
                        #[trigger] valid_moves(*board, color)[q],
                    ) <= child_value(
                        EvalKind::Material,
                        *board,
                        color,
                        color,
                        5,
                        valid_moves(*board, color)[p],
                    )) && (forall|q: int|
                    0 <= q < p ==> child_value(
                        EvalKind::Material,
                        *board,
                        color,
                        color,
                        5,
                        #[trigger] valid_moves(*board, color)[q],
                    ) < child_value(
                        EvalKind::Material,
                        *board,
                        color,
                        color,
                        5,
                        valid_moves(*board, color)[p],
                    )),
    {
        proof {
            lemma_valid_moves_properties(*board, color);
        }
        let moves = board.get_all_valid_moves(color);
        if moves.len() == 0 {
            return (-1, -1);
        }
        let ghost k = EvalKind::Material;
        let ghost ms = valid_moves(*board, color);

        let mut best_move = moves[0];
        let mut future = board.clone();
        future.try_place_chip(best_move.0, best_move.1, color);
        let mut best_score = evaluate_board(&future, color, !color, 4, NEG_INF_SCORE, POS_INF_SCORE);
        proof {
            assert(best_score as int == child_value(k, *board, color, color, 5, ms[0]));
        }
        let ghost mut best_p: int = 0;
        let mut p: usize = 1;
        while p < moves.len()
            invariant
                moves@ == ms,
                forall|t: int| 0 <= t < ms.len() ==> move_valid(
                    *board,
                    (#[trigger] ms[t]).0 as int,
                    ms[t].1 as int,
                    color,
                ),
                k == EvalKind::Material,
                1 <= p <= ms.len(),
                0 <= best_p < p,
                best_move == ms[best_p],
                best_score as int == child_value(k, *board, color, color, 5, ms[best_p]),
                forall|q: int|
                    0 <= q < p ==> child_value(k, *board, color, color, 5, #[trigger] ms[q])
                        <= best_score as int,
                forall|q: int|
                    0 <= q < best_p ==> child_value(k, *board, color, color, 5, #[trigger] ms[q])
                        < best_score as int,
            decreases ms.len() - p,
        {
            let mv = moves[p];
            let mut fb = board.clone();
            fb.try_place_chip(mv.0, mv.1, color);
            let result = evaluate_board(&fb, color, !color, 4, NEG_INF_SCORE, POS_INF_SCORE);
            proof {
                assert(result as int == child_value(k, *board, color, color, 5, ms[p as int]));
            }
            if result > best_score {
                best_move = mv;
                best_score = result;
                proof {
                    best_p = p as int;
                }
            }
            p = p + 1;
        }
        best_move
    }
}

/// The minimax value of `board` for `color` with `next_turn_color` to
/// move, `depth` plies of look-ahead and the window (alpha, beta) of
/// alpha-beta pruning. Within the window the result is the exact minimax
/// value; outside it the result lands on the proper side of the bound,
/// so a search over the full window (0, 64) returns the unpruned value.
pub fn evaluate_board(
    board: &Board,
    color: bool,
    next_turn_color: bool,
    depth: u16,
    alpha: u16,
    beta: u16,
) -> (r: u16)
    requires
        alpha < beta,
        beta <= 64,
    ensures
        minimax(EvalKind::Material, *board, color, next_turn_color, depth as nat) <= alpha as int
            ==> r <= alpha,
        minimax(EvalKind::Material, *board, color, next_turn_color, depth as nat) >= beta as int
            ==> r >= beta,
        (alpha as int) < minimax(EvalKind::Material, *board, color, next_turn_color, depth as nat)
            && minimax(EvalKind::Material, *board, color, next_turn_color, depth as nat)
            < beta as int ==> r as int == minimax(
            EvalKind::Material,
            *board,
            color,
            next_turn_color,
            depth as nat,
        ),
        r <= 64,
        alpha == NEG_INF_SCORE && beta == POS_INF_SCORE ==> r as int == minimax(
            EvalKind::Material,
            *board,
            color,
            next_turn_color,
            depth as nat,
        ),
        depth == 0 ==> r as int == eval_score(EvalKind::Material, *board, color),
    decreases depth,
{
    let ghost k = EvalKind::Material;
    let ghost d = depth as nat;
    let ghost mm = minimax(k, *board, color, next_turn_color, d);
    proof {
        lemma_minimax_bounds(k, *board, color, next_turn_color, d);
    }
    if depth == 0 {
        return heuristic_score(board, color);
    }
    proof {
        lemma_valid_moves_properties(*board, next_turn_color);
    }
    let next_moves = board.get_all_valid_moves(next_turn_color);
    if next_moves.len() == 0 {
        proof {
            assert(best_child(k, *board, color, next_turn_color, d, valid_moves(*board, next_turn_color), 0) is None);
        }
        return evaluate_board(board, color, !next_turn_color, depth - 1, alpha, beta);
    }
    let ghost ms = valid_moves(*board, next_turn_color);
    proof {
        lemma_best_child_props(k, *board, color, next_turn_color, d, ms, 0);
    }
    let mut p: usize = 0;
    if next_turn_color == color {
        let mut max = alpha;
        while p < next_moves.len()
            invariant
                next_moves@ == ms,
                forall|t: int| 0 <= t < ms.len() ==> move_valid(
                    *board,
                    (#[trigger] ms[t]).0 as int,
                    ms[t].1 as int,
                    next_turn_color,
                ),
                k == EvalKind::Material,
                d == depth as nat,
                depth >= 1,
                next_turn_color == color,
                alpha < beta <= 64,
                mm == minimax(k, *board, color, next_turn_color, d),
                0 <= mm <= 64,
                exists|q: int|
                    0 <= q < ms.len() && mm == child_value(
                        k,
                        *board,
                        color,
                        next_turn_color,
                        d,
                        #[trigger] ms[q],
                    ),
                forall|q: int|
                    0 <= q < ms.len() ==> child_value(
                        k,
                        *board,
                        color,
                        next_turn_color,
                        d,
                        #[trigger] ms[q],
                    ) <= mm,
                0 <= p <= ms.len(),
                alpha <= max < beta,
                forall|q: int|
                    0 <= q < p ==> child_value(k, *board, color, next_turn_color, d, #[trigger] ms[q])
                        <= max as int,
                max == alpha || exists|q: int|
                    0 <= q < p && max as int == child_value(
                        k,
                        *board,
                        color,
                        next_turn_color,
                        d,
                        #[trigger] ms[q],
                    ),
            decreases ms.len() - p,
        {
            let mv = next_moves[p];
            let mut future = board.clone();
            future.try_place_chip(mv.0, mv.1, next_turn_color);
            let ghost max0 = max as int;
            let result = evaluate_board(&future, color, !next_turn_color, depth - 1, max, beta);
            let ghost cv = child_value(k, *board, color, next_turn_color, d, ms[p as int]);
            proof {
                assert(cv == minimax(k, place_result(*board, ms[p as int].0 as int, ms[p as int].1 as int, next_turn_color), color, !next_turn_color, (d - 1) as nat));
                assert(cv <= max0 ==> result as int <= max0);
                assert(max0 < cv < beta as int ==> result as int == cv);
                assert(cv >= beta as int ==> result as int >= beta as int);
            }
            if result >= max {
                max = result;
                if max >= beta {
                    proof {
                        assert(cv >= beta as int);
                        assert(mm >= beta as int);
                    }
                    return max;
                }
            }
            proof {
                assert(cv <= max as int);
            }
            p = p + 1;
        }
        max
    } else {
        let mut min = beta;
        while p < next_moves.len()
            invariant
                next_moves@ == ms,
                forall|t: int| 0 <= t < ms.len() ==> move_valid(
                    *board,
                    (#[trigger] ms[t]).0 as int,
                    ms[t].1 as int,
                    next_turn_color,
                ),
                k == EvalKind::Material,
                d == depth as nat,
                depth >= 1,
                next_turn_color != color,
                alpha < beta <= 64,
                mm == minimax(k, *board, color, next_turn_color, d),
                0 <= mm <= 64,
                exists|q: int|
                    0 <= q < ms.len() && mm == child_value(
                        k,
                        *board,
                        color,
                        next_turn_color,
                        d,
                        #[trigger] ms[q],
                    ),
                forall|q: int|
                    0 <= q < ms.len() ==> mm <= child_value(
                        k,
                        *board,
                        color,
                        next_turn_color,
                        d,
                        #[trigger] ms[q],
                    ),
                0 <= p <= ms.len(),
                alpha < min as int <= beta as int,
                forall|q: int|
                    0 <= q < p ==> min as int <= child_value(
                        k,
                        *board,
                        color,
                        next_turn_color,
                        d,
                        #[trigger] ms[q],
                    ),
                min == beta || exists|q: int|
                    0 <= q < p && min as int == child_value(
                        k,
                        *board,
                        color,
                        next_turn_color,
                        d,
                        #[trigger] ms[q],
                    ),
            decreases ms.len() - p,
        {
            let mv = next_moves[p];
            let mut future = board.clone();
            future.try_place_chip(mv.0, mv.1, next_turn_color);
            let ghost min0 = min as int;
            let result = evaluate_board(&future, color, !next_turn_color, depth - 1, alpha, min);
            let ghost cv = child_value(k, *board, color, next_turn_color, d, ms[p as int]);
            proof {
                assert(cv == minimax(k, place_result(*board, ms[p as int].0 as int, ms[p as int].1 as int, next_turn_color), color, !next_turn_color, (d - 1) as nat));
                assert(cv >= min0 ==> result as int >= min0);
                assert((alpha as int) < cv && cv < min0 ==> result as int == cv);
                assert(cv <= alpha as int ==> result as int <= alpha as int);
            }
            if result < min {
                min = result;
                if min <= alpha {
                    proof {
                        assert(cv <= alpha as int);
                        assert(mm <= alpha as int);
                    }
                    return min;
                }
            }
            proof {
                assert(min as int <= cv);
            }
            p = p + 1;
        }
        min
    }
}

/// The leaf evaluation this search maximizes: the raw piece count.
pub fn heuristic_score(board: &Board, color: bool) -> (r: u16)
    ensures
        r as int == eval_score(EvalKind::Material, *board, color),
{
    let score = board.count_pieces(color);
    score
}

} // verus!
