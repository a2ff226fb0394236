//! A bot that maximizes its piece count by exhaustive minimax search.

use vstd::prelude::*;

use crate::board::{Board, has_any_move, lemma_valid_moves_properties, move_valid, valid_moves};
use crate::bots::MakeMove;
use crate::search::{
    EvalKind, best_child, child_value, eval_score, lemma_best_child_props, minimax,
};

verus! {

/// This bot maximizes its piece count by a 5-deep minmax search: its own
/// move and a 4-deep look-ahead below it.
pub struct Bot {}

impl Bot {
    pub fn new() -> (r: Bot) {
        Bot {  }
    }
}

impl MakeMove for Bot {
    fn make_move(&mut self, board: &Board, color: bool) -> (m: (i8, i8))
        ensures
            (m.0 == -1 && m.1 == -1) == !has_any_move(*board, color),
            has_any_move(*board, color) ==> move_valid(*board, m.0 as int, m.1 as int, color)
                && exists|p: int|
                0 <= p < valid_moves(*board, color).len() && m == #[trigger] valid_moves(
                    *board,
                    color,
                )[p] && (forall|q: int|
                    0 <= q < valid_moves(*board, color).len() ==> child_value(
                        EvalKind::Material,
                        *board,
                        color,
                        color,
                        5,
                        #[trigger] valid_moves(*board, color)[q],
                    ) <= child_value(
                        EvalKind::Material,
                        *board,
                        color,
                        color,
                        5,
                        valid_moves(*board, color)[p],
                    )) && (forall|q: int|
                    p < q < valid_moves(*board, color).len() ==> child_value(
                        EvalKind::Material,
                        *board,
                        color,
                        color,
                        5,
                        #[trigger] valid_moves(*board, color)[q],
                    ) < child_value(
                        EvalKind::Material,
                        *board,
                        color,
                        color,
                        5,
                        valid_moves(*board, color)[p],
                    )),
    {
        proof {
            lemma_valid_moves_properties(*board, color);
        }
        let moves = board.get_all_valid_moves(color);
        if moves.len() == 0 {
            return (-1, -1);
        }
        let ghost k = EvalKind::Material;
        let ghost ms = valid_moves(*board, color);

        let mut best = moves[0];
        let mut future = board.clone();
        future.try_place_chip(best.0, best.1, color);
        let mut best_val = evaluate_board(&future, color, !color, 4);
        proof {
            assert(best_val as int == child_value(k, *board, color, color, 5, ms[0]));
        }
        let mut p: usize = 1;
        while p < moves.len()
            invariant
                moves@ == ms,
                forall|t: int| 0 <= t < ms.len() ==> move_valid(
                    *board,
                    (#[trigger] ms[t]).0 as int,
                    ms[t].1 as int,
                    color,
                ),
                k == EvalKind::Material,
                1 <= p <= ms.len(),
                exists|q: int|
                    0 <= q < p && best == #[trigger] ms[q] && best_val as int == child_value(
                        k,
                        *board,
                        color,
                        color,
                        5,
                        ms[q],
                    ) && (forall|t: int|
                        q < t < p ==> child_value(k, *board, color, color, 5, #[trigger] ms[t])
                            < best_val as int),
                forall|q: int|
                    0 <= q < p ==> child_value(k, *board, color, color, 5, #[trigger] ms[q])
                        <= best_val as int,
            decreases ms.len() - p,
        {
            let candidate = moves[p];
            let mut fb = board.clone();
            fb.try_place_chip(candidate.0, candidate.1, color);
            let val = evaluate_board(&fb, color, !color, 4);
            proof {
                assert(val as int == child_value(k, *board, color, color, 5, ms[p as int]));
            }
            if val >= best_val {
                best = candidate;
                best_val = val;
            }
            p = p + 1;
        }
        best
    }
}

/// The minimax value of `board` for `color`, with `next_turn_color` to
/// move and `depth` plies of look-ahead, by exhaustive search: no pruning,
/// a forced pass costs one depth unit.
pub fn evaluate_board(board: &Board, color: bool, next_turn_color: bool, depth: u16) -> (r: u16)
    ensures
        r as int == minimax(EvalKind::Material, *board, color, next_turn_color, depth as nat),
    decreases depth,
{
    if depth == 0 {
        return heuristic_score(board, color);
    }
    proof {
        lemma_valid_moves_properties(*board, next_turn_color);
    }
    let next_moves = board.get_all_valid_moves(next_turn_color);
    if next_moves.len() == 0 {
        proof {
            assert(best_child(
                EvalKind::Material,
                *board,
                color,
                next_turn_color,
                depth as nat,
                valid_moves(*board, next_turn_color),
                0,
            ) is None);
        }
        return evaluate_board(board, color, !next_turn_color, depth - 1);
    }
    let ghost k = EvalKind::Material;
    let ghost d = depth as nat;
    let ghost ms = valid_moves(*board, next_turn_color);

    let first = next_moves[0];
    let mut future = board.clone();
    future.try_place_chip(first.0, first.1, next_turn_color);
    let mut best = evaluate_board(&future, color, !next_turn_color, depth - 1);
    proof {
        assert(best as int == child_value(k, *board, color, next_turn_color, d, ms[0]));
    }
    let mut p: usize = 1;
    if next_turn_color == color {
        while p < next_moves.len()
            invariant
                next_moves@ == ms,
                forall|t: int| 0 <= t < ms.len() ==> move_valid(
                    *board,
                    (#[trigger] ms[t]).0 as int,
                    ms[t].1 as int,
                    next_turn_color,
                ),
                k == EvalKind::Material,
                d == depth as nat,
                depth >= 1,
                next_turn_color == color,
                1 <= p <= ms.len(),
                exists|q: int|
                    0 <= q < p && best as int == child_value(
                        k,
                        *board,
                        color,
                        next_turn_color,
                        d,
                        #[trigger] ms[q],
                    ),
                forall|q: int|
                    0 <= q < p ==> child_value(k, *board, color, next_turn_color, d, #[trigger] ms[q])
                        <= best as int,
            decreases ms.len() - p,
        {
            let mv = next_moves[p];
            let mut fb = board.clone();
            fb.try_place_chip(mv.0, mv.1, next_turn_color);
            let val = evaluate_board(&fb, color, !next_turn_color, depth - 1);
            proof {
                assert(val as int == child_value(k, *board, color, next_turn_color, d, ms[p as int]));
            }
            if val >= best {
                best = val;
            }
            p = p + 1;
        }
    } else {
        while p < next_moves.len()
            invariant
                next_moves@ == ms,
                forall|t: int| 0 <= t < ms.len() ==> move_valid(
                    *board,
                    (#[trigger] ms[t]).0 as int,
                    ms[t].1 as int,
                    next_turn_color,
                ),
                k == EvalKind::Material,
                d == depth as nat,
                depth >= 1,
                next_turn_color != color,
                1 <= p <= ms.len(),
                exists|q: int|
                    0 <= q < p && best as int == child_value(
                        k,
                        *board,
                        color,
                        next_turn_color,
                        d,
                        #[trigger] ms[q],
                    ),
                forall|q: int|
                    0 <= q < p ==> best as int <= child_value(
                        k,
                        *board,
                        color,
                        next_turn_color,
                        d,
                        #[trigger] ms[q],
                    ),
            decreases ms.len() - p,
        {
            let mv = next_moves[p];
            let mut fb = board.clone();
            fb.try_place_chip(mv.0, mv.1, next_turn_color);
            let val = evaluate_board(&fb, color, !next_turn_color, depth - 1);
            proof {
                assert(val as int == child_value(k, *board, color, next_turn_color, d, ms[p as int]));
            }
            if val <= best {
                best = val;
            }
            p = p + 1;
        }
    }
    proof {
        lemma_best_child_props(k, *board, color, next_turn_color, d, ms, 0);
    }
    best
}

/// The leaf evaluation this search maximizes: the raw piece count.
pub fn heuristic_score(board: &Board, color: bool) -> (r: u16)
    ensures
        r as int == eval_score(EvalKind::Material, *board, color),
{
    board.count_pieces(color)
}

} // verus!
