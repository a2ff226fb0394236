//! A bot that looks one opponent reply ahead.

use vstd::prelude::*;

use crate::board::{
    Board, has_any_move, lemma_valid_moves_properties, move_valid, place_result, valid_moves,
};
use crate::bots::MakeMove;
use crate::search::{
    EvalKind, best_child, child_value, eval_score, lemma_best_child_props, minimax,
};

verus! {

/// This bot picks the move that gives it the most score after the best
/// opponent move, breaking ties toward the last such move in scan order.
pub struct Bot {}

impl Bot {
    pub fn new() -> (r: Bot) {
        Bot {  }
    }
}

impl MakeMove for Bot {
    fn make_move(&mut self, board: &Board, color: bool) -> (m: (i8, i8))
        ensures
            (m.0 == -1 && m.1 == -1) == !has_any_move(*board, color),
            has_any_move(*board, color) ==> move_valid(*board, m.0 as int, m.1 as int, color)
                && exists|p: int|
                0 <= p < valid_moves(*board, color).len() && m == #[trigger] valid_moves(
                    *board,
                    color,
                )[p] && (forall|q: int|
                    0 <= q < valid_moves(*board, color).len() ==> child_value(
                        EvalKind::Material,
                        *board,
                        color,
                        color,
                        2,
                        #[trigger] valid_moves(*board, color)[q],
                    ) <= child_value(
                        EvalKind::Material,
                        *board,
                        color,
                        color,
                        2,
                        valid_moves(*board, color)[p],
                    )) && (forall|q: int|
                    p < q < valid_moves(*board, color).len() ==> child_value(
                        EvalKind::Material,
                        *board,
                        color,
                        color,
                        2,
                        #[trigger] valid_moves(*board, color)[q],
                    ) < child_value(
                        EvalKind::Material,
                        *board,
                        color,
                        color,
                        2,
                        valid_moves(*board, color)[p],
                    )),
    {
        proof {
            lemma_valid_moves_properties(*board, color);
        }
        let moves = board.get_all_valid_moves(color);
        if moves.len() == 0 {
            return (-1, -1);
        }
        let ghost k = EvalKind::Material;
        let ghost ms = valid_moves(*board, color);

        let mut best = moves[0];
        let mut best_val = evaluate_move(&best, board, color);
        proof {
            assert(best_val as int == child_value(k, *board, color, color, 2, ms[0]));
        }
        let mut p: usize = 1;
        while p < moves.len()
            invariant
                moves@ == ms,
                forall|t: int| 0 <= t < ms.len() ==> move_valid(
                    *board,
                    (#[trigger] ms[t]).0 as int,
                    ms[t].1 as int,
                    color,
                ),
                k == EvalKind::Material,
                1 <= p <= ms.len(),
                exists|q: int|
                    0 <= q < p && best == #[trigger] ms[q] && best_val as int == child_value(
                        k,
                        *board,
                        color,
                        color,
                        2,
                        ms[q],
                    ) && (forall|t: int|
                        q < t < p ==> child_value(k, *board, color, color, 2, #[trigger] ms[t])
                            < best_val as int),
                forall|q: int|
                    0 <= q < p ==> child_value(k, *board, color, color, 2, #[trigger] ms[q])
                        <= best_val as int,
            decreases ms.len() - p,
        {
            let candidate = moves[p];
            let val = evaluate_move(&candidate, board, color);
            proof {
                assert(val as int == child_value(k, *board, color, color, 2, ms[p as int]));
            }
            if val >= best_val {
                best = candidate;
                best_val = val;
            }
            p = p + 1;
        }
        best
    }
}

/// The score move `m` guarantees `color` after the opponent's strongest
/// immediate reply: the 2-ply minimax value of the board it leaves.
pub fn evaluate_move(m: &(i8, i8), board: &Board, color: bool) -> (r: u16)
    requires
        move_valid(*board, m.0 as int, m.1 as int, color),
    ensures
        r as int == minimax(
            EvalKind::Material,
            place_result(*board, m.0 as int, m.1 as int, color),
            color,
            !color,
            1,
        ),
{
    let ghost k = EvalKind::Material;
    let mut future = board.clone();
    future.try_place_chip(m.0, m.1, color);
    let ghost fb = future;
    proof {
        lemma_valid_moves_properties(fb, !color);
    }
    let opponent_moves = future.get_all_valid_moves(!color);
    if opponent_moves.len() == 0 {
        proof {
            assert(best_child(k, fb, color, !color, 1, valid_moves(fb, !color), 0) is None);
            assert(minimax(k, fb, color, !(!color), 0) == eval_score(k, fb, color));
        }
        return heuristic_score(&future, color);
    }
    let ghost ms = valid_moves(fb, !color);
    let first = opponent_moves[0];
    let mut future2 = future.clone();
    future2.try_place_chip(first.0, first.1, !color);
    let mut worst = heuristic_score(&future2, color);
    proof {
        assert(worst as int == child_value(k, fb, color, !color, 1, ms[0]));
    }
    let mut p: usize = 1;
    while p < opponent_moves.len()
        invariant
            opponent_moves@ == ms,
            forall|t: int| 0 <= t < ms.len() ==> move_valid(
                fb,
                (#[trigger] ms[t]).0 as int,
                ms[t].1 as int,
                !color,
            ),
            k == EvalKind::Material,
            future == fb,
            1 <= p <= ms.len(),
            exists|q: int|
                0 <= q < p && worst as int == child_value(k, fb, color, !color, 1, #[trigger] ms[q]),
            forall|q: int|
                0 <= q < p ==> worst as int <= child_value(k, fb, color, !color, 1, #[trigger] ms[q]),
        decreases ms.len() - p,
    {
        let reply = opponent_moves[p];
        let mut future3 = future.clone();
        future3.try_place_chip(reply.0, reply.1, !color);
        let val = heuristic_score(&future3, color);
        proof {
            assert(val as int == child_value(k, fb, color, !color, 1, ms[p as int]));
        }
        if val <= worst {
            worst = val;
        }
        p = p + 1;
    }
    proof {
        lemma_best_child_props(k, fb, color, !color, 1, ms, 0);
    }
    worst
}

/// The leaf evaluation this bot optimizes: the raw piece count.
pub fn heuristic_score(board: &Board, color: bool) -> (r: u16)
    ensures
        r as int == eval_score(EvalKind::Material, *board, color),
{
    board.count_pieces(color)
}

} // verus!
