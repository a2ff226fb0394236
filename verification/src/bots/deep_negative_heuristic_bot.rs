//! A bot that searches from its opponent's point of view and negates.

use vstd::prelude::*;

use crate::board::{Board, has_any_move, lemma_valid_moves_properties, move_valid, valid_moves};
use crate::bots::{MakeMove, deep_heuristic_bot};
use crate::search::{
    EvalKind, child_value, lemma_minimax_antisymmetry, lemma_minimax_bounds, minimax,
};

verus! {

/// The negamax variant of the deep positional bot: it searches each child
/// position from the opponent's perspective, negates the returned score,
/// and maximizes. Because the weighted evaluation is antisymmetric between
/// the two sides, this picks the same moves as searching from its own
/// perspective directly.
pub struct Bot {}

impl Bot {
    pub fn new() -> (r: Bot) {
        Bot {  }
    }
}

/// The initial lower bound for the negated score.
const NEG_INF_SCORE: i32 = i32::MIN;

/// The initial upper search bound handed to the positional search.
const POS_INF_SCORE: i32 = i32::MAX;

impl MakeMove for Bot {
    fn make_move(&mut self, board: &Board, color: bool) -> (m: (i8, i8))
        ensures
            (m.0 == -1 && m.1 == -1) == !has_any_move(*board, color),
            has_any_move(*board, color) ==> move_valid(*board, m.0 as int, m.1 as int, color)
                && exists|p: int|
                0 <= p < valid_moves(*board, color).len() && m == #[trigger] valid_moves(
                    *board,
                    color,
                )[p] && (forall|q: int|
                    0 <= q < valid_moves(*board, color).len() ==> child_value(
                        EvalKind::Weighted,
                        *board,
                        color,
                        color,
                        5,
                        #[trigger] valid_moves(*board, color)[q],
                    ) <= child_value(
                        EvalKind::Weighted,
                        *board,
                        color,
                        color,
                        5,
                        valid_moves(*board, color)[p],
                    )) && (forall|q: int|
                    0 <= q < p ==> child_value(
                        EvalKind::Weighted,
                        *board,
                        color,
                        color,
                        5,
                        #[trigger] valid_moves(*board, color)[q],
                    ) < child_value(
                        EvalKind::Weighted,
                        *board,
                        color,
                        color,
                        5,
                        valid_moves(*board, color)[p],
                    )),
    {
        proof {
            lemma_valid_moves_properties(*board, color);
        }
        let moves = board.get_all_valid_moves(color);
        if moves.len() == 0 {
            return (-1, -1);
        }
        let ghost k = EvalKind::Weighted;
        let ghost ms = valid_moves(*board, color);

        let mut best_score = NEG_INF_SCORE;
        let mut best_move: (i8, i8) = (-1, -1);
        let mut p: usize = 0;
        while p < moves.len()
            invariant
                moves@ == ms,
                ms.len() > 0,
                forall|t: int| 0 <= t < ms.len() ==> move_valid(
                    *board,
                    (#[trigger] ms[t]).0 as int,
                    ms[t].1 as int,
                    color,
                ),
                k == EvalKind::Weighted,
                0 <= p <= ms.len(),
                p == 0 ==> best_score == NEG_INF_SCORE && best_move == ((-1i8, -1i8)),
                p > 0 ==> exists|pp: int|
                    0 <= pp < p && best_move == #[trigger] ms[pp] && best_score as int
                        == child_value(k, *board, color, color, 5, ms[pp]) && (forall|q: int|
                        0 <= q < p ==> child_value(k, *board, color, color, 5, #[trigger] ms[q])
                            <= best_score as int) && (forall|q: int|
                        0 <= q < pp ==> child_value(k, *board, color, color, 5, #[trigger] ms[q])
                            < best_score as int),
            decreases ms.len() - p,
        {
            let mv = moves[p];
            let mut future = board.clone();
            future.try_place_chip(mv.0, mv.1, color);
            // search the child from the opponent's point of view
            let searched = deep_heuristic_bot::evaluate_board(
                &future,
                !color,
                !color,
                4,
                NEG_INF_SCORE,
                POS_INF_SCORE,
            );
            proof {
                lemma_minimax_bounds(k, future, !color, !color, 4);
                lemma_minimax_antisymmetry(future, color, !color, 4);
                assert(searched as int == minimax(k, future, !color, !color, 4));
                assert(-searched as int == child_value(k, *board, color, color, 5, ms[p as int]));
            }
            let result = -searched;
            if result > best_score {
                best_move = mv;
                best_score = result;
            }
            p = p + 1;
        }
        proof {
            assert(move_valid(*board, best_move.0 as int, best_move.1 as int, color));
        }
        best_move
    }
}

} // verus!
