//! A bot that chooses the move farthest from the board's edges.

use vstd::prelude::*;

use crate::board::{
    Board, coord_in_range, has_any_move, lemma_valid_moves_properties, move_valid, valid_moves,
};
use crate::bots::MakeMove;

verus! {

/// This bot chooses the move with the greatest distance score from the
/// edges, breaking ties toward the last such move in scan order.
pub struct Bot {}

impl Bot {
    pub fn new() -> (r: Bot) {
        Bot {  }
    }
}

/// How far a cell stands from the board's edges, summed per axis.
pub open spec fn centrality(m: (i8, i8)) -> int {
    (if m.0 < 4 {
        m.0 as int
    } else {
        7 - m.0 as int
    }) + (if m.1 < 4 {
        m.1 as int
    } else {
        7 - m.1 as int
    })
}

/// The distance score the bot maximizes.
pub fn evaluate_move(m: &(i8, i8)) -> (r: i8)
    requires
        coord_in_range(m.0 as int, m.1 as int),
    ensures
        r as int == centrality(*m),
{
    let x_score = if m.0 < 4 {
        m.0
    } else {
        7 - m.0
    };
    let y_score = if m.1 < 4 {
        m.1
    } else {
        7 - m.1
    };
    x_score + y_score
}

impl MakeMove for Bot {
    fn make_move(&mut self, board: &Board, color: bool) -> (m: (i8, i8))
        ensures
            (m.0 == -1 && m.1 == -1) == !has_any_move(*board, color),
            has_any_move(*board, color) ==> move_valid(*board, m.0 as int, m.1 as int, color)
                && exists|p: int|
                0 <= p < valid_moves(*board, color).len() && m == #[trigger] valid_moves(
                    *board,
                    color,
                )[p] && (forall|q: int|
                    0 <= q < valid_moves(*board, color).len() ==> centrality(
                        #[trigger] valid_moves(*board, color)[q],
                    ) <= centrality(valid_moves(*board, color)[p])) && (forall|q: int|
                    p < q < valid_moves(*board, color).len() ==> centrality(
                        #[trigger] valid_moves(*board, color)[q],
                    ) < centrality(valid_moves(*board, color)[p])),
    {
        proof {
            lemma_valid_moves_properties(*board, color);
        }
        let moves = board.get_all_valid_moves(color);
        if moves.len() == 0 {
            return (-1, -1);
        }
        let ghost ms = valid_moves(*board, color);
        let mut best = moves[0];
        let mut best_score = evaluate_move(&best);
        let ghost mut best_p: int = 0;
        let mut p: usize = 1;
        while p < moves.len()
            invariant
                moves@ == ms,
                forall|t: int| 0 <= t < ms.len() ==> move_valid(
                    *board,
                    (#[trigger] ms[t]).0 as int,
                    ms[t].1 as int,
                    color,
                ),
                1 <= p <= ms.len(),
                0 <= best_p < p,
                best == ms[best_p],
                best_score as int == centrality(best),
                forall|q: int| 0 <= q < p ==> centrality(#[trigger] ms[q]) <= centrality(best),
                forall|q: int| best_p < q < p ==> centrality(#[trigger] ms[q]) < centrality(best),
            decreases moves@.len() - p,
        {
            let candidate = moves[p];
            let score = evaluate_move(&candidate);
            if score >= best_score {
                best = candidate;
                best_score = score;
                proof {
                    best_p = p as int;
                }
            }
            p = p + 1;
        }
        best
    }
}

} // verus!
