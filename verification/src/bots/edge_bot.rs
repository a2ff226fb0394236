//! A bot that moves as close to an edge as it can.

use vstd::prelude::*;
use vstd::seq_lib::group_to_multiset_ensures;

use crate::board::{
    Board, coord_in_range, has_any_move, lemma_valid_moves_properties, move_valid, valid_moves,
};
use crate::bots::{MakeMove, rng};

verus! {

broadcast use group_to_multiset_ensures;

/// This bot chooses the move that is closest to an edge, breaking ties
/// at random.
pub struct Bot {
    generator: rand::rngs::ThreadRng,
}

impl Bot {
    pub fn new() -> (r: Bot) {
        Bot { generator: rng::fresh_rng() }
    }
}

/// How far a cell stands from the board's edges, summed per axis; the
/// bot minimizes it.
pub open spec fn edge_distance(m: (i8, i8)) -> int {
    (if m.0 < 4 {
        m.0 as int
    } else {
        7 - m.0 as int
    }) + (if m.1 < 4 {
        m.1 as int
    } else {
        7 - m.1 as int
    })
}

/// The distance score the bot minimizes.
pub fn evaluate_move(m: &(i8, i8)) -> (r: i8)
    requires
        coord_in_range(m.0 as int, m.1 as int),
    ensures
        r as int == edge_distance(*m),
{
    let x_score = if m.0 < 4 {
        m.0
    } else {
        7 - m.0
    };
    let y_score = if m.1 < 4 {
        m.1
    } else {
        7 - m.1
    };
    x_score + y_score
}

impl MakeMove for Bot {
    fn make_move(&mut self, board: &Board, color: bool) -> (m: (i8, i8))
        ensures
            (m.0 == -1 && m.1 == -1) == !has_any_move(*board, color),
            has_any_move(*board, color) ==> move_valid(*board, m.0 as int, m.1 as int, color)
                && forall|q: int|
                0 <= q < valid_moves(*board, color).len() ==> edge_distance(m) <= edge_distance(
                    #[trigger] valid_moves(*board, color)[q],
                ),
    {
        proof {
            lemma_valid_moves_properties(*board, color);
        }
        let mut moves = board.get_all_valid_moves(color);
        if moves.len() == 0 {
            return (-1, -1);
        }
        let ghost ms = valid_moves(*board, color);
        rng::shuffle_moves(&mut self.generator, &mut moves);
        proof {
            assert(moves@.to_multiset().len() == moves@.len());
            assert(ms.to_multiset().len() == ms.len());
            assert forall|t: int| 0 <= t < moves@.len() implies move_valid(
                *board,
                (#[trigger] moves@[t]).0 as int,
                moves@[t].1 as int,
                color,
            ) by {
                assert(moves@.to_multiset().count(moves@[t]) > 0);
                assert(ms.contains(moves@[t]));
            }
        }
        let ghost sv = moves@;
        let mut best = moves[0];
        let mut best_val = evaluate_move(&best);
        let mut p: usize = 1;
        while p < moves.len()
            invariant
                moves@ == sv,
                forall|t: int| 0 <= t < sv.len() ==> move_valid(
                    *board,
                    (#[trigger] sv[t]).0 as int,
                    sv[t].1 as int,
                    color,
                ),
                1 <= p <= sv.len(),
                exists|q: int| 0 <= q < p && best == #[trigger] sv[q],
                best_val as int == edge_distance(best),
                forall|q: int| 0 <= q < p ==> best_val as int <= edge_distance(#[trigger] sv[q]),
            decreases sv.len() - p,
        {
            let candidate = moves[p];
            let val = evaluate_move(&candidate);
            if val < best_val {
                best = candidate;
                best_val = val;
            }
            p = p + 1;
        }
        proof {
            assert forall|q: int| 0 <= q < ms.len() implies best_val as int <= edge_distance(
                #[trigger] ms[q],
            ) by {
                assert(ms.to_multiset().count(ms[q]) > 0);
                assert(sv.contains(ms[q]));
                let t = choose|t: int| 0 <= t < sv.len() && sv[t] == ms[q];
                assert(best_val as int <= edge_distance(sv[t]));
            }
            assert(sv.to_multiset().count(best) > 0);
            assert(ms.contains(best));
            let tb = choose|t: int| 0 <= t < ms.len() && ms[t] == best;
            assert(move_valid(*board, best.0 as int, best.1 as int, color));
        }
        best
    }
}

} // verus!
