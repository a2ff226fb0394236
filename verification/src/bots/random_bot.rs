//! A bot that chooses a random move.

use vstd::prelude::*;

use crate::board::{Board, has_any_move, lemma_valid_moves_properties, valid_moves};
use crate::bots::{MakeMove, rng};

verus! {

/// This bot chooses one of the valid moves at random.
pub struct Bot {
    generator: rand::rngs::ThreadRng,
}

impl Bot {
    pub fn new() -> (r: Bot) {
        Bot { generator: rng::fresh_rng() }
    }
}

impl MakeMove for Bot {
    fn make_move(&mut self, board: &Board, color: bool) -> (m: (i8, i8))
        ensures
            (m.0 == -1 && m.1 == -1) == !has_any_move(*board, color),
            has_any_move(*board, color) ==> valid_moves(*board, color).contains(m),
    {
        proof {
            lemma_valid_moves_properties(*board, color);
        }
        let moves = board.get_all_valid_moves(color);
        if moves.len() == 0 {
            return (-1, -1);
        }
        let i = rng::random_below(&mut self.generator, moves.len());
        moves[i]
    }
}

} // verus!
