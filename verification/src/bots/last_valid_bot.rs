//! A bot that always chooses the last valid move.

use vstd::prelude::*;

use crate::board::{
    Board, cell_index, has_any_move, lemma_valid_moves_properties, move_valid, valid_moves,
};
use crate::bots::MakeMove;

verus! {

/// This bot always chooses the last valid move in row-major scan order.
pub struct Bot {}

impl Bot {
    pub fn new() -> (r: Bot) {
        Bot {  }
    }
}

impl MakeMove for Bot {
    fn make_move(&mut self, board: &Board, color: bool) -> (m: (i8, i8))
        ensures
            (m.0 == -1 && m.1 == -1) == !has_any_move(*board, color),
            has_any_move(*board, color) ==> move_valid(*board, m.0 as int, m.1 as int, color)
                && forall|x: int, y: int|
                move_valid(*board, x, y, color) ==> y * 8 + x <= cell_index(m),
    {
        proof {
            lemma_valid_moves_properties(*board, color);
        }
        let moves = board.get_all_valid_moves(color);
        if moves.len() == 0 {
            return (-1, -1);
        }
        let m = moves[moves.len() - 1];
        proof {
            let ms = valid_moves(*board, color);
            assert forall|x: int, y: int| move_valid(*board, x, y, color) implies y * 8 + x
                <= cell_index(m) by {
                assert(ms.contains((x as i8, y as i8)));
                let q = choose|q: int| 0 <= q < ms.len() && ms[q] == (x as i8, y as i8);
                assert(cell_index(ms[q]) <= cell_index(ms[ms.len() - 1]));
            }
        }
        m
    }
}

} // verus!
