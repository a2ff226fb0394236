//! A bot that always chooses the first valid move.

use vstd::prelude::*;

use crate::board::{Board, cell_index, coord_in_range, has_any_move, move_valid};
use crate::bots::MakeMove;

verus! {

/// This bot always chooses the first valid move in row-major scan order.
pub struct Bot {}

impl Bot {
    pub fn new() -> (r: Bot) {
        Bot {  }
    }
}

impl MakeMove for Bot {
    fn make_move(&mut self, board: &Board, color: bool) -> (m: (i8, i8))
        ensures
            (m.0 == -1 && m.1 == -1) == !has_any_move(*board, color),
            has_any_move(*board, color) ==> move_valid(*board, m.0 as int, m.1 as int, color)
                && forall|x: int, y: int|
                move_valid(*board, x, y, color) ==> cell_index(m) <= y * 8 + x,
    {
        let mut yy: i8 = 0;
        while yy < 8
            invariant
                0 <= yy <= 8,
                forall|x: int, y: int|
                    coord_in_range(x, y) && y * 8 + x < yy as int * 8 ==> !move_valid(
                        *board,
                        x,
                        y,
                        color,
                    ),
            decreases 8 - yy,
        {
            let mut xx: i8 = 0;
            while xx < 8
                invariant
                    0 <= yy < 8,
                    0 <= xx <= 8,
                    forall|x: int, y: int|
                        coord_in_range(x, y) && y * 8 + x < yy as int * 8 + xx as int
                            ==> !move_valid(*board, x, y, color),
                decreases 8 - xx,
            {
                if board.is_valid_move(xx, yy, color) {
                    return (xx, yy);
                }
                xx = xx + 1;
            }
            yy = yy + 1;
        }
        proof {
            if has_any_move(*board, color) {
                let (x, y) = choose|x: int, y: int| move_valid(*board, x, y, color);
                assert(!move_valid(*board, x, y, color));
            }
        }
        (-1, -1)
    }
}

} // verus!
