//! The bots: a uniform decision interface, and a runner that alternates
//! two bots over one board until neither can move.

use vstd::prelude::*;

use crate::board::{
    Board, has_any_move, lemma_reachable_refl, lemma_reachable_step, move_valid, occupied_count,
    place_result, reachable, starting_board,
};
use crate::search::lemma_piece_counts;

pub mod center_bot;
pub mod deep_heuristic_bot;
pub mod deep_minmax_bot;
pub mod deep_negative_heuristic_bot;
pub mod deep_score_bot;
pub mod edge_bot;
pub mod edge_exclusive_bot;
pub mod first_valid_bot;
pub mod last_valid_bot;
pub mod minmax_score_bot;
pub mod random_bot;
pub mod shallow_score_bot;

pub(crate) mod rng;

verus! {

/// A move as a bot may return it: the sentinel (-1, -1) meaning "no move",
/// or a legal move of `c` on `b`.
pub open spec fn move_ok(b: Board, c: bool, m: (i8, i8)) -> bool {
    (m.0 == -1 && m.1 == -1) || move_valid(b, m.0 as int, m.1 as int, c)
}

/// The capability every bot offers: pick a move for `color` on `board`.
/// The board itself is never touched by a decision.
pub trait MakeMove {
    /// Returns the sentinel (-1, -1) or a legal move; whenever no legal
    /// move exists the sentinel comes back.
    fn make_move(&mut self, board: &Board, color: bool) -> (m: (i8, i8))
        ensures
            move_ok(*board, color, m),
            !has_any_move(*board, color) ==> m.0 == -1 && m.1 == -1,
    ;
}

/// One of the engine's bots, picked at run time. A tagged union takes the
/// place of boxed trait objects, with the same call-site ergonomics.
pub enum AnyBot {
    Center(center_bot::Bot),
    DeepHeuristic(deep_heuristic_bot::Bot),
    DeepMinmax(deep_minmax_bot::Bot),
    DeepNegativeHeuristic(deep_negative_heuristic_bot::Bot),
    DeepScore(deep_score_bot::Bot),
    Edge(edge_bot::Bot),
    EdgeExclusive(edge_exclusive_bot::Bot),
    FirstValid(first_valid_bot::Bot),
    LastValid(last_valid_bot::Bot),
    MinmaxScore(minmax_score_bot::Bot),
    Random(random_bot::Bot),
    ShallowScore(shallow_score_bot::Bot),
}

impl MakeMove for AnyBot {
    fn make_move(&mut self, board: &Board, color: bool) -> (m: (i8, i8)) {
        match self {
            AnyBot::Center(bot) => bot.make_move(board, color),
            AnyBot::DeepHeuristic(bot) => bot.make_move(board, color),
            AnyBot::DeepMinmax(bot) => bot.make_move(board, color),
            AnyBot::DeepNegativeHeuristic(bot) => bot.make_move(board, color),
            AnyBot::DeepScore(bot) => bot.make_move(board, color),
            AnyBot::Edge(bot) => bot.make_move(board, color),
            AnyBot::EdgeExclusive(bot) => bot.make_move(board, color),
            AnyBot::FirstValid(bot) => bot.make_move(board, color),
            AnyBot::LastValid(bot) => bot.make_move(board, color),
            AnyBot::MinmaxScore(bot) => bot.make_move(board, color),
            AnyBot::Random(bot) => bot.make_move(board, color),
            AnyBot::ShallowScore(bot) => bot.make_move(board, color),
        }
    }
}

/// Alternates a black and a white bot over one board.
pub struct BotRunner {
    pub board: Board,
    pub white_bot: Option<AnyBot>,
    pub black_bot: Option<AnyBot>,
}

impl BotRunner {
    /// A runner for the given bots, starting from the opening board.
    pub fn new(black_bot: Option<AnyBot>, white_bot: Option<AnyBot>) -> (r: BotRunner)
        ensures
            r.board == starting_board(),
            r.black_bot == black_bot,
            r.white_bot == white_bot,
    {
        BotRunner { black_bot, white_bot, board: Board::new() }
    }

    /// Lets the two bots move in turn until a full round passes in which
    /// neither placed a chip. Needs both bots; with one missing the board
    /// is left untouched. The board only ever advances by legal
    /// placements, black moving before white within each round.
    pub fn run_game_to_end(&mut self)
        ensures
            old(self).black_bot is None || old(self).white_bot is None ==> *final(self) == *old(
                self,
            ),
            final(self).black_bot is Some == old(self).black_bot is Some,
            final(self).white_bot is Some == old(self).white_bot is Some,
            reachable(old(self).board, final(self).board),
    {
        proof {
            lemma_reachable_refl(self.board);
        }
        if self.black_bot.is_none() || self.white_bot.is_none() {
            return ;
        }
        let mut black_bot = self.black_bot.take().unwrap();
        let mut white_bot = self.white_bot.take().unwrap();
        loop
            invariant
                self.black_bot is None,
                self.white_bot is None,
                reachable(old(self).board, self.board),
            decreases 64 - occupied_count(self.board),
        {
            proof {
                lemma_piece_counts(self.board, false);
            }
            let mut moved = false;

            let ghost before_black = self.board;
            let black_move = black_bot.make_move(&self.board, false);
            if black_move.0 >= 0 && black_move.1 >= 0 && self.board.try_place_chip(
                black_move.0,
                black_move.1,
                false,
            ) {
                moved = true;
                proof {
                    lemma_reachable_step(
                        old(self).board,
                        before_black,
                        black_move.0,
                        black_move.1,
                        false,
                    );
                }
            }

            let ghost before_white = self.board;
            let white_move = white_bot.make_move(&self.board, true);
            if white_move.0 >= 0 && white_move.1 >= 0 && self.board.try_place_chip(
                white_move.0,
                white_move.1,
                true,
            ) {
                moved = true;
                proof {
                    lemma_reachable_step(
                        old(self).board,
                        before_white,
                        white_move.0,
                        white_move.1,
                        true,
                    );
                }
            }

            if !moved {
                break ;
            }
            proof {
                lemma_piece_counts(self.board, false);
            }
        }
        self.black_bot = Some(black_bot);
        self.white_bot = Some(white_bot);
    }

    /// Runs the black bot's move once. Returns true iff a black bot is set
    /// and its move was placed; the board then shows that placement, and
    /// is untouched otherwise. A failed or missing move is the caller's
    /// signal that this side cannot continue.
    pub fn run_black_bot(&mut self) -> (r: bool)
        ensures
            !r ==> final(self).board == old(self).board,
            r ==> exists|m: (i8, i8)|
                move_valid(old(self).board, m.0 as int, m.1 as int, false) && final(self).board
                    == place_result(old(self).board, m.0 as int, m.1 as int, false),
            old(self).black_bot is None ==> !r,
            !has_any_move(old(self).board, false) ==> !r,
            final(self).black_bot is Some == old(self).black_bot is Some,
            final(self).white_bot == old(self).white_bot,
    {
        match self.black_bot.take() {
            Some(mut bot) => {
                let m = bot.make_move(&self.board, false);
                self.black_bot = Some(bot);
                m.0 >= 0 && m.1 >= 0 && self.board.try_place_chip(m.0, m.1, false)
            },
            None => false,
        }
    }

    /// Runs the white bot's move once; the mirror of `run_black_bot`.
    pub fn run_white_bot(&mut self) -> (r: bool)
        ensures
            !r ==> final(self).board == old(self).board,
            r ==> exists|m: (i8, i8)|
                move_valid(old(self).board, m.0 as int, m.1 as int, true) && final(self).board
                    == place_result(old(self).board, m.0 as int, m.1 as int, true),
            old(self).white_bot is None ==> !r,
            !has_any_move(old(self).board, true) ==> !r,
            final(self).white_bot is Some == old(self).white_bot is Some,
            final(self).black_bot == old(self).black_bot,
    {
        match self.white_bot.take() {
            Some(mut bot) => {
                let m = bot.make_move(&self.board, true);
                self.white_bot = Some(bot);
                m.0 >= 0 && m.1 >= 0 && self.board.try_place_chip(m.0, m.1, true)
            },
            None => false,
        }
    }
}

} // verus!
