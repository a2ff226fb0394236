//! The host-facing control surface of the engine.
//!
//! A host creates a bot into the staging slot, assigns it to a color,
//! creates a game from the assigned bots, and then reads or drives the
//! game. Callers must create a game before touching the board.

use vstd::prelude::*;

use crate::board::{
    Board, has_any_move, move_valid, piece_count, place_result, reachable, starting_board,
};
use crate::bots::{
    AnyBot, BotRunner, center_bot, deep_heuristic_bot, deep_negative_heuristic_bot,
    deep_score_bot, edge_bot, edge_exclusive_bot, first_valid_bot, last_valid_bot,
    minmax_score_bot, random_bot, shallow_score_bot,
};

verus! {

/// Staging area and running game, as the host sees them.
pub struct JsInterface {
    pub bot_runner: Option<BotRunner>,
    pub white_bot: Option<AnyBot>,
    pub black_bot: Option<AnyBot>,
    pub staged_bot: Option<AnyBot>,
}

impl JsInterface {
    /// A fresh interface: no staged bot, no assigned bots, no game.
    pub fn new() -> (r: JsInterface)
        ensures
            r.bot_runner is None,
            r.white_bot is None,
            r.black_bot is None,
            r.staged_bot is None,
    {
        JsInterface { bot_runner: None, white_bot: None, black_bot: None, staged_bot: None }
    }

    /// Stages a center-seeking bot.
    pub fn create_new_center_bot(&mut self)
        ensures
            final(self).staged_bot matches Some(AnyBot::Center(_)),
            final(self).bot_runner == old(self).bot_runner,
            final(self).white_bot == old(self).white_bot,
            final(self).black_bot == old(self).black_bot,
    {
        self.staged_bot = Some(AnyBot::Center(center_bot::Bot::new()));
    }

    /// Stages a deep positional-search bot.
    pub fn create_deep_heuristic_bot(&mut self)
        ensures
            final(self).staged_bot matches Some(AnyBot::DeepHeuristic(_)),
            final(self).bot_runner == old(self).bot_runner,
            final(self).white_bot == old(self).white_bot,
            final(self).black_bot == old(self).black_bot,
    {
        self.staged_bot = Some(AnyBot::DeepHeuristic(deep_heuristic_bot::Bot::new()));
    }

    /// Stages a bot that minimizes the deep positional search.
    pub fn create_deep_negative_heuristic_bot(&mut self)
        ensures
            final(self).staged_bot matches Some(AnyBot::DeepNegativeHeuristic(_)),
            final(self).bot_runner == old(self).bot_runner,
            final(self).white_bot == old(self).white_bot,
            final(self).black_bot == old(self).black_bot,
    {
        self.staged_bot = Some(
            AnyBot::DeepNegativeHeuristic(deep_negative_heuristic_bot::Bot::new()),
        );
    }

    /// Stages a deep piece-count search bot with pruning.
    pub fn create_deep_score_bot(&mut self)
        ensures
            final(self).staged_bot matches Some(AnyBot::DeepScore(_)),
            final(self).bot_runner == old(self).bot_runner,
            final(self).white_bot == old(self).white_bot,
            final(self).black_bot == old(self).black_bot,
    {
        self.staged_bot = Some(AnyBot::DeepScore(deep_score_bot::Bot::new()));
    }

    /// Stages an edge-seeking bot.
    pub fn create_new_edge_bot(&mut self)
        ensures
            final(self).staged_bot matches Some(AnyBot::Edge(_)),
            final(self).bot_runner == old(self).bot_runner,
            final(self).white_bot == old(self).white_bot,
            final(self).black_bot == old(self).black_bot,
    {
        self.staged_bot = Some(AnyBot::Edge(edge_bot::Bot::new()));
    }

    /// Stages a bot that grabs border cells when it can.
    pub fn create_new_edge_exclusive_bot(&mut self)
        ensures
            final(self).staged_bot matches Some(AnyBot::EdgeExclusive(_)),
            final(self).bot_runner == old(self).bot_runner,
            final(self).white_bot == old(self).white_bot,
            final(self).black_bot == old(self).black_bot,
    {
        self.staged_bot = Some(AnyBot::EdgeExclusive(edge_exclusive_bot::Bot::new()));
    }

    /// Stages a bot that takes the first valid move.
    pub fn create_new_first_valid_move_bot(&mut self)
        ensures
            final(self).staged_bot matches Some(AnyBot::FirstValid(_)),
            final(self).bot_runner == old(self).bot_runner,
            final(self).white_bot == old(self).white_bot,
            final(self).black_bot == old(self).black_bot,
    {
        self.staged_bot = Some(AnyBot::FirstValid(first_valid_bot::Bot::new()));
    }

    /// Stages a bot that takes the last valid move.
    pub fn create_new_last_valid_move_bot(&mut self)
        ensures
            final(self).staged_bot matches Some(AnyBot::LastValid(_)),
            final(self).bot_runner == old(self).bot_runner,
            final(self).white_bot == old(self).white_bot,
            final(self).black_bot == old(self).black_bot,
    {
        self.staged_bot = Some(AnyBot::LastValid(last_valid_bot::Bot::new()));
    }

    /// Stages a bot that weighs the opponent's best reply.
    pub fn create_new_minmax_score_bot(&mut self)
        ensures
            final(self).staged_bot matches Some(AnyBot::MinmaxScore(_)),
            final(self).bot_runner == old(self).bot_runner,
            final(self).white_bot == old(self).white_bot,
            final(self).black_bot == old(self).black_bot,
    {
        self.staged_bot = Some(AnyBot::MinmaxScore(minmax_score_bot::Bot::new()));
    }

    /// Stages a bot that moves at random.
    pub fn create_new_random_bot(&mut self)
        ensures
            final(self).staged_bot matches Some(AnyBot::Random(_)),
            final(self).bot_runner == old(self).bot_runner,
            final(self).white_bot == old(self).white_bot,
            final(self).black_bot == old(self).black_bot,
    {
        self.staged_bot = Some(AnyBot::Random(random_bot::Bot::new()));
    }

    /// Stages a bot that flips the most pieces in one move.
    pub fn create_shallow_score_bot(&mut self)
        ensures
            final(self).staged_bot matches Some(AnyBot::ShallowScore(_)),
            final(self).bot_runner == old(self).bot_runner,
            final(self).white_bot == old(self).white_bot,
            final(self).black_bot == old(self).black_bot,
    {
        self.staged_bot = Some(AnyBot::ShallowScore(shallow_score_bot::Bot::new()));
    }

    /// Moves the staged bot into the white slot, leaving staging empty.
    pub fn set_bot_as_white(&mut self)
        ensures
            final(self).white_bot == old(self).staged_bot,
            final(self).staged_bot is None,
            final(self).bot_runner == old(self).bot_runner,
            final(self).black_bot == old(self).black_bot,
    {
        self.white_bot = self.staged_bot.take();
    }

    /// Moves the staged bot into the black slot, leaving staging empty.
    pub fn set_bot_as_black(&mut self)
        ensures
            final(self).black_bot == old(self).staged_bot,
            final(self).staged_bot is None,
            final(self).bot_runner == old(self).bot_runner,
            final(self).white_bot == old(self).white_bot,
    {
        self.black_bot = self.staged_bot.take();
    }

    /// Builds a game from the assigned bots, over the opening board; the
    /// bot slots are consumed.
    pub fn create_game(&mut self)
        ensures
            final(self).bot_runner matches Some(r) ==> {
                &&& r.board == starting_board()
                &&& r.black_bot == old(self).black_bot
                &&& r.white_bot == old(self).white_bot
            },
            final(self).bot_runner is Some,
            final(self).black_bot is None,
            final(self).white_bot is None,
            final(self).staged_bot == old(self).staged_bot,
    {
        self.bot_runner = Some(BotRunner::new(self.black_bot.take(), self.white_bot.take()));
    }

    /// The occupancy mask of the running game's board.
    pub fn get_board_filled(&self) -> (r: u64)
        requires
            self.bot_runner is Some,
        ensures
            r == self.bot_runner->Some_0.board.filled,
    {
        match &self.bot_runner {
            Some(runner) => runner.board.filled,
            None => 0,
        }
    }

    /// The color mask of the running game's board.
    pub fn get_board_color(&self) -> (r: u64)
        requires
            self.bot_runner is Some,
        ensures
            r == self.bot_runner->Some_0.board.color,
    {
        match &self.bot_runner {
            Some(runner) => runner.board.color,
            None => 0,
        }
    }

    /// Places a chip of `color` on the running game's board, applying the
    /// capture rule; reports whether the placement was legal.
    pub fn board_try_place(&mut self, x: i8, y: i8, color: bool) -> (r: bool)
        requires
            old(self).bot_runner is Some,
            0 <= x < 8,
            0 <= y < 8,
        ensures
            r == move_valid(old(self).bot_runner->Some_0.board, x as int, y as int, color),
            final(self).bot_runner is Some,
            r ==> final(self).bot_runner->Some_0.board == place_result(
                old(self).bot_runner->Some_0.board,
                x as int,
                y as int,
                color,
            ),
            !r ==> *final(self) == *old(self),
    {
        let mut runner = self.bot_runner.take().unwrap();
        let r = runner.board.try_place_chip(x, y, color);
        self.bot_runner = Some(runner);
        r
    }

    /// Checks if there is a valid move for a player.
    pub fn board_has_valid_move(&self, color: bool) -> (r: bool)
        requires
            self.bot_runner is Some,
        ensures
            r == has_any_move(self.bot_runner->Some_0.board, color),
    {
        match &self.bot_runner {
            Some(runner) => runner.board.has_valid_move(color),
            None => false,
        }
    }

    /// Counts the number of pieces of a color.
    pub fn board_count_pieces(&self, color: bool) -> (r: u16)
        requires
            self.bot_runner is Some,
        ensures
            r as int == piece_count(self.bot_runner->Some_0.board, color),
    {
        match &self.bot_runner {
            Some(runner) => runner.board.count_pieces(color),
            None => 0,
        }
    }

    /// Lets the two bots play the running game out to the end; the board
    /// only ever advances by legal placements.
    pub fn bot_run_to_end(&mut self)
        requires
            old(self).bot_runner is Some,
        ensures
            final(self).bot_runner is Some,
            reachable(
                old(self).bot_runner->Some_0.board,
                final(self).bot_runner->Some_0.board,
            ),
    {
        let mut runner = self.bot_runner.take().unwrap();
        runner.run_game_to_end();
        self.bot_runner = Some(runner);
    }

    /// Replays the game from the opening `times` times and tallies wins:
    /// the result holds the black then the white win count. Each game is
    /// played from the opening board by legal placements only, and counts
    /// for the side holding strictly more pieces at its end, so draws
    /// count for neither side.
    pub fn bot_run_to_end_times(&mut self, times: u32) -> (r: Vec<u32>)
        requires
            old(self).bot_runner is Some,
        ensures
            final(self).bot_runner is Some,
            r@.len() == 2,
            r@[0] + r@[1] <= times,
            exists|finals: Seq<Board>|
                #![trigger win_count(finals, false)]
                finals.len() == times as int && (forall|i: int|
                    0 <= i < finals.len() ==> reachable(starting_board(), #[trigger] finals[i]))
                    && r@[0] as int == win_count(finals, false) && r@[1] as int == win_count(
                    finals,
                    true,
                ),
    {
        let mut runner = self.bot_runner.take().unwrap();

        let mut white_wins: u32 = 0;
        let mut black_wins: u32 = 0;
        let ghost mut finals: Seq<Board> = Seq::empty();

        let mut round: u32 = 0;
        while round < times
            invariant
                round <= times,
                black_wins + white_wins <= round,
                finals.len() == round as int,
                forall|i: int|
                    0 <= i < finals.len() ==> reachable(starting_board(), #[trigger] finals[i]),
                black_wins as int == win_count(finals, false),
                white_wins as int == win_count(finals, true),
            decreases times - round,
        {
            let ghost finals_before = finals;
            runner.board = Board::new();
            runner.run_game_to_end();

            let whites = runner.board.count_pieces(true);
            let blacks = runner.board.count_pieces(false);
            if whites > blacks {
                white_wins = white_wins + 1;
            } else if whites < blacks {
                black_wins = black_wins + 1;
            }
            proof {
                finals = finals.push(runner.board);
                assert(finals.drop_last() =~= finals_before);
                assert(finals.last() == runner.board);
            }
            round = round + 1;
        }

        self.bot_runner = Some(runner);
        let mut tally: Vec<u32> = Vec::new();
        tally.push(black_wins);
        tally.push(white_wins);
        tally
    }

    /// Runs the white bot for one move. Returns the coordinates it
    /// played, or None when it could not move; None is the caller's
    /// signal that white cannot continue.
    pub fn bot_run_white(&mut self) -> (r: Option<Vec<i8>>)
        requires
            old(self).bot_runner is Some,
        ensures
            final(self).bot_runner is Some,
            r matches Some(v) ==> v@.len() == 2 && move_valid(
                old(self).bot_runner->Some_0.board,
                v@[0] as int,
                v@[1] as int,
                true,
            ) && final(self).bot_runner->Some_0.board == place_result(
                old(self).bot_runner->Some_0.board,
                v@[0] as int,
                v@[1] as int,
                true,
            ),
            r is None ==> final(self).bot_runner->Some_0.board == old(
                self,
            ).bot_runner->Some_0.board,
    {
        let mut runner = self.bot_runner.take().unwrap();
        let before = runner.board;
        let ok = runner.run_white_bot();
        if !ok {
            self.bot_runner = Some(runner);
            return None;
        }
        let m = find_new_piece(&runner.board, &before, true);
        self.bot_runner = Some(runner);
        let mut coords: Vec<i8> = Vec::new();
        coords.push(m.0);
        coords.push(m.1);
        Some(coords)
    }

    /// Runs the black bot for one move; the mirror of `bot_run_white`.
    pub fn bot_run_black(&mut self) -> (r: Option<Vec<i8>>)
        requires
            old(self).bot_runner is Some,
        ensures
            final(self).bot_runner is Some,
            r matches Some(v) ==> v@.len() == 2 && move_valid(
                old(self).bot_runner->Some_0.board,
                v@[0] as int,
                v@[1] as int,
                false,
            ) && final(self).bot_runner->Some_0.board == place_result(
                old(self).bot_runner->Some_0.board,
                v@[0] as int,
                v@[1] as int,
                false,
            ),
            r is None ==> final(self).bot_runner->Some_0.board == old(
                self,
            ).bot_runner->Some_0.board,
    {
        let mut runner = self.bot_runner.take().unwrap();
        let before = runner.board;
        let ok = runner.run_black_bot();
        if !ok {
            self.bot_runner = Some(runner);
            return None;
        }
        let m = find_new_piece(&runner.board, &before, false);
        self.bot_runner = Some(runner);
        let mut coords: Vec<i8> = Vec::new();
        coords.push(m.0);
        coords.push(m.1);
        Some(coords)
    }
}

/// Number of boards in the list on which `side` holds strictly more
/// pieces than its opponent.
pub open spec fn win_count(finals: Seq<Board>, side: bool) -> int
    decreases finals.len(),
{
    if finals.len() == 0 {
        0
    } else {
        win_count(finals.drop_last(), side) + if piece_count(finals.last(), side) > piece_count(
            finals.last(),
            !side,
        ) {
            1int
        } else {
            0int
        }
    }
}

/// The cell a successful placement filled: the unique cell occupied now
/// but not before.
fn find_new_piece(now: &Board, before: &Board, color: bool) -> (m: (i8, i8))
    requires
        exists|mm: (i8, i8)|
            move_valid(*before, mm.0 as int, mm.1 as int, color) && *now == place_result(
                *before,
                mm.0 as int,
                mm.1 as int,
                color,
            ),
    ensures
        move_valid(*before, m.0 as int, m.1 as int, color),
        *now == place_result(*before, m.0 as int, m.1 as int, color),
{
    let ghost mm: (i8, i8) = choose|mm: (i8, i8)|
        move_valid(*before, mm.0 as int, mm.1 as int, color) && *now == place_result(
            *before,
            mm.0 as int,
            mm.1 as int,
            color,
        );
    proof {
        crate::board::lemma_place_result_cells(*before, mm.0 as int, mm.1 as int, color);
    }
    let mut yy: i8 = 0;
    while yy < 8
        invariant
            0 <= yy <= 8,
            move_valid(*before, mm.0 as int, mm.1 as int, color),
            *now == place_result(*before, mm.0 as int, mm.1 as int, color),
            forall|i: int, j: int|
                crate::board::coord_in_range(i, j) ==> #[trigger] now.occupied(i, j) == (
                before.occupied(i, j) || (i == mm.0 as int && j == mm.1 as int)),
            mm.1 as int >= yy as int,
        decreases 8 - yy,
    {
        let mut xx: i8 = 0;
        while xx < 8
            invariant
                0 <= yy < 8,
                0 <= xx <= 8,
                move_valid(*before, mm.0 as int, mm.1 as int, color),
                *now == place_result(*before, mm.0 as int, mm.1 as int, color),
                forall|i: int, j: int|
                    crate::board::coord_in_range(i, j) ==> #[trigger] now.occupied(i, j) == (
                    before.occupied(i, j) || (i == mm.0 as int && j == mm.1 as int)),
                mm.1 as int > yy as int || (mm.1 as int == yy as int && mm.0 as int >= xx as int),
            decreases 8 - xx,
        {
            if now.is_occupied(xx, yy) && !before.is_occupied(xx, yy) {
                proof {
                    assert(xx as int == mm.0 as int && yy as int == mm.1 as int);
                }
                return (xx, yy);
            }
            xx = xx + 1;
        }
        yy = yy + 1;
    }
    proof {
        assert(false);
    }
    (-1, -1)
}

} // verus!
