//! Heuristic evaluation and the minimax value of a position.
//!
//! The executable searches live with the bots; this module holds the
//! mathematical account they are verified against: the two leaf
//! evaluations, the minimax value of a board at a given depth, and the
//! laws those notions obey.

use vstd::prelude::*;

use crate::board::{
    Board, has_any_move, occupied_count, occupied_count_below, own_at, piece_count,
    piece_count_below, place_result, valid_moves,
};
use crate::board::lemma_valid_moves_properties;

verus! {

/// Which leaf evaluation scores a board at the search horizon.
pub enum EvalKind {
    /// The raw piece count of the perspective color.
    Material,
    /// The positional score weighting edges and corners by game phase.
    Weighted,
}

/// Number of pieces of color `c` standing on the non-corner boundary cells
/// whose running coordinate is below `n`: for each i in 1..n, the four
/// cells (i, 0), (i, 7), (0, i) and (7, i).
pub open spec fn edge_count_upto(b: Board, c: bool, n: int) -> int
    decreases n,
{
    if n <= 1 {
        0
    } else {
        let i = n - 1;
        edge_count_upto(b, c, n - 1) + (if own_at(b, i, 0, c) {
            1int
        } else {
            0int
        }) + (if own_at(b, i, 7, c) {
            1int
        } else {
            0int
        }) + (if own_at(b, 0, i, c) {
            1int
        } else {
            0int
        }) + (if own_at(b, 7, i, c) {
            1int
        } else {
            0int
        })
    }
}

/// Number of pieces of color `c` on the 24 non-corner boundary cells.
pub open spec fn edge_count(b: Board, c: bool) -> int {
    edge_count_upto(b, c, 7)
}

/// Number of pieces of color `c` on the 4 corner cells.
pub open spec fn corner_count(b: Board, c: bool) -> int {
    (if own_at(b, 0, 0, c) {
        1int
    } else {
        0int
    }) + (if own_at(b, 7, 0, c) {
        1int
    } else {
        0int
    }) + (if own_at(b, 0, 7, c) {
        1int
    } else {
        0int
    }) + (if own_at(b, 7, 7, c) {
        1int
    } else {
        0int
    })
}

/// The weighted positional score of `b` for color `c`, scaled by 64 so it
/// stays in the integers. The reference value is
/// `(s - o) + (3*(e - eo) + 10*(cr - cro)) * (1 + (64 - s - o)/64)`
/// where s, o are the piece counts, e, eo the edge counts and cr, cro the
/// corner counts of the two sides; multiplying through by 64 yields this
/// form, which orders boards identically.
pub open spec fn weighted_score(b: Board, c: bool) -> int {
    64 * (piece_count(b, c) - piece_count(b, !c)) + (3 * (edge_count(b, c) - edge_count(b, !c))
        + 10 * (corner_count(b, c) - corner_count(b, !c))) * (128 - (piece_count(b, c)
        + piece_count(b, !c)))
}

/// The score of board `b` from the perspective of `c` under evaluation `k`.
pub open spec fn eval_score(k: EvalKind, b: Board, c: bool) -> int {
    match k {
        EvalKind::Material => piece_count(b, c),
        EvalKind::Weighted => weighted_score(b, c),
    }
}

/// The minimax value of the board reached by playing move `m` of color
/// `t`, searched one ply deeper.
pub open spec fn child_value(k: EvalKind, b: Board, c: bool, t: bool, d: nat, m: (i8, i8)) -> int
    decreases d, 0int,
{
    if d == 0 {
        0int
    } else {
        minimax(k, place_result(b, m.0 as int, m.1 as int, t), c, !t, (d - 1) as nat)
    }
}

/// The best child value among the moves of `ms` from position `p` on:
/// the maximum when `t` is the perspective side, the minimum otherwise,
/// `None` when no move remains.
pub open spec fn best_child(
    k: EvalKind,
    b: Board,
    c: bool,
    t: bool,
    d: nat,
    ms: Seq<(i8, i8)>,
    p: int,
) -> Option<int>
    decreases d, ms.len() - p,
{
    if p < 0 || p >= ms.len() || d == 0 {
        None
    } else {
        let v = child_value(k, b, c, t, d, ms[p]);
        match best_child(k, b, c, t, d, ms, p + 1) {
            None => Some(v),
            Some(w) => Some(
                if t == c {
                    if v >= w {
                        v
                    } else {
                        w
                    }
                } else {
                    if v <= w {
                        v
                    } else {
                        w
                    }
                },
            ),
        }
    }
}

/// The minimax value of board `b` for perspective color `c` with `t` to
/// move and `d` plies of search left. At depth 0 the leaf evaluation
/// scores the board; a side without moves passes, costing one depth unit;
/// otherwise the side to move picks its best child value.
pub open spec fn minimax(k: EvalKind, b: Board, c: bool, t: bool, d: nat) -> int
    decreases d, valid_moves(b, t).len() + 1,
{
    if d == 0 {
        eval_score(k, b, c)
    } else {
        match best_child(k, b, c, t, d, valid_moves(b, t), 0) {
            None => minimax(k, b, c, !t, (d - 1) as nat),
            Some(v) => v,
        }
    }
}

/// What `best_child` computes: it is `None` exactly on an exhausted list,
/// its value is attained by some remaining move, and it bounds every
/// remaining move's value from the proper side.
pub proof fn lemma_best_child_props(
    k: EvalKind,
    b: Board,
    c: bool,
    t: bool,
    d: nat,
    ms: Seq<(i8, i8)>,
    p: int,
)
    requires
        0 <= p <= ms.len(),
        d >= 1,
    ensures
        (best_child(k, b, c, t, d, ms, p) is None) == (p == ms.len()),
        best_child(k, b, c, t, d, ms, p) matches Some(v) ==> exists|q: int|
            p <= q < ms.len() && v == #[trigger] child_value(k, b, c, t, d, ms[q]),
        t == c ==> (best_child(k, b, c, t, d, ms, p) matches Some(v) ==> forall|q: int|
            p <= q < ms.len() ==> #[trigger] child_value(k, b, c, t, d, ms[q]) <= v),
        t != c ==> (best_child(k, b, c, t, d, ms, p) matches Some(v) ==> forall|q: int|
            p <= q < ms.len() ==> v <= #[trigger] child_value(k, b, c, t, d, ms[q])),
    decreases ms.len() - p,
{
    if p < ms.len() {
        lemma_best_child_props(k, b, c, t, d, ms, p + 1);
        let v0 = child_value(k, b, c, t, d, ms[p]);
        match best_child(k, b, c, t, d, ms, p + 1) {
            None => {
                assert(best_child(k, b, c, t, d, ms, p) == Some(v0));
            },
            Some(w) => {
                let q1 = choose|q: int|
                    p + 1 <= q < ms.len() && w == #[trigger] child_value(k, b, c, t, d, ms[q]);
                assert(best_child(k, b, c, t, d, ms, p) is Some);
            },
        }
    }
}

proof fn lemma_piece_count_bounds(b: Board, c: bool, n: int)
    requires
        0 <= n,
    ensures
        0 <= piece_count_below(b, c, n) <= n,
        piece_count_below(b, c, n) + piece_count_below(b, !c, n) == occupied_count_below(b, n),
    decreases n,
{
    if n > 0 {
        lemma_piece_count_bounds(b, c, n - 1);
    }
}

proof fn lemma_occupied_count_bounds(b: Board, n: int)
    requires
        0 <= n,
    ensures
        0 <= occupied_count_below(b, n) <= n,
    decreases n,
{
    if n > 0 {
        lemma_occupied_count_bounds(b, n - 1);
    }
}

proof fn lemma_edge_count_bounds(b: Board, c: bool, n: int)
    requires
        1 <= n,
    ensures
        0 <= edge_count_upto(b, c, n) <= 4 * (n - 1),
    decreases n,
{
    if n > 1 {
        lemma_edge_count_bounds(b, c, n - 1);
    }
}

/// Both sides' piece counts are nonnegative and sum to the number of
/// occupied cells, which is at most 64.
pub proof fn lemma_piece_counts(b: Board, c: bool)
    ensures
        0 <= piece_count(b, c) <= 64,
        0 <= piece_count(b, !c) <= 64,
        piece_count(b, c) + piece_count(b, !c) == occupied_count(b),
        0 <= occupied_count(b) <= 64,
{
    lemma_piece_count_bounds(b, c, 64);
    lemma_piece_count_bounds(b, !c, 64);
    lemma_occupied_count_bounds(b, 64);
    assert(piece_count_below(b, !!c, 64) == piece_count_below(b, c, 64));
}

/// The leaf evaluations stay within fixed bounds: the material score in
/// [0, 64], the scaled weighted score in [-18432, 18432].
pub proof fn lemma_eval_score_bounds(k: EvalKind, b: Board, c: bool)
    ensures
        k is Material ==> 0 <= eval_score(k, b, c) <= 64,
        k is Weighted ==> -18432 <= eval_score(k, b, c) <= 18432,
{
    lemma_piece_counts(b, c);
    if k is Weighted {
        lemma_edge_count_bounds(b, c, 7);
        lemma_edge_count_bounds(b, !c, 7);
        let s = piece_count(b, c);
        let o = piece_count(b, !c);
        let pos = 3 * (edge_count(b, c) - edge_count(b, !c)) + 10 * (corner_count(b, c)
            - corner_count(b, !c));
        let phase = 128 - (s + o);
        assert(-112 <= pos <= 112);
        assert(64 <= phase <= 128);
        assert(-14336 <= pos * phase <= 14336) by (nonlinear_arith)
            requires
                -112 <= pos <= 112,
                64 <= phase <= 128,
        ;
    }
}

/// The minimax value stays within the bounds of its leaf evaluation.
pub proof fn lemma_minimax_bounds(k: EvalKind, b: Board, c: bool, t: bool, d: nat)
    ensures
        k is Material ==> 0 <= minimax(k, b, c, t, d) <= 64,
        k is Weighted ==> -18432 <= minimax(k, b, c, t, d) <= 18432,
    decreases d, valid_moves(b, t).len() + 1,
{
    if d == 0 {
        lemma_eval_score_bounds(k, b, c);
    } else {
        match best_child(k, b, c, t, d, valid_moves(b, t), 0) {
            None => {
                lemma_minimax_bounds(k, b, c, !t, (d - 1) as nat);
            },
            Some(v) => {
                lemma_best_child_props(k, b, c, t, d, valid_moves(b, t), 0);
                let q = choose|q: int|
                    0 <= q < valid_moves(b, t).len() && v == #[trigger] child_value(
                        k,
                        b,
                        c,
                        t,
                        d,
                        valid_moves(b, t)[q],
                    );
                let m = valid_moves(b, t)[q];
                lemma_minimax_bounds(
                    k,
                    place_result(b, m.0 as int, m.1 as int, t),
                    c,
                    !t,
                    (d - 1) as nat,
                );
            },
        }
    }
}

/// The law of evaluation symmetry: the weighted score seen by one side is
/// the exact negation of the weighted score seen by the other.
pub proof fn lemma_weighted_symmetry(b: Board, c: bool)
    ensures
        weighted_score(b, c) == -weighted_score(b, !c),
{
    let pos = 3 * (edge_count(b, c) - edge_count(b, !c)) + 10 * (corner_count(b, c)
        - corner_count(b, !c));
    let phase = 128 - (piece_count(b, c) + piece_count(b, !c));
    assert((-pos) * phase == -(pos * phase)) by (nonlinear_arith);
}

proof fn lemma_best_child_antisymmetry(b: Board, c: bool, t: bool, d: nat, ms: Seq<(i8, i8)>, p: int)
    requires
        d >= 1,
    ensures
        (best_child(EvalKind::Weighted, b, c, t, d, ms, p) is None) == (best_child(
            EvalKind::Weighted,
            b,
            !c,
            t,
            d,
            ms,
            p,
        ) is None),
        best_child(EvalKind::Weighted, b, c, t, d, ms, p) matches Some(v) ==> best_child(
            EvalKind::Weighted,
            b,
            !c,
            t,
            d,
            ms,
            p,
        ) == Some(-v),
    decreases d, ms.len() - p,
{
    if 0 <= p < ms.len() {
        lemma_best_child_antisymmetry(b, c, t, d, ms, p + 1);
        lemma_minimax_antisymmetry(
            place_result(b, ms[p].0 as int, ms[p].1 as int, t),
            c,
            !t,
            (d - 1) as nat,
        );
        assert(child_value(EvalKind::Weighted, b, c, t, d, ms[p]) == -child_value(
            EvalKind::Weighted,
            b,
            !c,
            t,
            d,
            ms[p],
        ));
    }
}

/// The negamax law: under the weighted evaluation, the minimax value seen
/// by one side is the exact negation of the value the other side sees of
/// the same position — so negating the opponent's searched score and
/// maximizing picks the same moves as the two-sided search.
pub proof fn lemma_minimax_antisymmetry(b: Board, c: bool, t: bool, d: nat)
    ensures
        minimax(EvalKind::Weighted, b, c, t, d) == -minimax(EvalKind::Weighted, b, !c, t, d),
    decreases d, valid_moves(b, t).len() + 1,
{
    if d == 0 {
        lemma_weighted_symmetry(b, c);
    } else {
        lemma_best_child_antisymmetry(b, c, t, d, valid_moves(b, t), 0);
        if best_child(EvalKind::Weighted, b, c, t, d, valid_moves(b, t), 0) is None {
            lemma_minimax_antisymmetry(b, c, !t, (d - 1) as nat);
        }
    }
}

/// The law of pass handling: when the side to move has no legal move and
/// search depth remains, the minimax value is the value with the turn
/// passed to the other side at one less depth — the position is not
/// treated as terminal.
pub proof fn lemma_search_passes_on_no_moves(k: EvalKind, b: Board, c: bool, t: bool, d: nat)
    requires
        d >= 1,
        !has_any_move(b, t),
    ensures
        minimax(k, b, c, t, d) == minimax(k, b, c, !t, (d - 1) as nat),
{
    lemma_valid_moves_properties(b, t);
    assert(valid_moves(b, t).len() == 0);
    assert(best_child(k, b, c, t, d, valid_moves(b, t), 0) is None);
}

} // verus!
