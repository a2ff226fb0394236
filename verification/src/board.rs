//! The 8x8 board, its bit-packed representation, and the capture rule.

use vstd::prelude::*;

verus! {

/// An 8x8 Othello board packed into two 64-bit masks. Bit `y*8 + x` of
/// `filled` says whether cell (x, y) holds a piece; the same bit of `color`
/// says which side owns it (true = white, false = black) and is meaningful
/// only where `filled` has the bit set.
#[derive(Clone, Copy)]
pub struct Board {
    pub filled: u64,
    pub color: u64,
}

/// Whether bit `i` of the mask `m` is set.
pub open spec fn mask_bit(m: u64, i: int) -> bool {
    0 <= i < 64 && (m >> i as u64) & 1u64 == 1u64
}

/// Whether (x, y) lies on the board.
pub open spec fn coord_in_range(x: int, y: int) -> bool {
    0 <= x < 8 && 0 <= y < 8
}

impl Board {
    /// Cell (x, y) holds a piece.
    pub open spec fn occupied(self, x: int, y: int) -> bool {
        mask_bit(self.filled, y * 8 + x)
    }

    /// The raw color bit of cell (x, y); meaningful only when occupied.
    pub open spec fn color_at(self, x: int, y: int) -> bool {
        mask_bit(self.color, y * 8 + x)
    }
}

/// Cell (x, y) is on the board and holds a piece of the opponent of `c`.
pub open spec fn opponent_at(b: Board, x: int, y: int, c: bool) -> bool {
    coord_in_range(x, y) && b.occupied(x, y) && b.color_at(x, y) != c
}

/// Cell (x, y) is on the board and holds a piece of color `c`.
pub open spec fn own_at(b: Board, x: int, y: int, c: bool) -> bool {
    coord_in_range(x, y) && b.occupied(x, y) && b.color_at(x, y) == c
}

/// A unit step in one of the 8 compass directions.
pub open spec fn unit_step(dx: int, dy: int) -> bool {
    -1 <= dx <= 1 && -1 <= dy <= 1 && !(dx == 0 && dy == 0)
}

/// Upper bound on how many unit steps a ray at (x, y) can take before it
/// leaves the board; used as a termination measure for walks along rays.
pub open spec fn ray_fuel(x: int, y: int, dx: int, dy: int) -> int {
    if dx > 0 {
        8 - x
    } else if dx < 0 {
        x + 1
    } else if dy > 0 {
        8 - y
    } else if dy < 0 {
        y + 1
    } else {
        0
    }
}

/// Starting at (x, y) and stepping by (dx, dy), the board shows one or more
/// opponent pieces closed off by a piece of color `c`: the maximal opponent
/// run beginning at (x, y) is a capture line for `c`.
pub open spec fn ray_captures(b: Board, x: int, y: int, dx: int, dy: int, c: bool) -> bool
    decreases ray_fuel(x, y, dx, dy),
{
    if !unit_step(dx, dy) || !opponent_at(b, x, y, c) {
        false
    } else {
        own_at(b, x + dx, y + dy, c) || ray_captures(b, x + dx, y + dy, dx, dy, c)
    }
}

/// Walking from (x, y) by (dx, dy), every cell strictly before (tx, ty)
/// holds an opponent piece of `c`, and the walk reaches (tx, ty).
pub open spec fn opponent_path(
    b: Board,
    x: int,
    y: int,
    tx: int,
    ty: int,
    dx: int,
    dy: int,
    c: bool,
) -> bool
    decreases ray_fuel(x, y, dx, dy),
{
    if x == tx && y == ty {
        true
    } else if !unit_step(dx, dy) || !opponent_at(b, x, y, c) {
        false
    } else {
        opponent_path(b, x + dx, y + dy, tx, ty, dx, dy, c)
    }
}

/// Cell (i, j) is one of the opponent pieces flipped when the ray starting
/// at (x, y) captures: it lies in the opponent run and that run is closed
/// off by a piece of color `c` further along the ray.
pub open spec fn ray_flips(b: Board, x: int, y: int, dx: int, dy: int, c: bool, i: int, j: int) -> bool
    decreases ray_fuel(x, y, dx, dy),
{
    if !unit_step(dx, dy) || !opponent_at(b, x, y, c) {
        false
    } else if i == x && j == y {
        ray_captures(b, x, y, dx, dy, c)
    } else {
        ray_flips(b, x + dx, y + dy, dx, dy, c, i, j)
    }
}

/// The x component of compass direction `d`, with the 8 directions numbered
/// in the scan order of the engine.
pub open spec fn dir_dx(d: int) -> int {
    if d == 0 || d == 1 || d == 2 {
        -1
    } else if d == 3 || d == 4 {
        0
    } else {
        1
    }
}

/// The y component of compass direction `d`.
pub open spec fn dir_dy(d: int) -> int {
    if d == 0 || d == 3 || d == 5 {
        -1
    } else if d == 1 || d == 6 {
        0
    } else {
        1
    }
}

/// Placing `c` at (x, y) captures along compass direction `d`.
pub open spec fn direction_captures(b: Board, x: int, y: int, d: int, c: bool) -> bool {
    ray_captures(b, x + dir_dx(d), y + dir_dy(d), dir_dx(d), dir_dy(d), c)
}

/// Cell (i, j) is flipped along compass direction `d` when `c` is placed at
/// (x, y).
pub open spec fn dir_flips(b: Board, x: int, y: int, d: int, c: bool, i: int, j: int) -> bool {
    ray_flips(b, x + dir_dx(d), y + dir_dy(d), dir_dx(d), dir_dy(d), c, i, j)
}

/// Cell (i, j) is flipped along one of the compass directions numbered
/// below `n` when `c` is placed at (x, y).
pub open spec fn flipped_upto(b: Board, x: int, y: int, c: bool, n: int, i: int, j: int) -> bool {
    exists|e: int| 0 <= e < n && dir_flips(b, x, y, e, c, i, j)
}

/// The capture rule: a placement of `c` at (x, y) is legal when the cell is
/// free and at least one compass direction holds a capture line.
pub open spec fn move_valid(b: Board, x: int, y: int, c: bool) -> bool {
    coord_in_range(x, y) && !b.occupied(x, y) && exists|d: int|
        0 <= d < 8 && direction_captures(b, x, y, d, c)
}

/// Cell (i, j) is flipped when `c` is placed at (x, y): it lies on a capture
/// line of some compass direction.
pub open spec fn cell_flipped(b: Board, x: int, y: int, c: bool, i: int, j: int) -> bool {
    flipped_upto(b, x, y, c, 8, i, j)
}

/// The `filled` mask after a placement at (x, y): built bit by bit, every
/// bit of the old mask kept and the target cell's bit set.
pub open spec fn place_filled(b: Board, x: int, y: int, n: int) -> u64
    decreases n,
{
    if n <= 0 {
        0u64
    } else {
        place_filled(b, x, y, n - 1) | (if mask_bit(b.filled, n - 1) || n - 1 == y * 8 + x {
            1u64 << ((n - 1) as u64)
        } else {
            0u64
        })
    }
}

/// The `color` mask after a placement of `c` at (x, y): built bit by bit,
/// the target and every flipped cell stamped with `c`, all else kept.
pub open spec fn place_color(b: Board, x: int, y: int, c: bool, n: int) -> u64
    decreases n,
{
    if n <= 0 {
        0u64
    } else {
        place_color(b, x, y, c, n - 1) | (if (if n - 1 == y * 8 + x || cell_flipped(
            b,
            x,
            y,
            c,
            (n - 1) % 8,
            (n - 1) / 8,
        ) {
            c
        } else {
            mask_bit(b.color, n - 1)
        }) {
            1u64 << ((n - 1) as u64)
        } else {
            0u64
        })
    }
}

/// The board that a successful placement of `c` at (x, y) leaves behind:
/// the target cell occupied and colored `c`, every captured piece flipped
/// to `c`, and all other bits of both masks untouched.
pub open spec fn place_result(b: Board, x: int, y: int, c: bool) -> Board {
    Board { filled: place_filled(b, x, y, 64), color: place_color(b, x, y, c, 64) }
}

proof fn lemma_place_filled_bits(b: Board, x: int, y: int, n: int, i: int)
    requires
        0 <= i < 64,
        0 <= n <= 64,
    ensures
        mask_bit(place_filled(b, x, y, n), i) == (i < n && (mask_bit(b.filled, i) || i == y * 8
            + x)),
    decreases n,
{
    if n <= 0 {
        lemma_zero_bit(i as u64);
    } else {
        lemma_place_filled_bits(b, x, y, n - 1, i);
        if mask_bit(b.filled, n - 1) || n - 1 == y * 8 + x {
            lemma_or_set_bit(place_filled(b, x, y, n - 1), (n - 1) as u64, i as u64);
        } else {
            lemma_or_zero(place_filled(b, x, y, n - 1));
        }
    }
}

proof fn lemma_place_color_bits(b: Board, x: int, y: int, c: bool, n: int, i: int)
    requires
        0 <= i < 64,
        0 <= n <= 64,
    ensures
        mask_bit(place_color(b, x, y, c, n), i) == (i < n && (if i == y * 8 + x || cell_flipped(
            b,
            x,
            y,
            c,
            i % 8,
            i / 8,
        ) {
            c
        } else {
            mask_bit(b.color, i)
        })),
    decreases n,
{
    if n <= 0 {
        lemma_zero_bit(i as u64);
    } else {
        lemma_place_color_bits(b, x, y, c, n - 1, i);
        if (if n - 1 == y * 8 + x || cell_flipped(b, x, y, c, (n - 1) % 8, (n - 1) / 8) {
            c
        } else {
            mask_bit(b.color, n - 1)
        }) {
            lemma_or_set_bit(place_color(b, x, y, c, n - 1), (n - 1) as u64, i as u64);
        } else {
            lemma_or_zero(place_color(b, x, y, c, n - 1));
        }
    }
}

/// How `place_result` reads cell by cell: the target becomes a piece of
/// `c`, flipped cells turn to `c`, and every other cell keeps both its
/// occupancy and its raw color bit.
pub proof fn lemma_place_result_cells(b: Board, x: int, y: int, c: bool)
    requires
        coord_in_range(x, y),
    ensures
        forall|i: int, j: int|
            coord_in_range(i, j) ==> #[trigger] place_result(b, x, y, c).occupied(i, j) == (
            b.occupied(i, j) || (i == x && j == y)),
        forall|i: int, j: int|
            coord_in_range(i, j) ==> #[trigger] place_result(b, x, y, c).color_at(i, j) == (if (i
                == x && j == y) || cell_flipped(b, x, y, c, i, j) {
                c
            } else {
                b.color_at(i, j)
            }),
{
    assert forall|i: int, j: int| coord_in_range(i, j) implies #[trigger] place_result(
        b,
        x,
        y,
        c,
    ).occupied(i, j) == (b.occupied(i, j) || (i == x && j == y)) by {
        let n = j * 8 + i;
        lemma_place_filled_bits(b, x, y, 64, n);
        assert(n % 8 == i && n / 8 == j);
    }
    assert forall|i: int, j: int| coord_in_range(i, j) implies #[trigger] place_result(
        b,
        x,
        y,
        c,
    ).color_at(i, j) == (if (i == x && j == y) || cell_flipped(b, x, y, c, i, j) {
        c
    } else {
        b.color_at(i, j)
    }) by {
        let n = j * 8 + i;
        lemma_place_color_bits(b, x, y, c, 64, n);
        assert(n % 8 == i && n / 8 == j);
    }
}

/// The character shown for cell (x, y): `O` for white, `X` for black,
/// `_` for empty.
pub open spec fn cell_char(b: Board, x: int, y: int) -> char {
    if b.occupied(x, y) {
        if b.color_at(x, y) {
            'O'
        } else {
            'X'
        }
    } else {
        '_'
    }
}

/// The characters of row `y` from column `x` rightward: each cell's
/// character followed by a space.
pub open spec fn row_chars_from(b: Board, y: int, x: int) -> Seq<char>
    decreases 8 - x,
{
    if x < 0 || x >= 8 {
        Seq::empty()
    } else {
        seq![cell_char(b, x, y), ' '] + row_chars_from(b, y, x + 1)
    }
}

/// The rendered rows from row `y` downward, each bracketed and ended with
/// a newline.
pub open spec fn rows_from(b: Board, y: int) -> Seq<char>
    decreases 8 - y,
{
    if y < 0 || y >= 8 {
        Seq::empty()
    } else {
        seq!['[', ' '] + row_chars_from(b, y, 0) + seq![']', '\n'] + rows_from(b, y + 1)
    }
}

/// The full text rendering of a board: a heading line and 8 bracketed rows.
pub open spec fn board_text(b: Board) -> Seq<char> {
    "Board:\n"@ + rows_from(b, 0)
}

/// Relies on std's `String::push`: appends exactly the given character at
/// the end of the string.
#[verifier::external_body]
fn push_char(s: &mut String, c: char)
    ensures
        final(s)@ == old(s)@.push(c),
{
    s.push(c);
}

proof fn lemma_occupied_count_change(a: Board, bb: Board, t: int, n: int)
    requires
        0 <= t < 64,
        !mask_bit(a.filled, t),
        mask_bit(bb.filled, t),
        forall|i: int| 0 <= i < 64 && i != t ==> mask_bit(a.filled, i) == mask_bit(bb.filled, i),
        0 <= n <= 64,
    ensures
        occupied_count_below(bb, n) == occupied_count_below(a, n) + if t < n {
            1int
        } else {
            0int
        },
    decreases n,
{
    if n > 0 {
        lemma_occupied_count_change(a, bb, t, n - 1);
    }
}

proof fn lemma_zero_bit(j: u64)
    by (bit_vector)
    ensures
        (0u64 >> j) & 1 == 0,
{
}

proof fn lemma_or_zero(a: u64)
    by (bit_vector)
    ensures
        a | 0u64 == a,
{
}

/// A cell `k` steps out on the ray of direction `d` is flipped only when
/// that very direction holds a capture line: a direction whose opponent
/// run ends off-board or at an empty cell flips nothing along its ray.
pub proof fn lemma_flips_on_ray_need_capture(
    b: Board,
    x: int,
    y: int,
    d: int,
    c: bool,
    k: int,
)
    requires
        0 <= d < 8,
        k >= 1,
    ensures
        cell_flipped(b, x, y, c, x + k * dir_dx(d), y + k * dir_dy(d)) ==> direction_captures(
            b,
            x,
            y,
            d,
            c,
        ),
{
    let qx = x + k * dir_dx(d);
    let qy = y + k * dir_dy(d);
    if cell_flipped(b, x, y, c, qx, qy) {
        let e = choose|e: int| 0 <= e < 8 && #[trigger] dir_flips(b, x, y, e, c, qx, qy);
        lemma_other_ray_misses(b, x, y, d, k, qx, qy, c);
        assert(e == d);
        lemma_ray_flips_implies_captures(
            b,
            x + dir_dx(d),
            y + dir_dy(d),
            dir_dx(d),
            dir_dy(d),
            c,
            qx,
            qy,
        );
    }
}

/// Each cell that a placement flips held an opponent piece before the
/// placement, and lay on a compass direction whose run is closed off by a
/// piece of the placing color: nothing else is ever flipped.
pub proof fn lemma_flipped_cells_are_captured_opponents(
    b: Board,
    x: int,
    y: int,
    c: bool,
    i: int,
    j: int,
)
    requires
        cell_flipped(b, x, y, c, i, j),
    ensures
        opponent_at(b, i, j, c),
        exists|d: int| 0 <= d < 8 && #[trigger] direction_captures(b, x, y, d, c),
{
    let e = choose|e: int| 0 <= e < 8 && #[trigger] dir_flips(b, x, y, e, c, i, j);
    lemma_ray_flips_offset(b, x + dir_dx(e), y + dir_dy(e), dir_dx(e), dir_dy(e), c, i, j);
    lemma_ray_flips_implies_captures(b, x + dir_dx(e), y + dir_dy(e), dir_dx(e), dir_dy(e), c, i, j);
    assert(direction_captures(b, x, y, e, c));
}

proof fn lemma_u64_eq_by_mask_bits(a: u64, b: u64)
    requires
        forall|i: int| 0 <= i < 64 ==> mask_bit(a, i) == mask_bit(b, i),
    ensures
        a == b,
{
    assert forall|j: u64| j < 64 implies ((a >> j) & 1) == ((b >> j) & 1) by {
        lemma_bit_is_zero_or_one(a, j);
        lemma_bit_is_zero_or_one(b, j);
        assert(mask_bit(a, j as int) == mask_bit(b, j as int));
    }
    lemma_u64_eq_by_bits(a, b);
}

proof fn lemma_low_bits_step(a: u64, b: u64, n: u64)
    by (bit_vector)
    requires
        1 <= n < 64,
        a & !(u64::MAX << (n - 1) as u64) == b & !(u64::MAX << (n - 1) as u64),
        (a >> (n - 1) as u64) & 1 == (b >> (n - 1) as u64) & 1,
    ensures
        a & !(u64::MAX << n) == b & !(u64::MAX << n),
{
}

proof fn lemma_low_bits_final(a: u64, b: u64)
    by (bit_vector)
    requires
        a & !(u64::MAX << 63u64) == b & !(u64::MAX << 63u64),
        (a >> 63) & 1 == (b >> 63) & 1,
    ensures
        a == b,
{
}

proof fn lemma_eq_low(a: u64, b: u64, n: u64)
    requires
        n < 64,
        forall|j: u64| j < n ==> ((a >> j) & 1) == ((b >> j) & 1),
    ensures
        a & !(u64::MAX << n) == b & !(u64::MAX << n),
    decreases n,
{
    if n == 0 {
        assert(a & !(u64::MAX << 0u64) == b & !(u64::MAX << 0u64)) by (bit_vector);
    } else {
        lemma_eq_low(a, b, (n - 1) as u64);
        lemma_low_bits_step(a, b, n);
    }
}

proof fn lemma_u64_eq_by_bits(a: u64, b: u64)
    requires
        forall|j: u64| j < 64 ==> ((a >> j) & 1) == ((b >> j) & 1),
    ensures
        a == b,
{
    lemma_eq_low(a, b, 63);
    lemma_low_bits_final(a, b);
}

/// Some legal move for `c` exists somewhere on the board.
pub open spec fn has_any_move(b: Board, c: bool) -> bool {
    exists|x: int, y: int| move_valid(b, x, y, c)
}

/// The row-major index of a move's cell.
pub open spec fn cell_index(m: (i8, i8)) -> int {
    m.1 * 8 + m.0
}

/// All legal moves for `c` among the cells with row-major index at least
/// `n`, listed in ascending row-major order.
pub open spec fn moves_from(b: Board, c: bool, n: int) -> Seq<(i8, i8)>
    decreases 64 - n,
{
    if n < 0 || n >= 64 {
        Seq::empty()
    } else {
        let tail = moves_from(b, c, n + 1);
        if move_valid(b, n % 8, n / 8, c) {
            seq![((n % 8) as i8, (n / 8) as i8)] + tail
        } else {
            tail
        }
    }
}

/// All legal moves for `c`, in ascending row-major order.
pub open spec fn valid_moves(b: Board, c: bool) -> Seq<(i8, i8)> {
    moves_from(b, c, 0)
}

proof fn lemma_moves_from_props(b: Board, c: bool, n: int)
    requires
        0 <= n,
    ensures
        forall|t: int| 0 <= t < moves_from(b, c, n).len() ==> move_valid(
            b,
            (#[trigger] moves_from(b, c, n)[t]).0 as int,
            moves_from(b, c, n)[t].1 as int,
            c,
        ),
        forall|t: int| 0 <= t < moves_from(b, c, n).len() ==> n <= cell_index(
            #[trigger] moves_from(b, c, n)[t],
        ) < 64,
        forall|t1: int, t2: int|
            0 <= t1 < t2 < moves_from(b, c, n).len() ==> cell_index(
                #[trigger] moves_from(b, c, n)[t1],
            ) < cell_index(#[trigger] moves_from(b, c, n)[t2]),
        forall|i: int|
            n <= i < 64 && move_valid(b, #[trigger] (i % 8), i / 8, c) ==> moves_from(
                b,
                c,
                n,
            ).contains(((i % 8) as i8, (i / 8) as i8)),
    decreases 64 - n,
{
    if n >= 64 {
    } else {
        lemma_moves_from_props(b, c, n + 1);
        let tail = moves_from(b, c, n + 1);
        if move_valid(b, n % 8, n / 8, c) {
            let head = seq![((n % 8) as i8, (n / 8) as i8)];
            assert(moves_from(b, c, n) == head + tail);
            assert(moves_from(b, c, n)[0] == head[0]);
            assert(cell_index(head[0]) == n);
            assert forall|t: int| 1 <= t < moves_from(b, c, n).len() implies moves_from(b, c, n)[t]
                == tail[t - 1] by {}
            assert forall|i: int|
                n <= i < 64 && move_valid(b, #[trigger] (i % 8), i / 8, c) implies moves_from(
                b,
                c,
                n,
            ).contains(((i % 8) as i8, (i / 8) as i8)) by {
                if i == n {
                    assert(moves_from(b, c, n)[0] == ((n % 8) as i8, (n / 8) as i8));
                } else {
                    assert(tail.contains(((i % 8) as i8, (i / 8) as i8)));
                    let t = choose|t: int|
                        0 <= t < tail.len() && tail[t] == ((i % 8) as i8, (i / 8) as i8);
                    assert(moves_from(b, c, n)[t + 1] == tail[t]);
                }
            }
        } else {
            assert forall|i: int|
                n <= i < 64 && move_valid(b, #[trigger] (i % 8), i / 8, c) implies moves_from(
                b,
                c,
                n,
            ).contains(((i % 8) as i8, (i / 8) as i8)) by {
                assert(i != n);
                assert(tail.contains(((i % 8) as i8, (i / 8) as i8)));
            }
        }
    }
}

/// The law of enumeration order: `valid_moves` lists exactly the legal
/// moves, each once, in strictly ascending row-major order (y before x),
/// and it is empty precisely when no legal move exists.
pub proof fn lemma_valid_moves_properties(b: Board, c: bool)
    ensures
        forall|t: int| 0 <= t < valid_moves(b, c).len() ==> move_valid(
            b,
            (#[trigger] valid_moves(b, c)[t]).0 as int,
            valid_moves(b, c)[t].1 as int,
            c,
        ),
        forall|t1: int, t2: int|
            0 <= t1 < t2 < valid_moves(b, c).len() ==> cell_index(#[trigger] valid_moves(b, c)[t1])
                < cell_index(#[trigger] valid_moves(b, c)[t2]),
        forall|x: int, y: int|
            move_valid(b, x, y, c) ==> valid_moves(b, c).contains((x as i8, y as i8)),
        has_any_move(b, c) <==> valid_moves(b, c).len() > 0,
{
    lemma_moves_from_props(b, c, 0);
    assert forall|x: int, y: int| move_valid(b, x, y, c) implies valid_moves(b, c).contains(
        (x as i8, y as i8),
    ) by {
        let i = y * 8 + x;
        assert(i % 8 == x && i / 8 == y);
        assert(move_valid(b, i % 8, i / 8, c));
    }
    if has_any_move(b, c) {
        let (x, y) = choose|x: int, y: int| move_valid(b, x, y, c);
        assert(valid_moves(b, c).contains((x as i8, y as i8)));
    }
    if valid_moves(b, c).len() > 0 {
        let m = valid_moves(b, c)[0];
        assert(move_valid(b, m.0 as int, m.1 as int, c));
    }
}

/// Number of cells with index below `n` that hold a piece of color `c`.
pub open spec fn piece_count_below(b: Board, c: bool, n: int) -> int
    decreases n,
{
    if n <= 0 {
        0
    } else {
        piece_count_below(b, c, n - 1) + if mask_bit(b.filled, n - 1) && mask_bit(b.color, n - 1)
            == c {
            1int
        } else {
            0int
        }
    }
}

/// Number of pieces of color `c` on the board.
pub open spec fn piece_count(b: Board, c: bool) -> int {
    piece_count_below(b, c, 64)
}

/// The opening position as a value: the four center cells occupied, white
/// at (3, 3) and (4, 4), black at (4, 3) and (3, 4).
pub open spec fn starting_board() -> Board {
    Board { filled: 0x0000_0018_1800_0000u64, color: 0x0000_0010_0800_0000u64 }
}

/// The board after playing the listed (move, color) pairs in order from
/// `b`; meaningful when the list is legal in the sense of `legal_seq`.
pub open spec fn play_seq(b: Board, game: Seq<((i8, i8), bool)>) -> Board
    decreases game.len(),
{
    if game.len() == 0 {
        b
    } else {
        play_seq(
            place_result(b, game[0].0.0 as int, game[0].0.1 as int, game[0].1),
            game.drop_first(),
        )
    }
}

/// Every listed move is legal on the board it is played on.
pub open spec fn legal_seq(b: Board, game: Seq<((i8, i8), bool)>) -> bool
    decreases game.len(),
{
    game.len() == 0 || (move_valid(b, game[0].0.0 as int, game[0].0.1 as int, game[0].1)
        && legal_seq(
        place_result(b, game[0].0.0 as int, game[0].0.1 as int, game[0].1),
        game.drop_first(),
    ))
}

/// `post` can be reached from `pre` by some sequence of legal placements.
pub open spec fn reachable(pre: Board, post: Board) -> bool {
    exists|game: Seq<((i8, i8), bool)>|
        #![trigger legal_seq(pre, game), play_seq(pre, game)]
        legal_seq(pre, game) && post == play_seq(pre, game)
}

proof fn lemma_play_seq_push(b: Board, game: Seq<((i8, i8), bool)>, x: i8, y: i8, c: bool)
    requires
        legal_seq(b, game),
        move_valid(play_seq(b, game), x as int, y as int, c),
    ensures
        legal_seq(b, game.push(((x, y), c))),
        play_seq(b, game.push(((x, y), c))) == place_result(
            play_seq(b, game),
            x as int,
            y as int,
            c,
        ),
    decreases game.len(),
{
    let ext = game.push(((x, y), c));
    assert(ext.len() == game.len() + 1);
    if game.len() == 0 {
        assert(ext[0] == ((x, y), c));
        assert(ext.drop_first() =~= Seq::<((i8, i8), bool)>::empty());
        let placed = place_result(b, x as int, y as int, c);
        assert(legal_seq(placed, ext.drop_first()));
        assert(play_seq(placed, ext.drop_first()) == placed);
    } else {
        assert(ext[0] == game[0]);
        assert(ext.drop_first() =~= game.drop_first().push(((x, y), c)));
        lemma_play_seq_push(
            place_result(b, game[0].0.0 as int, game[0].0.1 as int, game[0].1),
            game.drop_first(),
            x,
            y,
            c,
        );
    }
}

/// Every board is reachable from itself: the empty game.
pub proof fn lemma_reachable_refl(b: Board)
    ensures
        reachable(b, b),
{
    let empty = Seq::<((i8, i8), bool)>::empty();
    assert(legal_seq(b, empty));
    assert(play_seq(b, empty) == b);
}

/// Reachability extends by one more legal placement.
pub proof fn lemma_reachable_step(pre: Board, mid: Board, x: i8, y: i8, c: bool)
    requires
        reachable(pre, mid),
        move_valid(mid, x as int, y as int, c),
    ensures
        reachable(pre, place_result(mid, x as int, y as int, c)),
{
    let game = choose|game: Seq<((i8, i8), bool)>|
        #![trigger legal_seq(pre, game), play_seq(pre, game)]
        legal_seq(pre, game) && mid == play_seq(pre, game);
    lemma_play_seq_push(pre, game, x, y, c);
    assert(legal_seq(pre, game.push(((x, y), c))) && place_result(mid, x as int, y as int, c)
        == play_seq(pre, game.push(((x, y), c))));
}

/// Number of occupied cells with index below `n`.
pub open spec fn occupied_count_below(b: Board, n: int) -> int
    decreases n,
{
    if n <= 0 {
        0
    } else {
        occupied_count_below(b, n - 1) + if mask_bit(b.filled, n - 1) {
            1int
        } else {
            0int
        }
    }
}

/// Number of occupied cells on the board.
pub open spec fn occupied_count(b: Board) -> int {
    occupied_count_below(b, 64)
}

/// Cell (i, j) is `k` unit steps out from (x, y) along (dx, dy).
pub open spec fn ray_point(x: int, y: int, dx: int, dy: int, k: int, i: int, j: int) -> bool {
    i == x + k * dx && j == y + k * dy
}

/// A walk over opponent pieces that reaches a piece of the placing color is
/// a capture line.
proof fn lemma_path_captures(b: Board, x: int, y: int, tx: int, ty: int, dx: int, dy: int, c: bool)
    requires
        unit_step(dx, dy),
        opponent_path(b, x, y, tx, ty, dx, dy, c),
        own_at(b, tx, ty, c),
        !(x == tx && y == ty),
    ensures
        ray_captures(b, x, y, dx, dy, c),
    decreases ray_fuel(x, y, dx, dy),
{
    if !(x + dx == tx && y + dy == ty) {
        lemma_path_captures(b, x + dx, y + dy, tx, ty, dx, dy, c);
    }
}

/// A flipped cell holds an opponent piece and lies on the ray, at some
/// whole number of steps from its start.
proof fn lemma_ray_flips_offset(b: Board, x: int, y: int, dx: int, dy: int, c: bool, i: int, j: int)
    requires
        ray_flips(b, x, y, dx, dy, c, i, j),
    ensures
        opponent_at(b, i, j, c),
        exists|k: int| k >= 0 && #[trigger] ray_point(x, y, dx, dy, k, i, j),
    decreases ray_fuel(x, y, dx, dy),
{
    if i == x && j == y {
        assert(i == x + 0 * dx && j == y + 0 * dy) by (nonlinear_arith)
            requires
                i == x,
                j == y,
        ;
        assert(ray_point(x, y, dx, dy, 0, i, j));
    } else {
        lemma_ray_flips_offset(b, x + dx, y + dy, dx, dy, c, i, j);
        let k0 = choose|k: int|
            k >= 0 && #[trigger] ray_point(x + dx, y + dy, dx, dy, k, i, j);
        assert(i == x + (k0 + 1) * dx && j == y + (k0 + 1) * dy) by (nonlinear_arith)
            requires
                i == x + dx + k0 * dx,
                j == y + dy + k0 * dy,
        ;
        assert(ray_point(x, y, dx, dy, k0 + 1, i, j));
    }
}

/// Every cell flipped along a ray lies on a capture line of that ray.
proof fn lemma_ray_flips_implies_captures(
    b: Board,
    x: int,
    y: int,
    dx: int,
    dy: int,
    c: bool,
    i: int,
    j: int,
)
    requires
        ray_flips(b, x, y, dx, dy, c, i, j),
    ensures
        ray_captures(b, x, y, dx, dy, c),
    decreases ray_fuel(x, y, dx, dy),
{
    if !(i == x && j == y) {
        lemma_ray_flips_implies_captures(b, x + dx, y + dy, dx, dy, c, i, j);
    }
}

/// A walk over opponent pieces can be extended by one more opponent piece
/// standing at its end.
proof fn lemma_path_extend(b: Board, x: int, y: int, tx: int, ty: int, dx: int, dy: int, c: bool)
    requires
        unit_step(dx, dy),
        opponent_path(b, x, y, tx, ty, dx, dy, c),
        opponent_at(b, tx, ty, c),
    ensures
        opponent_path(b, x, y, tx + dx, ty + dy, dx, dy, c),
    decreases ray_fuel(x, y, dx, dy),
{
    if x == tx && y == ty {
        assert(opponent_path(b, x + dx, y + dy, tx + dx, ty + dy, dx, dy, c));
    } else {
        lemma_path_extend(b, x + dx, y + dy, tx, ty, dx, dy, c);
    }
}

/// Two rays from one origin in distinct compass directions share no cell
/// other than the origin itself.
proof fn lemma_distinct_rays(dx1: int, dy1: int, k1: int, dx2: int, dy2: int, k2: int)
    by (nonlinear_arith)
    requires
        -1 <= dx1 <= 1,
        -1 <= dy1 <= 1,
        -1 <= dx2 <= 1,
        -1 <= dy2 <= 1,
        k1 >= 1,
        k2 >= 1,
        k1 * dx1 == k2 * dx2,
        k1 * dy1 == k2 * dy2,
    ensures
        dx1 == dx2 && dy1 == dy2,
{
}

/// A cell `k` steps out on the ray of direction `d` is not flipped along
/// any other compass direction.
proof fn lemma_other_ray_misses(
    b: Board,
    x: int,
    y: int,
    d: int,
    k: int,
    qx: int,
    qy: int,
    c: bool,
)
    requires
        0 <= d < 8,
        k >= 1,
        qx == x + k * dir_dx(d),
        qy == y + k * dir_dy(d),
    ensures
        forall|e: int| 0 <= e < 8 && e != d ==> !dir_flips(b, x, y, e, c, qx, qy),
{
    assert forall|e: int| 0 <= e < 8 && e != d implies !dir_flips(b, x, y, e, c, qx, qy) by {
        if dir_flips(b, x, y, e, c, qx, qy) {
            lemma_ray_flips_offset(
                b,
                x + dir_dx(e),
                y + dir_dy(e),
                dir_dx(e),
                dir_dy(e),
                c,
                qx,
                qy,
            );
            let m = choose|m: int|
                m >= 0 && #[trigger] ray_point(
                    x + dir_dx(e),
                    y + dir_dy(e),
                    dir_dx(e),
                    dir_dy(e),
                    m,
                    qx,
                    qy,
                );
            assert(qx == x + (m + 1) * dir_dx(e) && qy == y + (m + 1) * dir_dy(e))
                by (nonlinear_arith)
                requires
                    qx == x + dir_dx(e) + m * dir_dx(e),
                    qy == y + dir_dy(e) + m * dir_dy(e),
            ;
            lemma_distinct_rays(dir_dx(e), dir_dy(e), m + 1, dir_dx(d), dir_dy(d), k);
            assert(false);
        }
    }
}

/// A ray never returns to the cell just before its start.
proof fn lemma_ray_no_revisit(b: Board, px: int, py: int, dx: int, dy: int, c: bool)
    requires
        unit_step(dx, dy),
    ensures
        !ray_flips(b, px + dx, py + dy, dx, dy, c, px, py),
{
    if ray_flips(b, px + dx, py + dy, dx, dy, c, px, py) {
        lemma_ray_flips_offset(b, px + dx, py + dy, dx, dy, c, px, py);
        let k = choose|k: int|
            k >= 0 && #[trigger] ray_point(px + dx, py + dy, dx, dy, k, px, py);
        assert(false) by (nonlinear_arith)
            requires
                -1 <= dx <= 1,
                -1 <= dy <= 1,
                !(dx == 0 && dy == 0),
                k >= 0,
                px == px + dx + k * dx,
                py == py + dy + k * dy,
        ;
    }
}

proof fn lemma_bit_is_zero_or_one(m: u64, j: u64)
    by (bit_vector)
    ensures
        (m >> j) & 1 == 0 || (m >> j) & 1 == 1,
{
}

proof fn lemma_or_set_bit(m: u64, s: u64, k: u64)
    by (bit_vector)
    requires
        s < 64,
        k < 64,
    ensures
        (((m | (1u64 << s)) >> k) & 1 == 1) == ((m >> k) & 1 == 1 || k == s),
{
}

proof fn lemma_and_clear_bit(m: u64, s: u64, k: u64)
    by (bit_vector)
    requires
        s < 64,
        k < 64,
    ensures
        (((m & !(1u64 << s)) >> k) & 1 == 1) == ((m >> k) & 1 == 1 && k != s),
{
}

/// The 8 compass directions in the scan order of the engine.
fn direction(d: usize) -> (r: (i8, i8))
    requires
        d < 8,
    ensures
        r.0 as int == dir_dx(d as int),
        r.1 as int == dir_dy(d as int),
{
    if d == 0 {
        (-1, -1)
    } else if d == 1 {
        (-1, 0)
    } else if d == 2 {
        (-1, 1)
    } else if d == 3 {
        (0, -1)
    } else if d == 4 {
        (0, 1)
    } else if d == 5 {
        (1, -1)
    } else if d == 6 {
        (1, 0)
    } else {
        (1, 1)
    }
}

impl Board {
    /// The standard Othello opening: the four center cells occupied, white
    /// at (3, 3) and (4, 4), black at (4, 3) and (3, 4).
    pub fn new() -> (b: Board)
        ensures
            b == starting_board(),
            b.filled == 0x0000_0018_1800_0000u64,
            b.color == 0x0000_0010_0800_0000u64,
    {
        Board {
            filled: 0b00000000_00000000_00000000_00011000_00011000_00000000_00000000_00000000,
            color: 0b00000000_00000000_00000000_00010000_00001000_00000000_00000000_00000000,
        }
    }

    /// Marks (x, y) occupied and stamps its color, leaving every other cell
    /// untouched in both masks.
    pub fn set(&mut self, x: i8, y: i8, color: bool)
        requires
            coord_in_range(x as int, y as int),
        ensures
            final(self).occupied(x as int, y as int),
            final(self).color_at(x as int, y as int) == color,
            forall|i: int, j: int|
                coord_in_range(i, j) && !(i == x as int && j == y as int) ==> (final(self).occupied(
                    i,
                    j,
                ) == old(self).occupied(i, j) && final(self).color_at(i, j) == old(self).color_at(
                    i,
                    j,
                )),
    {
        let shift: u64 = (y * 8 + x) as u64;
        let bit: u64 = 1u64 << shift;
        let ghost prev = *self;
        self.filled = self.filled | bit;
        if color {
            self.color = self.color | bit;
        } else {
            self.color = self.color & !bit;
        }
        proof {
            assert forall|i: int, j: int| coord_in_range(i, j) implies {
                &&& final(self).occupied(i, j) == (prev.occupied(i, j) || (i == x as int && j
                    == y as int))
                &&& final(self).color_at(i, j) == if i == x as int && j == y as int {
                    color
                } else {
                    prev.color_at(i, j)
                }
            } by {
                let k = (j * 8 + i) as u64;
                lemma_or_set_bit(prev.filled, shift, k);
                lemma_or_set_bit(prev.color, shift, k);
                lemma_and_clear_bit(prev.color, shift, k);
            }
        }
    }

    /// Frees cell (x, y), leaving every other cell and the whole color mask
    /// untouched.
    pub fn clear(&mut self, x: i8, y: i8)
        requires
            coord_in_range(x as int, y as int),
        ensures
            !final(self).occupied(x as int, y as int),
            final(self).color == old(self).color,
            forall|i: int, j: int|
                coord_in_range(i, j) && !(i == x as int && j == y as int) ==> final(self).occupied(
                    i,
                    j,
                ) == old(self).occupied(i, j),
    {
        let shift: u64 = (y * 8 + x) as u64;
        let bit: u64 = 1u64 << shift;
        let ghost prev = *self;
        self.filled = self.filled & !bit;
        proof {
            assert forall|i: int, j: int| coord_in_range(i, j) implies final(self).occupied(i, j)
                == (prev.occupied(i, j) && !(i == x as int && j == y as int)) by {
                lemma_and_clear_bit(prev.filled, shift, (j * 8 + i) as u64);
            }
        }
    }

    /// Pure query: does cell (x, y) hold a piece?
    pub fn is_occupied(&self, x: i8, y: i8) -> (r: bool)
        requires
            coord_in_range(x as int, y as int),
        ensures
            r == self.occupied(x as int, y as int),
    {
        proof {
            lemma_bit_is_zero_or_one(self.filled, (y * 8 + x) as u64);
        }
        ((self.filled >> ((y * 8 + x) as u64)) & 1) != 0
    }

    /// Pure query: the color bit of cell (x, y).
    pub fn get_color(&self, x: i8, y: i8) -> (r: bool)
        requires
            coord_in_range(x as int, y as int),
        ensures
            r == self.color_at(x as int, y as int),
    {
        proof {
            lemma_bit_is_zero_or_one(self.color, (y * 8 + x) as u64);
        }
        ((self.color >> ((y * 8 + x) as u64)) & 1) != 0
    }

    /// Whether (x, y) lies on the board.
    pub fn is_coord_valid(x: i8, y: i8) -> (r: bool)
        ensures
            r == coord_in_range(x as int, y as int),
    {
        x >= 0 && x < 8 && y >= 0 && y < 8
    }

    /// Tries to place a chip of `color` at (x, y) and applies the results.
    ///
    /// Colors: true = white; false = black. Succeeds iff the cell is free
    /// and at least one compass direction holds a capture line; on success
    /// every captured opponent piece is flipped to `color` and the target
    /// cell is occupied, on failure the board is left bit-for-bit unchanged.
    pub fn try_place_chip(&mut self, x: i8, y: i8, color: bool) -> (r: bool)
        requires
            coord_in_range(x as int, y as int),
        ensures
            r == move_valid(*old(self), x as int, y as int, color),
            !r ==> *final(self) == *old(self),
            r ==> final(self).occupied(x as int, y as int) && final(self).color_at(
                x as int,
                y as int,
            ) == color,
            r ==> forall|i: int, j: int|
                coord_in_range(i, j) && cell_flipped(*old(self), x as int, y as int, color, i, j)
                    ==> final(self).occupied(i, j) && final(self).color_at(i, j) == color,
            r ==> forall|i: int, j: int|
                coord_in_range(i, j) && !(i == x as int && j == y as int) && !cell_flipped(
                    *old(self),
                    x as int,
                    y as int,
                    color,
                    i,
                    j,
                ) ==> final(self).occupied(i, j) == old(self).occupied(i, j)
                    && final(self).color_at(i, j) == old(self).color_at(i, j),
            r ==> *final(self) == place_result(*old(self), x as int, y as int, color),
            r ==> occupied_count(*final(self)) == occupied_count(*old(self)) + 1,
    {
        if self.is_occupied(x, y) {
            return false;
        }
        let ghost b0 = *self;
        let mut can_set = false;
        let mut d: usize = 0;
        while d < 8
            invariant
                coord_in_range(x as int, y as int),
                d <= 8,
                b0 == *old(self),
                !b0.occupied(x as int, y as int),
                can_set == exists|e: int|
                    0 <= e < d && direction_captures(b0, x as int, y as int, e, color),
                forall|i: int, j: int|
                    coord_in_range(i, j) && flipped_upto(b0, x as int, y as int, color, d as int, i, j)
                        ==> self.occupied(i, j) && self.color_at(i, j) == color,
                forall|i: int, j: int|
                    coord_in_range(i, j) && !flipped_upto(
                        b0,
                        x as int,
                        y as int,
                        color,
                        d as int,
                        i,
                        j,
                    ) ==> self.occupied(i, j) == b0.occupied(i, j) && self.color_at(i, j)
                        == b0.color_at(i, j),
                !can_set ==> *self == b0,
            decreases 8 - d,
        {
            let ghost b1 = *self;
            let ghost gx = x as int;
            let ghost gy = y as int;
            let (dx, dy) = direction(d);
            let ghost gdx = dx as int;
            let ghost gdy = dy as int;
            let start_x = x + dx;
            let start_y = y + dy;
            proof {
                // The adjacent cell lies on this direction's ray, so no
                // earlier direction has flipped it and the current board
                // still shows its original contents there.
                assert(ray_point(gx, gy, gdx, gdy, 1, gx + gdx, gy + gdy)) by (nonlinear_arith);
                lemma_other_ray_misses(b0, gx, gy, d as int, 1, gx + gdx, gy + gdy, color);
            }
            if Board::is_coord_valid(start_x, start_y) && self.is_occupied(start_x, start_y)
                && self.get_color(start_x, start_y) != color {
                assert(opponent_at(b0, gx + gdx, gy + gdy, color));
                let mut curr_x = start_x + dx;
                let mut curr_y = start_y + dy;
                let ghost mut k: int = 2;
                let mut line_found = false;
                proof {
                    assert(gx + gdx + 1 * gdx == gx + 2 * gdx && gy + gdy + 1 * gdy == gy + 2
                        * gdy) by (nonlinear_arith);
                    assert(opponent_path(
                        b0,
                        gx + gdx + gdx,
                        gy + gdy + gdy,
                        gx + gdx + gdx,
                        gy + gdy + gdy,
                        gdx,
                        gdy,
                        color,
                    ));
                    assert(opponent_path(
                        b0,
                        gx + gdx,
                        gy + gdy,
                        gx + gdx + gdx,
                        gy + gdy + gdy,
                        gdx,
                        gdy,
                        color,
                    ));
                }
                loop
                    invariant_except_break
                        line_found == false,
                    invariant
                        coord_in_range(gx, gy),
                        gx == x as int,
                        gy == y as int,
                        gdx == dx as int,
                        gdy == dy as int,
                        d < 8,
                        gdx == dir_dx(d as int),
                        gdy == dir_dy(d as int),
                        *self == b1,
                        b0 == *old(self),
                        !b0.occupied(gx, gy),
                        k >= 2,
                        curr_x as int == gx + k * gdx,
                        curr_y as int == gy + k * gdy,
                        -1 <= curr_x as int <= 8,
                        -1 <= curr_y as int <= 8,
                        opponent_at(b0, gx + gdx, gy + gdy, color),
                        opponent_path(
                            b0,
                            gx + gdx,
                            gy + gdy,
                            curr_x as int,
                            curr_y as int,
                            gdx,
                            gdy,
                            color,
                        ),
                        direction_captures(b0, gx, gy, d as int, color) == (own_at(
                            b0,
                            curr_x as int,
                            curr_y as int,
                            color,
                        ) || ray_captures(b0, curr_x as int, curr_y as int, gdx, gdy, color)),
                        forall|i: int, j: int|
                            coord_in_range(i, j) && flipped_upto(b0, gx, gy, color, d as int, i, j)
                                ==> self.occupied(i, j) && self.color_at(i, j) == color,
                        forall|i: int, j: int|
                            coord_in_range(i, j) && !flipped_upto(b0, gx, gy, color, d as int, i, j)
                                ==> self.occupied(i, j) == b0.occupied(i, j) && self.color_at(i, j)
                                == b0.color_at(i, j),
                    ensures
                        line_found == direction_captures(b0, gx, gy, d as int, color),
                        line_found ==> own_at(b0, curr_x as int, curr_y as int, color),
                        line_found ==> opponent_path(
                            b0,
                            gx + gdx,
                            gy + gdy,
                            curr_x as int,
                            curr_y as int,
                            gdx,
                            gdy,
                            color,
                        ),
                        *self == b1,
                        -1 <= curr_x as int <= 8,
                        -1 <= curr_y as int <= 8,
                    decreases ray_fuel(curr_x as int, curr_y as int, gdx, gdy),
                {
                    if !Board::is_coord_valid(curr_x, curr_y) {
                        break;
                    }
                    proof {
                        lemma_other_ray_misses(
                            b0,
                            gx,
                            gy,
                            d as int,
                            k,
                            curr_x as int,
                            curr_y as int,
                            color,
                        );
                    }
                    if !self.is_occupied(curr_x, curr_y) {
                        break;
                    }
                    if self.get_color(curr_x, curr_y) == color {
                        line_found = true;
                        break;
                    }
                    assert(opponent_at(b0, curr_x as int, curr_y as int, color));
                    proof {
                        lemma_path_extend(
                            b0,
                            gx + gdx,
                            gy + gdy,
                            curr_x as int,
                            curr_y as int,
                            gdx,
                            gdy,
                            color,
                        );
                        assert(gx + k * gdx + gdx == gx + (k + 1) * gdx && gy + k * gdy + gdy == gy
                            + (k + 1) * gdy) by (nonlinear_arith);
                        k = k + 1;
                    }
                    curr_x = curr_x + dx;
                    curr_y = curr_y + dy;
                }
                if line_found {
                    let ghost tx = curr_x as int;
                    let ghost ty = curr_y as int;
                    let mut set_curr_x = start_x;
                    let mut set_curr_y = start_y;
                    while set_curr_x != curr_x || set_curr_y != curr_y
                        invariant
                            coord_in_range(gx, gy),
                            gx == x as int,
                            gy == y as int,
                            gdx == dx as int,
                            gdy == dy as int,
                            d < 8,
                            gdx == dir_dx(d as int),
                            gdy == dir_dy(d as int),
                            b0 == *old(self),
                            !b0.occupied(gx, gy),
                            curr_x as int == tx,
                            curr_y as int == ty,
                            own_at(b0, tx, ty, color),
                            direction_captures(b0, gx, gy, d as int, color),
                            opponent_path(
                                b0,
                                set_curr_x as int,
                                set_curr_y as int,
                                tx,
                                ty,
                                gdx,
                                gdy,
                                color,
                            ),
                            -1 <= set_curr_x as int <= 8,
                            -1 <= set_curr_y as int <= 8,
                            forall|i: int, j: int|
                                ray_flips(
                                    b0,
                                    set_curr_x as int,
                                    set_curr_y as int,
                                    gdx,
                                    gdy,
                                    color,
                                    i,
                                    j,
                                ) ==> #[trigger] dir_flips(b0, gx, gy, d as int, color, i, j),
                            forall|i: int, j: int|
                                coord_in_range(i, j) && dir_flips(b0, gx, gy, d as int, color, i, j)
                                    && !ray_flips(
                                    b0,
                                    set_curr_x as int,
                                    set_curr_y as int,
                                    gdx,
                                    gdy,
                                    color,
                                    i,
                                    j,
                                ) ==> self.occupied(i, j) && self.color_at(i, j) == color,
                            forall|i: int, j: int|
                                coord_in_range(i, j) && !(dir_flips(b0, gx, gy, d as int, color, i, j)
                                    && !ray_flips(
                                    b0,
                                    set_curr_x as int,
                                    set_curr_y as int,
                                    gdx,
                                    gdy,
                                    color,
                                    i,
                                    j,
                                )) ==> self.occupied(i, j) == b1.occupied(i, j) && self.color_at(
                                    i,
                                    j,
                                ) == b1.color_at(i, j),
                            forall|i: int, j: int|
                                coord_in_range(i, j) && flipped_upto(b0, gx, gy, color, d as int, i, j)
                                    ==> b1.occupied(i, j) && b1.color_at(i, j) == color,
                            forall|i: int, j: int|
                                coord_in_range(i, j) && !flipped_upto(
                                    b0,
                                    gx,
                                    gy,
                                    color,
                                    d as int,
                                    i,
                                    j,
                                ) ==> b1.occupied(i, j) == b0.occupied(i, j) && b1.color_at(i, j)
                                    == b0.color_at(i, j),
                        decreases ray_fuel(set_curr_x as int, set_curr_y as int, gdx, gdy),
                    {
                        let ghost px = set_curr_x as int;
                        let ghost py = set_curr_y as int;
                        proof {
                            lemma_path_captures(b0, px, py, tx, ty, gdx, gdy, color);
                            lemma_ray_no_revisit(b0, px, py, gdx, gdy, color);
                        }
                        self.set(set_curr_x, set_curr_y, color);
                        set_curr_x = set_curr_x + dx;
                        set_curr_y = set_curr_y + dy;
                        proof {
                            assert(ray_flips(b0, px, py, gdx, gdy, color, px, py));
                            assert forall|i: int, j: int|
                                ray_flips(b0, px, py, gdx, gdy, color, i, j) == ((i == px && j
                                    == py) || ray_flips(
                                    b0,
                                    set_curr_x as int,
                                    set_curr_y as int,
                                    gdx,
                                    gdy,
                                    color,
                                    i,
                                    j,
                                )) by {
                                assert(opponent_at(b0, px, py, color));
                            }
                        }
                    }
                    can_set = true;
                    proof {
                        assert forall|i: int, j: int|
                            coord_in_range(i, j) && flipped_upto(
                                b0,
                                gx,
                                gy,
                                color,
                                d as int + 1,
                                i,
                                j,
                            ) implies self.occupied(i, j) && self.color_at(i, j) == color by {
                            let e = choose|e: int|
                                0 <= e < d as int + 1 && #[trigger] dir_flips(
                                    b0,
                                    gx,
                                    gy,
                                    e,
                                    color,
                                    i,
                                    j,
                                );
                            if e < d as int {
                                assert(flipped_upto(b0, gx, gy, color, d as int, i, j));
                            }
                        }
                        assert forall|i: int, j: int|
                            coord_in_range(i, j) && !flipped_upto(
                                b0,
                                gx,
                                gy,
                                color,
                                d as int + 1,
                                i,
                                j,
                            ) implies self.occupied(i, j) == b0.occupied(i, j) && self.color_at(
                            i,
                            j,
                        ) == b0.color_at(i, j) by {
                            assert(!dir_flips(b0, gx, gy, d as int, color, i, j));
                            assert(!flipped_upto(b0, gx, gy, color, d as int, i, j));
                        }
                        assert(direction_captures(b0, gx, gy, d as int, color));
                    }
                } else {
                    proof {
                        assert forall|i: int, j: int| !dir_flips(
                            b0,
                            gx,
                            gy,
                            d as int,
                            color,
                            i,
                            j,
                        ) by {
                            if dir_flips(b0, gx, gy, d as int, color, i, j) {
                                lemma_ray_flips_implies_captures(
                                    b0,
                                    gx + gdx,
                                    gy + gdy,
                                    gdx,
                                    gdy,
                                    color,
                                    i,
                                    j,
                                );
                            }
                        }
                        assert forall|i: int, j: int|
                            flipped_upto(b0, gx, gy, color, d as int + 1, i, j) implies flipped_upto(
                            b0,
                            gx,
                            gy,
                            color,
                            d as int,
                            i,
                            j,
                        ) by {
                            let e = choose|e: int|
                                0 <= e < d as int + 1 && #[trigger] dir_flips(
                                    b0,
                                    gx,
                                    gy,
                                    e,
                                    color,
                                    i,
                                    j,
                                );
                            assert(e < d as int);
                        }
                    }
                }
            } else {
                proof {
                    assert(!direction_captures(b0, gx, gy, d as int, color));
                    assert forall|i: int, j: int| !dir_flips(b0, gx, gy, d as int, color, i, j) by {
                        if dir_flips(b0, gx, gy, d as int, color, i, j) {
                            lemma_ray_flips_implies_captures(
                                b0,
                                gx + gdx,
                                gy + gdy,
                                gdx,
                                gdy,
                                color,
                                i,
                                j,
                            );
                        }
                    }
                    assert forall|i: int, j: int|
                        flipped_upto(b0, gx, gy, color, d as int + 1, i, j) implies flipped_upto(
                        b0,
                        gx,
                        gy,
                        color,
                        d as int,
                        i,
                        j,
                    ) by {
                        let e = choose|e: int|
                            0 <= e < d as int + 1 && #[trigger] dir_flips(b0, gx, gy, e, color, i, j);
                        assert(e < d as int);
                    }
                }
            }
            d = d + 1;
        }
        if can_set {
            let ghost gx = x as int;
            let ghost gy = y as int;
            proof {
                assert forall|i: int, j: int| cell_flipped(b0, gx, gy, color, i, j)
                    implies opponent_at(b0, i, j, color) by {
                    let e = choose|e: int|
                        0 <= e < 8 && #[trigger] dir_flips(b0, gx, gy, e, color, i, j);
                    lemma_ray_flips_offset(
                        b0,
                        gx + dir_dx(e),
                        gy + dir_dy(e),
                        dir_dx(e),
                        dir_dy(e),
                        color,
                        i,
                        j,
                    );
                }
            }
            let ghost b8 = *self;
            self.set(x, y, color);
            proof {
                let bf = *self;
                let target = place_result(b0, gx, gy, color);
                lemma_place_result_cells(b0, gx, gy, color);
                assert forall|i: int| 0 <= i < 64 implies mask_bit(bf.filled, i) == mask_bit(
                    target.filled,
                    i,
                ) && mask_bit(bf.color, i) == mask_bit(target.color, i) by {
                    let cx = i % 8;
                    let cy = i / 8;
                    assert(cy * 8 + cx == i);
                    assert(coord_in_range(cx, cy));
                    if !(cx == gx && cy == gy) {
                        assert(bf.occupied(cx, cy) == b8.occupied(cx, cy) && bf.color_at(cx, cy)
                            == b8.color_at(cx, cy));
                        if cell_flipped(b0, gx, gy, color, cx, cy) {
                            assert(flipped_upto(b0, gx, gy, color, 8, cx, cy));
                            assert(b8.occupied(cx, cy) && b8.color_at(cx, cy) == color);
                            assert(opponent_at(b0, cx, cy, color));
                        } else {
                            assert(b8.occupied(cx, cy) == b0.occupied(cx, cy) && b8.color_at(
                                cx,
                                cy,
                            ) == b0.color_at(cx, cy));
                        }
                    }
                    assert(bf.occupied(cx, cy) == target.occupied(cx, cy) && bf.color_at(cx, cy)
                        == target.color_at(cx, cy));
                }
                lemma_u64_eq_by_mask_bits(bf.filled, target.filled);
                lemma_u64_eq_by_mask_bits(bf.color, target.color);
                assert forall|i: int| 0 <= i < 64 && i != gy * 8 + gx implies mask_bit(
                    b0.filled,
                    i,
                ) == mask_bit(bf.filled, i) by {
                    let cx = i % 8;
                    let cy = i / 8;
                    assert(cy * 8 + cx == i);
                    assert(coord_in_range(cx, cy));
                    assert(!(cx == gx && cy == gy));
                    assert(bf.occupied(cx, cy) == target.occupied(cx, cy));
                    assert(target.occupied(cx, cy) == b0.occupied(cx, cy));
                }
                assert(!mask_bit(b0.filled, gy * 8 + gx));
                assert(bf.occupied(gx, gy));
                lemma_occupied_count_change(b0, bf, gy * 8 + gx, 64);
            }
        }
        can_set
    }

    /// Determines whether placing `color` at (x, y) is legal, without
    /// touching the board: a dry run of `try_place_chip`.
    pub fn is_valid_move(&self, x: i8, y: i8, color: bool) -> (r: bool)
        requires
            coord_in_range(x as int, y as int),
        ensures
            r == move_valid(*self, x as int, y as int, color),
    {
        if self.is_occupied(x, y) {
            return false;
        }
        let mut d: usize = 0;
        while d < 8
            invariant
                coord_in_range(x as int, y as int),
                !self.occupied(x as int, y as int),
                d <= 8,
                forall|e: int| 0 <= e < d ==> !direction_captures(*self, x as int, y as int, e, color),
            decreases 8 - d,
        {
            let (dx, dy) = direction(d);
            let start_x = x + dx;
            let start_y = y + dy;
            if Board::is_coord_valid(start_x, start_y) && self.is_occupied(start_x, start_y)
                && self.get_color(start_x, start_y) != color {
                let mut curr_x = start_x + dx;
                let mut curr_y = start_y + dy;
                loop
                    invariant
                        coord_in_range(x as int, y as int),
                        !self.occupied(x as int, y as int),
                        -1 <= curr_x as int <= 8,
                        -1 <= curr_y as int <= 8,
                        dx as int == dir_dx(d as int),
                        dy as int == dir_dy(d as int),
                        d < 8,
                        direction_captures(*self, x as int, y as int, d as int, color) == (own_at(
                            *self,
                            curr_x as int,
                            curr_y as int,
                            color,
                        ) || ray_captures(
                            *self,
                            curr_x as int,
                            curr_y as int,
                            dx as int,
                            dy as int,
                            color,
                        )),
                    ensures
                        !direction_captures(*self, x as int, y as int, d as int, color),
                    decreases ray_fuel(curr_x as int, curr_y as int, dx as int, dy as int),
                {
                    if !Board::is_coord_valid(curr_x, curr_y) {
                        break;
                    }
                    if !self.is_occupied(curr_x, curr_y) {
                        break;
                    }
                    if self.get_color(curr_x, curr_y) == color {
                        assert(move_valid(*self, x as int, y as int, color));
                        return true;
                    }
                    curr_x = curr_x + dx;
                    curr_y = curr_y + dy;
                }
            }
            d = d + 1;
        }
        false
    }

    /// Returns every legal move for `color`, collected in the scan order of
    /// the engine: row-major, y outer and x inner, both ascending.
    pub fn get_all_valid_moves(&self, color: bool) -> (r: Vec<(i8, i8)>)
        ensures
            r@ == valid_moves(*self, color),
    {
        let mut found: Vec<(i8, i8)> = Vec::new();
        let mut yy: i8 = 0;
        while yy < 8
            invariant
                0 <= yy <= 8,
                valid_moves(*self, color) == found@ + moves_from(*self, color, yy as int * 8),
            decreases 8 - yy,
        {
            let mut xx: i8 = 0;
            while xx < 8
                invariant
                    0 <= yy < 8,
                    0 <= xx <= 8,
                    valid_moves(*self, color) == found@ + moves_from(
                        *self,
                        color,
                        yy as int * 8 + xx as int,
                    ),
                decreases 8 - xx,
            {
                let ghost n = yy as int * 8 + xx as int;
                let ghost prev = found@;
                proof {
                    assert(n % 8 == xx as int && n / 8 == yy as int);
                }
                if self.is_valid_move(xx, yy, color) {
                    found.push((xx, yy));
                    proof {
                        assert(moves_from(*self, color, n) == seq![(xx, yy)] + moves_from(
                            *self,
                            color,
                            n + 1,
                        ));
                        assert(found@ =~= prev + seq![(xx, yy)]);
                        assert(prev + (seq![(xx, yy)] + moves_from(*self, color, n + 1)) =~= (prev
                            + seq![(xx, yy)]) + moves_from(*self, color, n + 1));
                    }
                }
                xx = xx + 1;
            }
            yy = yy + 1;
        }
        found
    }

    /// Whether `color` has at least one legal move, checked in the same
    /// row-major scan order.
    pub fn has_valid_move(&self, color: bool) -> (r: bool)
        ensures
            r == has_any_move(*self, color),
    {
        let mut yy: i8 = 0;
        while yy < 8
            invariant
                0 <= yy <= 8,
                forall|x: int, y: int|
                    coord_in_range(x, y) && y * 8 + x < yy as int * 8 ==> !move_valid(
                        *self,
                        x,
                        y,
                        color,
                    ),
            decreases 8 - yy,
        {
            let mut xx: i8 = 0;
            while xx < 8
                invariant
                    0 <= yy < 8,
                    0 <= xx <= 8,
                    forall|x: int, y: int|
                        coord_in_range(x, y) && y * 8 + x < yy as int * 8 + xx as int
                            ==> !move_valid(*self, x, y, color),
                decreases 8 - xx,
            {
                if self.is_valid_move(xx, yy, color) {
                    return true;
                }
                xx = xx + 1;
            }
            yy = yy + 1;
        }
        proof {
            if has_any_move(*self, color) {
                let (x, y) = choose|x: int, y: int| move_valid(*self, x, y, color);
                assert(!move_valid(*self, x, y, color));
            }
        }
        false
    }

    /// The debug rendering: a heading line, then 8 bracketed rows of 8
    /// cells each, `O` for white, `X` for black, `_` for empty.
    pub fn render(&self) -> (r: String)
        ensures
            r@ == board_text(*self),
    {
        let mut out = String::new();
        push_char(&mut out, 'B');
        push_char(&mut out, 'o');
        push_char(&mut out, 'a');
        push_char(&mut out, 'r');
        push_char(&mut out, 'd');
        push_char(&mut out, ':');
        push_char(&mut out, '\n');
        proof {
            reveal_strlit("Board:\n");
            assert(out@ =~= "Board:\n"@);
            assert(board_text(*self) =~= out@ + rows_from(*self, 0));
        }
        let mut yy: i8 = 0;
        while yy < 8
            invariant
                0 <= yy <= 8,
                board_text(*self) == out@ + rows_from(*self, yy as int),
            decreases 8 - yy,
        {
            let ghost at_row = out@;
            push_char(&mut out, '[');
            push_char(&mut out, ' ');
            proof {
                assert(rows_from(*self, yy as int) =~= seq!['[', ' '] + (row_chars_from(
                    *self,
                    yy as int,
                    0,
                ) + (seq![']', '\n'] + rows_from(*self, yy as int + 1))));
                assert(out@ =~= at_row + seq!['[', ' ']);
                assert(at_row + (seq!['[', ' '] + (row_chars_from(*self, yy as int, 0) + (seq![
                    ']',
                    '\n',
                ] + rows_from(*self, yy as int + 1)))) =~= (at_row + seq!['[', ' ']) + (
                row_chars_from(*self, yy as int, 0) + (seq![']', '\n'] + rows_from(
                    *self,
                    yy as int + 1,
                ))));
            }
            let mut xx: i8 = 0;
            while xx < 8
                invariant
                    0 <= yy < 8,
                    0 <= xx <= 8,
                    board_text(*self) == out@ + (row_chars_from(*self, yy as int, xx as int) + (
                    seq![']', '\n'] + rows_from(*self, yy as int + 1))),
                decreases 8 - xx,
            {
                let ghost at_cell = out@;
                let ch = if self.is_occupied(xx, yy) {
                    if self.get_color(xx, yy) {
                        'O'
                    } else {
                        'X'
                    }
                } else {
                    '_'
                };
                push_char(&mut out, ch);
                push_char(&mut out, ' ');
                proof {
                    let gy = yy as int;
                    let gx = xx as int;
                    assert(ch == cell_char(*self, gx, gy));
                    assert(row_chars_from(*self, gy, gx) =~= seq![ch, ' '] + row_chars_from(
                        *self,
                        gy,
                        gx + 1,
                    ));
                    assert(out@ =~= at_cell + seq![ch, ' ']);
                    assert(at_cell + ((seq![ch, ' '] + row_chars_from(*self, gy, gx + 1)) + (seq![
                        ']',
                        '\n',
                    ] + rows_from(*self, gy + 1))) =~= (at_cell + seq![ch, ' ']) + (row_chars_from(
                        *self,
                        gy,
                        gx + 1,
                    ) + (seq![']', '\n'] + rows_from(*self, gy + 1))));
                }
                xx = xx + 1;
            }
            let ghost at_end = out@;
            push_char(&mut out, ']');
            push_char(&mut out, '\n');
            proof {
                let gy = yy as int;
                assert(row_chars_from(*self, gy, 8) =~= Seq::<char>::empty());
                assert(at_end + (row_chars_from(*self, gy, 8) + (seq![']', '\n'] + rows_from(
                    *self,
                    gy + 1,
                ))) =~= (at_end + seq![']', '\n']) + rows_from(*self, gy + 1));
                assert(out@ =~= at_end + seq![']', '\n']);
            }
            yy = yy + 1;
        }
        proof {
            assert(rows_from(*self, 8) =~= Seq::<char>::empty());
            assert(out@ + rows_from(*self, 8) =~= out@);
        }
        out
    }

    /// Counts the pieces of color `c` on the board.
    pub fn count_pieces(&self, color: bool) -> (count: u16)
        ensures
            count == piece_count(*self, color),
            count <= 64,
    {
        let mut count: u16 = 0;
        let mut i: u16 = 0;
        while i < 64
            invariant
                i <= 64,
                count <= i,
                count == piece_count_below(*self, color, i as int),
            decreases 64 - i,
        {
            proof {
                lemma_bit_is_zero_or_one(self.filled, i as u64);
                lemma_bit_is_zero_or_one(self.color, i as u64);
            }
            let occ = (self.filled >> (i as u64)) & 1 != 0;
            let col = (self.color >> (i as u64)) & 1 != 0;
            if occ && col == color {
                count = count + 1;
            }
            i = i + 1;
        }
        count
    }
}

} // verus!
