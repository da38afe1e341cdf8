//! Static evaluation of a position from White's side, and the scores of
//! positions where the side to move has no legal move.
//!
//! The evaluation is material plus placement: for every piece kind, the sum of
//! a piece-square table over White's pieces minus the same sum over Black's
//! pieces (Black reads the table with the ranks reversed). The tables hold the
//! piece's worth (pawn 100, knight 300, bishop 300, rook 500, queen 900) plus a
//! placement bonus. The king reads its middlegame table while a queen is on the
//! board and its endgame table once both queens are gone. The sum is exact;
//! with at most sixteen pieces a side it stays within `EVAL_BOUND`, far from
//! the checkmate scores, so it fits the 16-bit score range.
use vstd::prelude::*;
use crate::position::{bit_count, has_bit, piece_count, within_piece_limit, Occupancy, Position};
use vstd::arithmetic::div_mod::lemma_fundamental_div_mod_converse;
use vstd::std_specs::bits::{axiom_u64_trailing_zeros, u64_trailing_zeros};

verus! {

/// The largest magnitude of the evaluation of a board within the piece limit:
/// sixteen pieces on their best squares (905 at most) against sixteen on their
/// worst (-50 at least). It stays well below any checkmate score.
pub const EVAL_BOUND: i16 = 15280;

/// The score of being checkmated with no search depth left.
pub const CHECKMATE_SCORE: i16 = 20000;

/// The extra score of a checkmate for each ply of search depth still left when it
/// is found; it makes the search prefer the faster of two mates.
pub const CHECKMATE_DEPTH_SCORE: i16 = 500;

/// The deepest search whose scores fit the 16-bit score range:
/// `CHECKMATE_SCORE + CHECKMATE_DEPTH_SCORE * MAX_DEPTH` stays below `i16::MAX`.
pub const MAX_DEPTH: u8 = 16;

// The piece-square tables, written from White's side: index 0 is a1, 7 is h1
// and 56 is a8. Each value is the piece's worth plus its placement bonus there.

pub const PAWN_TABLE: [i16; 64] = [
    100, 100, 100, 100, 100, 100, 100, 100,
    105, 110, 110, 80, 80, 110, 110, 105,
    105, 95, 90, 100, 100, 90, 95, 105,
    100, 100, 100, 120, 120, 100, 100, 100,
    105, 105, 110, 125, 125, 110, 105, 105,
    110, 110, 120, 130, 130, 120, 110, 110,
    150, 150, 150, 150, 150, 150, 150, 150,
    100, 100, 100, 100, 100, 100, 100, 100,
];

pub const KNIGHT_TABLE: [i16; 64] = [
    250, 260, 270, 270, 270, 270, 260, 250,
    260, 280, 300, 305, 305, 300, 280, 260,
    270, 305, 310, 315, 315, 310, 305, 270,
    270, 300, 315, 320, 320, 315, 300, 270,
    270, 305, 315, 320, 320, 315, 305, 270,
    270, 300, 310, 315, 315, 310, 300, 270,
    260, 280, 300, 300, 300, 300, 280, 260,
    250, 260, 270, 270, 270, 270, 260, 250,
];

pub const BISHOP_TABLE: [i16; 64] = [
    280, 290, 290, 290, 290, 290, 290, 280,
    290, 305, 300, 300, 300, 300, 305, 290,
    290, 310, 310, 310, 310, 310, 310, 290,
    290, 300, 310, 310, 310, 310, 300, 290,
    290, 305, 305, 310, 310, 305, 305, 290,
    290, 300, 305, 310, 310, 305, 300, 290,
    290, 300, 300, 300, 300, 300, 300, 290,
    280, 290, 290, 290, 290, 290, 290, 280,
];

pub const ROOK_TABLE: [i16; 64] = [
    500, 500, 500, 505, 505, 500, 500, 500,
    495, 500, 500, 500, 500, 500, 500, 495,
    495, 500, 500, 500, 500, 500, 500, 495,
    495, 500, 500, 500, 500, 500, 500, 495,
    495, 500, 500, 500, 500, 500, 500, 495,
    495, 500, 500, 500, 500, 500, 500, 495,
    505, 510, 510, 510, 510, 510, 510, 505,
    500, 500, 500, 500, 500, 500, 500, 500,
];

pub const QUEEN_TABLE: [i16; 64] = [
    880, 890, 890, 895, 895, 890, 890, 880,
    890, 900, 905, 900, 900, 900, 900, 890,
    890, 905, 905, 905, 905, 905, 900, 890,
    900, 900, 905, 905, 905, 905, 900, 895,
    895, 900, 905, 905, 905, 905, 900, 895,
    890, 900, 905, 905, 905, 905, 900, 890,
    890, 900, 900, 900, 900, 900, 900, 890,
    880, 890, 890, 895, 895, 890, 890, 880,
];

pub const KING_MIDDLE_TABLE: [i16; 64] = [
    20, 30, 10, 0, 0, 10, 30, 20,
    20, 20, 0, 0, 0, 0, 20, 20,
    -10, -20, -20, -20, -20, -20, -20, -10,
    -20, -30, -30, -40, -40, -30, -30, -20,
    -30, -40, -40, -50, -50, -40, -40, -30,
    -30, -40, -40, -50, -50, -40, -40, -30,
    -30, -40, -40, -50, -50, -40, -40, -30,
    -30, -40, -40, -50, -50, -40, -40, -30,
];

pub const KING_END_TABLE: [i16; 64] = [
    -50, -30, -30, -30, -30, -30, -30, -50,
    -30, -30, 0, 0, 0, 0, -30, -30,
    -30, -10, 20, 30, 30, 20, -10, -30,
    -30, -10, 30, 40, 40, 30, -10, -30,
    -30, -10, 30, 40, 40, 30, -10, -30,
    -30, -10, 20, 30, 30, 20, -10, -30,
    -30, -20, -10, 0, 0, -10, -20, -30,
    -50, -40, -30, -20, -20, -30, -40, -50,
];
/// The square of a table (written from White's side) that `sq` reads from
/// the side of the given colour: Black reads the ranks in reverse.
pub open spec fn table_square(sq: int, white: bool) -> int {
    if white {
        sq
    } else {
        (7 - sq / 8) * 8 + sq % 8
    }
}

/// What square `sq` adds to a table sum: the table's value there if `bb` holds
/// the square, else nothing.
pub open spec fn square_term(bb: u64, table: Seq<i16>, white: bool, sq: int) -> int {
    if has_bit(bb, sq) {
        table[table_square(sq, white)] as int
    } else {
        0
    }
}

/// The sum of the table over the squares below `n` that are set in `bb`.
pub open spec fn table_sum(bb: u64, table: Seq<i16>, white: bool, n: int) -> int
    decreases n,
{
    if n <= 0 {
        0
    } else {
        table_sum(bb, table, white, n - 1) + square_term(bb, table, white, n - 1)
    }
}

/// The table summed over the pieces of one kind and colour.
pub open spec fn side_sum(bb: u64, table: Seq<i16>, white: bool) -> int {
    table_sum(bb, table, white, 64)
}

/// White's table sum minus Black's for the pieces in `kind`.
pub open spec fn kind_balance(o: Occupancy, kind: u64, table: Seq<i16>) -> int {
    side_sum(kind & o.white, table, true) - side_sum(kind & o.black, table, false)
}

/// Neither side has a queen left.
pub open spec fn is_endgame(o: Occupancy) -> bool {
    o.queens & o.white == 0 && o.queens & o.black == 0
}

/// Material plus placement, from White's side.
pub open spec fn material_balance(o: Occupancy) -> int {
    kind_balance(o, o.pawns, PAWN_TABLE@) + kind_balance(o, o.knights, KNIGHT_TABLE@)
        + kind_balance(o, o.bishops, BISHOP_TABLE@) + kind_balance(o, o.rooks, ROOK_TABLE@)
        + kind_balance(o, o.queens, QUEEN_TABLE@) + kind_balance(
        o,
        o.kings,
        if is_endgame(o) {
            KING_END_TABLE@
        } else {
            KING_MIDDLE_TABLE@
        },
    )
}

/// The static evaluation of an occupancy, from White's side.
pub open spec fn evaluation(o: Occupancy) -> int {
    material_balance(o)
}

/// The table summed over the squares set in `bb`, read from the given side.
fn side_sum_of(bb: u64, table: &[i16; 64], white: bool) -> (r: i32)
    ensures
        r == side_sum(bb, table@, white),
        -2097152 <= r <= 2097088,
{
    let mut sum: i32 = 0;
    let mut sq: u64 = 0;
    while sq < 64
        invariant
            0 <= sq <= 64,
            sum == table_sum(bb, table@, white, sq as int),
            -32768 * sq <= sum <= 32767 * sq,
        decreases 64 - sq,
    {
        if (bb >> sq) & 1 == 1 {
            let idx: u64 = if white {
                sq
            } else {
                (7 - sq / 8) * 8 + sq % 8
            };
            sum = sum + table[idx as usize] as i32;
        }
        sq = sq + 1;
    }
    sum
}

/// White's table sum minus Black's for the pieces in `kind`.
fn kind_balance_of(o: &Occupancy, kind: u64, table: &[i16; 64]) -> (r: i32)
    ensures
        r == kind_balance(*o, kind, table@),
        -4194240 <= r <= 4194240,
{
    side_sum_of(kind & o.white, table, true) - side_sum_of(kind & o.black, table, false)
}

/// How a game ends when the side to move has no legal move.
#[derive(Clone, Copy, Debug, PartialEq, Eq, Structural)]
pub enum TerminalStatus {
    Stalemate,
    Checkmate,
}

/// The score of a position without legal moves: zero for a stalemate; for a
/// checkmate, `color_index` (1 for White to move, -1 for Black) times minus the
/// checkmate score grown by the depth still left.
pub open spec fn terminal_value(status: TerminalStatus, color_index: int, depth: int) -> int {
    match status {
        TerminalStatus::Stalemate => 0,
        TerminalStatus::Checkmate => color_index * -(CHECKMATE_SCORE + CHECKMATE_DEPTH_SCORE * depth),
    }
}

/// The score, from White's side, of a position in which the side to move
/// (`color_index` 1 for White, -1 for Black) has no legal move, `depth` plies
/// before the search horizon.
pub fn terminal_score(status: TerminalStatus, color_index: i8, depth: u8) -> (r: i16)
    requires
        color_index == 1 || color_index == -1,
        depth <= MAX_DEPTH,
    ensures
        r == terminal_value(status, color_index as int, depth as int),
{
    match status {
        TerminalStatus::Stalemate => 0,
        TerminalStatus::Checkmate => {
            let loss: i16 = CHECKMATE_SCORE + CHECKMATE_DEPTH_SCORE * depth as i16;
            color_index as i16 * -loss
        },
    }
}

/// Every value of a table lies between -50 and 905.
pub open spec fn table_in_range(table: Seq<i16>) -> bool {
    forall|i: int| 0 <= i < 64 ==> -50 <= #[trigger] table[i] <= 905
}

proof fn lemma_tables_in_range()
    ensures
        table_in_range(PAWN_TABLE@),
        table_in_range(KNIGHT_TABLE@),
        table_in_range(BISHOP_TABLE@),
        table_in_range(ROOK_TABLE@),
        table_in_range(QUEEN_TABLE@),
        table_in_range(KING_MIDDLE_TABLE@),
        table_in_range(KING_END_TABLE@),
{
}

proof fn lemma_table_sum_range(bb: u64, table: Seq<i16>, white: bool, n: int)
    requires
        table_in_range(table),
        0 <= n <= 64,
    ensures
        -50 * bit_count(bb, n) <= table_sum(bb, table, white, n) <= 905 * bit_count(bb, n),
        0 <= bit_count(bb, n),
    decreases n,
{
    if n > 0 {
        lemma_table_sum_range(bb, table, white, n - 1);
        lemma_mirror_involution(n - 1);
    }
}

/// Within the piece limit the evaluation stays inside `EVAL_BOUND`.
pub proof fn evaluation_bound(o: Occupancy)
    requires
        within_piece_limit(o),
    ensures
        -EVAL_BOUND <= evaluation(o) <= EVAL_BOUND,
{
    lemma_tables_in_range();
    let kings = if is_endgame(o) {
        KING_END_TABLE@
    } else {
        KING_MIDDLE_TABLE@
    };
    lemma_table_sum_range(o.pawns & o.white, PAWN_TABLE@, true, 64);
    lemma_table_sum_range(o.knights & o.white, KNIGHT_TABLE@, true, 64);
    lemma_table_sum_range(o.bishops & o.white, BISHOP_TABLE@, true, 64);
    lemma_table_sum_range(o.rooks & o.white, ROOK_TABLE@, true, 64);
    lemma_table_sum_range(o.queens & o.white, QUEEN_TABLE@, true, 64);
    lemma_table_sum_range(o.kings & o.white, kings, true, 64);
    lemma_table_sum_range(o.pawns & o.black, PAWN_TABLE@, false, 64);
    lemma_table_sum_range(o.knights & o.black, KNIGHT_TABLE@, false, 64);
    lemma_table_sum_range(o.bishops & o.black, BISHOP_TABLE@, false, 64);
    lemma_table_sum_range(o.rooks & o.black, ROOK_TABLE@, false, 64);
    lemma_table_sum_range(o.queens & o.black, QUEEN_TABLE@, false, 64);
    lemma_table_sum_range(o.kings & o.black, kings, false, 64);
}

/// The number of squares set in `bb`.
fn bit_count_of(bb: u64) -> (r: u32)
    ensures
        r == bit_count(bb, 64),
{
    let mut count: u32 = 0;
    let mut sq: u64 = 0;
    while sq < 64
        invariant
            0 <= sq <= 64,
            count == bit_count(bb, sq as int),
            count <= sq,
        decreases 64 - sq,
    {
        if (bb >> sq) & 1 == 1 {
            count = count + 1;
        }
        sq = sq + 1;
    }
    count
}

/// Whether each side has at most sixteen pieces.
pub fn piece_limit_holds(o: &Occupancy) -> (r: bool)
    ensures
        r == within_piece_limit(*o),
{
    let w = o.white;
    let b = o.black;
    let white = bit_count_of(o.pawns & w) as u64 + bit_count_of(o.knights & w) as u64 + bit_count_of(
        o.bishops & w,
    ) as u64 + bit_count_of(o.rooks & w) as u64 + bit_count_of(o.queens & w) as u64 + bit_count_of(
        o.kings & w,
    ) as u64;
    let black = bit_count_of(o.pawns & b) as u64 + bit_count_of(o.knights & b) as u64 + bit_count_of(
        o.bishops & b,
    ) as u64 + bit_count_of(o.rooks & b) as u64 + bit_count_of(o.queens & b) as u64 + bit_count_of(
        o.kings & b,
    ) as u64;
    white <= 16 && black <= 16
}

/// The evaluation of an occupancy, from White's side: material plus placement.
pub fn evaluate_occupancy(o: &Occupancy) -> (r: i16)
    requires
        within_piece_limit(*o),
    ensures
        r == evaluation(*o),
        -EVAL_BOUND <= r <= EVAL_BOUND,
{
    let kings = if o.queens & o.white == 0 && o.queens & o.black == 0 {
        &KING_END_TABLE
    } else {
        &KING_MIDDLE_TABLE
    };
    let total: i32 = kind_balance_of(o, o.pawns, &PAWN_TABLE) + kind_balance_of(
        o,
        o.knights,
        &KNIGHT_TABLE,
    ) + kind_balance_of(o, o.bishops, &BISHOP_TABLE) + kind_balance_of(o, o.rooks, &ROOK_TABLE)
        + kind_balance_of(o, o.queens, &QUEEN_TABLE) + kind_balance_of(o, o.kings, kings);
    proof {
        evaluation_bound(*o);
    }
    total as i16
}

/// The static evaluation of a position, from White's side.
pub fn evaluation_pieces_worth_plus(position: &Position) -> (r: i16)
    requires
        within_piece_limit(position@.occupancy),
    ensures
        r == evaluation(position@.occupancy),
{
    evaluate_occupancy(&position.occupancy())
}

/// The square `sq` turns into when the board is turned over between the
/// colours: ranks reversed, files kept.
pub open spec fn mirror_square(sq: int) -> int {
    (7 - sq / 8) * 8 + sq % 8
}

/// `y` holds the squares of `x` with the ranks reversed.
pub open spec fn mirrors_bits(x: u64, y: u64) -> bool {
    forall|sq: int| 0 <= sq < 64 ==> #[trigger] has_bit(y, sq) == has_bit(x, mirror_square(sq))
}

/// `m` is `o` with the colours swapped and the ranks reversed.
pub open spec fn is_colour_mirror(o: Occupancy, m: Occupancy) -> bool {
    &&& mirrors_bits(o.pawns, m.pawns)
    &&& mirrors_bits(o.knights, m.knights)
    &&& mirrors_bits(o.bishops, m.bishops)
    &&& mirrors_bits(o.rooks, m.rooks)
    &&& mirrors_bits(o.queens, m.queens)
    &&& mirrors_bits(o.kings, m.kings)
    &&& mirrors_bits(o.white, m.black)
    &&& mirrors_bits(o.black, m.white)
}

pub open spec fn sum_to(g: spec_fn(int) -> int, n: int) -> int
    decreases n,
{
    if n <= 0 {
        0
    } else {
        sum_to(g, n - 1) + g(n - 1)
    }
}

pub open spec fn row_sum(g: spec_fn(int) -> int, r: int) -> int {
    g(8 * r) + g(8 * r + 1) + g(8 * r + 2) + g(8 * r + 3) + g(8 * r + 4) + g(8 * r + 5) + g(8 * r + 6) + g(
        8 * r + 7,
    )
}

proof fn lemma_mirror_square(r: int, f: int)
    requires
        0 <= r < 8,
        0 <= f < 8,
    ensures
        mirror_square(8 * r + f) == 8 * (7 - r) + f,
{
    lemma_fundamental_div_mod_converse(8 * r + f, 8, r, f);
}

proof fn lemma_mirror_involution(sq: int)
    requires
        0 <= sq < 64,
    ensures
        0 <= mirror_square(sq) < 64,
        mirror_square(mirror_square(sq)) == sq,
{
    let r = sq / 8;
    let f = sq % 8;
    lemma_fundamental_div_mod_converse(sq, 8, r, f);
    assert(0 <= r < 8);
    lemma_mirror_square(r, f);
    lemma_mirror_square(7 - r, f);
}

proof fn lemma_rows(g: spec_fn(int) -> int, r: int)
    requires
        r >= 0,
    ensures
        sum_to(g, 8 * r) == if r == 0 {
            0
        } else {
            sum_to(g, 8 * (r - 1)) + row_sum(g, r - 1)
        },
{
    if r > 0 {
        reveal_with_fuel(sum_to, 9);
    }
}

proof fn lemma_sum_64(g: spec_fn(int) -> int)
    ensures
        sum_to(g, 64) == row_sum(g, 0) + row_sum(g, 1) + row_sum(g, 2) + row_sum(g, 3) + row_sum(g, 4)
            + row_sum(g, 5) + row_sum(g, 6) + row_sum(g, 7),
{
    lemma_rows(g, 1);
    lemma_rows(g, 2);
    lemma_rows(g, 3);
    lemma_rows(g, 4);
    lemma_rows(g, 5);
    lemma_rows(g, 6);
    lemma_rows(g, 7);
    lemma_rows(g, 8);
    assert(sum_to(g, 0) == 0);
}

proof fn lemma_sum_pointwise(f1: spec_fn(int) -> int, f2: spec_fn(int) -> int, n: int)
    requires
        forall|k: int| 0 <= k < n ==> #[trigger] f1(k) == f2(k),
    ensures
        sum_to(f1, n) == sum_to(f2, n),
    decreases n,
{
    if n > 0 {
        lemma_sum_pointwise(f1, f2, n - 1);
    }
}

/// Summing over the squares in mirrored order gives the same sum.
proof fn lemma_sum_mirrored(g: spec_fn(int) -> int)
    ensures
        sum_to(|sq: int| g(mirror_square(sq)), 64) == sum_to(g, 64),
{
    let h = |sq: int| g(mirror_square(sq));
    lemma_sum_64(g);
    lemma_sum_64(h);
    assert forall|r: int| 0 <= r < 8 implies #[trigger] row_sum(h, r) == row_sum(g, 7 - r) by {
        lemma_mirror_square(r, 0);
        lemma_mirror_square(r, 1);
        lemma_mirror_square(r, 2);
        lemma_mirror_square(r, 3);
        lemma_mirror_square(r, 4);
        lemma_mirror_square(r, 5);
        lemma_mirror_square(r, 6);
        lemma_mirror_square(r, 7);
    }
    assert(row_sum(h, 0) == row_sum(g, 7));
    assert(row_sum(h, 1) == row_sum(g, 6));
    assert(row_sum(h, 2) == row_sum(g, 5));
    assert(row_sum(h, 3) == row_sum(g, 4));
    assert(row_sum(h, 4) == row_sum(g, 3));
    assert(row_sum(h, 5) == row_sum(g, 2));
    assert(row_sum(h, 6) == row_sum(g, 1));
    assert(row_sum(h, 7) == row_sum(g, 0));
}

proof fn lemma_table_sum_is_sum(bb: u64, table: Seq<i16>, white: bool, n: int)
    requires
        n >= 0,
    ensures
        table_sum(bb, table, white, n) == sum_to(|sq: int| square_term(bb, table, white, sq), n),
    decreases n,
{
    if n > 0 {
        lemma_table_sum_is_sum(bb, table, white, n - 1);
    }
}

proof fn lemma_has_bit_and(x: u64, y: u64, sq: int)
    requires
        0 <= sq < 64,
    ensures
        has_bit(x & y, sq) == (has_bit(x, sq) && has_bit(y, sq)),
{
    let s = sq as u64;
    assert(((x & y) >> s) & 1u64 == 1u64 <==> ((x >> s) & 1u64 == 1u64 && (y >> s) & 1u64 == 1u64))
        by (bit_vector)
        requires
            s < 64,
    ;
}

proof fn lemma_mirrors_bits_symmetric(x: u64, y: u64)
    requires
        mirrors_bits(x, y),
    ensures
        mirrors_bits(y, x),
{
    assert forall|sq: int| 0 <= sq < 64 implies #[trigger] has_bit(x, sq) == has_bit(y, mirror_square(sq)) by {
        lemma_mirror_involution(sq);
        assert(has_bit(y, mirror_square(sq)) == has_bit(x, mirror_square(mirror_square(sq))));
    }
}

proof fn lemma_mirrors_bits_and(x1: u64, x2: u64, y1: u64, y2: u64)
    requires
        mirrors_bits(x1, y1),
        mirrors_bits(x2, y2),
    ensures
        mirrors_bits(x1 & x2, y1 & y2),
{
    assert forall|sq: int| 0 <= sq < 64 implies #[trigger] has_bit(y1 & y2, sq) == has_bit(
        x1 & x2,
        mirror_square(sq),
    ) by {
        lemma_mirror_involution(sq);
        lemma_has_bit_and(y1, y2, sq);
        lemma_has_bit_and(x1, x2, mirror_square(sq));
    }
}

proof fn lemma_zero_has_no_bits(x: u64)
    ensures
        x == 0 <==> forall|sq: int| 0 <= sq < 64 ==> !#[trigger] has_bit(x, sq),
{
    if x == 0 {
        assert forall|sq: int| 0 <= sq < 64 implies !#[trigger] has_bit(x, sq) by {
            let s = sq as u64;
            assert((0u64 >> s) & 1u64 == 0u64) by (bit_vector);
        }
    } else {
        axiom_u64_trailing_zeros(x);
        let t = u64_trailing_zeros(x) as int;
        assert(has_bit(x, t));
    }
}

proof fn lemma_mirrors_bits_zero(x: u64, y: u64)
    requires
        mirrors_bits(x, y),
    ensures
        (x == 0) == (y == 0),
{
    lemma_mirrors_bits_symmetric(x, y);
    lemma_zero_has_no_bits(x);
    lemma_zero_has_no_bits(y);
    if x == 0 {
        assert forall|sq: int| 0 <= sq < 64 implies !#[trigger] has_bit(y, sq) by {
            lemma_mirror_involution(sq);
        }
    }
    if y == 0 {
        assert forall|sq: int| 0 <= sq < 64 implies !#[trigger] has_bit(x, sq) by {
            lemma_mirror_involution(sq);
        }
    }
}

/// White's sum over the squares of `y` equals Black's sum over those of `x`, which
/// `y` mirrors.
proof fn lemma_side_sum_mirrored(x: u64, y: u64, table: Seq<i16>)
    requires
        mirrors_bits(x, y),
    ensures
        side_sum(y, table, true) == side_sum(x, table, false),
{
    let g = |sq: int| square_term(x, table, false, sq);
    let fy = |sq: int| square_term(y, table, true, sq);
    lemma_table_sum_is_sum(y, table, true, 64);
    lemma_table_sum_is_sum(x, table, false, 64);
    lemma_sum_mirrored(g);
    let h = |sq: int| g(mirror_square(sq));
    assert forall|k: int| 0 <= k < 64 implies #[trigger] fy(k) == h(k) by {
        lemma_mirror_involution(k);
        assert(table_square(mirror_square(k), false) == k);
    }
    lemma_sum_pointwise(fy, h, 64);
    assert(sum_to(fy, 64) == sum_to(h, 64));
}

proof fn lemma_kind_balance_mirrored(o: Occupancy, m: Occupancy, ko: u64, km: u64, table: Seq<i16>)
    requires
        mirrors_bits(ko, km),
        mirrors_bits(o.white, m.black),
        mirrors_bits(o.black, m.white),
    ensures
        kind_balance(m, km, table) == -kind_balance(o, ko, table),
{
    lemma_mirrors_bits_and(ko, o.black, km, m.white);
    lemma_mirrors_bits_and(ko, o.white, km, m.black);
    lemma_side_sum_mirrored(ko & o.black, km & m.white, table);
    lemma_mirrors_bits_symmetric(ko & o.white, km & m.black);
    lemma_side_sum_mirrored(km & m.black, ko & o.white, table);
}

/// The evaluation is colour-symmetric: swapping the colours of all pieces and
/// reversing the ranks negates it.
pub proof fn evaluation_is_colour_symmetric(o: Occupancy, m: Occupancy)
    requires
        is_colour_mirror(o, m),
    ensures
        evaluation(m) == -evaluation(o),
{
    lemma_kind_balance_mirrored(o, m, o.pawns, m.pawns, PAWN_TABLE@);
    lemma_kind_balance_mirrored(o, m, o.knights, m.knights, KNIGHT_TABLE@);
    lemma_kind_balance_mirrored(o, m, o.bishops, m.bishops, BISHOP_TABLE@);
    lemma_kind_balance_mirrored(o, m, o.rooks, m.rooks, ROOK_TABLE@);
    lemma_kind_balance_mirrored(o, m, o.queens, m.queens, QUEEN_TABLE@);
    lemma_kind_balance_mirrored(o, m, o.kings, m.kings, KING_END_TABLE@);
    lemma_kind_balance_mirrored(o, m, o.kings, m.kings, KING_MIDDLE_TABLE@);
    lemma_mirrors_bits_and(o.queens, o.white, m.queens, m.black);
    lemma_mirrors_bits_and(o.queens, o.black, m.queens, m.white);
    lemma_mirrors_bits_zero(o.queens & o.white, m.queens & m.black);
    lemma_mirrors_bits_zero(o.queens & o.black, m.queens & m.white);
    assert(is_endgame(m) == is_endgame(o));
}

} // verus!
