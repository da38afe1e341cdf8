//! Positions and moves.
//!
//! A `Position` carries a `chess::Board` together with its plain-value model
//! (`PositionView`): the occupancy bitboards, the side to move, the castling
//! rights and the en-passant square. The model determines the board, so what
//! the move generator does is a function of the model; those functions are
//! named below and given meaning only by the trusted items of this module.
use vstd::prelude::*;
use chess::{Board, BoardBuilder, ChessMove, Color, MoveGen, Piece, ALL_PIECES, ALL_SQUARES};
use std::str::FromStr;

verus! {

#[verifier::external_type_specification]
#[verifier::external_body]
pub struct ExBoard(chess::Board);

/// Index of each piece kind, in the order the move generator numbers them.
pub const PAWN: u8 = 0;
pub const KNIGHT: u8 = 1;
pub const BISHOP: u8 = 2;
pub const ROOK: u8 = 3;
pub const QUEEN: u8 = 4;
pub const KING: u8 = 5;

/// A move: source and destination squares (0 = a1, 1 = b1, ..., 63 = h8) and the
/// kind a pawn promotes to, if any.
#[derive(Clone, Copy, Debug, PartialEq, Eq, Structural)]
pub struct Move {
    pub source: u8,
    pub dest: u8,
    pub promotion: Option<u8>,
}

impl Move {
    pub fn new(source: u8, dest: u8, promotion: Option<u8>) -> (r: Move)
        ensures
            r == (Move { source, dest, promotion }),
    {
        Move { source, dest, promotion }
    }
}

/// The occupancy of the board: one bitboard per piece kind (both colours
/// together) and one per colour. Bit `s` stands for square `s`.
#[derive(Clone, Copy, Debug, PartialEq, Eq, Structural)]
pub struct Occupancy {
    pub pawns: u64,
    pub knights: u64,
    pub bishops: u64,
    pub rooks: u64,
    pub queens: u64,
    pub kings: u64,
    pub white: u64,
    pub black: u64,
}

/// The plain-value model of a position. It determines the board entirely.
pub struct PositionView {
    pub occupancy: Occupancy,
    pub white_to_move: bool,
    /// Castling rights of White and of Black, as the move generator numbers them.
    pub castling: (nat, nat),
    /// Square of the pawn that may be taken en passant.
    pub en_passant: Option<nat>,
}

/// The layout that a FEN record describes, if it is well formed: what stands on
/// each square (0 = a1, ..., 63 = h8), as a piece kind and whether it is White's,
/// and whether White is to move.
pub uninterp spec fn fen_layout(fen: Seq<char>) -> Option<(Seq<Option<(u8, bool)>>, bool)>;

/// The side to move has a king in the layout.
pub open spec fn mover_has_king(layout: (Seq<Option<(u8, bool)>>, bool)) -> bool {
    exists|i: int| 0 <= i < layout.0.len() && layout.0[i] == Some((KING, layout.1))
}

/// The position that a FEN record describes, if the record is well formed and
/// the position possible.
pub uninterp spec fn fen_position(fen: Seq<char>) -> Option<PositionView>;

/// Relies on `chess::BoardBuilder::from_str`, which parses a FEN record into a
/// layout of 64 squares and refuses malformed records without checking the
/// position.
#[verifier::external_body]
fn parse_fen_layout(fen: &str) -> (r: Option<(Vec<Option<(u8, bool)>>, bool)>)
    ensures
        r.is_some() == fen_layout(fen@).is_some(),
        r.is_some() ==> r.unwrap().0@ == fen_layout(fen@).unwrap().0,
        r.is_some() ==> r.unwrap().1 == fen_layout(fen@).unwrap().1,
        r.is_some() ==> r.unwrap().0@.len() == 64,
{
    BoardBuilder::from_str(fen).ok().map(|b: BoardBuilder| {
        let squares = ALL_SQUARES.iter().map(|sq| b[*sq].map(|(p, c)| (p.to_index() as u8, c == Color::White)));
        (squares.collect(), b.get_side_to_move() == Color::White)
    })
}

/// Relies on `chess::Board::from_str`: it parses a FEN record and refuses
/// impossible positions. Before it checks the position it looks up the squares
/// around the king of the side to move, which must therefore be on the board.
#[verifier::external_body]
fn board_from_fen(fen: &str) -> (r: Option<Position>)
    requires
        fen_layout(fen@).is_some(),
        mover_has_king(fen_layout(fen@).unwrap()),
    ensures
        r.is_some() == fen_position(fen@).is_some(),
        r.is_some() ==> r.unwrap()@ == fen_position(fen@).unwrap(),
{
    Board::from_str(fen).ok().map(|board| Position { board, model: Ghost(arbitrary()) })
}

/// Whether the side to move has a king in the layout.
fn layout_has_mover_king(layout: &(Vec<Option<(u8, bool)>>, bool)) -> (r: bool)
    ensures
        r == mover_has_king((layout.0@, layout.1)),
{
    let mut i: usize = 0;
    while i < layout.0.len()
        invariant
            0 <= i <= layout.0@.len(),
            forall|j: int| 0 <= j < i ==> layout.0@[j] != Some((KING, layout.1)),
        decreases layout.0@.len() - i,
    {
        match layout.0[i] {
            Some((kind, white)) => {
                if kind == KING && white == layout.1 {
                    return true;
                }
            },
            None => {},
        }
        i = i + 1;
    }
    false
}

/// The legal moves of a position, in the order the move generator yields them.
pub uninterp spec fn legal_moves_of(p: PositionView) -> Seq<Move>;

/// The position after a legal move.
pub uninterp spec fn after_move(p: PositionView, m: Move) -> PositionView;

/// The pieces that give check to the side to move.
pub uninterp spec fn checkers_of(p: PositionView) -> u64;

/// The Zobrist hash of a position.
pub uninterp spec fn hash_of(p: PositionView) -> u64;

/// Whether square `sq` is set in bitboard `bb`.
pub open spec fn has_bit(bb: u64, sq: int) -> bool {
    (bb >> (sq as u64)) & 1u64 == 1u64
}

/// The number of squares below `n` set in `bb`.
pub open spec fn bit_count(bb: u64, n: int) -> int
    decreases n,
{
    if n <= 0 {
        0
    } else {
        bit_count(bb, n - 1) + if has_bit(bb, n - 1) {
            1int
        } else {
            0
        }
    }
}

/// The pieces of one colour, counted kind by kind.
pub open spec fn piece_count(o: Occupancy, white: bool) -> int {
    let c = if white {
        o.white
    } else {
        o.black
    };
    bit_count(o.pawns & c, 64) + bit_count(o.knights & c, 64) + bit_count(o.bishops & c, 64)
        + bit_count(o.rooks & c, 64) + bit_count(o.queens & c, 64) + bit_count(o.kings & c, 64)
}

/// Each side has at most sixteen pieces, as in any game played from the
/// starting position.
pub open spec fn within_piece_limit(o: Occupancy) -> bool {
    piece_count(o, true) <= 16 && piece_count(o, false) <= 16
}

pub open spec fn in_check(p: PositionView) -> bool {
    checkers_of(p) != 0
}

pub open spec fn is_legal(p: PositionView, m: Move) -> bool {
    legal_moves_of(p).contains(m)
}

/// A chess position: a board of the rules library and its model.
#[derive(Clone, Copy)]
pub struct Position {
    board: Board,
    model: Ghost<PositionView>,
}

impl View for Position {
    type V = PositionView;

    closed spec fn view(&self) -> PositionView {
        self.model@
    }
}

impl Position {
    /// The position a FEN record describes; `None` when the record is malformed
    /// or the position impossible (the side to move without a king among them).
    pub fn from_fen(fen: &str) -> (r: Option<Position>)
        ensures
            r.is_some() == (fen_layout(fen@).is_some() && mover_has_king(fen_layout(fen@).unwrap())
                && fen_position(fen@).is_some()),
            r.is_some() ==> r.unwrap()@ == fen_position(fen@).unwrap(),
    {
        match parse_fen_layout(fen) {
            Some(layout) => {
                if layout_has_mover_king(&layout) {
                    board_from_fen(fen)
                } else {
                    None
                }
            },
            None => None,
        }
    }

    /// Relies on `chess::Board::side_to_move`.
    #[verifier::external_body]
    pub fn white_to_move(&self) -> (r: bool)
        ensures
            r == self@.white_to_move,
    {
        self.board.side_to_move() == Color::White
    }

    /// Relies on `chess::Board::pieces` and `chess::Board::color_combined`, which
    /// hand out the board's bitboards.
    #[verifier::external_body]
    pub fn occupancy(&self) -> (r: Occupancy)
        ensures
            r == self@.occupancy,
    {
        let b = &self.board;
        Occupancy {
            pawns: b.pieces(Piece::Pawn).0,
            knights: b.pieces(Piece::Knight).0,
            bishops: b.pieces(Piece::Bishop).0,
            rooks: b.pieces(Piece::Rook).0,
            queens: b.pieces(Piece::Queen).0,
            kings: b.pieces(Piece::King).0,
            white: b.color_combined(Color::White).0,
            black: b.color_combined(Color::Black).0,
        }
    }

    /// Relies on `chess::Board::checkers`.
    #[verifier::external_body]
    pub fn checkers(&self) -> (r: u64)
        ensures
            r == checkers_of(self@),
    {
        self.board.checkers().0
    }

    /// Relies on `chess::Board::get_hash`.
    #[verifier::external_body]
    pub fn hash(&self) -> (r: u64)
        ensures
            r == hash_of(self@),
    {
        self.board.get_hash()
    }

    /// Relies on `chess::MoveGen::new_legal`, which enumerates the legal moves,
    /// each once. It keeps one slot per piece of the side to move in an
    /// 18-slot array, so no side may have more pieces than that.
    #[verifier::external_body]
    pub fn legal_moves(&self) -> (r: Vec<Move>)
        requires
            within_piece_limit(self@.occupancy),
        ensures
            r@ == legal_moves_of(self@),
            r@.no_duplicates(),
    {
        MoveGen::new_legal(&self.board)
            .map(|m: ChessMove| Move {
                source: m.get_source().to_int(),
                dest: m.get_dest().to_int(),
                promotion: m.get_promotion().map(|p: Piece| p.to_index() as u8),
            })
            .collect()
    }

    /// Relies on `chess::Board::make_move_new`, which panics on a move from an
    /// empty square; a legal move never is one. It hands the move to the other
    /// side, and it only moves, removes (a capture) or replaces (a promotion)
    /// pieces, so neither side's piece count grows.
    #[verifier::external_body]
    pub fn after(&self, m: Move) -> (r: Position)
        requires
            is_legal(self@, m),
        ensures
            r@ == after_move(self@, m),
            r@.white_to_move == !self@.white_to_move,
            piece_count(r@.occupancy, true) <= piece_count(self@.occupancy, true),
            piece_count(r@.occupancy, false) <= piece_count(self@.occupancy, false),
    {
        let promotion = m.promotion.map(|k: u8| ALL_PIECES[k as usize]);
        let mv = ChessMove::new(ALL_SQUARES[m.source as usize], ALL_SQUARES[m.dest as usize], promotion);
        Position { board: self.board.make_move_new(mv), model: Ghost(arbitrary()) }
    }

    /// Relies on the derived `PartialEq` of `chess::Board`, which compares every
    /// field; all of them follow from the model.
    #[verifier::external_body]
    pub fn same_as(&self, other: &Position) -> (r: bool)
        ensures
            r == (self@ == other@),
    {
        self.board == other.board
    }
}

} // verus!
