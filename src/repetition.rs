//! The repetition guard: the hashes of positions that have occurred more than
//! once in the game actually played.
use vstd::prelude::*;
use crate::position::{
    after_move, hash_of, is_legal, legal_moves_of, within_piece_limit, Move, Position, PositionView,
};
use std::collections::HashSet;

verus! {

broadcast use vstd::std_specs::hash::group_hash_axioms;

/// A set of position hashes.
pub struct RepetitionSet {
    hashes: HashSet<u64>,
}

impl View for RepetitionSet {
    type V = Set<u64>;

    closed spec fn view(&self) -> Set<u64> {
        self.hashes@
    }
}

impl RepetitionSet {
    /// The empty set.
    pub fn new() -> (r: RepetitionSet)
        ensures
            r@ == Set::<u64>::empty(),
    {
        RepetitionSet { hashes: HashSet::new() }
    }

    pub fn contains(&self, hash: u64) -> (r: bool)
        ensures
            r == self@.contains(hash),
    {
        self.hashes.contains(&hash)
    }

    pub fn insert(&mut self, hash: u64)
        ensures
            final(self)@ == old(self)@.insert(hash),
    {
        self.hashes.insert(hash);
    }
}

/// The position after the first `i` moves of a line played from `start`.
pub open spec fn line_position(start: PositionView, moves: Seq<Move>, i: nat) -> PositionView
    decreases i,
{
    if i == 0 {
        start
    } else {
        after_move(line_position(start, moves, (i - 1) as nat), moves[i - 1])
    }
}

/// Every move of the line is legal where it is played.
pub open spec fn line_is_legal(start: PositionView, moves: Seq<Move>) -> bool {
    forall|i: int| 0 <= i < moves.len() ==> is_legal(#[trigger] line_position(start, moves, i as nat), moves[i])
}

/// The hashes that occur at two or more of the positions reached by the first
/// `n` moves of a line (the start, where no move led, is not counted).
pub open spec fn repeated_hashes(start: PositionView, moves: Seq<Move>, n: nat) -> Set<u64> {
    Set::new(
        |h: u64|
            exists|i: nat, j: nat|
                1 <= i < j <= n && hash_of(#[trigger] line_position(start, moves, i)) == h && hash_of(
                    #[trigger] line_position(start, moves, j),
                ) == h,
    )
}

/// The hashes of the positions reached by the first `n` moves of a line.
pub open spec fn seen_hashes(start: PositionView, moves: Seq<Move>, n: nat) -> Set<u64> {
    Set::new(|h: u64| exists|i: nat| 1 <= i <= n && hash_of(#[trigger] line_position(start, moves, i)) == h)
}

/// Whether `m` is among the legal moves of `position`.
pub fn is_legal_move(position: &Position, m: Move) -> (r: bool)
    requires
        within_piece_limit(position@.occupancy),
    ensures
        r == is_legal(position@, m),
{
    let moves = position.legal_moves();
    let mut i: usize = 0;
    while i < moves.len()
        invariant
            moves@ == legal_moves_of(position@),
            0 <= i <= moves@.len(),
            forall|j: int| 0 <= j < i ==> moves@[j] != m,
        decreases moves@.len() - i,
    {
        if moves[i] == m {
            return true;
        }
        i = i + 1;
    }
    false
}

/// Walks the moves played from `start` and returns the hashes of the positions
/// they led to that occurred more than once; `None` if some move is illegal
/// where it is played.
pub fn potential_repetitions(start: &Position, moves: &Vec<Move>) -> (r: Option<RepetitionSet>)
    requires
        within_piece_limit(start@.occupancy),
    ensures
        r.is_some() == line_is_legal(start@, moves@),
        r.is_some() ==> r.unwrap()@ == repeated_hashes(start@, moves@, moves@.len() as nat),
{
    let mut seen = RepetitionSet::new();
    let mut repeated = RepetitionSet::new();
    let mut board = *start;
    let mut i: usize = 0;
    proof {
        assert(seen@ =~= seen_hashes(start@, moves@, 0));
        assert(repeated@ =~= repeated_hashes(start@, moves@, 0));
    }
    while i < moves.len()
        invariant
            0 <= i <= moves@.len(),
            board@ == line_position(start@, moves@, i as nat),
            within_piece_limit(board@.occupancy),
            forall|j: int| 0 <= j < i ==> is_legal(#[trigger] line_position(start@, moves@, j as nat), moves@[j]),
            seen@ == seen_hashes(start@, moves@, i as nat),
            repeated@ == repeated_hashes(start@, moves@, i as nat),
        decreases moves@.len() - i,
    {
        let m = moves[i];
        if !is_legal_move(&board, m) {
            assert(!line_is_legal(start@, moves@)) by {
                let k: int = i as int;
                assert(m == moves@[k]);
                assert(!is_legal(line_position(start@, moves@, k as nat), moves@[k]));
            }
            return None;
        }
        board = board.after(m);
        let hash = board.hash();
        let ghost n = (i + 1) as nat;
        proof {
            assert(line_position(start@, moves@, n) == board@);
            assert(seen_hashes(start@, moves@, n) =~= seen@.insert(hash)) by {
                assert forall|h: u64| seen_hashes(start@, moves@, n).contains(h) implies seen@.insert(hash).contains(h) by {
                    let k = choose|k: nat| 1 <= k <= n && hash_of(#[trigger] line_position(start@, moves@, k)) == h;
                    if k < n {
                        assert(seen_hashes(start@, moves@, i as nat).contains(h));
                    }
                }
                assert forall|h: u64| seen@.insert(hash).contains(h) implies seen_hashes(start@, moves@, n).contains(h) by {
                    if h == hash {
                        assert(hash_of(line_position(start@, moves@, n)) == h);
                    } else {
                        let k = choose|k: nat| 1 <= k <= i && hash_of(#[trigger] line_position(start@, moves@, k)) == h;
                        assert(k <= n);
                    }
                }
            }
        }
        if seen.contains(hash) {
            proof {
                let k = choose|k: nat| 1 <= k <= i && hash_of(#[trigger] line_position(start@, moves@, k)) == hash;
                assert(repeated_hashes(start@, moves@, n) =~= repeated@.insert(hash)) by {
                    assert(hash_of(line_position(start@, moves@, n)) == hash);
                    assert(1 <= k < n);
                    assert forall|h: u64| repeated_hashes(start@, moves@, n).contains(h) implies repeated@.insert(hash).contains(h) by {
                        let (a, b) = choose|a: nat, b: nat| 1 <= a < b <= n
                            && hash_of(#[trigger] line_position(start@, moves@, a)) == h
                            && hash_of(#[trigger] line_position(start@, moves@, b)) == h;
                        if b < n {
                            assert(repeated_hashes(start@, moves@, i as nat).contains(h));
                        }
                    }
                    assert forall|h: u64| repeated@.insert(hash).contains(h) implies repeated_hashes(start@, moves@, n).contains(h) by {
                        if h != hash {
                            let (a, b) = choose|a: nat, b: nat| 1 <= a < b <= i
                                && hash_of(#[trigger] line_position(start@, moves@, a)) == h
                                && hash_of(#[trigger] line_position(start@, moves@, b)) == h;
                            assert(a < b <= n);
                        }
                    }
                }
            }
            repeated.insert(hash);
        } else {
            proof {
                assert(repeated_hashes(start@, moves@, n) =~= repeated@) by {
                    assert forall|h: u64| repeated_hashes(start@, moves@, n).contains(h) implies repeated@.contains(h) by {
                        let (a, b) = choose|a: nat, b: nat| 1 <= a < b <= n
                            && hash_of(#[trigger] line_position(start@, moves@, a)) == h
                            && hash_of(#[trigger] line_position(start@, moves@, b)) == h;
                        if b == n {
                            assert(seen_hashes(start@, moves@, i as nat).contains(h));
                        }
                    }
                    assert forall|h: u64| repeated@.contains(h) implies repeated_hashes(start@, moves@, n).contains(h) by {
                        let (a, b) = choose|a: nat, b: nat| 1 <= a < b <= i
                            && hash_of(#[trigger] line_position(start@, moves@, a)) == h
                            && hash_of(#[trigger] line_position(start@, moves@, b)) == h;
                        assert(a < b <= n);
                    }
                }
            }
        }
        seen.insert(hash);
        i = i + 1;
    }
    Some(repeated)
}

} // verus!
