//! The negamax search with alpha-beta pruning.
//!
//! `minimax` is the value that the search owes: the side-to-move score of a
//! position searched to a fixed depth, with the static evaluation (plus its
//! noise) at the horizon and the terminal scores where no move is left. The
//! pruned search returns it exactly whenever it lies inside the search window,
//! and a bound on the right side of the window otherwise; cached bounds keep
//! that promise, so the cache changes no result.
use vstd::prelude::*;
use crate::cache::{BoardHash, BoundedScore, TranspositionCache, TranspositionItem};
use crate::evaluation::{
    evaluate_occupancy, evaluation, evaluation_bound, evaluation_is_colour_symmetric, is_colour_mirror,
    terminal_score, terminal_value, TerminalStatus, CHECKMATE_DEPTH_SCORE, CHECKMATE_SCORE,
    MAX_DEPTH,
};
use crate::position::{
    after_move, hash_of, in_check, legal_moves_of, within_piece_limit, Move, Position, PositionView,
};
use crate::repetition::RepetitionSet;
use rand::rngs::ThreadRng;
use rand::Rng;

verus! {

#[verifier::external_type_specification]
#[verifier::external_body]
pub struct ExThreadRng(ThreadRng);

/// The noise added to the evaluation of a position: none, or -1, 0 or 1 drawn
/// from the position's hash and a seed.
pub open spec fn noise_term(p: PositionView, noise: Option<u64>) -> int {
    match noise {
        Some(seed) => ((hash_of(p) ^ seed) % 3) as int - 1,
        None => 0,
    }
}

/// 1 when White is to move, -1 when Black is.
pub open spec fn side_sign(p: PositionView) -> int {
    if p.white_to_move {
        1
    } else {
        -1
    }
}

pub open spec fn terminal_status(p: PositionView) -> TerminalStatus {
    if in_check(p) {
        TerminalStatus::Checkmate
    } else {
        TerminalStatus::Stalemate
    }
}

/// The score of a position at the search horizon, for the side to move.
pub open spec fn leaf_value(p: PositionView, noise: Option<u64>) -> int {
    side_sign(p) * (evaluation(p.occupancy) + noise_term(p, noise))
}

/// The score of a position without legal moves, for the side to move.
pub open spec fn terminal_node_value(p: PositionView, depth: nat) -> int {
    side_sign(p) * terminal_value(terminal_status(p), side_sign(p), depth as int)
}

/// The position after the `i`-th legal move.
pub open spec fn child(p: PositionView, i: int) -> PositionView {
    after_move(p, legal_moves_of(p)[i])
}

/// The negamax value of a position searched `depth` plies deep, for the side
/// to move.
pub open spec fn minimax(p: PositionView, depth: nat, noise: Option<u64>) -> int
    decreases depth + 1, 0int,
{
    if depth == 0 {
        leaf_value(p, noise)
    } else if legal_moves_of(p).len() == 0 {
        terminal_node_value(p, depth)
    } else {
        best_child_value(p, depth, noise, legal_moves_of(p).len())
    }
}

/// The best of the first `n` moves' values (each the negated value of the
/// position it leads to), and never below `-i16::MAX`.
pub open spec fn best_child_value(p: PositionView, depth: nat, noise: Option<u64>, n: nat) -> int
    decreases depth, n,
{
    if depth == 0 || n == 0 {
        -i16::MAX as int
    } else {
        let rest = best_child_value(p, depth, noise, (n - 1) as nat);
        let last = -minimax(child(p, n - 1), (depth - 1) as nat, noise);
        if last > rest {
            last
        } else {
            rest
        }
    }
}

/// The largest magnitude of a score found `depth` plies above the horizon.
pub open spec fn score_bound(depth: int) -> int {
    CHECKMATE_SCORE + CHECKMATE_DEPTH_SCORE * depth
}

/// What a search with window `(a, b)` returns for a position of value `m`:
/// `m` itself inside the window, an upper bound on `m` at or below `a`, and a
/// lower bound on `m` at or above `b`.
pub open spec fn within_window(r: int, a: int, b: int, m: int) -> bool {
    &&& (r <= a ==> m <= r)
    &&& (r >= b ==> r <= m)
    &&& (a < r && r < b ==> r == m)
}

/// The score a cache entry carries, whatever its kind.
pub open spec fn score_value(s: BoundedScore) -> i16 {
    match s {
        BoundedScore::Exact(v) => v,
        BoundedScore::LowerBound(v) => v,
        BoundedScore::UpperBound(v) => v,
    }
}

/// How a result `r` of a search with window `(a, b)` is cached: an upper bound
/// when it failed low, a lower bound when it failed high, else exact.
pub open spec fn classify(r: i16, a: i16, b: i16) -> BoundedScore {
    if r <= a {
        BoundedScore::UpperBound(r)
    } else if r >= b {
        BoundedScore::LowerBound(r)
    } else {
        BoundedScore::Exact(r)
    }
}

/// A cached entry tells the truth about the position it was stored for, a
/// position with legal moves searched to a depth between 1 and `MAX_DEPTH`.
pub open spec fn entry_holds(item: TranspositionItem) -> bool {
    let m = minimax(item.position@, item.depth as nat, item.noise);
    let v = score_value(item.score);
    &&& 1 <= item.depth <= MAX_DEPTH
    &&& legal_moves_of(item.position@).len() > 0
    &&& -i16::MAX < v
    &&& -score_bound(item.depth as int) <= v <= score_bound(item.depth as int)
    &&& match item.score {
        BoundedScore::Exact(v) => v == m,
        BoundedScore::LowerBound(v) => v <= m,
        BoundedScore::UpperBound(v) => m <= v,
    }
}

/// Every entry of the cache tells the truth.
pub open spec fn cache_sound(c: TranspositionCache) -> bool {
    forall|k: u64| #[trigger] c.entries().contains_key(k) ==> entry_holds(c.entries()[k])
}

/// The position reached from `p` by `path`, whose entries index the legal
/// moves of the positions they are played in; `None` if one is out of range.
pub open spec fn follow(p: PositionView, path: Seq<int>) -> Option<PositionView>
    decreases path.len(),
{
    if path.len() == 0 {
        Some(p)
    } else if 0 <= path[0] < legal_moves_of(p).len() {
        follow(child(p, path[0]), path.drop_first())
    } else {
        None
    }
}

/// An entry that a search of `p` to `depth` may add: one for a position
/// reached from `p` in fewer than `depth` moves, keyed by its hash and searched
/// to the depth left there.
pub open spec fn added_below(p: PositionView, depth: nat, key: u64, item: TranspositionItem) -> bool {
    exists|path: Seq<int>|
        path.len() < depth && #[trigger] follow(p, path) == Some(item.position@) && item.depth == depth
            - path.len() && key == hash_of(item.position@)
}

/// Every entry of `after` is an unchanged entry of `before` or one that a search
/// of `p` to `depth` may add.
pub open spec fn cache_frame(before: TranspositionCache, after: TranspositionCache, p: PositionView, depth: nat) -> bool {
    forall|key: u64| #[trigger]
        after.entries().contains_key(key) ==> (before.entries().contains_key(key)
            && after.entries()[key] == before.entries()[key]) || added_below(p, depth, key, after.entries()[key])
}

/// The cache holds an entry for `p` at this depth and noise.
pub open spec fn usable_entry(c: TranspositionCache, p: PositionView, depth: nat, noise: Option<u64>) -> bool {
    let item = c.entries()[hash_of(p)];
    &&& c.entries().contains_key(hash_of(p))
    &&& item.position@ == p
    &&& item.depth == depth
    &&& item.noise == noise
}

/// The cache holds, for `p`, the entry a search to `depth` stores with `score`.
pub open spec fn stored_for(
    c: TranspositionCache,
    p: PositionView,
    depth: nat,
    noise: Option<u64>,
    score: BoundedScore,
) -> bool {
    usable_entry(c, p, depth, noise) && c.entries()[hash_of(p)].score == score
}

/// Every position `depth` plies deep or less below `p` is within the piece
/// limit.
pub open spec fn tree_within_limit(p: PositionView, depth: nat) -> bool
    decreases depth + 1, 0int,
{
    &&& within_piece_limit(p.occupancy)
    &&& depth > 0 ==> children_within_limit(p, depth, legal_moves_of(p).len())
}

/// The subtrees of the first `n` moves of `p` are within the piece limit.
pub open spec fn children_within_limit(p: PositionView, depth: nat, n: nat) -> bool
    decreases depth, n,
{
    if depth == 0 || n == 0 {
        true
    } else {
        children_within_limit(p, depth, (n - 1) as nat) && tree_within_limit(child(p, n - 1), (depth - 1) as nat)
    }
}

proof fn lemma_sign_times(s: int, x: int, bound: int)
    requires
        s == 1 || s == -1,
        -bound <= x <= bound,
    ensures
        -bound <= s * x <= bound,
        s * s == 1,
{
}

/// Every value of a tree within the piece limit fits well inside the 16-bit
/// range.
proof fn lemma_minimax_bound(p: PositionView, depth: nat, noise: Option<u64>)
    requires
        depth <= MAX_DEPTH,
        tree_within_limit(p, depth),
    ensures
        -score_bound(depth as int) <= minimax(p, depth, noise) <= score_bound(depth as int),
    decreases depth + 1, 0int,
{
    if depth == 0 {
        evaluation_bound(p.occupancy);
        lemma_sign_times(side_sign(p), evaluation(p.occupancy) + noise_term(p, noise), score_bound(0));
    } else if legal_moves_of(p).len() == 0 {
        let s = side_sign(p);
        lemma_sign_times(s, s, 1);
        let t = terminal_value(terminal_status(p), s, depth as int);
        assert(-score_bound(depth as int) <= s * t <= score_bound(depth as int)) by (nonlinear_arith)
            requires
                s == 1 || s == -1,
                t == 0 || t == s * -score_bound(depth as int),
                score_bound(depth as int) >= 0,
        ;
    } else {
        lemma_best_child_bound(p, depth, noise, legal_moves_of(p).len());
    }
}

proof fn lemma_best_child_bound(p: PositionView, depth: nat, noise: Option<u64>, n: nat)
    requires
        1 <= depth <= MAX_DEPTH,
        children_within_limit(p, depth, n),
    ensures
        best_child_value(p, depth, noise, n) <= score_bound(depth - 1),
        n >= 1 ==> -score_bound(depth - 1) <= best_child_value(p, depth, noise, n),
    decreases depth, n,
{
    if n > 0 {
        lemma_best_child_bound(p, depth, noise, (n - 1) as nat);
        lemma_minimax_bound(child(p, n - 1), (depth - 1) as nat, noise);
    }
}

/// More moves considered never lower the best value.
proof fn lemma_best_child_grows(p: PositionView, depth: nat, noise: Option<u64>, n: nat, n2: nat)
    requires
        n <= n2,
    ensures
        best_child_value(p, depth, noise, n) <= best_child_value(p, depth, noise, n2),
    decreases n2,
{
    if n < n2 {
        lemma_best_child_grows(p, depth, noise, n, (n2 - 1) as nat);
    }
}

/// The score of a position at the horizon, for the side to move: the static
/// evaluation plus its noise.
fn leaf_score(position: &Position, noise: Option<u64>) -> (r: i16)
    requires
        within_piece_limit(position@.occupancy),
    ensures
        r == leaf_value(position@, noise),
        -score_bound(0) <= r <= score_bound(0),
{
    let eval = evaluate_occupancy(&position.occupancy());
    let tiny: i16 = match noise {
        Some(seed) => ((position.hash() ^ seed) % 3) as i16 - 1,
        None => 0,
    };
    if position.white_to_move() {
        eval + tiny
    } else {
        -(eval + tiny)
    }
}

/// The negamax value of `position` searched `depth` plies deep, for the side to
/// move, within the window `(a, b)` (see `within_window`).
///
/// At depth 0 it is the evaluation at the horizon and a position without legal
/// moves gets its terminal score, whatever the window. With `use_cache` the
/// cache is read before searching and the result is stored after (as
/// `classify` says) unless a cached entry settled it; without it the cache is
/// not touched. An entry is used only for the position, depth and noise it was
/// stored for: a deeper entry would be sound for its own depth but would
/// change the result, which the cache must never do.
fn negamax(
    position: &Position,
    depth: u8,
    a: i16,
    b: i16,
    noise: Option<u64>,
    use_cache: bool,
    cache: &mut TranspositionCache,
) -> (r: i16)
    requires
        depth <= MAX_DEPTH,
        -i16::MAX <= a < b <= i16::MAX,
        within_piece_limit(position@.occupancy),
        cache_sound(*old(cache)),
    ensures
        cache_sound(*final(cache)),
        final(cache).capacity() == old(cache).capacity(),
        old(cache).within_capacity() ==> final(cache).within_capacity(),
        cache_frame(*old(cache), *final(cache), position@, depth as nat),
        -i16::MAX < r,
        -score_bound(depth as int) <= r <= score_bound(depth as int),
        within_window(r as int, a as int, b as int, minimax(position@, depth as nat, noise)),
        depth == 0 ==> r == leaf_value(position@, noise) && *final(cache) == *old(cache),
        depth > 0 && legal_moves_of(position@).len() == 0 ==> r == terminal_node_value(
            position@,
            depth as nat,
        ) && final(cache).entries() == old(cache).entries(),
        !use_cache ==> *final(cache) == *old(cache),
        use_cache && depth > 0 && legal_moves_of(position@).len() > 0 && old(cache).capacity() > 0
            ==> usable_entry(*old(cache), position@, depth as nat, noise) || stored_for(
            *final(cache),
            position@,
            depth as nat,
            noise,
            classify(r, a, b),
        ),
    decreases depth,
{
    let ghost m = minimax(position@, depth as nat, noise);
    if depth == 0 {
        return leaf_score(position, noise);
    }
    let mut alpha = a;
    let mut beta = b;
    let key = BoardHash::new(position);
    if use_cache {
        match cache.get(key) {
            Some(item) => {
                if item.depth == depth && item.noise == noise && item.position.same_as(position) {
                    assert(entry_holds(item));
                    assert(usable_entry(*old(cache), position@, depth as nat, noise));
                    match item.score {
                        BoundedScore::Exact(v) => {
                            return v;
                        },
                        BoundedScore::LowerBound(v) => {
                            if v > alpha {
                                alpha = v;
                            }
                            if alpha >= beta {
                                return v;
                            }
                        },
                        BoundedScore::UpperBound(v) => {
                            if v < beta {
                                beta = v;
                            }
                            if alpha >= beta {
                                return v;
                            }
                        },
                    }
                }
            },
            None => {},
        }
    }
    assert(alpha == a || alpha <= m);
    assert(beta == b || m <= beta);
    let alpha0 = alpha;
    let moves = position.legal_moves();
    if moves.len() == 0 {
        let sign: i8 = if position.white_to_move() {
            1
        } else {
            -1
        };
        let status = if position.checkers() != 0 {
            TerminalStatus::Checkmate
        } else {
            TerminalStatus::Stalemate
        };
        let t = terminal_score(status, sign, depth);
        proof {
            lemma_sign_times(sign as int, sign as int, 1);
            assert(-score_bound(depth as int) <= sign * t <= score_bound(depth as int)) by (nonlinear_arith)
                requires
                    sign == 1 || sign == -1,
                    t == 0 || t == sign * -score_bound(depth as int),
                    score_bound(depth as int) >= 0,
            ;
        }
        return sign as i16 * t;
    }
    let mut value: i16 = -i16::MAX;
    let mut i: usize = 0;
    while i < moves.len() && alpha < beta
        invariant
            moves@ == legal_moves_of(position@),
            moves@.len() > 0,
            1 <= depth <= MAX_DEPTH,
            0 <= i <= moves@.len(),
            m == best_child_value(position@, depth as nat, noise, moves@.len() as nat),
            -i16::MAX <= a <= alpha0 < beta <= b <= i16::MAX,
            -i16::MAX <= value <= score_bound(depth - 1),
            i > 0 ==> -score_bound(depth - 1) <= value,
            alpha == if alpha0 >= value { alpha0 } else { value },
            alpha < beta ==> best_child_value(position@, depth as nat, noise, i as nat) <= value,
            alpha < beta ==> (value <= alpha0 || value <= best_child_value(position@, depth as nat, noise, i as nat)),
            alpha >= beta ==> beta <= value <= best_child_value(position@, depth as nat, noise, i as nat),
            within_piece_limit(position@.occupancy),
            cache_sound(*cache),
            cache.capacity() == old(cache).capacity(),
            old(cache).within_capacity() ==> cache.within_capacity(),
            cache_frame(*old(cache), *cache, position@, depth as nat),
            !use_cache ==> *cache == *old(cache),
            use_cache ==> cache.entries() == old(cache).entries() || i > 0,
        decreases moves@.len() - i,
    {
        let next = position.after(moves[i]);
        let ghost before = *cache;
        let r = negamax(&next, depth - 1, -beta, -alpha, noise, use_cache, cache);
        let score = -r;
        proof {
            let c = -minimax(child(position@, i as int), (depth - 1) as nat, noise);
            assert(next@ == child(position@, i as int));
            assert(best_child_value(position@, depth as nat, noise, (i + 1) as nat) == if c > best_child_value(
                position@,
                depth as nat,
                noise,
                i as nat,
            ) {
                c
            } else {
                best_child_value(position@, depth as nat, noise, i as nat)
            });
            assert forall|k: u64| #[trigger] cache.entries().contains_key(k) implies (old(cache).entries().contains_key(k)
                && cache.entries()[k] == old(cache).entries()[k]) || added_below(position@, depth as nat, k, cache.entries()[k]) by {
                if !(before.entries().contains_key(k) && cache.entries()[k] == before.entries()[k]) {
                    let item = cache.entries()[k];
                    let path = choose|path: Seq<int>|
                        path.len() < depth - 1 && #[trigger] follow(next@, path) == Some(item.position@)
                            && item.depth == depth - 1 - path.len() && k == hash_of(item.position@);
                    let longer = seq![i as int].add(path);
                    assert(longer.drop_first() =~= path);
                    assert(follow(position@, longer) == Some(item.position@));
                }
            }
        }
        if score > value {
            value = score;
        }
        if value > alpha {
            alpha = value;
        }
        i = i + 1;
    }
    proof {
        lemma_best_child_grows(position@, depth as nat, noise, i as nat, moves@.len() as nat);
    }
    if use_cache {
        let score = if value <= a {
            BoundedScore::UpperBound(value)
        } else if value >= b {
            BoundedScore::LowerBound(value)
        } else {
            BoundedScore::Exact(value)
        };
        let item = TranspositionItem { score, depth, position: *position, noise };
        assert(entry_holds(item));
        let ghost before = *cache;
        cache.put(key, item);
        assert forall|k: u64| #[trigger] cache.entries().contains_key(k) implies entry_holds(cache.entries()[k]) by {
            assert(before.entries().insert(key.0, item).contains_key(k));
            if k != key.0 {
                assert(before.entries().contains_key(k));
            }
        }
        assert forall|k: u64| #[trigger] cache.entries().contains_key(k) implies (old(cache).entries().contains_key(k)
            && cache.entries()[k] == old(cache).entries()[k]) || added_below(position@, depth as nat, k, cache.entries()[k]) by {
            assert(before.entries().insert(key.0, item).contains_key(k));
            if k == key.0 {
                assert(follow(position@, Seq::<int>::empty()) == Some(position@));
            } else {
                assert(before.entries().contains_key(k));
            }
        }
    }
    value
}

/// A position where the side to move has no legal move and is not in check is
/// a stalemate: its value is zero, whatever the depth left above the horizon.
pub proof fn stalemate_scores_zero(p: PositionView, depth: nat, noise: Option<u64>)
    requires
        depth >= 1,
        legal_moves_of(p).len() == 0,
        !in_check(p),
    ensures
        minimax(p, depth, noise) == 0,
{
}

/// The value of being checkmated with `depth` plies left above the horizon,
/// for the side that is mated.
pub proof fn checkmate_value(p: PositionView, depth: nat, noise: Option<u64>)
    requires
        depth >= 1,
        legal_moves_of(p).len() == 0,
        in_check(p),
    ensures
        minimax(p, depth, noise) == -score_bound(depth as int),
{
    let s = side_sign(p);
    lemma_sign_times(s, s, 1);
    assert(s * (s * -score_bound(depth as int)) == -score_bound(depth as int)) by (nonlinear_arith)
        requires
            s * s == 1,
    ;
}

/// Faster mates score higher: a checkmate met with more plies still left above
/// the horizon (so fewer plies below the root) is worth more to the mating side
/// than one met later, and every checkmate is worth more than the checkmate
/// score.
pub proof fn faster_mate_scores_higher(
    p: PositionView,
    q: PositionView,
    sooner: nat,
    later: nat,
    noise: Option<u64>,
)
    requires
        1 <= later < sooner,
        legal_moves_of(p).len() == 0,
        in_check(p),
        legal_moves_of(q).len() == 0,
        in_check(q),
    ensures
        -minimax(p, sooner, noise) > -minimax(q, later, noise),
        -minimax(q, later, noise) > CHECKMATE_SCORE,
{
    checkmate_value(p, sooner, noise);
    checkmate_value(q, later, noise);
}

/// At the horizon, without noise, a position and its colour mirror with the
/// other side to move score the same for the side to move.
pub proof fn horizon_value_is_colour_symmetric(p: PositionView, q: PositionView)
    requires
        is_colour_mirror(p.occupancy, q.occupancy),
        q.white_to_move == !p.white_to_move,
    ensures
        leaf_value(q, None) == leaf_value(p, None),
{
    evaluation_is_colour_symmetric(p.occupancy, q.occupancy);
}

/// What the search does besides plain negamax.
#[derive(Clone, Copy, Debug, PartialEq, Eq, Structural)]
pub struct SearchOptions {
    /// Perturb each evaluation at the horizon by -1, 0 or 1, drawn from a
    /// random seed and the position's hash.
    pub noise: bool,
    /// Read and write the transposition cache.
    pub use_cache: bool,
    /// Score a root move that leads into a position of the repetition set as a
    /// draw (zero) instead of searching it.
    pub avoid_repetition: bool,
}

impl SearchOptions {
    /// Noise, cache and repetition avoidance all on.
    pub fn standard() -> (r: SearchOptions)
        ensures
            r.noise && r.use_cache && r.avoid_repetition,
    {
        SearchOptions { noise: true, use_cache: true, avoid_repetition: true }
    }
}

/// The score of the `i`-th root move, for the side to move at the root.
pub open spec fn root_score(
    p: PositionView,
    depth: nat,
    noise: Option<u64>,
    repeated: Set<u64>,
    avoid: bool,
    i: int,
) -> int {
    if avoid && repeated.contains(hash_of(child(p, i))) {
        0
    } else {
        -minimax(child(p, i), (depth - 1) as nat, noise)
    }
}

/// The `i`-th root move is the first of the best-scoring ones.
pub open spec fn is_best_index(
    p: PositionView,
    depth: nat,
    noise: Option<u64>,
    repeated: Set<u64>,
    avoid: bool,
    i: int,
) -> bool {
    &&& 0 <= i < legal_moves_of(p).len()
    &&& forall|j: int|
        0 <= j < legal_moves_of(p).len() ==> #[trigger] root_score(p, depth, noise, repeated, avoid, j)
            <= root_score(p, depth, noise, repeated, avoid, i)
    &&& forall|j: int|
        0 <= j < i ==> #[trigger] root_score(p, depth, noise, repeated, avoid, j) < root_score(
            p,
            depth,
            noise,
            repeated,
            avoid,
            i,
        )
}

/// The move the search plays and its score.
pub open spec fn best_move(
    p: PositionView,
    depth: nat,
    noise: Option<u64>,
    repeated: Set<u64>,
    avoid: bool,
) -> (Move, i16) {
    let i = choose|i: int| is_best_index(p, depth, noise, repeated, avoid, i);
    (legal_moves_of(p)[i], root_score(p, depth, noise, repeated, avoid, i) as i16)
}

/// The best root move is determined by the position, the depth, the noise and
/// the repetition set: two indices that are both the first of the best-scoring
/// moves are the same. So the search's result depends on nothing else; in
/// particular not on the cache, nor on the call (with the noise off).
pub proof fn best_index_is_unique(
    p: PositionView,
    depth: nat,
    noise: Option<u64>,
    repeated: Set<u64>,
    avoid: bool,
    i: int,
    j: int,
)
    requires
        is_best_index(p, depth, noise, repeated, avoid, i),
        is_best_index(p, depth, noise, repeated, avoid, j),
    ensures
        i == j,
{
    if i < j {
        assert(root_score(p, depth, noise, repeated, avoid, i) < root_score(p, depth, noise, repeated, avoid, j));
    } else if j < i {
        assert(root_score(p, depth, noise, repeated, avoid, j) < root_score(p, depth, noise, repeated, avoid, i));
    }
}

/// Every root score lies within the checkmate bound of the depth below the
/// root, inside the 16-bit range and away from its reserved minimum, when every
/// position of the move's subtree is within the piece limit.
pub proof fn root_score_bound(
    p: PositionView,
    depth: nat,
    noise: Option<u64>,
    repeated: Set<u64>,
    avoid: bool,
    i: int,
)
    requires
        1 <= depth <= MAX_DEPTH,
        tree_within_limit(child(p, i), (depth - 1) as nat),
    ensures
        -score_bound(depth - 1) <= root_score(p, depth, noise, repeated, avoid, i) <= score_bound(depth - 1),
        score_bound(depth - 1) < i16::MAX,
{
    lemma_minimax_bound(child(p, i), (depth - 1) as nat, noise);
}

/// A root move that mates at once scores more than any root move after which
/// the game goes on, so the search never puts off a mate it can give now.
pub proof fn immediate_mate_is_preferred(
    p: PositionView,
    depth: nat,
    noise: Option<u64>,
    repeated: Set<u64>,
    avoid: bool,
    i: int,
    j: int,
)
    requires
        2 <= depth <= MAX_DEPTH,
        0 <= i < legal_moves_of(p).len(),
        0 <= j < legal_moves_of(p).len(),
        legal_moves_of(child(p, i)).len() == 0,
        in_check(child(p, i)),
        !(avoid && repeated.contains(hash_of(child(p, i)))),
        legal_moves_of(child(p, j)).len() > 0,
        tree_within_limit(child(p, j), (depth - 1) as nat),
    ensures
        root_score(p, depth, noise, repeated, avoid, i) > root_score(p, depth, noise, repeated, avoid, j),
        root_score(p, depth, noise, repeated, avoid, i) == score_bound(depth - 1),
{
    checkmate_value(child(p, i), (depth - 1) as nat, noise);
    lemma_best_child_bound(child(p, j), (depth - 1) as nat, noise, legal_moves_of(child(p, j)).len());
}

/// What a root search of `p` to `depth` with this noise and repetition set
/// returns: nothing when there is no legal move, else the best move and score.
pub open spec fn is_search_result(
    p: PositionView,
    depth: nat,
    noise: Option<u64>,
    repeated: Set<u64>,
    avoid: bool,
    r: Option<(Move, i16)>,
) -> bool {
    &&& r.is_none() == (legal_moves_of(p).len() == 0)
    &&& r.is_some() ==> r.unwrap() == best_move(p, depth, noise, repeated, avoid)
}

/// The search is a function of the position, the depth, the noise seed (or
/// none) and the repetition set: two results of it agree, whatever caches the
/// two searches used or whether they used one, and however often it runs.
pub proof fn search_result_is_determined(
    p: PositionView,
    depth: nat,
    noise: Option<u64>,
    repeated: Set<u64>,
    avoid: bool,
    r1: Option<(Move, i16)>,
    r2: Option<(Move, i16)>,
)
    requires
        is_search_result(p, depth, noise, repeated, avoid, r1),
        is_search_result(p, depth, noise, repeated, avoid, r2),
    ensures
        r1 == r2,
{
}

/// The search at the root: the first best-scoring legal move and its score, or
/// `None` when the side to move has no legal move. `noise` is the seed of the
/// evaluation noise (`None` for none); `options.noise` is not read here.
pub fn search_seeded(
    position: &Position,
    depth: u8,
    noise: Option<u64>,
    cache: &mut TranspositionCache,
    repetition: &RepetitionSet,
    options: SearchOptions,
) -> (r: Option<(Move, i16)>)
    requires
        depth >= 1 || legal_moves_of(position@).len() == 0,
        depth <= MAX_DEPTH,
        within_piece_limit(position@.occupancy),
        cache_sound(*old(cache)),
    ensures
        cache_sound(*final(cache)),
        final(cache).capacity() == old(cache).capacity(),
        old(cache).within_capacity() ==> final(cache).within_capacity(),
        r.is_none() == (legal_moves_of(position@).len() == 0),
        r.is_some() ==> r.unwrap() == best_move(
            position@,
            depth as nat,
            noise,
            repetition@,
            options.avoid_repetition,
        ),
        r.is_some() ==> exists|i: int|
            is_best_index(position@, depth as nat, noise, repetition@, options.avoid_repetition, i),
        r.is_some() ==> -score_bound(depth - 1) <= r.unwrap().1 <= score_bound(depth - 1),
        is_search_result(position@, depth as nat, noise, repetition@, options.avoid_repetition, r),
{
    let ghost p = position@;
    let ghost d = depth as nat;
    let ghost rep = repetition@;
    let ghost avoid = options.avoid_repetition;
    let moves = position.legal_moves();
    if moves.len() == 0 {
        return None;
    }
    let mut value: i16 = -i16::MAX;
    let mut best: usize = 0;
    let mut i: usize = 0;
    while i < moves.len()
        invariant
            moves@ == legal_moves_of(p),
            p == position@,
            d == depth,
            rep == repetition@,
            avoid == options.avoid_repetition,
            1 <= depth <= MAX_DEPTH,
            moves@.len() > 0,
            0 <= i <= moves@.len(),
            i == 0 ==> value == -i16::MAX,
            i > 0 ==> {
                &&& best < i
                &&& value == root_score(p, d, noise, rep, avoid, best as int)
                &&& forall|j: int| 0 <= j < i ==> #[trigger] root_score(p, d, noise, rep, avoid, j) <= value
                &&& forall|j: int| 0 <= j < best ==> #[trigger] root_score(p, d, noise, rep, avoid, j) < value
            },
            -i16::MAX <= value <= score_bound(d - 1),
            i > 0 ==> -score_bound(d - 1) <= value,
            within_piece_limit(position@.occupancy),
            cache_sound(*cache),
            cache.capacity() == old(cache).capacity(),
            old(cache).within_capacity() ==> cache.within_capacity(),
        decreases moves@.len() - i,
    {
        let next = position.after(moves[i]);
        proof {
            assert(next@ == child(p, i as int));
        }
        let score: i16 = if options.avoid_repetition && repetition.contains(next.hash()) {
            0
        } else {
            -negamax(&next, depth - 1, -i16::MAX, -value, noise, options.use_cache, cache)
        };
        assert(score > value ==> score == root_score(p, d, noise, rep, avoid, i as int));
        assert(score <= value ==> root_score(p, d, noise, rep, avoid, i as int) <= value);
        if score > value {
            value = score;
            best = i;
        }
        i = i + 1;
    }
    proof {
        assert(is_best_index(p, d, noise, rep, avoid, best as int));
        let c = choose|c: int| is_best_index(p, d, noise, rep, avoid, c);
        best_index_is_unique(p, d, noise, rep, avoid, best as int, c);
    }
    Some((moves[best], value))
}

/// Relies on `rand::Rng::gen` for a `u64` from the thread's generator; any value
/// may come back.
#[verifier::external_body]
fn draw_seed(rng: &mut ThreadRng) -> u64 {
    rng.gen::<u64>()
}

/// The search: the first best-scoring legal move of `position` searched `depth`
/// plies deep, and its score for the side to move; `None` when the side to move
/// has no legal move. With `options.noise` the evaluation noise is seeded from
/// `rng`; without it the result is fixed by the inputs.
pub fn negamax_prelude(
    position: &Position,
    depth: u8,
    rng: &mut ThreadRng,
    cache: &mut TranspositionCache,
    repetition: &RepetitionSet,
    options: SearchOptions,
) -> (r: Option<(Move, i16)>)
    requires
        depth >= 1 || legal_moves_of(position@).len() == 0,
        depth <= MAX_DEPTH,
        within_piece_limit(position@.occupancy),
        cache_sound(*old(cache)),
    ensures
        cache_sound(*final(cache)),
        final(cache).capacity() == old(cache).capacity(),
        old(cache).within_capacity() ==> final(cache).within_capacity(),
        r.is_none() == (legal_moves_of(position@).len() == 0),
        r.is_some() ==> -score_bound(depth - 1) <= r.unwrap().1 <= score_bound(depth - 1),
        !options.noise ==> is_search_result(
            position@,
            depth as nat,
            None,
            repetition@,
            options.avoid_repetition,
            r,
        ),
        options.noise ==> exists|seed: u64|
            #[trigger] is_search_result(
                position@,
                depth as nat,
                Some(seed),
                repetition@,
                options.avoid_repetition,
                r,
            ),
        r.is_some() && !options.noise ==> r.unwrap() == best_move(
            position@,
            depth as nat,
            None,
            repetition@,
            options.avoid_repetition,
        ),
        r.is_some() && options.noise ==> exists|seed: u64|
            r.unwrap() == #[trigger] best_move(
                position@,
                depth as nat,
                Some(seed),
                repetition@,
                options.avoid_repetition,
            ),
{
    let noise = if options.noise {
        Some(draw_seed(rng))
    } else {
        None
    };
    let r = search_seeded(position, depth, noise, cache, repetition, options);
    proof {
        if r.is_some() {
            let p = position@;
            let i = choose|i: int| is_best_index(p, depth as nat, noise, repetition@, options.avoid_repetition, i);
            assert(is_best_index(p, depth as nat, noise, repetition@, options.avoid_repetition, i));
            if options.noise {
                assert(r.unwrap() == best_move(p, depth as nat, Some(noise.unwrap()), repetition@, options.avoid_repetition));
            }
        }
        if options.noise {
            assert(is_search_result(position@, depth as nat, Some(noise.unwrap()), repetition@, options.avoid_repetition, r));
        }
    }
    r
}

/// The `i`-th root move is the first of the best-scoring ones once the
/// `first`-th is set aside.
pub open spec fn is_runner_up_index(
    p: PositionView,
    depth: nat,
    noise: Option<u64>,
    repeated: Set<u64>,
    avoid: bool,
    first: int,
    i: int,
) -> bool {
    &&& 0 <= i < legal_moves_of(p).len()
    &&& i != first
    &&& forall|j: int|
        0 <= j < legal_moves_of(p).len() && j != first ==> #[trigger] root_score(
            p,
            depth,
            noise,
            repeated,
            avoid,
            j,
        ) <= root_score(p, depth, noise, repeated, avoid, i)
    &&& forall|j: int|
        0 <= j < i && j != first ==> #[trigger] root_score(p, depth, noise, repeated, avoid, j)
            < root_score(p, depth, noise, repeated, avoid, i)
}

/// The second-best move and its score: the best of the others once the move
/// the search plays is set aside.
pub open spec fn runner_up_move(
    p: PositionView,
    depth: nat,
    noise: Option<u64>,
    repeated: Set<u64>,
    avoid: bool,
) -> (Move, i16) {
    let first = choose|i: int| is_best_index(p, depth, noise, repeated, avoid, i);
    let i = choose|i: int| is_runner_up_index(p, depth, noise, repeated, avoid, first, i);
    (legal_moves_of(p)[i], root_score(p, depth, noise, repeated, avoid, i) as i16)
}

/// Two indices that are both the runner-up after the same first move are the
/// same.
pub proof fn runner_up_is_unique(
    p: PositionView,
    depth: nat,
    noise: Option<u64>,
    repeated: Set<u64>,
    avoid: bool,
    first: int,
    i: int,
    j: int,
)
    requires
        is_runner_up_index(p, depth, noise, repeated, avoid, first, i),
        is_runner_up_index(p, depth, noise, repeated, avoid, first, j),
    ensures
        i == j,
{
    if i < j {
        assert(root_score(p, depth, noise, repeated, avoid, i) < root_score(p, depth, noise, repeated, avoid, j));
    } else if j < i {
        assert(root_score(p, depth, noise, repeated, avoid, j) < root_score(p, depth, noise, repeated, avoid, i));
    }
}

/// The search at the root that keeps the two best moves: the move
/// `search_seeded` plays, and the best of the others (absent with fewer than
/// two legal moves). Moves that cannot beat the second-best so far are pruned.
pub fn search_top_two_seeded(
    position: &Position,
    depth: u8,
    noise: Option<u64>,
    cache: &mut TranspositionCache,
    repetition: &RepetitionSet,
    options: SearchOptions,
) -> (r: (Option<(Move, i16)>, Option<(Move, i16)>))
    requires
        depth >= 1 || legal_moves_of(position@).len() == 0,
        depth <= MAX_DEPTH,
        within_piece_limit(position@.occupancy),
        cache_sound(*old(cache)),
    ensures
        cache_sound(*final(cache)),
        final(cache).capacity() == old(cache).capacity(),
        old(cache).within_capacity() ==> final(cache).within_capacity(),
        r.0.is_none() == (legal_moves_of(position@).len() == 0),
        r.1.is_none() == (legal_moves_of(position@).len() < 2),
        r.0.is_some() && r.1.is_some() ==> r.1.unwrap().0 != r.0.unwrap().0 && r.1.unwrap().1 <= r.0.unwrap().1,
        r.0.is_some() ==> r.0.unwrap() == best_move(
            position@,
            depth as nat,
            noise,
            repetition@,
            options.avoid_repetition,
        ),
        r.1.is_some() ==> r.1.unwrap() == runner_up_move(
            position@,
            depth as nat,
            noise,
            repetition@,
            options.avoid_repetition,
        ),
{
    let ghost p = position@;
    let ghost d = depth as nat;
    let ghost rep = repetition@;
    let ghost avoid = options.avoid_repetition;
    let moves = position.legal_moves();
    if moves.len() == 0 {
        return (None, None);
    }
    let mut value: i16 = -i16::MAX;
    let mut best: usize = 0;
    let mut value2: i16 = -i16::MAX;
    let mut second: usize = 0;
    let mut i: usize = 0;
    while i < moves.len()
        invariant
            moves@ == legal_moves_of(p),
            p == position@,
            d == depth,
            rep == repetition@,
            avoid == options.avoid_repetition,
            1 <= depth <= MAX_DEPTH,
            moves@.len() > 0,
            0 <= i <= moves@.len(),
            i == 0 ==> value == -i16::MAX,
            i < 2 ==> value2 == -i16::MAX,
            i > 0 ==> {
                &&& best < i
                &&& value == root_score(p, d, noise, rep, avoid, best as int)
                &&& forall|j: int| 0 <= j < i ==> #[trigger] root_score(p, d, noise, rep, avoid, j) <= value
                &&& forall|j: int| 0 <= j < best ==> #[trigger] root_score(p, d, noise, rep, avoid, j) < value
            },
            i > 1 ==> {
                &&& second < i
                &&& second != best
                &&& value2 == root_score(p, d, noise, rep, avoid, second as int)
                &&& forall|j: int|
                    0 <= j < i && j != best ==> #[trigger] root_score(p, d, noise, rep, avoid, j) <= value2
                &&& forall|j: int|
                    0 <= j < second && j != best ==> #[trigger] root_score(p, d, noise, rep, avoid, j) < value2
            },
            -i16::MAX <= value2 <= value <= score_bound(d - 1),
            i > 0 ==> -score_bound(d - 1) <= value,
            i > 1 ==> -score_bound(d - 1) <= value2,
            within_piece_limit(position@.occupancy),
            cache_sound(*cache),
            cache.capacity() == old(cache).capacity(),
            old(cache).within_capacity() ==> cache.within_capacity(),
        decreases moves@.len() - i,
    {
        let next = position.after(moves[i]);
        proof {
            assert(next@ == child(p, i as int));
        }
        let score: i16 = if options.avoid_repetition && repetition.contains(next.hash()) {
            0
        } else {
            -negamax(&next, depth - 1, -i16::MAX, -value2, noise, options.use_cache, cache)
        };
        assert(score > value2 ==> score == root_score(p, d, noise, rep, avoid, i as int));
        assert(score <= value2 ==> root_score(p, d, noise, rep, avoid, i as int) <= value2);
        if score > value {
            value2 = value;
            second = best;
            value = score;
            best = i;
        } else if score > value2 {
            value2 = score;
            second = i;
        }
        i = i + 1;
    }
    let runner_up = if moves.len() < 2 {
        None
    } else {
        Some((moves[second], value2))
    };
    proof {
        assert(is_best_index(p, d, noise, rep, avoid, best as int));
        let c = choose|c: int| is_best_index(p, d, noise, rep, avoid, c);
        best_index_is_unique(p, d, noise, rep, avoid, best as int, c);
        if moves.len() > 1 {
            assert(is_runner_up_index(p, d, noise, rep, avoid, best as int, second as int));
            let c2 = choose|c2: int| is_runner_up_index(p, d, noise, rep, avoid, c, c2);
            runner_up_is_unique(p, d, noise, rep, avoid, best as int, second as int, c2);
            assert(moves@[second as int] != moves@[best as int]);
        }
    }
    let first = Some((moves[best], value));
    (first, runner_up)
}

/// The two best moves of `position` searched `depth` plies deep, with their
/// scores for the side to move (see `search_top_two_seeded`); the evaluation
/// noise is seeded from `rng` when `options.noise` is set.
pub fn negamax_prelude_2nd(
    position: &Position,
    depth: u8,
    rng: &mut ThreadRng,
    cache: &mut TranspositionCache,
    repetition: &RepetitionSet,
    options: SearchOptions,
) -> (r: (Option<(Move, i16)>, Option<(Move, i16)>))
    requires
        depth >= 1 || legal_moves_of(position@).len() == 0,
        depth <= MAX_DEPTH,
        within_piece_limit(position@.occupancy),
        cache_sound(*old(cache)),
    ensures
        cache_sound(*final(cache)),
        final(cache).capacity() == old(cache).capacity(),
        old(cache).within_capacity() ==> final(cache).within_capacity(),
        r.0.is_none() == (legal_moves_of(position@).len() == 0),
        r.1.is_none() == (legal_moves_of(position@).len() < 2),
        r.0.is_some() && r.1.is_some() ==> r.1.unwrap().0 != r.0.unwrap().0 && r.1.unwrap().1 <= r.0.unwrap().1,
        !options.noise ==> (r.0.is_some() ==> r.0.unwrap() == best_move(
            position@,
            depth as nat,
            None,
            repetition@,
            options.avoid_repetition,
        )) && (r.1.is_some() ==> r.1.unwrap() == runner_up_move(
            position@,
            depth as nat,
            None,
            repetition@,
            options.avoid_repetition,
        )),
        options.noise ==> exists|seed: u64|
            (r.0.is_some() ==> r.0.unwrap() == #[trigger] best_move(
                position@,
                depth as nat,
                Some(seed),
                repetition@,
                options.avoid_repetition,
            )) && (r.1.is_some() ==> r.1.unwrap() == runner_up_move(
                position@,
                depth as nat,
                Some(seed),
                repetition@,
                options.avoid_repetition,
            )),
{
    let noise = if options.noise {
        Some(draw_seed(rng))
    } else {
        None
    };
    let r = search_top_two_seeded(position, depth, noise, cache, repetition, options);
    proof {
        if options.noise {
            let seed = noise.unwrap();
            let chosen = best_move(position@, depth as nat, Some(seed), repetition@, options.avoid_repetition);
            assert(r.0.is_some() ==> r.0.unwrap() == chosen);
            assert((r.0.is_some() ==> r.0.unwrap() == best_move(
                position@,
                depth as nat,
                Some(seed),
                repetition@,
                options.avoid_repetition,
            )) && (r.1.is_some() ==> r.1.unwrap() == runner_up_move(
                position@,
                depth as nat,
                Some(seed),
                repetition@,
                options.avoid_repetition,
            )));
        }
    }
    r
}

} // verus!
