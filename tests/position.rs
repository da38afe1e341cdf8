use chess_ai::cache::{BoardHash, BoundedScore, TranspositionCache, TranspositionItem};
use chess_ai::position::{Move, Position, QUEEN};
use chess_ai::repetition::potential_repetitions;

const START: &str = "rnbqkbnr/pppppppp/8/8/8/8/PPPPPPPP/RNBQKBNR w KQkq - 0 1";

#[test]
fn fen_is_parsed_or_refused() {
    assert!(Position::from_fen(START).is_some());
    assert!(Position::from_fen("not a position").is_none());
    // No black king: refused as impossible.
    assert!(Position::from_fen("8/8/8/8/8/8/8/4K3 w - - 0 1").is_none());
    // No king for the side to move, or none at all: refused before the board is built.
    assert!(Position::from_fen("8/8/8/8/8/8/8/4K3 b - - 0 1").is_none());
    assert!(Position::from_fen("8/8/8/8/8/8/8/8 w - - 0 1").is_none());
    assert!(Position::from_fen("8/8/8/8/8/8/8/8 w").is_none());
}

#[test]
fn start_position_reads_back() {
    let p = Position::from_fen(START).unwrap();
    assert!(p.white_to_move());
    let o = p.occupancy();
    assert_eq!(o.pawns, 0x00FF_0000_0000_FF00);
    assert_eq!(o.white, 0x0000_0000_0000_FFFF);
    assert_eq!(o.black, 0xFFFF_0000_0000_0000);
    assert_eq!(o.kings, (1u64 << 4) | (1u64 << 60));
    assert_eq!(p.legal_moves().len(), 20);
    assert_eq!(p.checkers(), 0);
}

#[test]
fn moves_change_the_position() {
    let p = Position::from_fen(START).unwrap();
    let e4 = Move::new(12, 28, None);
    let q = p.after(e4);
    assert!(!q.white_to_move());
    assert_ne!(p.hash(), q.hash());
    assert!(!p.same_as(&q));
    assert!(q.same_as(&Position::from_fen("rnbqkbnr/pppppppp/8/8/4P3/8/PPPP1PPP/RNBQKBNR b KQkq - 0 1").unwrap()));
    assert_eq!(q.occupancy().pawns, 0x00FF_0000_1000_EF00);
}

#[test]
fn promotion_moves_carry_the_piece() {
    let p = Position::from_fen("4k3/P7/8/8/8/8/8/4K3 w - - 0 1").unwrap();
    let promote = Move::new(48, 56, Some(QUEEN));
    assert!(p.legal_moves().contains(&promote));
    let q = p.after(promote);
    assert_eq!(q.occupancy().queens, 1u64 << 56);
}

#[test]
fn repeated_positions_are_found() {
    let start = Position::from_fen(START).unwrap();
    let g1f3 = Move::new(6, 21, None);
    let g8f6 = Move::new(62, 45, None);
    let f3g1 = Move::new(21, 6, None);
    let f6g8 = Move::new(45, 62, None);
    let none = potential_repetitions(&start, &vec![g1f3, g8f6]).unwrap();
    assert!(!none.contains(BoardHash::new(&start).0));
    // Back to the start once: the start itself is not a position a move led to.
    let once = potential_repetitions(&start, &vec![g1f3, g8f6, f3g1, f6g8]).unwrap();
    assert!(!once.contains(BoardHash::new(&start).0));
    // Back to the start twice: now a move has led there twice.
    let twice = potential_repetitions(&start, &vec![g1f3, g8f6, f3g1, f6g8, g1f3, g8f6, f3g1, f6g8]).unwrap();
    assert!(twice.contains(BoardHash::new(&start).0));
    assert!(twice.contains(BoardHash::new(&start.after(g1f3)).0));
    assert!(twice.contains(BoardHash::new(&start.after(g1f3).after(g8f6).after(f3g1)).0));
    assert!(!once.contains(BoardHash::new(&start.after(g1f3)).0));
    let illegal = potential_repetitions(&start, &vec![g1f3, g1f3]);
    assert!(illegal.is_none());
}

#[test]
fn cache_stores_and_forgets() {
    let p = Position::from_fen(START).unwrap();
    let key = BoardHash::new(&p);
    let mut cache = TranspositionCache::new(2);
    assert!(cache.get(key).is_none());
    let mut empty = TranspositionCache::new(0);
    empty.put(key, TranspositionItem { score: BoundedScore::Exact(1), depth: 1, position: p, noise: None });
    assert!(empty.get(key).is_none());
    let item = TranspositionItem { score: BoundedScore::Exact(12), depth: 3, position: p, noise: None };
    cache.put(key, item);
    let back = cache.get(key).unwrap();
    assert_eq!(back.score, BoundedScore::Exact(12));
    assert_eq!(back.depth, 3);
    let other = p.after(Move::new(12, 28, None));
    let third = other.after(Move::new(52, 36, None));
    cache.put(BoardHash::new(&other), TranspositionItem { score: BoundedScore::LowerBound(5), ..item });
    cache.put(BoardHash::new(&third), TranspositionItem { score: BoundedScore::UpperBound(-5), ..item });
    // Capacity two: the least recently used entry has gone.
    assert!(cache.get(key).is_none());
    assert_eq!(cache.get(BoardHash::new(&third)).unwrap().score, BoundedScore::UpperBound(-5));
    cache.clear();
    // Below capacity nothing is evicted.
    let mut roomy = TranspositionCache::new(3);
    roomy.put(key, item);
    roomy.put(BoardHash::new(&other), item);
    roomy.put(BoardHash::new(&third), item);
    assert!(roomy.get(key).is_some());
    assert!(roomy.get(BoardHash::new(&other)).is_some());
    assert!(roomy.get(BoardHash::new(&third)).is_some());
    assert!(cache.get(BoardHash::new(&other)).is_none());
}
