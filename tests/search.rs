use chess_ai::cache::TranspositionCache;
use chess_ai::evaluation::{CHECKMATE_DEPTH_SCORE, CHECKMATE_SCORE};
use chess_ai::position::{Move, Position};
use chess_ai::repetition::RepetitionSet;
use chess_ai::search::{negamax_prelude, search_seeded, SearchOptions};
use rand::thread_rng;

const QUIET: SearchOptions = SearchOptions { noise: false, use_cache: false, avoid_repetition: false };

fn position(fen: &str) -> Position {
    Position::from_fen(fen).unwrap()
}

fn square(name: &str) -> u8 {
    let b = name.as_bytes();
    (b[1] - b'1') * 8 + (b[0] - b'a')
}

fn search_quiet(fen: &str, depth: u8, use_cache: bool) -> Option<(Move, i16)> {
    let mut cache = TranspositionCache::new(4096);
    let options = SearchOptions { use_cache, ..QUIET };
    search_seeded(&position(fen), depth, None, &mut cache, &RepetitionSet::new(), options)
}

#[test]
fn test_who_good() {
    let question = [
        ("5r1k/7p/q1p3p1/2bp3n/8/P1N5/BPP2PPP/R4QK1 b - - 0 1", false),
        ("r2b1rk1/2pq2p1/1p4P1/1Pnnpp2/p1P5/P2PPP2/1B3P2/2KQ2RR w - - 0 1", false),
    ];

    let rng = &mut thread_rng();

    for (fen, answer_is_white) in question.iter() {
        let board = position(fen);
        let player_is_white = board.white_to_move();
        let mut cache = TranspositionCache::new(64);
        let options = SearchOptions { noise: true, use_cache: true, avoid_repetition: true };
        let (_, score) =
            negamax_prelude(&board, 5, rng, &mut cache, &RepetitionSet::new(), options).unwrap();

        let guess_is_white = if score > 0 { player_is_white } else { !player_is_white };

        assert_eq!(guess_is_white, *answer_is_white);
    }
}

#[test]
fn mate_in_one_is_found() {
    let fen = "6k1/5ppp/8/8/8/8/5PPP/R5K1 w - - 0 1";
    for depth in 2..6u8 {
        let (mv, score) = search_quiet(fen, depth, false).unwrap();
        assert_eq!(mv, Move::new(square("a1"), square("a8"), None));
        assert!(score > CHECKMATE_SCORE);
        assert_eq!(score, CHECKMATE_SCORE + CHECKMATE_DEPTH_SCORE * (depth as i16 - 1));
    }
}

#[test]
fn single_legal_move_is_played() {
    let fen = "k7/2K5/8/8/8/8/8/1R6 b - - 0 1";
    assert_eq!(position(fen).legal_moves().len(), 1);
    for depth in 1..6u8 {
        let (mv, _) = search_quiet(fen, depth, true).unwrap();
        assert_eq!(mv, Move::new(square("a8"), square("a7"), None));
    }
}

#[test]
fn no_legal_move_gives_none() {
    let stalemate = "k7/8/1Q6/8/8/8/8/7K b - - 0 1";
    let checkmate = "R5k1/5ppp/8/8/8/8/5PPP/6K1 b - - 0 1";
    assert_eq!(search_quiet(stalemate, 5, false), None);
    assert_eq!(search_quiet(checkmate, 5, false), None);
    assert_eq!(search_quiet(stalemate, 0, false), None);
    let rng = &mut thread_rng();
    let mut cache = TranspositionCache::new(16);
    let options = SearchOptions::standard();
    assert_eq!(negamax_prelude(&position(checkmate), 2, rng, &mut cache, &RepetitionSet::new(), options), None);
}

#[test]
fn stalemating_move_is_avoided_when_ahead() {
    // Qb5-b6 would stalemate the black king; a queen up, White avoids it.
    let fen = "k7/8/8/1Q6/8/8/8/7K w - - 0 1";
    let start = position(fen);
    let stalemating = Move::new(square("b5"), square("b6"), None);
    let next = start.after(stalemating);
    assert_eq!(next.legal_moves().len(), 0);
    assert_eq!(next.checkers(), 0);
    assert_eq!(search_quiet("k7/8/1Q6/8/8/8/8/7K b - - 0 1", 1, false), None);
    let (mv, score) = search_quiet(fen, 2, false).unwrap();
    assert_ne!(mv, stalemating);
    assert!(score > 0);
}

#[test]
fn faster_mate_is_preferred() {
    // Ra8 and Rb8 both mate at once, and other moves mate later. Searched four
    // plies deep, the mate is scored as found three plies above the horizon,
    // that is at once: a later mate would score less.
    let fen = "6k1/5ppp/8/8/8/8/5PPP/RR4K1 w - - 0 1";
    let (mv, score) = search_quiet(fen, 4, true).unwrap();
    assert!(mv.dest == square("a8") || mv.dest == square("b8"));
    assert_eq!(score, CHECKMATE_SCORE + CHECKMATE_DEPTH_SCORE * 3);
    assert!(score > CHECKMATE_SCORE + CHECKMATE_DEPTH_SCORE * 2);
}

#[test]
fn quiet_search_is_repeatable() {
    let fen = "r1bqkbnr/pppp1ppp/2n5/4p3/4P3/5N2/PPPP1PPP/RNBQKB1R w KQkq - 2 3";
    let first = search_quiet(fen, 3, false);
    let second = search_quiet(fen, 3, false);
    assert!(first.is_some());
    assert_eq!(first, second);
    let rng = &mut thread_rng();
    let mut cache = TranspositionCache::new(256);
    let options = SearchOptions { noise: false, use_cache: true, avoid_repetition: false };
    let third = negamax_prelude(&position(fen), 3, rng, &mut cache, &RepetitionSet::new(), options);
    assert_eq!(first, third);
}

#[test]
fn cache_changes_no_result() {
    let fens = [
        "r1bqkbnr/pppp1ppp/2n5/4p3/4P3/5N2/PPPP1PPP/RNBQKB1R w KQkq - 2 3",
        "5r1k/7p/q1p3p1/2bp3n/8/P1N5/BPP2PPP/R4QK1 b - - 0 1",
        "6k1/5ppp/8/8/8/8/5PPP/RR4K1 w - - 0 1",
    ];
    for fen in fens.iter() {
        for seed in [None, Some(7u64), Some(123456789u64)] {
            let p = position(fen);
            let rep = RepetitionSet::new();
            let mut off = TranspositionCache::new(1024);
            let mut on = TranspositionCache::new(1024);
            let plain = QUIET;
            let cached = SearchOptions { use_cache: true, ..QUIET };
            let without = search_seeded(&p, 3, seed, &mut off, &rep, plain);
            let with = search_seeded(&p, 3, seed, &mut on, &rep, cached);
            let again = search_seeded(&p, 3, seed, &mut on, &rep, cached);
            assert_eq!(without, with);
            assert_eq!(with, again);
        }
    }
}

#[test]
fn tiny_cache_changes_no_result() {
    let fen = "r1bqkbnr/pppp1ppp/2n5/4p3/4P3/5N2/PPPP1PPP/RNBQKB1R w KQkq - 2 3";
    let p = position(fen);
    let rep = RepetitionSet::new();
    let mut tiny = TranspositionCache::new(1);
    let mut none = TranspositionCache::new(0);
    let cached = SearchOptions { use_cache: true, ..QUIET };
    let expected = search_quiet(fen, 3, false);
    assert_eq!(search_seeded(&p, 3, None, &mut tiny, &rep, cached), expected);
    assert_eq!(search_seeded(&p, 3, None, &mut none, &rep, cached), expected);
}

#[test]
fn mirrored_position_scores_alike() {
    // The side to move's score is the same after swapping colours and ranks.
    let fen = "r1bqkbnr/pppp1ppp/2n5/4p3/4P3/5N2/PPPP1PPP/RNBQKB1R w KQkq - 2 3";
    let mirrored = "rnbqkb1r/pppp1ppp/5n2/4p3/4P3/2N5/PPPP1PPP/R1BQKBNR b KQkq - 2 3";
    let (_, a) = search_quiet(fen, 3, false).unwrap();
    let (_, b) = search_quiet(mirrored, 3, false).unwrap();
    assert_eq!(a, b);
}

#[test]
fn repetition_is_scored_as_draw() {
    // Black is a queen up; White's knight shuffle can go back to a position that
    // already occurred twice, which the guard scores as a draw.
    let start = position("q3k3/8/8/8/8/8/8/1N2K3 w - - 0 1");
    let out = Move::new(square("b1"), square("c3"), None);
    let back = Move::new(square("c3"), square("b1"), None);
    let king_out = Move::new(square("e8"), square("d8"), None);
    let king_back = Move::new(square("d8"), square("e8"), None);
    let moves = vec![out, king_out, back, king_back, out, king_out, back, king_back, out, king_out];
    let rep = chess_ai::repetition::potential_repetitions(&start, &moves).unwrap();
    let mut now = start;
    for m in moves.iter() {
        now = now.after(*m);
    }
    let back_again = now.after(back);
    assert!(rep.contains(chess_ai::cache::BoardHash::new(&back_again).0));
    let mut cache = TranspositionCache::new(64);
    let avoid = SearchOptions { avoid_repetition: true, ..QUIET };
    assert_eq!(search_seeded(&now, 2, None, &mut cache, &rep, avoid), Some((back, 0)));
    let (mv, plain_score) = search_seeded(&now, 2, None, &mut cache, &rep, QUIET).unwrap();
    assert!(plain_score < 0);
    let (_, unguarded) = search_seeded(&now, 2, None, &mut cache, &RepetitionSet::new(), avoid).unwrap();
    assert_eq!(unguarded, plain_score);
    assert!(mv == back || plain_score < 0);
}

#[test]
fn horizon_noise_comes_from_hash_and_seed() {
    // Black's only move leads to a White-to-move position scored at the horizon.
    let p = position("k7/2K5/8/8/8/8/8/1R6 b - - 0 1");
    let only = Move::new(square("a8"), square("a7"), None);
    let child = p.after(only);
    let eval = chess_ai::evaluation::evaluation_pieces_worth_plus(&child);
    let hash = chess_ai::cache::BoardHash::new(&child).0;
    assert_eq!(hash, child.hash());
    let mut seen_nonzero = false;
    for seed in [0u64, 1, 2, 3, 0xDEAD_BEEF, u64::MAX] {
        let noise = ((hash ^ seed) % 3) as i16 - 1;
        seen_nonzero |= noise != 0;
        let mut cache = TranspositionCache::new(8);
        let r = search_seeded(&p, 1, Some(seed), &mut cache, &RepetitionSet::new(), QUIET);
        assert_eq!(r, Some((only, -(eval + noise))));
    }
    assert!(seen_nonzero);
    let mut cache = TranspositionCache::new(8);
    assert_eq!(search_seeded(&p, 1, None, &mut cache, &RepetitionSet::new(), QUIET), Some((only, -eval)));
}

#[test]
fn checkmated_side_sees_checkers() {
    let mated = position("R5k1/5ppp/8/8/8/8/5PPP/6K1 b - - 0 1");
    assert_eq!(mated.legal_moves().len(), 0);
    assert_eq!(mated.checkers(), 1u64 << square("a8"));
}

#[test]
fn search_stores_its_nodes() {
    let p = position("r1bqkbnr/pppp1ppp/2n5/4p3/4P3/5N2/PPPP1PPP/RNBQKB1R w KQkq - 2 3");
    let mut cache = TranspositionCache::new(4096);
    let cached = SearchOptions { use_cache: true, ..QUIET };
    search_seeded(&p, 3, None, &mut cache, &RepetitionSet::new(), cached).unwrap();
    // The first root move is searched with the full window: its entry is exact.
    let first = p.after(p.legal_moves()[0]);
    let item = cache.get(chess_ai::cache::BoardHash::new(&first)).unwrap();
    assert_eq!(item.depth, 2);
    assert!(item.position.same_as(&first));
    assert!(matches!(item.score, chess_ai::cache::BoundedScore::Exact(_)));
    let mut untouched = TranspositionCache::new(4096);
    search_seeded(&p, 3, None, &mut untouched, &RepetitionSet::new(), QUIET).unwrap();
    assert!(untouched.get(chess_ai::cache::BoardHash::new(&first)).is_none());
}
