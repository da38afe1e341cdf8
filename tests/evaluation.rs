use chess_ai::evaluation::{
    evaluate_occupancy, evaluation_pieces_worth_plus, piece_limit_holds, terminal_score,
    TerminalStatus,
    CHECKMATE_DEPTH_SCORE, CHECKMATE_SCORE, EVAL_BOUND, MAX_DEPTH,
};
use chess_ai::position::{Occupancy, Position};

fn eval(fen: &str) -> i16 {
    evaluation_pieces_worth_plus(&Position::from_fen(fen).unwrap())
}

fn flip(bb: u64) -> u64 {
    bb.swap_bytes()
}

fn mirror(o: &Occupancy) -> Occupancy {
    Occupancy {
        pawns: flip(o.pawns),
        knights: flip(o.knights),
        bishops: flip(o.bishops),
        rooks: flip(o.rooks),
        queens: flip(o.queens),
        kings: flip(o.kings),
        white: flip(o.black),
        black: flip(o.white),
    }
}

#[test]
fn start_position_is_balanced() {
    assert_eq!(eval("rnbqkbnr/pppppppp/8/8/8/8/PPPPPPPP/RNBQKBNR w KQkq - 0 1"), 0);
}

#[test]
fn queen_in_corner_with_kings_in_middlegame() {
    // Queen on a1: 900 - 20; both kings read 0 on e1 / e8 of the middlegame table.
    assert_eq!(eval("4k3/8/8/8/8/8/8/Q3K3 w - - 0 1"), 880);
    assert_eq!(eval("q3k3/8/8/8/8/8/8/4K3 w - - 0 1"), -880);
}

#[test]
fn kings_switch_to_endgame_table_without_queens() {
    // Rook on a1: 500; the kings read -30 each on the endgame table.
    assert_eq!(eval("4k3/8/8/8/8/8/8/R3K3 w - - 0 1"), 500);
    // A centralised white king gains in the endgame: e4 reads 40, e8 reads -30.
    assert_eq!(eval("4k3/8/8/8/4K3/8/8/R7 w - - 0 1"), 500 + 40 - (-30));
}

#[test]
fn pawn_advance_is_rewarded() {
    // e2 pawn reads 80, e4 reads 120 (both for white); kings cancel.
    assert_eq!(eval("4k3/8/8/8/8/8/4P3/4K3 w - - 0 1"), 80);
    assert_eq!(eval("4k3/8/8/8/4P3/8/8/4K3 w - - 0 1"), 120);
}

#[test]
fn large_material_edge_is_not_cut_off() {
    // Nine queens, two rooks, two bishops, two knights and a king against a
    // lone king: the plain sum, well above ten thousand.
    let fen = "QQQQQQQQ/QRRBBNNK/8/8/8/8/8/7k b - - 0 1";
    let o = Position::from_fen(fen).unwrap().occupancy();
    assert!(piece_limit_holds(&o));
    assert_eq!(eval(fen), 10200);
    assert!(eval(fen) <= EVAL_BOUND);
    assert_eq!(evaluate_occupancy(&mirror(&o)), -10200);
}

#[test]
fn piece_limit_is_checked() {
    let start = Position::from_fen("rnbqkbnr/pppppppp/8/8/8/8/PPPPPPPP/RNBQKBNR w KQkq - 0 1").unwrap();
    assert!(piece_limit_holds(&start.occupancy()));
    let crowded = Occupancy {
        pawns: 0,
        knights: 0,
        bishops: 0,
        rooks: 0,
        queens: 0x0001_FFFF,
        kings: 0,
        white: 0x0001_FFFF,
        black: 0,
    };
    assert!(!piece_limit_holds(&crowded));
    let sixteen = Occupancy { queens: 0xFFFF, white: 0xFFFF, ..crowded };
    assert!(piece_limit_holds(&sixteen));
    assert!(!piece_limit_holds(&mirror(&crowded)));
}

#[test]
fn mirrored_occupancy_negates_evaluation() {
    let fens = [
        "r1bqkbnr/pppp1ppp/2n5/4p3/4P3/5N2/PPPP1PPP/RNBQKB1R w KQkq - 2 3",
        "5r1k/7p/q1p3p1/2bp3n/8/P1N5/BPP2PPP/R4QK1 b - - 0 1",
        "4k3/8/8/8/4K3/8/8/R7 w - - 0 1",
    ];
    for fen in fens.iter() {
        let o = Position::from_fen(fen).unwrap().occupancy();
        assert_eq!(evaluate_occupancy(&mirror(&o)), -evaluate_occupancy(&o));
    }
}

#[test]
fn terminal_scores() {
    assert_eq!(terminal_score(TerminalStatus::Stalemate, 1, 3), 0);
    assert_eq!(terminal_score(TerminalStatus::Stalemate, -1, 0), 0);
    assert_eq!(terminal_score(TerminalStatus::Checkmate, 1, 3), -21500);
    assert_eq!(terminal_score(TerminalStatus::Checkmate, -1, 3), 21500);
    assert_eq!(terminal_score(TerminalStatus::Checkmate, 1, 0), -CHECKMATE_SCORE);
    let deepest = terminal_score(TerminalStatus::Checkmate, -1, MAX_DEPTH);
    assert_eq!(deepest, CHECKMATE_SCORE + CHECKMATE_DEPTH_SCORE * MAX_DEPTH as i16);
    assert!(deepest < i16::MAX);
}
