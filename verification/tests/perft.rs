use chess_core::chess::board::Board;
use chess_core::chess::perft::{perft, perft_divide};
use chess_core::precomputed::accessor::Precomputed;

const START_POS: &str = "rnbqkbnr/pppppppp/8/8/8/8/PPPPPPPP/RNBQKBNR w KQkq - 0 1";
const KIWIPETE: &str = "r3k2r/p1ppqpb1/bn2pnp1/3PN3/1p2P3/2N2Q1p/PPPBBPPP/R3K2R w KQkq -";
const POSITION_3: &str = "8/2p5/3p4/KP5r/1R3p1k/8/4P1P1/8 w - -";
const POSITION_4: &str = "r3k2r/Pppp1ppp/1b3nbN/nP6/BBP1P3/q4N2/Pp1P2PP/R2Q1RK1 w kq -";
const POSITION_5: &str = "rnbq1k1r/pp1Pbppp/2p5/8/2B5/8/PPP1NnPP/RNBQK2R w KQ -";

fn count(fen: &str, depth: u8) -> u64 {
    let tables = Precomputed::new();
    let mut board = Board::default();
    assert!(board.new(fen, &tables.zobrist));
    let before = board.zobrist();
    let nodes = perft(&mut board, depth, &tables);
    assert_eq!(board.zobrist(), before);
    nodes
}

#[test]
fn perft_startpos_shallow() {
    assert_eq!(count(START_POS, 0), 1);
    assert_eq!(count(START_POS, 1), 20);
    assert_eq!(count(START_POS, 2), 400);
    assert_eq!(count(START_POS, 3), 8902);
}

#[test]
fn perft_startpos_depth_4() {
    assert_eq!(count(START_POS, 4), 197281);
}

#[test]
fn perft_kiwipete() {
    assert_eq!(count(KIWIPETE, 1), 48);
    assert_eq!(count(KIWIPETE, 2), 2039);
    assert_eq!(count(KIWIPETE, 3), 97862);
}

#[test]
fn perft_position_3() {
    assert_eq!(count(POSITION_3, 1), 14);
    assert_eq!(count(POSITION_3, 2), 191);
    assert_eq!(count(POSITION_3, 3), 2812);
    assert_eq!(count(POSITION_3, 4), 43238);
}

#[test]
fn perft_position_4() {
    assert_eq!(count(POSITION_4, 1), 6);
    assert_eq!(count(POSITION_4, 2), 264);
    assert_eq!(count(POSITION_4, 3), 9467);
}

#[test]
fn perft_position_5() {
    assert_eq!(count(POSITION_5, 1), 44);
    assert_eq!(count(POSITION_5, 2), 1486);
    assert_eq!(count(POSITION_5, 3), 62379);
}

#[test]
fn perft_position_5_depth_4() {
    assert_eq!(count(POSITION_5, 4), 2103487);
}

#[test]
fn perft_position_3_depth_5() {
    assert_eq!(count(POSITION_3, 5), 674624);
}

#[test]
fn perft_divide_sums_to_perft() {
    let tables = Precomputed::new();
    let mut board = Board::default();
    assert!(board.new(KIWIPETE, &tables.zobrist));
    let parts = perft_divide(&mut board, 2, &tables);
    assert_eq!(parts.len(), 48);
    let total: u64 = parts.iter().map(|p| p.1).sum();
    assert_eq!(total, 2039);
}

#[test]
fn perft_divide_names_each_move_once() {
    let tables = Precomputed::new();
    let mut board = Board::default();
    assert!(board.new(POSITION_5, &tables.zobrist));
    let parts = perft_divide(&mut board, 1, &tables);
    assert_eq!(parts.len(), 44);
    for (i, a) in parts.iter().enumerate() {
        assert_eq!(a.1, 1);
        for b in parts.iter().skip(i + 1) {
            assert_ne!(a.0.packed_data(), b.0.packed_data());
        }
    }
}

#[test]
fn perft_startpos_depth_5() {
    assert_eq!(count(START_POS, 5), 4865609);
}

#[test]
fn perft_kiwipete_depth_4() {
    assert_eq!(count(KIWIPETE, 4), 4085603);
}

#[test]
fn perft_position_4_depth_4() {
    assert_eq!(count(POSITION_4, 4), 422333);
}

#[test]
fn perft_position_3_depth_6() {
    assert_eq!(count(POSITION_3, 6), 11030083);
}

#[test]
fn perft_position_4_depth_5() {
    assert_eq!(count(POSITION_4, 5), 15833292);
}
