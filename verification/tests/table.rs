use chess_core::chess::move_ply::MovePly;
use chess_core::chess::types::color::Color;
use chess_core::chess::types::move_flag::MoveFlag;
use chess_core::chess::types::square::Square;
use chess_core::engine::counter_move_heuristics::CounterMoveHeuristics;
use chess_core::engine::history_heuristics::HistoryHeuristics;
use chess_core::engine::killers::Killers;
use chess_core::engine::thread::ThreadData;
use chess_core::engine::transposition::{bits_to_signed, signed_to_bits, TTEntry, Transposition};
use chess_core::engine::types::tt_flag::TTFlag;
use chess_core::precomputed::generators::lmr_reduction::LMRReduction;

fn quiet(from: Square, to: Square) -> MovePly {
    MovePly::new(from, to, MoveFlag::Quiet)
}

#[test]
fn entry_layout() {
    let entry = TTEntry {
        zobrist: 0x0123_4567_89AB_CDEF,
        score: -2,
        cur_move: MovePly::from_packed(0xBEEF),
        eval: 0x1234,
        depth: 0x56,
        tt_flag: TTFlag::Exact,
    };
    let packed = entry.to_packed();
    assert_eq!(packed, 0x0123_4567_89AB_CDEF_FFFE_BEEF_1234_5680);
    assert_eq!(TTEntry::from_packed(packed), entry);
    let lower = TTEntry { tt_flag: TTFlag::Lower, score: 0, eval: -1, depth: 0, zobrist: 0, cur_move: MovePly::default() };
    assert_eq!(lower.to_packed(), 0xFFFF_0040);
    assert_eq!(TTEntry::from_packed(0xFFFF_0040), lower);
    assert_eq!(TTEntry::from_packed(0).tt_flag, TTFlag::Upper);
    assert_eq!(TTEntry::from_packed(0x3F).tt_flag, TTFlag::Upper);
    assert_eq!(TTEntry::from_packed(0xC0).tt_flag, TTFlag::Exact);
    assert_eq!(signed_to_bits(-1), 0xFFFF);
    assert_eq!(signed_to_bits(-32768), 0x8000);
    assert_eq!(signed_to_bits(32767), 0x7FFF);
    assert_eq!(bits_to_signed(0x8000), -32768);
    assert_eq!(bits_to_signed(0xFFFE), -2);
    assert_eq!(bits_to_signed(5), 5);
    assert_eq!(TTFlag::from_index(0), TTFlag::Upper);
    assert_eq!(TTFlag::from_index(1), TTFlag::Lower);
    assert_eq!(TTFlag::from_index(2), TTFlag::Exact);
    assert_eq!(TTFlag::Lower.index(), 1);
}

#[test]
fn probe_finds_what_update_stored() {
    let mut tt = Transposition::new(1);
    let played = quiet(Square::E2, Square::E4);
    assert_eq!(tt.probe(77), None);
    tt.update(77, played, -123, 9, TTFlag::Exact);
    let found = tt.probe(77).unwrap();
    assert_eq!(found.zobrist, 77);
    assert_eq!(found.cur_move, played);
    assert_eq!(found.eval, -123);
    assert_eq!(found.depth, 9);
    assert_eq!(found.tt_flag, TTFlag::Exact);
    assert_eq!(found.score, 9 * 4 + 8);
    // one megabyte holds 65536 entries: 77 + 65536 falls into the same cell
    assert_eq!(tt.probe(77 + 65536), None);
    assert_eq!(tt.probe(78), None);
}

#[test]
fn replacement_policy() {
    let mut tt = Transposition::new(1);
    let first = quiet(Square::E2, Square::E4);
    let second = quiet(Square::D2, Square::D4);
    tt.update(5, first, 10, 8, TTFlag::Lower);
    assert_eq!(tt.probe(5).unwrap().score, 32);
    // another position in the same cell with a smaller or equal score stays out
    tt.update(5 + 65536, second, 20, 7, TTFlag::Lower);
    assert_eq!(tt.probe(5).unwrap().cur_move, first);
    tt.update(5 + 65536, second, 20, 6, TTFlag::Exact);
    assert_eq!(tt.probe(5).unwrap().cur_move, first);
    assert_eq!(tt.probe(5 + 65536), None);
    // a larger score gets in
    tt.update(5 + 65536, second, 20, 7, TTFlag::Exact);
    assert_eq!(tt.probe(5), None);
    assert_eq!(tt.probe(5 + 65536).unwrap().cur_move, second);
    assert_eq!(tt.probe(5 + 65536).unwrap().score, 36);
    // the same position always gets in
    tt.update(5 + 65536, first, -1, 0, TTFlag::Upper);
    let found = tt.probe(5 + 65536).unwrap();
    assert_eq!((found.cur_move, found.eval, found.depth, found.tt_flag, found.score), (first, -1, 0, TTFlag::Upper, 0));
    // a new search makes old entries give way
    tt.update(9, first, 0, 2, TTFlag::Lower);
    tt.new_search();
    tt.new_search();
    tt.update(9 + 65536, second, 0, 2, TTFlag::Lower);
    assert_eq!(tt.probe(9).unwrap().score, 8);
    assert_eq!(tt.probe(9 + 65536), None);
    tt.update(9 + 65536, second, 0, 3, TTFlag::Lower);
    assert_eq!(tt.probe(9), None);
    assert_eq!(tt.probe(9 + 65536).unwrap().score, 10);
}

#[test]
fn table_size_is_a_power_of_two() {
    // three megabytes hold the entries of two: 131072
    let mut tt = Transposition::new(3);
    let played = quiet(Square::A1, Square::A2);
    tt.update(1, played, 0, 1, TTFlag::Exact);
    assert_eq!(tt.probe(1 + 65536), None);
    tt.update(1 + 65536, played, 0, 1, TTFlag::Exact);
    assert!(tt.probe(1).is_some());
    assert!(tt.probe(1 + 65536).is_some());
    tt.update(1 + 131072, played, 0, 9, TTFlag::Exact);
    assert_eq!(tt.probe(1), None);
    assert!(tt.probe(1 + 131072).is_some());
}

#[test]
fn best_move_of_the_root() {
    let mut tt = Transposition::new(1);
    assert!(tt.best_move().is_default());
    assert_eq!(tt.best_move_score(), 0);
    let played = MovePly::new(Square::G7, Square::G8, MoveFlag::PromoteToQueen);
    tt.set_best(played, -45);
    assert_eq!(tt.best_move(), played);
    assert_eq!(tt.best_move_score(), -45);
    assert_eq!(tt.probe(0), None);
}

#[test]
fn killers_shift() {
    let mut killers = Killers::default();
    let a = quiet(Square::A1, Square::A2);
    let b = quiet(Square::B1, Square::B2);
    let c = quiet(Square::C1, Square::C2);
    assert!(!killers.contains(3, a));
    assert!(killers.contains(3, MovePly::default()));
    killers.update(a, 3);
    assert!(killers.contains(3, a));
    assert!(!killers.contains(4, a));
    killers.update(b, 3);
    assert!(killers.contains(3, a) && killers.contains(3, b));
    killers.update(c, 3);
    assert!(killers.contains(3, c) && killers.contains(3, b) && !killers.contains(3, a));
    killers.update(a, 255);
    assert!(killers.contains(255, a));
    assert!(!killers.contains(0, a));
}

#[test]
fn history_counts_by_side_and_squares() {
    let mut history = HistoryHeuristics::default();
    let a = quiet(Square::E2, Square::E4);
    let same_squares = MovePly::new(Square::E2, Square::E4, MoveFlag::DoubleJump);
    let b = quiet(Square::E4, Square::E2);
    assert_eq!(history.get_history(a, Color::White), 0);
    history.update_history(a, Color::White);
    history.update_history(same_squares, Color::White);
    assert_eq!(history.get_history(a, Color::White), 2);
    assert_eq!(history.get_history(same_squares, Color::White), 2);
    assert_eq!(history.get_history(a, Color::Black), 0);
    assert_eq!(history.get_history(b, Color::White), 0);
    let corner = quiet(Square::H8, Square::H8);
    for _ in 0..70000 {
        history.update_history(corner, Color::Black);
    }
    assert_eq!(history.get_history(corner, Color::Black), 65535);
    assert_eq!(history.get_history(corner, Color::White), 0);
}

#[test]
fn counter_moves_by_side_and_squares() {
    let mut counters = CounterMoveHeuristics::default();
    let a = quiet(Square::E2, Square::E4);
    let answer = quiet(Square::E7, Square::E5);
    assert!(counters.get_counter_move(a, Color::Black).is_default());
    counters.update_counter_move(a, answer, Color::Black);
    assert_eq!(counters.get_counter_move(a, Color::Black), answer);
    assert_eq!(counters.get_counter_move(MovePly::new(Square::E2, Square::E4, MoveFlag::DoubleJump), Color::Black), answer);
    assert!(counters.get_counter_move(a, Color::White).is_default());
    assert!(counters.get_counter_move(quiet(Square::E2, Square::E3), Color::Black).is_default());
    let data = ThreadData::default();
    assert_eq!(data.nodes, 0);
    assert!(!data.killers.contains(0, a));
}

#[test]
fn reduction_table_needs_a_row_for_each_depth() {
    assert!(LMRReduction::new(vec![[0u8; 256]; 255]).is_none());
    let mut rows = vec![[0u8; 256]; 256];
    rows[7][9] = 3;
    rows[255][255] = 5;
    let table = LMRReduction::new(rows).unwrap();
    assert_eq!(table.reduction(7, 9), 3);
    assert_eq!(table.reduction(9, 7), 0);
    assert_eq!(table.reduction(255, 255), 5);
}
