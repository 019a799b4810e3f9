use chess_core::chess::board::Board;
use chess_core::chess::move_generator::{make_if_legal, MoveGenerator, GEN_ALL};
use chess_core::chess::move_list::MoveList;
use chess_core::chess::move_ply::{uci_move_parser, MovePly};
use chess_core::chess::types::color::Color;
use chess_core::chess::types::move_flag::MoveFlag;
use chess_core::chess::types::piece::{BasePiece, Piece};
use chess_core::chess::types::square::Square;
use chess_core::engine::eval::network::Network;
use chess_core::engine::eval::nnue::NNUE;
use chess_core::engine::search::{
    after_iteration, after_move, after_null_move, after_tactical_move, iterative_deepening, next_window, Round, Step,
    aspiration_start, aspiration_windows, clamp_score, in_zugzwang, late_move, move_key, null_move_allowed, pv_from_transposition,
    quiescence_node, quiescence_search, reverse_futility, search, search_node, search_start, tt_cutoff, widen,
    INFINITY,
};
use chess_core::engine::search_limits::{stop_reached, think_time, SearchLimits};
use chess_core::engine::see::{piece_value, see};
use chess_core::engine::thread::ThreadData;
use chess_core::engine::transposition::{TTEntry, Transposition};
use chess_core::engine::types::tt_flag::TTFlag;
use chess_core::precomputed::accessor::Precomputed;

fn board_from(fen: &str, tables: &Precomputed) -> Board {
    let mut board = Board::default();
    assert!(board.new(fen, &tables.zobrist));
    board
}

/// A network that counts material: about a hundred for each pawn that the side to move is ahead.
fn material_network() -> Network {
    let mut net = Network::zero();
    let values = [1i16, 3, 3, 5, 9, 0];
    for piece in 0..12usize {
        for square in 0..64usize {
            let feature = 64 * piece + square;
            let value = values[piece % 6];
            net.feature_weights[feature * 256] = if piece < 6 { value } else { -value };
        }
    }
    net.feature_biases[0] = 100;
    net.output_weights[0] = 2600;
    net.output_weights[256] = -2600;
    net
}

#[test]
fn material_network_counts_pawns() {
    let tables = Precomputed::new();
    let net = material_network();
    let mut nnue = NNUE::default();
    let board = board_from("4k3/8/8/8/8/8/4P3/4K3 w - -", &tables);
    nnue.new(&board, &net);
    assert_eq!(nnue.evaluate(Color::White, &net), 99);
    assert_eq!(nnue.evaluate(Color::Black, &net), -99);
    let board = board_from("rnbqkbnr/pppppppp/8/8/8/8/PPPPPPPP/RNBQKBNR w KQkq -", &tables);
    nnue.new(&board, &net);
    assert_eq!(nnue.evaluate(Color::White, &net), 0);
    let board = board_from("4k3/8/8/8/8/8/8/Q3K3 b - -", &tables);
    nnue.new(&board, &net);
    assert_eq!(nnue.evaluate(Color::Black, &net), -899);
}

#[test]
fn search_keeps_its_pawn() {
    let tables = Precomputed::new();
    let net = material_network();
    let mut tt = Transposition::new(1);
    let mut board = board_from("4k3/8/8/8/8/8/4P3/4K3 w - -", &tables);
    let hash = board.zobrist();
    let report = search_start(1, &mut board, &mut tt, &SearchLimits::new(300, 1500), &tables, &net);
    assert_eq!(board.zobrist(), hash);
    let played = report.best_move.unwrap();
    assert!(!report.reports.is_empty());
    assert!(make_if_legal(&mut board, played, &tables));
    let mut replies = MoveList::default();
    MoveGenerator::<GEN_ALL>::generate(&mut board, &mut replies, &tables);
    for reply in replies.iter() {
        board.make_move(reply, &tables.zobrist);
        assert_eq!(board.piece_list(Piece::WhitePawn).len(), 1);
        board.undo_move(&tables.zobrist);
    }
}

#[test]
fn search_finds_mate_in_one() {
    let tables = Precomputed::new();
    let net = material_network();
    let mut tt = Transposition::new(1);
    let mut board = board_from("r1bqkb1r/pppp1ppp/2n2n2/4p2Q/2B1P3/8/PPPP1PPP/RNB1K1NR w KQkq -", &tables);
    let report = search_start(1, &mut board, &mut tt, &SearchLimits::new(500, 3000), &tables, &net);
    let played = report.best_move.unwrap();
    assert_eq!(played.to_uci(), b"h5f7".to_vec());
    assert_eq!(played, MovePly::new(Square::H5, Square::F7, MoveFlag::Quiet));
    let last = report.reports.last().unwrap();
    assert_eq!(last.score, INFINITY - 1);
    assert_eq!(last.pv[0], played);
    assert_eq!(last.sel_depth, last.pv.len());
}

#[test]
fn search_takes_a_hanging_queen() {
    let tables = Precomputed::new();
    let net = material_network();
    let mut tt = Transposition::new(1);
    let mut board = board_from("4k3/8/8/3q4/8/8/8/3RK3 w - -", &tables);
    let report = search_start(1, &mut board, &mut tt, &SearchLimits::new(300, 1500), &tables, &net);
    assert_eq!(report.best_move.unwrap().to_uci(), b"d1d5".to_vec());
}

#[test]
fn search_without_moves_gives_none() {
    let tables = Precomputed::new();
    let net = material_network();
    let mut tt = Transposition::new(1);
    let mut board = board_from("8/8/8/8/8/4k3/4p3/4K3 w - - 0 1", &tables);
    let report = search_start(1, &mut board, &mut tt, &SearchLimits::new(50, 200), &tables, &net);
    assert_eq!(report.best_move, None);
}

#[test]
fn search_leaves_board_and_stack() {
    let tables = Precomputed::new();
    let net = material_network();
    let mut tt = Transposition::new(1);
    let mut board = board_from("r3k2r/p1ppqpb1/bn2pnp1/3PN3/1p2P3/2N2Q1p/PPPBBPPP/R3K2R w KQkq -", &tables);
    let mut nnue = NNUE::default();
    nnue.new(&board, &net);
    let mut thread_data = ThreadData::default();
    let limits = SearchLimits::new(10000, 10000);
    let hash = board.zobrist();
    let eval = nnue.evaluate(Color::White, &net);
    let score = search(&mut board, 0, 3, -INFINITY, INFINITY, &mut thread_data, &mut tt, &mut nnue, &limits, &tables, &net);
    assert!(-INFINITY <= score && score <= INFINITY);
    assert_eq!(board.zobrist(), hash);
    assert_eq!(tables.zobrist.hash_from_board(&board), hash);
    assert!(board.past_board_states().is_none());
    assert_eq!(nnue.evaluate(Color::White, &net), eval);
    assert!(thread_data.nodes > 0);
    let pv = pv_from_transposition(&mut board, &tt, &tables);
    assert!(!pv.is_empty());
    assert_eq!(board.zobrist(), hash);
    assert_eq!(tt.best_move(), pv[0]);
    let quiet = quiescence_search(&mut board, 0, 4, -INFINITY, INFINITY, &mut thread_data, &mut tt, &mut nnue, &limits, &tables, &net);
    assert!(-INFINITY <= quiet && quiet <= INFINITY);
    assert_eq!(board.zobrist(), hash);
}

#[test]
fn mate_scores_count_the_plies() {
    let tables = Precomputed::new();
    let net = material_network();
    let mut tt = Transposition::new(1);
    let mut board = board_from("rnb1kbnr/pppp1ppp/8/4p3/6Pq/5P2/PPPPP2P/RNBQKBNR w KQkq -", &tables);
    let mut nnue = NNUE::default();
    nnue.new(&board, &net);
    let mut thread_data = ThreadData::default();
    let limits = SearchLimits::new(10000, 10000);
    let score = search(&mut board, 0, 2, -INFINITY, INFINITY, &mut thread_data, &mut tt, &mut nnue, &limits, &tables, &net);
    assert_eq!(score, -INFINITY);
    let score = search(&mut board, 5, 2, -INFINITY, INFINITY, &mut thread_data, &mut tt, &mut nnue, &limits, &tables, &net);
    assert_eq!(score, -INFINITY + 5);
    let mut board = board_from("k7/8/8/8/8/8/8/7K w - -", &tables);
    nnue.new(&board, &net);
    let score = search(&mut board, 0, 2, -INFINITY, INFINITY, &mut thread_data, &mut tt, &mut nnue, &limits, &tables, &net);
    assert_eq!(score, 0);
}

#[test]
fn hard_stop_ends_the_search_at_once() {
    let tables = Precomputed::new();
    let net = material_network();
    let mut tt = Transposition::new(1);
    let mut board = board_from("rnbqkbnr/pppppppp/8/8/8/8/PPPPPPPP/RNBQKBNR w KQkq -", &tables);
    let mut nnue = NNUE::default();
    nnue.new(&board, &net);
    let mut thread_data = ThreadData::default();
    let limits = SearchLimits::new(0, 0);
    assert!(limits.is_hard_stop());
    assert!(limits.is_soft_stop());
    let score = search(&mut board, 0, 6, -INFINITY, INFINITY, &mut thread_data, &mut tt, &mut nnue, &limits, &tables, &net);
    assert_eq!(score, 0);
    assert_eq!(thread_data.nodes, 0);
    assert!(thread_data.stopped);
}

#[test]
fn exchange_of_knight_for_defended_pawn() {
    let tables = Precomputed::new();
    let board = board_from("4k3/8/3p4/4p3/8/3N4/8/4K3 w - -", &tables);
    assert_eq!(see(Square::D3, Square::E5, &board, &tables), 100 - 320);
}

#[test]
fn exchange_values() {
    let tables = Precomputed::new();
    let board = board_from("4k3/8/8/4p3/8/3N4/8/4K3 w - -", &tables);
    assert_eq!(see(Square::D3, Square::E5, &board, &tables), 100);
    assert_eq!(see(Square::D3, Square::F4, &board, &tables), 0);
    assert_eq!(see(Square::A1, Square::E5, &board, &tables), 0);
    // rook takes pawn, rook takes rook, rook behind takes rook
    let board = board_from("3rk3/8/8/3p4/8/8/3R4/3RK3 w - -", &tables);
    assert_eq!(see(Square::D2, Square::D5, &board, &tables), 100 - 500 + 500);
    // the bishop behind the queen joins in once the queen is gone
    let board = board_from("4k3/8/2p5/3p4/4Q3/5B2/8/4K3 w - -", &tables);
    assert_eq!(see(Square::E4, Square::D5, &board, &tables), 100 - 1000 + 100);
    assert_eq!(piece_value(BasePiece::Pawn), 100);
    assert_eq!(piece_value(BasePiece::Knight), 320);
    assert_eq!(piece_value(BasePiece::Bishop), 320);
    assert_eq!(piece_value(BasePiece::Rook), 500);
    assert_eq!(piece_value(BasePiece::Queen), 1000);
    assert_eq!(piece_value(BasePiece::King), 10000);
}

#[test]
fn table_entries_cut_as_their_bound_says() {
    let entry = |depth: u8, eval: i16, tt_flag: TTFlag| TTEntry {
        zobrist: 1,
        score: 0,
        cur_move: MovePly::default(),
        eval,
        depth,
        tt_flag,
    };
    assert_eq!(tt_cutoff(&entry(5, 40, TTFlag::Exact), 5, -10, 10, false), Some(40));
    assert_eq!(tt_cutoff(&entry(5, 40, TTFlag::Exact), 5, -10, 10, true), None);
    assert_eq!(tt_cutoff(&entry(4, 40, TTFlag::Exact), 5, -10, 10, false), None);
    assert_eq!(tt_cutoff(&entry(5, 10, TTFlag::Lower), 5, -10, 10, false), Some(10));
    assert_eq!(tt_cutoff(&entry(5, 9, TTFlag::Lower), 5, -10, 10, false), None);
    assert_eq!(tt_cutoff(&entry(5, -10, TTFlag::Upper), 5, -10, 10, true), Some(-10));
    assert_eq!(tt_cutoff(&entry(5, -9, TTFlag::Upper), 5, -10, 10, false), None);
    assert_eq!(tt_cutoff(&entry(9, 32000, TTFlag::Exact), 5, -10, 10, false), Some(INFINITY));
    assert_eq!(clamp_score(-32000), -INFINITY);
    assert_eq!(clamp_score(123), 123);
}

#[test]
fn pruning_rules() {
    assert!(null_move_allowed(false, 7, false, false));
    assert!(!null_move_allowed(true, 7, false, false));
    assert!(!null_move_allowed(false, 6, false, false));
    assert!(!null_move_allowed(false, 7, true, false));
    assert!(!null_move_allowed(false, 7, false, true));
    assert!(reverse_futility(260, 100, 2));
    assert!(!reverse_futility(259, 100, 2));
    assert!(!reverse_futility(32767, 30000, 255));
    assert!(late_move(3, 3));
    assert!(!late_move(2, 3));
    assert!(!late_move(3, 2));
    let tables = Precomputed::new();
    assert!(in_zugzwang(&board_from("4k3/8/8/8/8/8/4P3/4K3 w - -", &tables)));
    assert!(in_zugzwang(&board_from("4k3/3q4/8/8/8/8/4P3/4K3 w - -", &tables)));
    assert!(!in_zugzwang(&board_from("4k3/3q4/8/8/8/8/4P3/4K3 b - -", &tables)));
    assert!(!in_zugzwang(&board_from("4k3/8/8/8/8/8/4P3/4KN2 w - -", &tables)));
}

#[test]
fn order_keys() {
    assert_eq!(move_key(true, true, true, 500, MoveFlag::PromoteToQueen, 9), 1000000);
    assert_eq!(move_key(false, false, false, 0, MoveFlag::Quiet, 0), 0);
    assert_eq!(move_key(false, true, false, 0, MoveFlag::Quiet, 0), 300);
    assert_eq!(move_key(false, false, true, 0, MoveFlag::Quiet, 0), 5000);
    assert_eq!(move_key(false, false, false, 100, MoveFlag::Quiet, 0), 500);
    assert_eq!(move_key(false, false, false, -220, MoveFlag::Quiet, 0), 0);
    assert_eq!(move_key(false, false, false, 0, MoveFlag::PromoteToQueen, 0), 10000);
    assert_eq!(move_key(false, false, false, 0, MoveFlag::PromoteToKnight, 0), 3200);
    assert_eq!(move_key(false, false, false, 0, MoveFlag::CastleKingSide, 0), 1000);
    assert_eq!(move_key(false, false, false, 0, MoveFlag::CastleQueenSide, 7), 1007);
    assert_eq!(move_key(false, true, true, 32767, MoveFlag::PromoteToRook, 65535), 300 + 5000 + 163835 + 5000 + 65535);
}

#[test]
fn aspiration_windows_open_step_by_step() {
    assert_eq!(aspiration_start(4, 50), (-INFINITY, INFINITY));
    assert_eq!(aspiration_start(5, 50), (25, 75));
    assert_eq!(aspiration_start(9, -29990), (-INFINITY, -29965));
    assert_eq!(aspiration_start(9, 32000), (29975, INFINITY));
    assert_eq!(widen(25, 75, 25, 20), (0, 50, 37));
    assert_eq!(widen(25, 75, 25, 75), (25, 100, 37));
    assert_eq!(widen(-75, -24, 37, -80), (-112, -49, 55));
    assert_eq!(widen(0, 50, 621, 50), (0, 671, 931));
    assert_eq!(widen(0, 50, 931, 50), (-INFINITY, INFINITY, 1396));
    assert_eq!(widen(-INFINITY, 10, 25, -INFINITY), (-INFINITY, -14995, 37));
    assert_eq!(widen(0, INFINITY, 25, INFINITY), (0, INFINITY, 37));
}

#[test]
fn time_for_a_move() {
    assert_eq!(think_time(Color::White, Some(1500), Some(1), None, None, None, None), (1500, 1500));
    assert_eq!(think_time(Color::White, None, Some(60000), Some(1000), Some(500), None, None), (2100, 3500));
    assert_eq!(think_time(Color::Black, None, Some(60000), Some(1000), Some(500), Some(7), None), (34, 57));
    assert_eq!(think_time(Color::Black, None, Some(60000), Some(30000), None, None, Some(10)), (1800, 3000));
    assert_eq!(think_time(Color::Black, None, None, Some(30000), None, None, Some(0)), (18000, 30000));
    assert_eq!(think_time(Color::White, None, None, None, None, None, None), (600, 1000));
    assert_eq!(think_time(Color::White, None, Some(u32::MAX), None, Some(u32::MAX), None, Some(1)), (2576980377, u32::MAX));
    assert!(stop_reached(10, 10));
    assert!(stop_reached(10, 11));
    assert!(!stop_reached(10, 9));
    assert!(stop_reached(0, 0));
    let limits = SearchLimits::new(100000, 100000);
    assert!(!limits.is_soft_stop());
    assert!(!limits.is_hard_stop());
    assert!(limits.ms_elapsed() < 100000);
}

#[test]
fn parsed_move_is_found_by_search_helpers() {
    let tables = Precomputed::new();
    let board = board_from("4k3/8/8/8/8/8/4P3/4K3 w - -", &tables);
    assert_eq!(uci_move_parser("e2e4", &board).unwrap().flag(), MoveFlag::DoubleJump);
}

#[test]
fn node_that_was_stopped_answers_nothing() {
    let tables = Precomputed::new();
    let net = material_network();
    let mut tt = Transposition::new(1);
    let mut board = board_from("rnb1kbnr/pppp1ppp/8/4p3/6Pq/5P2/PPPPP2P/RNBQKBNR w KQkq -", &tables);
    let mut nnue = NNUE::default();
    nnue.new(&board, &net);
    let mut thread_data = ThreadData::default();
    let limits = SearchLimits::new(10000, 10000);
    let score =
        search_node(true, &mut board, 5, 2, -INFINITY, INFINITY, &mut thread_data, &mut tt, &mut nnue, &limits, &tables, &net);
    assert_eq!(score, 0);
    assert_eq!(thread_data.nodes, 0);
    let score =
        quiescence_node(true, &mut board, 5, 2, -INFINITY, INFINITY, &mut thread_data, &mut tt, &mut nnue, &limits, &tables, &net);
    assert_eq!(score, 0);
    assert_eq!(thread_data.nodes, 0);
}

#[test]
fn node_answers_before_it_tries_a_move() {
    let tables = Precomputed::new();
    let net = material_network();
    let mut tt = Transposition::new(1);
    let limits = SearchLimits::new(10000, 10000);
    let mut nnue = NNUE::default();

    // mated five plies from the root
    let mut board = board_from("rnb1kbnr/pppp1ppp/8/4p3/6Pq/5P2/PPPPP2P/RNBQKBNR w KQkq -", &tables);
    nnue.new(&board, &net);
    let mut thread_data = ThreadData::default();
    let score =
        search_node(false, &mut board, 5, 2, -50, 50, &mut thread_data, &mut tt, &mut nnue, &limits, &tables, &net);
    assert_eq!(score, -INFINITY + 5);
    assert_eq!(thread_data.nodes, 1);
    assert!(tt.probe(board.zobrist()).is_none());
    assert!(tt.best_move().is_default());

    // at the deepest ply the evaluation of the network
    let mut board = board_from("4k3/8/8/8/8/8/4P3/4K3 w - -", &tables);
    nnue.new(&board, &net);
    let score =
        search_node(false, &mut board, 255, 2, -50, 50, &mut thread_data, &mut tt, &mut nnue, &limits, &tables, &net);
    assert_eq!(score, 99);
    assert_eq!(thread_data.nodes, 2);

    // the evaluation reaches beta; no ply left
    let score =
        quiescence_node(false, &mut board, 3, 4, -50, 50, &mut thread_data, &mut tt, &mut nnue, &limits, &tables, &net);
    assert_eq!(score, 50);
    let score =
        quiescence_node(false, &mut board, 3, 0, -50, 200, &mut thread_data, &mut tt, &mut nnue, &limits, &tables, &net);
    assert_eq!(score, 99);
    let score =
        quiescence_node(false, &mut board, 3, 0, 120, 200, &mut thread_data, &mut tt, &mut nnue, &limits, &tables, &net);
    assert_eq!(score, 120);
    assert_eq!(thread_data.nodes, 5);

    // bare kings: a draw
    let mut board = board_from("k7/8/8/8/8/8/8/7K w - -", &tables);
    nnue.new(&board, &net);
    let score =
        search_node(false, &mut board, 2, 3, 10, 50, &mut thread_data, &mut tt, &mut nnue, &limits, &tables, &net);
    assert_eq!(score, 0);

    // what the table holds for the position settles the node
    let mut board = board_from("4k3/8/8/8/8/8/4P3/4K3 w - -", &tables);
    nnue.new(&board, &net);
    tt.update(board.zobrist(), MovePly::new(Square::E2, Square::E4, MoveFlag::DoubleJump), 77, 6, TTFlag::Exact);
    let score =
        search_node(false, &mut board, 2, 3, -50, 50, &mut thread_data, &mut tt, &mut nnue, &limits, &tables, &net);
    assert_eq!(score, 77);
}

#[test]
fn stop_of_no_time_leaves_the_table_alone() {
    let tables = Precomputed::new();
    let net = material_network();
    let mut tt = Transposition::new(1);
    let mut board = board_from("rnbqkbnr/pppppppp/8/8/8/8/PPPPPPPP/RNBQKBNR w KQkq -", &tables);
    let mut nnue = NNUE::default();
    nnue.new(&board, &net);
    let mut thread_data = ThreadData::default();
    let limits = SearchLimits::new(0, 0);
    tt.set_best(MovePly::new(Square::G1, Square::F3, MoveFlag::Quiet), 12);
    aspiration_windows(&mut board, &mut tt, &mut nnue, &limits, &mut thread_data, 3, &tables, &net);
    assert_eq!(tt.best_move().packed_data(), MovePly::new(Square::G1, Square::F3, MoveFlag::Quiet).packed_data());
    assert_eq!(tt.best_move_score(), 12);
    assert_eq!(thread_data.nodes, 0);
    assert!(tt.probe(board.zobrist()).is_none());
}

#[test]
fn root_search_publishes_a_legal_move() {
    let tables = Precomputed::new();
    let net = material_network();
    let mut tt = Transposition::new(1);
    let mut board = board_from("4k3/8/8/8/8/8/4P3/4K3 w - -", &tables);
    let mut nnue = NNUE::default();
    nnue.new(&board, &net);
    let mut thread_data = ThreadData::default();
    let limits = SearchLimits::new(10000, 10000);
    let score = search(&mut board, 0, 2, -INFINITY, INFINITY, &mut thread_data, &mut tt, &mut nnue, &limits, &tables, &net);
    assert_eq!(tt.best_move_score(), score);
    let best = tt.best_move();
    assert!(make_if_legal(&mut board, best, &tables));
}

#[test]
fn step_after_a_move() {
    let mut tt = Transposition::new(1);
    let mut thread_data = ThreadData::default();
    let old_killer = MovePly::new(Square::A2, Square::A3, MoveFlag::Quiet);
    thread_data.killers.update(old_killer, 3);
    let played = MovePly::new(Square::G1, Square::F3, MoveFlag::Quiet);
    let answered = MovePly::new(Square::E7, Square::E5, MoveFlag::DoubleJump);

    // the clock said stop: nothing is noted
    let mut stopped_records = ThreadData::default();
    let step =
        after_move(true, 70, played, 10, 50, 4, 3, 99, Color::White, Some(answered), &mut stopped_records, &mut tt);
    assert_eq!(step, Step::Halt);
    assert!(tt.probe(99).is_none());
    assert!(!stopped_records.killers.contains(3, played));
    assert!(stopped_records.stopped);

    // below the best score so far, and above it
    let step = after_move(false, 10, played, 10, 50, 4, 3, 99, Color::White, Some(answered), &mut thread_data, &mut tt);
    assert_eq!(step, Step::Keep);
    let step = after_move(false, 11, played, 10, 50, 4, 3, 99, Color::White, Some(answered), &mut thread_data, &mut tt);
    assert_eq!(step, Step::Raise);
    assert!(tt.probe(99).is_none());
    assert_eq!(thread_data.history_heuristics.get_history(played, Color::White), 0);

    // the score reaches beta
    let step = after_move(false, 50, played, 10, 50, 4, 3, 99, Color::White, Some(answered), &mut thread_data, &mut tt);
    assert_eq!(step, Step::Cut);
    let entry = tt.probe(99).unwrap();
    assert_eq!((entry.eval, entry.depth, entry.tt_flag), (50, 4, TTFlag::Lower));
    assert_eq!(entry.cur_move.packed_data(), played.packed_data());
    assert!(thread_data.killers.contains(3, played));
    assert!(thread_data.killers.contains(3, old_killer));
    assert!(!thread_data.killers.contains(2, played));
    assert_eq!(thread_data.history_heuristics.get_history(played, Color::White), 1);
    assert_eq!(thread_data.history_heuristics.get_history(played, Color::Black), 0);
    assert_eq!(
        thread_data.counter_move_heuristics.get_counter_move(answered, Color::White).packed_data(),
        played.packed_data()
    );
    assert_eq!(thread_data.nodes, 0);
    assert!(!thread_data.stopped);
    assert!(tt.best_move().is_default());
}

#[test]
fn step_after_a_capture_and_after_a_null_move() {
    let mut tt = Transposition::new(1);
    let mut records = ThreadData::default();
    let played = MovePly::new(Square::D3, Square::E5, MoveFlag::Quiet);
    assert_eq!(after_tactical_move(false, 10, played, 10, 50, 5, &mut records, &mut tt), Step::Keep);
    assert_eq!(after_tactical_move(false, 49, played, 10, 50, 5, &mut records, &mut tt), Step::Raise);
    assert!(tt.probe(5).is_none());
    assert_eq!(after_tactical_move(false, 51, played, 10, 50, 5, &mut records, &mut tt), Step::Cut);
    let entry = tt.probe(5).unwrap();
    assert_eq!((entry.eval, entry.depth, entry.tt_flag), (50, 0, TTFlag::Lower));
    assert!(!records.stopped);
    assert_eq!(after_tactical_move(true, 70, played, 10, 50, 6, &mut records, &mut tt), Step::Halt);
    assert!(records.stopped);
    assert!(tt.probe(6).is_none());

    let mut records = ThreadData::default();
    assert_eq!(after_null_move(false, 50, 50, &mut records), Some(50));
    assert_eq!(after_null_move(false, 49, 50, &mut records), None);
    assert!(!records.stopped);
    assert_eq!(after_null_move(true, 70, 50, &mut records), Some(0));
    assert!(records.stopped);
}

#[test]
fn window_after_a_search_of_the_root() {
    let mut records = ThreadData::default();
    assert_eq!(next_window(false, 0, -25, 25, 25, &mut records), None);
    assert_eq!(next_window(false, 500, -INFINITY, INFINITY, 25, &mut records), None);
    let (alpha, beta, delta) = widen(-25, 25, 25, 25);
    assert_eq!(next_window(false, 25, -25, 25, 25, &mut records), Some((alpha, beta, delta)));
    let (alpha, beta, delta) = widen(-25, 25, 25, -30);
    assert_eq!(next_window(false, -30, -25, 25, 25, &mut records), Some((alpha, beta, delta)));
    assert!(!records.stopped);
    assert_eq!(next_window(true, 500, -25, 25, 25, &mut records), None);
    assert!(records.stopped);
}

#[test]
fn iterations_age_the_table_and_publish_a_legal_move() {
    let tables = Precomputed::new();
    let net = material_network();
    let mut tt = Transposition::new(1);
    let mut board = board_from("4k3/8/8/8/8/8/4P3/4K3 w - -", &tables);
    let mut nnue = NNUE::default();
    nnue.new(&board, &net);
    let (best, reports) = iterative_deepening(&mut board, &mut tt, &mut nnue, &SearchLimits::new(100, 400), &tables, &net);
    assert!(!reports.is_empty());
    for (k, info) in reports.iter().enumerate() {
        assert_eq!(info.depth as usize, k + 1);
        assert_eq!(info.sel_depth, info.pv.len());
    }
    assert_eq!(best.packed_data(), tt.best_move().packed_data());
    assert!(make_if_legal(&mut board, best, &tables));

    // a stop of no time: no report, and the root of the table stays
    let mut board = board_from("4k3/8/8/8/8/8/4P3/4K3 w - -", &tables);
    nnue.new(&board, &net);
    let root = tt.best_move().packed_data();
    let (best, reports) = iterative_deepening(&mut board, &mut tt, &mut nnue, &SearchLimits::new(0, 0), &tables, &net);
    assert!(reports.is_empty());
    assert_eq!(best.packed_data(), root);
}

#[test]
fn mated_root_is_reported_without_a_move() {
    let tables = Precomputed::new();
    let net = material_network();
    let mut tt = Transposition::new(1);
    let mut board = board_from("rnb1kbnr/pppp1ppp/8/4p3/6Pq/5P2/PPPPP2P/RNBQKBNR w KQkq -", &tables);
    let report = search_start(1, &mut board, &mut tt, &SearchLimits::new(20, 100), &tables, &net);
    assert_eq!(report.best_move, None);
    assert!(!report.reports.is_empty());
    assert!(tt.best_move().is_default());
}

#[test]
fn what_follows_an_iteration() {
    assert_eq!(after_iteration(true, false, false, 3), Round::Stop);
    assert_eq!(after_iteration(false, true, false, 3), Round::Stop);
    assert_eq!(after_iteration(true, true, true, 3), Round::Stop);
    assert_eq!(after_iteration(false, false, true, 3), Round::ReportAndEnd);
    assert_eq!(after_iteration(false, false, false, 254), Round::ReportAndEnd);
    assert_eq!(after_iteration(false, false, false, 3), Round::ReportAndGoOn);
    assert_eq!(after_iteration(false, false, false, 253), Round::ReportAndGoOn);
}

#[test]
fn reports_hold_what_the_table_held() {
    let tables = Precomputed::new();
    let net = material_network();
    let mut tt = Transposition::new(1);
    let mut board = board_from("4k3/8/8/8/8/8/4P3/4K3 w - -", &tables);
    let mut nnue = NNUE::default();
    nnue.new(&board, &net);
    let (_, reports) = iterative_deepening(&mut board, &mut tt, &mut nnue, &SearchLimits::new(60, 400), &tables, &net);
    let last = reports.last().unwrap();
    assert_eq!(last.score, tt.best_move_score());
    let line = pv_from_transposition(&mut board, &tt, &tables);
    assert_eq!(
        line.iter().map(|m| m.packed_data()).collect::<Vec<u16>>(),
        last.pv.iter().map(|m| m.packed_data()).collect::<Vec<u16>>()
    );
}
