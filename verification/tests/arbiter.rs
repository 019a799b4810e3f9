use chess_core::chess::board::Board;
use chess_core::chess::move_generator::{make_if_legal, MoveGenerator, GEN_ALL, GEN_TACTICS};
use chess_core::chess::move_list::MoveList;
use chess_core::chess::move_ply::uci_move_parser;
use chess_core::chess::attacks::is_attacked;
use chess_core::chess::types::color::Color;
use chess_core::chess::types::move_flag::MoveFlag;
use chess_core::engine::arbiter::Arbiter;
use chess_core::engine::types::match_result::MatchResult;
use chess_core::precomputed::accessor::Precomputed;

fn board_from(fen: &str, tables: &Precomputed) -> Board {
    let mut board = Board::default();
    assert!(board.new(fen, &tables.zobrist));
    board
}

fn play(board: &mut Board, tables: &Precomputed, text: &str) {
    let played = uci_move_parser(text, board).unwrap();
    assert!(make_if_legal(board, played, tables), "{} is not legal", text);
}

fn result(board: &mut Board, tables: &Precomputed) -> MatchResult {
    let mut moves = MoveList::default();
    MoveGenerator::<GEN_ALL>::generate(board, &mut moves, tables);
    Arbiter::arbitrate(board, &moves)
}

#[test]
fn fools_mate_is_a_loss_for_white() {
    let tables = Precomputed::new();
    let mut board = board_from("rnbqkbnr/pppppppp/8/8/8/8/PPPPPPPP/RNBQKBNR w KQkq - 0 1", &tables);
    for text in ["f2f3", "e7e5", "g2g4"] {
        play(&mut board, &tables, text);
        assert_eq!(result(&mut board, &tables), MatchResult::Ongoing);
    }
    play(&mut board, &tables, "d8h4");
    assert_eq!(board.side_to_move(), Color::White);
    assert_eq!(result(&mut board, &tables), MatchResult::Loss);
    assert!(board.in_check());
}

#[test]
fn no_move_without_check_is_stalemate() {
    let tables = Precomputed::new();
    let mut board = board_from("8/8/8/8/8/4k3/4p3/4K3 w - - 0 1", &tables);
    let mut moves = MoveList::default();
    MoveGenerator::<GEN_ALL>::generate(&mut board, &mut moves, &tables);
    assert_eq!(moves.move_count(), 0);
    assert!(!board.in_check());
    assert_eq!(Arbiter::arbitrate(&board, &moves), MatchResult::Draw);
}

#[test]
fn bare_kings_are_a_draw() {
    let tables = Precomputed::new();
    let mut board = board_from("k7/8/8/8/8/8/8/7K w - -", &tables);
    assert_eq!(result(&mut board, &tables), MatchResult::Draw);
    assert!(Arbiter::is_draw(&board));
}

#[test]
fn minor_piece_alone_is_a_draw_but_not_two_knights() {
    let tables = Precomputed::new();
    assert_eq!(result(&mut board_from("k7/8/8/8/8/8/8/6BK w - -", &tables), &tables), MatchResult::Draw);
    assert_eq!(result(&mut board_from("k7/8/8/8/8/8/8/6NK w - -", &tables), &tables), MatchResult::Draw);
    assert_eq!(result(&mut board_from("k7/8/8/8/8/8/8/5NNK w - -", &tables), &tables), MatchResult::Ongoing);
    assert_eq!(result(&mut board_from("k7/8/8/8/8/8/7P/7K w - -", &tables), &tables), MatchResult::Ongoing);
    assert_eq!(result(&mut board_from("k7/8/8/8/8/8/8/6RK w - -", &tables), &tables), MatchResult::Ongoing);
    assert_eq!(result(&mut board_from("k7/8/8/8/8/8/8/6QK w - -", &tables), &tables), MatchResult::Ongoing);
}

#[test]
fn third_time_the_same_position_is_a_draw() {
    let tables = Precomputed::new();
    let mut board = board_from("4k3/8/8/8/8/8/4P3/4K3 w - - 0 1", &tables);
    for text in ["e1d1", "e8d8", "d1e1", "d8e8", "e1d1", "e8d8", "d1e1"] {
        assert_eq!(result(&mut board, &tables), MatchResult::Ongoing, "before {}", text);
        assert!(!Arbiter::is_draw(&board));
        play(&mut board, &tables, text);
    }
    assert_eq!(result(&mut board, &tables), MatchResult::Ongoing);
    play(&mut board, &tables, "d8e8");
    assert_eq!(result(&mut board, &tables), MatchResult::Draw);
    assert!(Arbiter::is_draw(&board));
}

#[test]
fn repetition_does_not_reach_past_a_pawn_move() {
    let tables = Precomputed::new();
    let mut board = board_from("4k3/8/8/8/8/8/4P3/4K3 w - - 0 1", &tables);
    for text in ["e1d1", "e8d8", "d1e1", "d8e8", "e1d1", "e8d8", "d1e1", "d8e8"] {
        play(&mut board, &tables, text);
    }
    assert_eq!(result(&mut board, &tables), MatchResult::Draw);
    play(&mut board, &tables, "e2e3");
    assert_eq!(result(&mut board, &tables), MatchResult::Ongoing);
    for text in ["e8d8", "e1d1", "d8e8", "d1e1"] {
        play(&mut board, &tables, text);
    }
    assert_eq!(result(&mut board, &tables), MatchResult::Ongoing);
}

#[test]
fn hundred_plies_without_progress_are_a_draw() {
    let tables = Precomputed::new();
    let mut board = board_from("4k3/8/8/8/8/8/4R3/4K3 w - - 99 50", &tables);
    assert_eq!(board.half_move_clock(), 99);
    assert_eq!(result(&mut board, &tables), MatchResult::Ongoing);
    play(&mut board, &tables, "e2e4");
    assert_eq!(board.half_move_clock(), 100);
    assert_eq!(result(&mut board, &tables), MatchResult::Draw);
    assert!(Arbiter::is_draw(&board));
}

#[test]
fn no_generated_move_leaves_the_king_attacked() {
    let tables = Precomputed::new();
    for fen in [
        "r3k2r/p1ppqpb1/bn2pnp1/3PN3/1p2P3/2N2Q1p/PPPBBPPP/R3K2R w KQkq -",
        "8/2p5/3p4/KP5r/1R3p1k/8/4P1P1/8 w - -",
        "r3k2r/Pppp1ppp/1b3nbN/nP6/BBP1P3/q4N2/Pp1P2PP/R2Q1RK1 w kq -",
        "rnbq1k1r/pp1Pbppp/2p5/8/2B5/8/PPP1NnPP/RNBQK2R w KQ -",
        "4k3/8/8/8/1b6/8/3P4/4K3 w - -",
        "4k3/8/8/8/8/8/8/r3K2R w K -",
        "8/8/8/2k5/3Pp3/8/8/4K3 b - d3 0 1",
    ] {
        for tactics in [false, true] {
            let mut board = board_from(fen, &tables);
            let mover = board.side_to_move();
            let mut moves = MoveList::default();
            if tactics {
                MoveGenerator::<GEN_TACTICS>::generate(&mut board, &mut moves, &tables);
            } else {
                MoveGenerator::<GEN_ALL>::generate(&mut board, &mut moves, &tables);
            }
            for played in moves.iter() {
                board.make_move(played, &tables.zobrist);
                board.update_occupancy();
                let king = board.king_square(mover);
                assert!(!is_attacked(&board, &tables, king, board.side_to_move()), "{:?}", played);
                board.undo_move(&tables.zobrist);
            }
        }
    }
}

#[test]
fn pinned_pawn_and_rook_check_limit_the_moves() {
    let tables = Precomputed::new();
    let mut board = board_from("4k3/8/8/8/1b6/8/3P4/4K3 w - -", &tables);
    let mut moves = MoveList::default();
    MoveGenerator::<GEN_ALL>::generate(&mut board, &mut moves, &tables);
    assert!(!board.in_check());
    assert!(moves.iter().iter().all(|m| m.from() != chess_core::chess::types::square::Square::D2));
    assert_eq!(moves.move_count(), 4);
    let mut board = board_from("4k3/8/8/8/8/8/8/r3K2R w K -", &tables);
    let mut moves = MoveList::default();
    MoveGenerator::<GEN_ALL>::generate(&mut board, &mut moves, &tables);
    assert!(board.in_check());
    assert!(moves.iter().iter().all(|m| m.flag() != MoveFlag::CastleKingSide));
    assert_eq!(moves.move_count(), 3);
}

#[test]
fn tactical_moves_are_captures_promotions_and_checks() {
    let tables = Precomputed::new();
    let mut board = board_from("4k3/1P6/8/8/3p4/8/4N3/4K2R w K -", &tables);
    let mut moves = MoveList::default();
    MoveGenerator::<GEN_TACTICS>::generate(&mut board, &mut moves, &tables);
    let mut texts: Vec<String> = moves.iter().iter().map(|m| String::from_utf8(m.to_uci()).unwrap()).collect();
    texts.sort();
    assert_eq!(texts, vec!["b7b8b", "b7b8n", "b7b8q", "b7b8r", "e2d4", "h1h8"]);
}

#[test]
fn pinned_pawn_takes_en_passant_along_its_pin() {
    let tables = Precomputed::new();
    let mut board = board_from("7b/8/8/4Pp2/8/8/8/K6k w - f6 0 1", &tables);
    let mut moves = MoveList::default();
    MoveGenerator::<GEN_ALL>::generate(&mut board, &mut moves, &tables);
    let mut texts: Vec<String> = moves.iter().iter().map(|m| String::from_utf8(m.to_uci()).unwrap()).collect();
    texts.sort();
    assert_eq!(texts, vec!["a1a2", "a1b1", "a1b2", "e5f6"]);
    assert_eq!(moves.iter().iter().find(|m| m.from() == chess_core::chess::types::square::Square::E5).unwrap().flag(), MoveFlag::EnPassantCapture);
}

#[test]
fn en_passant_that_uncovers_the_rank_is_left_out() {
    let tables = Precomputed::new();
    let mut board = board_from("8/8/8/K2Pp2r/8/8/8/7k w - e6 0 1", &tables);
    let mut moves = MoveList::default();
    MoveGenerator::<GEN_ALL>::generate(&mut board, &mut moves, &tables);
    assert!(moves.iter().iter().all(|m| m.flag() != MoveFlag::EnPassantCapture));
    assert!(moves.contains_move(uci_move_parser("d5d6", &board).unwrap()));
}

#[test]
fn moves_with_stray_flag_bits_are_not_made() {
    let tables = Precomputed::new();
    let mut board = board_from("rnbqkbnr/pppppppp/8/8/8/8/PPPPPPPP/RNBQKBNR w KQkq - 0 1", &tables);
    let hash = board.zobrist();
    let legal = uci_move_parser("g1f3", &board).unwrap();
    let stray = chess_core::chess::move_ply::MovePly::from_packed(legal.packed_data() | 0x9000);
    assert_eq!((stray.from(), stray.to(), stray.flag()), (legal.from(), legal.to(), legal.flag()));
    assert!(!make_if_legal(&mut board, stray, &tables));
    assert_eq!(board.zobrist(), hash);
    assert!(make_if_legal(&mut board, legal, &tables));
}

#[test]
fn en_passant_that_clears_the_rank_of_the_king_is_left_out() {
    let tables = Precomputed::new();
    let mut board = board_from("8/2p5/8/KP5r/8/8/8/7k b - - 0 1", &tables);
    let jump = uci_move_parser("c7c5", &board).unwrap();
    assert_eq!(jump.flag(), MoveFlag::DoubleJump);
    assert!(make_if_legal(&mut board, jump, &tables));
    let mut moves = MoveList::default();
    MoveGenerator::<GEN_ALL>::generate(&mut board, &mut moves, &tables);
    assert!(moves.iter().iter().all(|m| m.flag() != MoveFlag::EnPassantCapture));
    assert!(moves.contains_move(uci_move_parser("b5b6", &board).unwrap()));
    // with the rook off the rank the capture is there
    let mut board = board_from("8/2p5/8/KP6/7r/8/8/7k b - - 0 1", &tables);
    assert!(make_if_legal(&mut board, jump, &tables));
    let mut moves = MoveList::default();
    MoveGenerator::<GEN_ALL>::generate(&mut board, &mut moves, &tables);
    assert_eq!(moves.iter().iter().filter(|m| m.flag() == MoveFlag::EnPassantCapture).count(), 1);
}
