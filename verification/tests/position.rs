use chess_core::chess::board::Board;
use chess_core::chess::move_generator::{make_if_legal, MoveGenerator, GEN_ALL};
use chess_core::chess::move_list::MoveList;
use chess_core::chess::move_ply::{uci_move_parser, MovePly};
use chess_core::chess::types::color::Color;
use chess_core::chess::types::file::File;
use chess_core::chess::types::move_flag::MoveFlag;
use chess_core::chess::types::piece::{BasePiece, Piece};
use chess_core::chess::types::square::Square;
use chess_core::general::bits;
use chess_core::precomputed::accessor::Precomputed;

const START_POS: &str = "rnbqkbnr/pppppppp/8/8/8/8/PPPPPPPP/RNBQKBNR w KQkq - 0 1";
const KIWIPETE: &str = "r3k2r/p1ppqpb1/bn2pnp1/3PN3/1p2P3/2N2Q1p/PPPBBPPP/R3K2R w KQkq -";

fn board_from(fen: &str, tables: &Precomputed) -> Board {
    let mut board = Board::default();
    assert!(board.new(fen, &tables.zobrist));
    board
}

fn play(board: &mut Board, tables: &Precomputed, text: &str) {
    let played = uci_move_parser(text, board).unwrap();
    assert!(make_if_legal(board, played, tables), "{} is not legal", text);
}

fn snapshot(board: &Board) -> (Vec<Piece>, Color, bool, bool, bool, bool, Option<File>, u8, u64) {
    let mut pieces = Vec::new();
    for i in 0..64u8 {
        pieces.push(board.piece_at(Square::from_index(i)));
    }
    (
        pieces,
        board.side_to_move(),
        board.has_short_castle_rights(Color::White),
        board.has_long_castle_rights(Color::White),
        board.has_short_castle_rights(Color::Black),
        board.has_long_castle_rights(Color::Black),
        board.en_passant_file(),
        board.half_move_clock(),
        board.zobrist(),
    )
}

fn check_consistent(board: &Board, tables: &Precomputed) {
    let white = match board.side_to_move() {
        Color::White => board.occupancy_us(),
        Color::Black => board.occupancy_them(),
    };
    let black = match board.side_to_move() {
        Color::White => board.occupancy_them(),
        Color::Black => board.occupancy_us(),
    };
    assert_eq!(white & black, 0);
    assert_eq!(board.occupancy(), white | black);
    for p in 0..12u8 {
        let piece = Piece::from_index(p);
        let bitboard = board.bitboard(piece.base(), piece.color());
        for i in 0..64u8 {
            let square = Square::from_index(i);
            assert_eq!(board.piece_at(square) == piece, bitboard & square.mask() != 0);
        }
        let list = board.piece_list(piece);
        assert_eq!(list.len() as u8, bits::count(bitboard));
        let mut from_list = 0u64;
        for square in list {
            assert_eq!(from_list & square.mask(), 0);
            from_list |= square.mask();
        }
        assert_eq!(from_list, bitboard);
    }
    assert_eq!(tables.zobrist.hash_from_board(board), board.zobrist());
}

#[test]
fn start_position_is_read() {
    let tables = Precomputed::new();
    let board = board_from(START_POS, &tables);
    assert_eq!(board.piece_at(Square::A1), Piece::WhiteRook);
    assert_eq!(board.piece_at(Square::E1), Piece::WhiteKing);
    assert_eq!(board.piece_at(Square::D8), Piece::BlackQueen);
    assert_eq!(board.piece_at(Square::E2), Piece::WhitePawn);
    assert_eq!(board.piece_at(Square::E4), Piece::NoPiece);
    assert_eq!(board.side_to_move(), Color::White);
    assert!(board.has_short_castle_rights(Color::White));
    assert!(board.has_long_castle_rights(Color::Black));
    assert_eq!(board.en_passant_file(), None);
    assert_eq!(board.half_move_clock(), 0);
    assert_eq!(board.king_square(Color::White), Square::E1);
    assert_eq!(board.king_square(Color::Black), Square::E8);
    assert_eq!(board.occupancy(), 0xFFFF_0000_0000_FFFF);
    assert_eq!(board.bitboard_combined(BasePiece::Pawn), 0x00FF_0000_0000_FF00);
    assert!(board.past_board_states().is_none());
    check_consistent(&board, &tables);
}

#[test]
fn placement_alone_is_a_position() {
    let tables = Precomputed::new();
    let board = board_from("k7/8/8/8/8/8/8/7K", &tables);
    assert_eq!(board.side_to_move(), Color::White);
    assert!(!board.has_short_castle_rights(Color::White));
    assert_eq!(board.piece_at(Square::A8), Piece::BlackKing);
    assert_eq!(board.piece_at(Square::H1), Piece::WhiteKing);
}

#[test]
fn later_fields_are_read() {
    let tables = Precomputed::new();
    let board = board_from("rnbqkbnr/pppp1ppp/8/4p3/4P3/8/PPPP1PPP/RNBQKBNR b Kq e3 7 2", &tables);
    assert_eq!(board.side_to_move(), Color::Black);
    assert!(board.has_short_castle_rights(Color::White));
    assert!(!board.has_long_castle_rights(Color::White));
    assert!(!board.has_short_castle_rights(Color::Black));
    assert!(board.has_long_castle_rights(Color::Black));
    assert_eq!(board.en_passant_file(), Some(File::E));
    assert_eq!(board.half_move_clock(), 7);
}

#[test]
fn bad_texts_are_no_positions() {
    let tables = Precomputed::new();
    let mut board = board_from(START_POS, &tables);
    let before = snapshot(&board);
    for fen in [
        "",
        "   ",
        "rnbqkbnr/pppppppp/8/8/8/8/PPPPPPPP/RNBQKBNR x KQkq - 0 1",
        "rnbqkbnr/pppppppp/8/8/8/8/PPPPPPPP/RNBQKBN w KQkq - 0 1",
        "rnbqkbnr/pppppppp/9/8/8/8/PPPPPPPP/RNBQKBNR w KQkq - 0 1",
        "rnbqkbnr/pppppppp/8/8/8/8/PPPPPPPP w KQkq - 0 1",
        "rnbqkbnr/pppppppp/8/8/8/8/PPPPPPPP/RNBQXBNR w KQkq - 0 1",
        "rnbq1bnr/pppppppp/8/8/8/8/PPPPPPPP/RNBQKBNR w KQkq - 0 1",
        "rnbqkknr/pppppppp/8/8/8/8/PPPPPPPP/RNBQKBNR w KQkq - 0 1",
        "rnbqkbnr/pppppppp/8/8/8/8/PPPPPPPP/RNBQKBNR w KQxq - 0 1",
        "rnbqkbnr/pppppppp/8/8/8/8/PPPPPPPP/RNBQKBNR w KQkq e4 0 1",
        "rnbqkbnr/pppppppp/8/8/8/8/PPPPPPPP/RNBQKBNR w KQkq - 256 1",
        "rnbqkbnr/pppppppp/8/8/8/8/PPPPPPPP/RNBQKBNR w KQkq - x 1",
    ] {
        assert!(!board.new(fen, &tables.zobrist), "{:?} was read", fen);
        assert_eq!(snapshot(&board), before);
    }
}

#[test]
fn make_and_undo_restore_everything() {
    let tables = Precomputed::new();
    for fen in [
        START_POS,
        KIWIPETE,
        "8/2p5/3p4/KP5r/1R3p1k/8/4P1P1/8 w - -",
        "r3k2r/Pppp1ppp/1b3nbN/nP6/BBP1P3/q4N2/Pp1P2PP/R2Q1RK1 w kq -",
        "rnbq1k1r/pp1Pbppp/2p5/8/2B5/8/PPP1NnPP/RNBQK2R w KQ -",
        "rnbqkbnr/ppp1p1pp/8/3pPp2/8/8/PPPP1PPP/RNBQKBNR w KQkq f6 0 3",
    ] {
        let mut board = board_from(fen, &tables);
        let mut moves = MoveList::default();
        MoveGenerator::<GEN_ALL>::generate(&mut board, &mut moves, &tables);
        assert!(moves.move_count() > 0);
        let before = snapshot(&board);
        for played in moves.iter() {
            board.make_move(played, &tables.zobrist);
            check_consistent(&board, &tables);
            assert_eq!(board.last_move(), Some(*played));
            assert_eq!(board.past_board_states().unwrap().len(), 1);
            board.undo_move(&tables.zobrist);
            assert_eq!(snapshot(&board), before, "{:?}", played);
            check_consistent(&board, &tables);
            assert!(board.past_board_states().is_none());
        }
    }
}

#[test]
fn hash_follows_a_game() {
    let tables = Precomputed::new();
    let mut board = board_from(START_POS, &tables);
    let mut hashes = vec![board.zobrist()];
    let game = [
        "e2e4", "d7d5", "e4e5", "f7f5", "e5f6", "g8f6", "g1f3", "c8g4", "f1e2", "b8c6", "e1g1", "d8d7", "d2d4",
        "e8c8", "c2c4", "d5c4", "d4d5", "c6b4", "d5d6", "b4c2", "d6c7", "c2a1", "c7d8n", "a1b3",
    ];
    for text in game {
        play(&mut board, &tables, text);
        check_consistent(&board, &tables);
        hashes.push(board.zobrist());
    }
    assert_eq!(board.piece_at(Square::D8), Piece::WhiteKnight);
    assert_eq!(board.piece_at(Square::G1), Piece::WhiteKing);
    assert_eq!(board.piece_at(Square::F1), Piece::WhiteRook);
    assert_eq!(board.piece_at(Square::C8), Piece::BlackKing);
    assert_eq!(board.past_board_states().unwrap().len(), game.len());
    for k in (0..game.len()).rev() {
        board.undo_move(&tables.zobrist);
        assert_eq!(board.zobrist(), hashes[k]);
        check_consistent(&board, &tables);
    }
    assert_eq!(snapshot(&board), snapshot(&board_from(START_POS, &tables)));
}

#[test]
fn castling_rights_go_with_king_and_rook() {
    let tables = Precomputed::new();
    let mut board = board_from("r3k2r/8/8/8/8/8/8/R3K2R w KQkq - 0 1", &tables);
    play(&mut board, &tables, "h1g1");
    assert!(!board.has_short_castle_rights(Color::White));
    assert!(board.has_long_castle_rights(Color::White));
    play(&mut board, &tables, "e8e7");
    assert!(!board.has_short_castle_rights(Color::Black));
    assert!(!board.has_long_castle_rights(Color::Black));
    play(&mut board, &tables, "a1a8");
    assert!(!board.has_long_castle_rights(Color::White));
    check_consistent(&board, &tables);
    let mut board = board_from("r3k2r/8/8/8/8/8/8/R3K2R w KQkq - 0 1", &tables);
    play(&mut board, &tables, "a1a8");
    assert!(!board.has_long_castle_rights(Color::Black));
    assert!(board.has_short_castle_rights(Color::Black));
    assert!(!board.has_long_castle_rights(Color::White));
    assert!(board.has_short_castle_rights(Color::White));
}

#[test]
fn double_step_sets_the_en_passant_file_for_one_ply() {
    let tables = Precomputed::new();
    let mut board = board_from(START_POS, &tables);
    play(&mut board, &tables, "c2c4");
    assert_eq!(board.en_passant_file(), Some(File::C));
    assert_eq!(board.last_move().unwrap().flag(), MoveFlag::DoubleJump);
    play(&mut board, &tables, "g8f6");
    assert_eq!(board.en_passant_file(), None);
    assert_eq!(board.half_move_clock(), 1);
    play(&mut board, &tables, "b1c3");
    assert_eq!(board.half_move_clock(), 2);
    play(&mut board, &tables, "d7d6");
    assert_eq!(board.half_move_clock(), 0);
}

#[test]
fn illegal_move_leaves_the_position() {
    let tables = Precomputed::new();
    let mut board = board_from(START_POS, &tables);
    let before = snapshot(&board);
    for text in ["e2e5", "e1e2", "a1a3", "e7e5", "e2e4q", "d1h5"] {
        let played = uci_move_parser(text, &board).unwrap();
        assert!(!make_if_legal(&mut board, played, &tables));
        assert_eq!(snapshot(&board), before);
    }
    assert_eq!(uci_move_parser("e2", &board), None);
    assert_eq!(uci_move_parser("e2e9", &board), None);
    assert_eq!(uci_move_parser("i2e4", &board), None);
    assert_eq!(uci_move_parser("e7e8k", &board), None);
    assert_eq!(uci_move_parser("e2e4qq", &board), None);
}

#[test]
fn null_move_passes_and_comes_back() {
    let tables = Precomputed::new();
    let mut board = board_from("rnbqkbnr/pppp1ppp/8/4p3/4P3/8/PPPP1PPP/RNBQKBNR w KQkq e6 0 2", &tables);
    let before = snapshot(&board);
    board.make_null_move(&tables.zobrist);
    assert_eq!(board.side_to_move(), Color::Black);
    assert_eq!(board.en_passant_file(), None);
    assert_eq!(board.last_move(), None);
    check_consistent(&board, &tables);
    board.undo_null_move(&tables.zobrist);
    assert_eq!(snapshot(&board), before);
}

#[test]
fn parsed_moves_get_their_flags() {
    let tables = Precomputed::new();
    let board = board_from("r3k2r/1P6/8/3pP3/8/8/P7/R3K2R w KQkq d6 0 1", &tables);
    let flag = |text: &str| uci_move_parser(text, &board).unwrap().flag();
    assert_eq!(flag("e1g1"), MoveFlag::CastleKingSide);
    assert_eq!(flag("e1c1"), MoveFlag::CastleQueenSide);
    assert_eq!(flag("a2a4"), MoveFlag::DoubleJump);
    assert_eq!(flag("a2a3"), MoveFlag::Quiet);
    assert_eq!(flag("e5d6"), MoveFlag::EnPassantCapture);
    assert_eq!(flag("b7b8q"), MoveFlag::PromoteToQueen);
    assert_eq!(flag("b7a8n"), MoveFlag::PromoteToKnight);
    assert_eq!(flag("b7b8r"), MoveFlag::PromoteToRook);
    assert_eq!(flag("b7b8b"), MoveFlag::PromoteToBishop);
    assert_eq!(flag("h1h5"), MoveFlag::Quiet);
    let played = uci_move_parser("b7a8n", &board).unwrap();
    assert_eq!(played, MovePly::new(Square::B7, Square::A8, MoveFlag::PromoteToKnight));
    assert_eq!(played.to_uci(), b"b7a8n".to_vec());
    assert_eq!(uci_move_parser("e1g1", &board).unwrap().to_uci(), b"e1g1".to_vec());
}
