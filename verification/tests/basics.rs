use chess_core::chess::attacks::{attackers_of, is_attacked};
use chess_core::chess::bitboard::Bitboard;
use chess_core::chess::board::Board;
use chess_core::chess::consts::{BISHOP_DIRECTIONS, KNIGHT_DIRECTIONS, ROOK_DIRECTIONS};
use chess_core::chess::move_list::MoveList;
use chess_core::chess::move_ply::MovePly;
use chess_core::chess::piece_list::PieceList;
use chess_core::chess::types::color::Color;
use chess_core::chess::types::file::File;
use chess_core::chess::types::move_flag::MoveFlag;
use chess_core::chess::types::piece::{char_to_piece, BasePiece, Piece, ITER_ALL, ITER_BLACK, ITER_WHITE};
use chess_core::chess::types::rank::Rank;
use chess_core::chess::types::square::Square;
use chess_core::general::bits;
use chess_core::precomputed::accessor::{bishop_lookup, queen_lookup, rook_lookup, slider_lookup, Precomputed};
use chess_core::precomputed::generators::helpers::{create_dynamic_mask, create_static_mask, INCLUDE_EDGE, NO_EDGE};
use chess_core::precomputed::generators::inbetween::InBetween;
use chess_core::precomputed::generators::movement_mask::MovementMasks;
use chess_core::precomputed::generators::slider_lookup::{SliderLookup, SliderType};
use chess_core::precomputed::generators::zobrist::Zobrist;

fn mask(squares: &[Square]) -> u64 {
    squares.iter().fold(0, |m, s| m | s.mask())
}

#[test]
fn bit_utilities() {
    assert_eq!(bits::next(0b1011000), 3);
    assert_eq!(bits::next(1 << 63), 63);
    assert_eq!(bits::next(0), 64);
    assert_eq!(bits::count(0), 0);
    assert_eq!(bits::count(u64::MAX), 64);
    assert_eq!(bits::count(0b1011000), 3);
    assert_eq!(bits::pop(0b1011000), 0b1010000);
    assert_eq!(bits::pop(1 << 63), 0);
    assert_eq!(bits::all_squares(0), vec![]);
    assert_eq!(bits::all_squares(mask(&[Square::H8, Square::A1, Square::E4])), vec![Square::A1, Square::E4, Square::H8]);
    assert_eq!(bits::all_squares(u64::MAX).len(), 64);
}

#[test]
fn squares_files_ranks() {
    assert_eq!(Square::A1.index(), 0);
    assert_eq!(Square::H1.index(), 7);
    assert_eq!(Square::A8.index(), 56);
    assert_eq!(Square::H8.index(), 63);
    for i in 0..64u8 {
        let square = Square::from_index(i);
        assert_eq!(square.index(), i);
        assert_eq!(square.mask(), 1u64 << i);
        assert_eq!(square.file().index(), i % 8);
        assert_eq!(square.rank().index(), i / 8);
        assert_eq!(square.vert_flip(), i ^ 56);
        assert_eq!(Square::from_coords(square.file(), square.rank()), square);
    }
    assert_eq!(Square::E4.file(), File::E);
    assert_eq!(Square::E4.rank(), Rank::Fourth);
    assert_eq!(Square::from_bytes(b'e', b'4'), Some(Square::E4));
    assert_eq!(Square::from_bytes(b'h', b'8'), Some(Square::H8));
    assert_eq!(Square::from_bytes(b'i', b'4'), None);
    assert_eq!(Square::from_bytes(b'e', b'9'), None);
    assert_eq!(Square::from_bytes(b'E', b'4'), None);
    assert_eq!(File::from_byte(b'a'), Some(File::A));
    assert_eq!(File::H.to_byte(), b'h');
    assert_eq!(Rank::from_byte(b'0'), None);
    assert_eq!(Rank::Eighth.to_byte(), b'8');
    let mut file = File::C;
    file.add(3);
    assert_eq!(file, File::F);
    file.sub(5);
    assert_eq!(file, File::A);
    file.plus();
    assert_eq!(file, File::B);
    file.minus();
    assert_eq!(file, File::A);
    let mut rank = Rank::First;
    rank.add(7);
    assert_eq!(rank, Rank::Eighth);
    rank.minus();
    assert_eq!(rank, Rank::Seventh);
    rank.sub(6);
    rank.plus();
    assert_eq!(rank, Rank::Second);
    assert!(Rank::Second.is_pawn_start(Color::White) && Rank::Seventh.is_pawn_start(Color::Black));
    assert!(!Rank::Second.is_pawn_start(Color::Black));
    assert!(Rank::Eighth.is_pawn_promotion(Color::White) && Rank::First.is_pawn_promotion(Color::Black));
    assert!(Rank::Seventh.can_pawn_promote(Color::White) && Rank::Second.can_pawn_promote(Color::Black));
    assert!(!Rank::Seventh.can_pawn_promote(Color::Black));
    assert!(Rank::Fourth.is_pawn_jump_end(Color::White) && Rank::Fifth.is_pawn_jump_end(Color::Black));
}

#[test]
fn pieces_and_colors() {
    assert!(Color::White.is_white() && !Color::Black.is_white());
    assert_eq!(Color::White.not(), Color::Black);
    assert_eq!(Color::Black.not(), Color::White);
    assert_eq!(Color::White.name(), "White");
    assert_eq!(Color::Black.index(), 1);
    assert_eq!(Piece::iterator::<ITER_ALL>().len(), 12);
    assert_eq!(Piece::iterator::<ITER_WHITE>(), vec![
        Piece::WhitePawn, Piece::WhiteKnight, Piece::WhiteBishop, Piece::WhiteRook, Piece::WhiteQueen, Piece::WhiteKing,
    ]);
    assert_eq!(Piece::iterator::<ITER_BLACK>()[0], Piece::BlackPawn);
    assert_eq!(Piece::iterator::<ITER_ALL>()[11], Piece::BlackKing);
    assert_eq!(BasePiece::iterator(), vec![
        BasePiece::Pawn, BasePiece::Knight, BasePiece::Bishop, BasePiece::Rook, BasePiece::Queen, BasePiece::King,
    ]);
    for piece in Piece::iterator::<ITER_ALL>() {
        assert!(piece.is_piece());
        assert_eq!(char_to_piece(piece.to_char()), Some(piece));
        assert_eq!(Piece::from_base(piece.base(), piece.color()), piece);
        assert_eq!(piece.is_pawn(), piece.base() == BasePiece::Pawn);
        assert_eq!(piece.is_king(), piece.base() == BasePiece::King);
        assert_eq!(Piece::from_index(piece.index()), piece);
    }
    assert!(!Piece::NoPiece.is_piece());
    assert_eq!(Piece::NoPiece.color(), Color::Black);
    assert_eq!(Piece::NoPiece.to_char(), ' ');
    assert_eq!(Piece::WhiteRook.color(), Color::White);
    assert_eq!(Piece::BlackRook.color(), Color::Black);
    assert_eq!(char_to_piece('x'), None);
    assert_eq!(char_to_piece('K'), Some(Piece::WhiteKing));
    assert_eq!(char_to_piece('q'), Some(Piece::BlackQueen));
    assert_eq!(BasePiece::Knight.to_char(), 'N');
    assert_eq!(MoveFlag::PromoteToQueen.promotion_piece(Color::White), Piece::WhiteQueen);
    assert_eq!(MoveFlag::PromoteToKnight.promotion_piece(Color::Black), Piece::BlackKnight);
    assert!(MoveFlag::PromoteToRook.is_promotion() && !MoveFlag::DoubleJump.is_promotion() && !MoveFlag::Quiet.is_promotion());
    assert!(MoveFlag::CastleKingSide.is_castles() && MoveFlag::CastleQueenSide.is_castles() && !MoveFlag::Quiet.is_castles());
    assert!(MoveFlag::EnPassantCapture.is_en_passant_capture());
}

#[test]
fn packed_moves() {
    let flags = [
        MoveFlag::Quiet, MoveFlag::PromoteToKnight, MoveFlag::PromoteToBishop, MoveFlag::PromoteToRook,
        MoveFlag::PromoteToQueen, MoveFlag::DoubleJump, MoveFlag::EnPassantCapture, MoveFlag::CastleKingSide,
        MoveFlag::CastleQueenSide,
    ];
    for (number, flag) in flags.iter().enumerate() {
        assert_eq!(flag.index() as usize, number);
        assert_eq!(MoveFlag::from_index(number as u8), *flag);
        let played = MovePly::new(Square::G7, Square::H8, *flag);
        assert_eq!(played.from(), Square::G7);
        assert_eq!(played.to(), Square::H8);
        assert_eq!(played.flag(), *flag);
        assert_eq!(played.packed_data(), 54 + 64 * 63 + 4096 * number as u16);
        assert_eq!(MovePly::from_packed(played.packed_data()), played);
        assert_eq!(played.squares_key(), 54 + 64 * 63);
    }
    assert_eq!(MoveFlag::from_index(9), MoveFlag::Quiet);
    assert_eq!(MovePly::from_packed(0xF000).flag(), MoveFlag::Quiet);
    assert_eq!(MovePly::from_packed(0xFFFF).from(), Square::H8);
    assert!(MovePly::default().is_default());
    assert_eq!(MovePly::default().packed_data(), 0);
    assert!(!MovePly::new(Square::A1, Square::B1, MoveFlag::Quiet).is_default());
}

#[test]
fn move_lists() {
    let mut list = MoveList::default();
    assert_eq!(list.move_count(), 0);
    list.add_moves(mask(&[Square::E4, Square::E3]), Square::E2, MoveFlag::Quiet);
    list.add_promotion_moves(mask(&[Square::A8]), Square::B7);
    list.add_moves(0, Square::A1, MoveFlag::Quiet);
    list.push(MovePly::new(Square::E1, Square::G1, MoveFlag::CastleKingSide));
    let expected = vec![
        MovePly::new(Square::E2, Square::E3, MoveFlag::Quiet),
        MovePly::new(Square::E2, Square::E4, MoveFlag::Quiet),
        MovePly::new(Square::B7, Square::A8, MoveFlag::PromoteToKnight),
        MovePly::new(Square::B7, Square::A8, MoveFlag::PromoteToBishop),
        MovePly::new(Square::B7, Square::A8, MoveFlag::PromoteToRook),
        MovePly::new(Square::B7, Square::A8, MoveFlag::PromoteToQueen),
        MovePly::new(Square::E1, Square::G1, MoveFlag::CastleKingSide),
    ];
    assert_eq!(list.iter(), expected.as_slice());
    assert_eq!(list.move_count(), 7);
    assert_eq!(list.move_at(6), expected[6]);
    assert!(list.contains_move(expected[3]));
    assert!(!list.contains_move(MovePly::new(Square::E2, Square::E4, MoveFlag::DoubleJump)));
    // equal keys keep their order, larger keys come first
    list.order_moves(&vec![5, 9, 5, -3, 9, 7, 5]);
    let order = [1usize, 4, 5, 0, 2, 6, 3];
    for (place, from) in order.iter().enumerate() {
        assert_eq!(list.move_at(place), expected[*from]);
    }
    list.set(0, expected[0]);
    assert_eq!(list.move_at(0), expected[0]);
    list.reset();
    assert_eq!(list.move_count(), 0);
    list.order_moves(&vec![]);
}

#[test]
fn bitboards_and_piece_lists() {
    let mut bitboard = Bitboard::empty();
    bitboard.add_piece(Square::C3);
    bitboard.add_piece(Square::C3);
    bitboard.add_piece(Square::H8);
    assert_eq!(bitboard.0, mask(&[Square::C3, Square::H8]));
    bitboard.move_piece(Square::C3, Square::C4);
    assert_eq!(bitboard.0, mask(&[Square::C4, Square::H8]));
    bitboard.remove_piece(Square::H8);
    assert_eq!(bitboard, Bitboard(Square::C4.mask()));
    let mut list = PieceList::empty();
    assert_eq!(list.count(), 0);
    list.new(Bitboard(mask(&[Square::H8, Square::A1, Square::D4])));
    assert_eq!(list.indexes(), &[Square::A1, Square::D4, Square::H8]);
    list.add_piece(Square::B2);
    list.remove_piece(Square::A1);
    assert_eq!(list.count(), 3);
    list.move_piece(Square::D4, Square::D5);
    let mut held: Vec<Square> = list.indexes().to_vec();
    held.sort_by_key(|s| s.index());
    assert_eq!(held, vec![Square::B2, Square::D5, Square::H8]);
    list.remove_piece(Square::H8);
    list.remove_piece(Square::B2);
    list.remove_piece(Square::D5);
    assert_eq!(list.count(), 0);
}

#[test]
fn masks_of_steps_and_lines() {
    assert_eq!(create_static_mask(&KNIGHT_DIRECTIONS, Square::A1), mask(&[Square::B3, Square::C2]));
    assert_eq!(create_static_mask(&KNIGHT_DIRECTIONS, Square::E4).count_ones(), 8);
    assert_eq!(create_static_mask(&[], Square::E4), 0);
    assert_eq!(create_static_mask(&[(0, 0), (7, 7), (-1, 0)], Square::A1), Square::A1.mask() | Square::H8.mask());
    assert_eq!(create_dynamic_mask::<INCLUDE_EDGE>(&ROOK_DIRECTIONS, Square::A1), 0x0101_0101_0101_01FE);
    assert_eq!(create_dynamic_mask::<NO_EDGE>(&ROOK_DIRECTIONS, Square::A1), 0x0001_0101_0101_017E);
    assert_eq!(create_dynamic_mask::<NO_EDGE>(&BISHOP_DIRECTIONS, Square::A1), 0x0040_2010_0804_0200);
    assert_eq!(create_dynamic_mask::<INCLUDE_EDGE>(&BISHOP_DIRECTIONS, Square::A1), 0x8040_2010_0804_0200);
    assert_eq!(create_dynamic_mask::<NO_EDGE>(&ROOK_DIRECTIONS, Square::D4).count_ones(), 10);
    assert_eq!(create_dynamic_mask::<NO_EDGE>(&BISHOP_DIRECTIONS, Square::D4).count_ones(), 9);
    let masks = MovementMasks::new();
    assert_eq!(masks.knight[Square::G1.index() as usize], mask(&[Square::E2, Square::F3, Square::H3]));
    assert_eq!(masks.king[Square::E1.index() as usize], mask(&[Square::D1, Square::D2, Square::E2, Square::F2, Square::F1]));
    assert_eq!(masks.rook[0], 0x0101_0101_0101_01FE);
    assert_eq!(masks.queen[0], 0x0101_0101_0101_01FE | 0x8040_2010_0804_0200);
    assert_eq!(masks.bishop[Square::H1.index() as usize].count_ones(), 7);
    assert_eq!(masks.pawn_attacks(Color::White, Square::E4), mask(&[Square::D5, Square::F5]));
    assert_eq!(masks.pawn_attacks(Color::Black, Square::E4), mask(&[Square::D3, Square::F3]));
    assert_eq!(masks.pawn_attacks(Color::White, Square::A2), Square::B3.mask());
    assert_eq!(masks.pawn_attacks(Color::White, Square::E8), 0);
    assert_eq!(masks.pawn_move(Color::White, Square::E4), Square::E5.mask());
    assert_eq!(masks.pawn_move(Color::Black, Square::E4), Square::E3.mask());
    assert_eq!(masks.pawn_move(Color::White, Square::E8), 0);
    assert_eq!(masks.pawn_move(Color::Black, Square::E1), 0);
    assert_eq!(masks.pawn_jump(Color::White, Square::E2), Square::E4.mask());
    assert_eq!(masks.pawn_jump(Color::Black, Square::E7), Square::E5.mask());
    assert_eq!(masks.pawn_jump(Color::White, Square::E3), 0);
    assert_eq!(masks.pawn_jump(Color::Black, Square::E2), 0);
}

#[test]
fn squares_between() {
    let between = InBetween::new();
    assert_eq!(between.get(Square::A1, Square::A4), mask(&[Square::A2, Square::A3]));
    assert_eq!(between.get(Square::A4, Square::A1), mask(&[Square::A2, Square::A3]));
    assert_eq!(between.get(Square::A1, Square::H8), mask(&[Square::B2, Square::C3, Square::D4, Square::E5, Square::F6, Square::G7]));
    assert_eq!(between.get(Square::H1, Square::F3), Square::G2.mask());
    assert_eq!(between.get(Square::C1, Square::G1), mask(&[Square::D1, Square::E1, Square::F1]));
    assert_eq!(between.get(Square::A1, Square::A2), 0);
    assert_eq!(between.get(Square::A1, Square::A1), 0);
    assert_eq!(between.get(Square::A1, Square::B3), 0);
    assert_eq!(between.get(Square::A1, Square::C2), 0);
}

#[test]
fn slider_lookups_stop_at_the_first_piece() {
    let tables = Precomputed::new();
    let blockers = mask(&[Square::D6, Square::D7, Square::B4, Square::F2, Square::G7]);
    let rook = mask(&[
        Square::D5, Square::D6, Square::D3, Square::D2, Square::D1, Square::C4, Square::B4, Square::E4, Square::F4,
        Square::G4, Square::H4,
    ]);
    let bishop = mask(&[
        Square::E5, Square::F6, Square::G7, Square::C5, Square::B6, Square::A7, Square::C3, Square::B2, Square::A1,
        Square::E3, Square::F2,
    ]);
    assert_eq!(rook_lookup(&tables, Square::D4, blockers), rook);
    assert_eq!(bishop_lookup(&tables, Square::D4, blockers), bishop);
    assert_eq!(queen_lookup(&tables, Square::D4, blockers), rook | bishop);
    assert_eq!(slider_lookup(&tables, BasePiece::Rook, Square::D4, blockers), rook);
    assert_eq!(slider_lookup(&tables, BasePiece::Bishop, Square::D4, blockers), bishop);
    assert_eq!(slider_lookup(&tables, BasePiece::Queen, Square::D4, blockers), rook | bishop);
    assert_eq!(rook_lookup(&tables, Square::A1, 0), 0x0101_0101_0101_01FE);
    assert_eq!(rook_lookup(&tables, Square::A1, u64::MAX), mask(&[Square::A2, Square::B1]));
    assert_eq!(bishop_lookup(&tables, Square::H8, Square::G7.mask()), Square::G7.mask());
    assert_eq!(tables.orthogonal_lookup.flat_table.len(), 102400);
    assert_eq!(tables.diagonal_lookup.flat_table.len(), 5248);
    // every entry of the table is what a walk along the lines gives
    let lookup = &tables.diagonal_lookup;
    for i in 0..64u8 {
        let square = Square::from_index(i);
        let patterns = lookup.generate_blockers(square);
        assert_eq!(patterns.len(), 1 << lookup.no_edge_masks[i as usize].count_ones());
        assert_eq!(patterns[0], 0);
        assert_eq!(*patterns.last().unwrap(), lookup.no_edge_masks[i as usize]);
        for pattern in patterns {
            assert_eq!(
                lookup.lookup(square, pattern | !lookup.no_edge_masks[i as usize]),
                lookup.get_moves_from_blockers(square, &SliderType::Diagonal, pattern)
            );
        }
    }
    let small = SliderLookup::<5248>::new();
    assert_eq!(small.lookup(Square::C1, Square::E3.mask()), mask(&[Square::B2, Square::A3, Square::D2, Square::E3]));
}

#[test]
fn attackers() {
    let tables = Precomputed::new();
    let mut board = Board::default();
    assert!(board.new("4k3/8/3p4/4p3/8/3N4/8/R3K3 w - -", &tables.zobrist));
    assert_eq!(attackers_of(&board, &tables, Square::E5, Color::White, board.occupancy()), Square::D3.mask());
    assert_eq!(attackers_of(&board, &tables, Square::E5, Color::Black, board.occupancy()), Square::D6.mask());
    assert_eq!(attackers_of(&board, &tables, Square::A8, Color::White, board.occupancy()), Square::A1.mask());
    assert_eq!(attackers_of(&board, &tables, Square::D1, Color::White, board.occupancy()), mask(&[Square::A1, Square::E1]));
    assert_eq!(attackers_of(&board, &tables, Square::D1, Color::White, Square::C1.mask()), Square::E1.mask());
    assert!(is_attacked(&board, &tables, Square::F7, Color::Black));
    assert!(!is_attacked(&board, &tables, Square::F6, Color::Black));
    assert!(is_attacked(&board, &tables, Square::C5, Color::Black));
    assert!(is_attacked(&board, &tables, Square::F4, Color::White));
    assert!(!is_attacked(&board, &tables, Square::H8, Color::White));
}

#[test]
fn zobrist_keys() {
    let zobrist = Zobrist::new();
    let other = Zobrist::new();
    // keys are drawn at random: two sets of them differ
    assert_ne!(
        zobrist.square_zobrist(Piece::WhitePawn, Square::A1),
        other.square_zobrist(Piece::WhitePawn, Square::A1)
    );
    assert_ne!(zobrist.side_to_move(), 0);
    assert_ne!(zobrist.short_castle(Color::White), zobrist.long_castle(Color::White));
    assert_eq!(zobrist.short_castle(Color::White), zobrist.castle_right(0));
    assert_eq!(zobrist.long_castle(Color::White), zobrist.castle_right(1));
    assert_eq!(zobrist.short_castle(Color::Black), zobrist.castle_right(2));
    assert_eq!(zobrist.long_castle(Color::Black), zobrist.castle_right(3));
    let mut board = Board::default();
    assert!(board.new("4k3/8/8/8/8/8/8/4K2R w K -", &zobrist));
    let with_right = board.zobrist();
    assert!(board.new("4k3/8/8/8/8/8/8/4K2R w - -", &zobrist));
    assert_eq!(with_right ^ board.zobrist(), zobrist.short_castle(Color::White));
    let white = board.zobrist();
    assert!(board.new("4k3/8/8/8/8/8/8/4K2R b - -", &zobrist));
    assert_eq!(white ^ board.zobrist(), zobrist.side_to_move());
    let black = board.zobrist();
    assert!(board.new("4k3/8/8/8/8/8/8/4K2R b - c3", &zobrist));
    assert_eq!(black ^ board.zobrist(), zobrist.pawn_jump(File::C));
    assert!(board.new("4k3/8/8/8/8/8/8/4K3 b - -", &zobrist));
    assert_eq!(black ^ board.zobrist(), zobrist.square_zobrist(Piece::WhiteRook, Square::H1));
}
