use chess_core::chess::board::Board;
use chess_core::chess::move_generator::{make_if_legal, MoveGenerator, GEN_ALL};
use chess_core::chess::move_list::MoveList;
use chess_core::chess::move_ply::uci_move_parser;
use chess_core::chess::types::color::Color;
use chess_core::chess::types::piece::Piece;
use chess_core::chess::types::square::Square;
use chess_core::engine::eval::accumulator::Accumulator;
use chess_core::engine::eval::network::{Network, NUM_WORDS};
use chess_core::engine::eval::nnue::NNUE;
use chess_core::precomputed::accessor::Precomputed;

fn board_from(fen: &str, tables: &Precomputed) -> Board {
    let mut board = Board::default();
    assert!(board.new(fen, &tables.zobrist));
    board
}

/// A network of numbers without a pattern, large enough that sums wrap around.
fn noisy_network() -> Network {
    let mut blob = Vec::with_capacity(2 * NUM_WORDS);
    let mut state: u32 = 12345;
    for _ in 0..2 * NUM_WORDS {
        state = state.wrapping_mul(1664525).wrapping_add(1013904223);
        blob.push((state >> 24) as u8);
    }
    Network::from_bytes(&blob).unwrap()
}

fn from_scratch(board: &Board, net: &Network) -> (i16, i16) {
    let mut fresh = NNUE::default();
    fresh.new(board, net);
    (fresh.evaluate(Color::White, net), fresh.evaluate(Color::Black, net))
}

#[test]
fn network_is_read_low_byte_first() {
    let mut blob = vec![0u8; 2 * NUM_WORDS];
    blob[0] = 0x34;
    blob[1] = 0x12;
    blob[2] = 0xFF;
    blob[3] = 0xFF;
    blob[2 * 196608] = 0x00;
    blob[2 * 196608 + 1] = 0x80;
    blob[2 * 196864 + 2] = 0x01;
    blob[2 * 197376] = 0xFE;
    blob[2 * 197376 + 1] = 0xFF;
    let net = Network::from_bytes(&blob).unwrap();
    assert_eq!(net.feature_weights.len(), 768 * 256);
    assert_eq!(net.feature_biases.len(), 256);
    assert_eq!(net.output_weights.len(), 512);
    assert_eq!(net.feature_weights[0], 0x1234);
    assert_eq!(net.feature_weights[1], -1);
    assert_eq!(net.feature_biases[0], -32768);
    assert_eq!(net.output_weights[1], 1);
    assert_eq!(net.output_bias, -2);
    assert!(Network::from_bytes(&blob[1..]).is_none());
    assert!(Network::from_bytes(&[]).is_none());
    blob.push(0);
    assert!(Network::from_bytes(&blob).is_none());
}

#[test]
fn feature_indices() {
    assert_eq!(Accumulator::nnue_index(Piece::WhitePawn, Square::A1), (0, (64 * 6 + 56) * 256));
    assert_eq!(Accumulator::nnue_index(Piece::BlackKing, Square::H8), ((64 * 11 + 63) * 256, (64 * 5 + 7) * 256));
    assert_eq!(Accumulator::nnue_index(Piece::WhiteKnight, Square::E4), ((64 + 28) * 256, (64 * 7 + 36) * 256));
}

#[test]
fn output_formula() {
    let tables = Precomputed::new();
    let mut net = Network::zero();
    // one hidden number for each side: the bias alone
    net.feature_biases[0] = 300;
    net.feature_biases[1] = 10;
    net.feature_biases[2] = -5;
    net.output_weights[0] = 3;
    net.output_weights[1] = -7;
    net.output_weights[2] = 1000;
    net.output_weights[256] = 2;
    net.output_weights[257] = 5;
    net.output_bias = 11;
    let board = board_from("k7/8/8/8/8/8/8/7K w - -", &tables);
    // the kings have no weights, so both sides hold the biases
    let mut nnue = NNUE::default();
    nnue.new(&board, &net);
    // 255*255*3 - 100*7 + 0 + 255*255*2 + 100*5 = 324925; 324925 / 255 = 1274; (1274 + 11) * 400 / 16320 = 31
    assert_eq!(nnue.evaluate(Color::White, &net), 31);
    net.output_weights[0] = -3;
    net.output_weights[256] = -2;
    // -325125 - 700 + 500 = -325325; / 255 = -1275; (-1275 + 11) * 400 / 16320 = -30
    assert_eq!(nnue.evaluate(Color::White, &net), -30);
    net.output_weights[0] = 32767;
    net.output_weights[256] = 32767;
    net.output_bias = 32767;
    assert_eq!(nnue.evaluate(Color::Black, &net), 32767);
}

#[test]
fn accumulators_follow_the_moves() {
    let tables = Precomputed::new();
    let net = noisy_network();
    let mut board = board_from("rnbqkbnr/pppppppp/8/8/8/8/PPPPPPPP/RNBQKBNR w KQkq - 0 1", &tables);
    let mut nnue = NNUE::default();
    nnue.new(&board, &net);
    let mut seen = vec![from_scratch(&board, &net)];
    let game = [
        "e2e4", "d7d5", "e4e5", "f7f5", "e5f6", "g8f6", "g1f3", "c8g4", "f1e2", "b8c6", "e1g1", "d8d7", "d2d4",
        "e8c8", "c2c4", "d5c4", "d4d5", "c6b4", "d5d6", "b4c2", "d6c7", "c2a1", "c7d8n", "a1b3",
    ];
    for text in game {
        let played = uci_move_parser(text, &board).unwrap();
        nnue.make_move(&played, &board, &net);
        assert!(make_if_legal(&mut board, played, &tables));
        let expected = from_scratch(&board, &net);
        assert_eq!((nnue.evaluate(Color::White, &net), nnue.evaluate(Color::Black, &net)), expected, "{}", text);
        seen.push(expected);
    }
    for k in (0..game.len()).rev() {
        board.undo_move(&tables.zobrist);
        nnue.undo_move();
        assert_eq!((nnue.evaluate(Color::White, &net), nnue.evaluate(Color::Black, &net)), seen[k]);
        assert_eq!(from_scratch(&board, &net), seen[k]);
    }
}

#[test]
fn accumulators_follow_every_kind_of_move() {
    let tables = Precomputed::new();
    let net = noisy_network();
    for fen in [
        "r3k2r/p1ppqpb1/bn2pnp1/3PN3/1p2P3/2N2Q1p/PPPBBPPP/R3K2R w KQkq -",
        "r3k2r/Pppp1ppp/1b3nbN/nP6/BBP1P3/q4N2/Pp1P2PP/R2Q1RK1 b kq -",
        "rnbqkbnr/ppp1p1pp/8/3pPp2/8/8/PPPP1PPP/RNBQKBNR w KQkq f6 0 3",
        "8/8/8/2k5/3Pp3/8/8/4K3 b - d3 0 1",
    ] {
        let mut board = board_from(fen, &tables);
        let mut nnue = NNUE::default();
        nnue.new(&board, &net);
        let before = from_scratch(&board, &net);
        let mut moves = MoveList::default();
        MoveGenerator::<GEN_ALL>::generate(&mut board, &mut moves, &tables);
        for played in moves.iter() {
            nnue.make_move(played, &board, &net);
            board.make_move(played, &tables.zobrist);
            assert_eq!(
                (nnue.evaluate(Color::White, &net), nnue.evaluate(Color::Black, &net)),
                from_scratch(&board, &net),
                "{:?}",
                played
            );
            board.undo_move(&tables.zobrist);
            nnue.undo_move();
            assert_eq!((nnue.evaluate(Color::White, &net), nnue.evaluate(Color::Black, &net)), before);
        }
    }
}

#[test]
fn accumulator_steps_add_and_take_weights() {
    let net = noisy_network();
    let mut acc = Accumulator::biases(&net);
    assert_eq!(acc.white.to_vec(), net.feature_biases);
    assert_eq!(acc.black.to_vec(), net.feature_biases);
    let (white_at, black_at) = Accumulator::nnue_index(Piece::WhiteQueen, Square::D4);
    acc.add_piece(Piece::WhiteQueen, Square::D4, &net);
    for i in 0..256 {
        assert_eq!(acc.white[i], net.feature_biases[i].wrapping_add(net.feature_weights[white_at + i]));
        assert_eq!(acc.black[i], net.feature_biases[i].wrapping_add(net.feature_weights[black_at + i]));
    }
    let moved = {
        let mut copy = acc;
        copy.move_piece(Piece::WhiteQueen, Square::D4, Square::D8, &net);
        copy
    };
    acc.remove_piece(Piece::WhiteQueen, Square::D4, &net);
    assert_eq!(acc.white.to_vec(), net.feature_biases);
    acc.add_piece(Piece::WhiteQueen, Square::D8, &net);
    assert_eq!(acc.white, moved.white);
    assert_eq!(acc.black, moved.black);
    let mut one = Accumulator::biases(&net);
    let mut other = Accumulator::biases(&net);
    one.add_piece(Piece::WhiteKing, Square::E1, &net);
    one.add_piece(Piece::WhiteRook, Square::H1, &net);
    one.add_piece(Piece::BlackPawn, Square::G2, &net);
    other.add_piece(Piece::WhiteKing, Square::E1, &net);
    other.add_piece(Piece::WhiteRook, Square::H1, &net);
    other.add_piece(Piece::BlackPawn, Square::G2, &net);
    one.make_castle(Piece::WhiteKing, Piece::WhiteRook, Square::E1, Square::G1, Square::H1, Square::F1, &net);
    other.castle_on(Piece::WhiteKing, Piece::WhiteRook, Square::E1, Square::G1, Square::H1, Square::F1, &net);
    assert_eq!(one.white, other.white);
    other.move_piece(Piece::WhiteKing, Square::G1, Square::E1, &net);
    other.move_piece(Piece::WhiteRook, Square::F1, Square::H1, &net);
    let mut captured = other;
    captured.make_capture(Piece::WhiteRook, Square::H1, Square::H2, Piece::BlackPawn, Square::G2, &net);
    other.remove_piece(Piece::BlackPawn, Square::G2, &net);
    other.move_piece(Piece::WhiteRook, Square::H1, Square::H2, &net);
    assert_eq!(captured.black, other.black);
    let mut promoted = other;
    promoted.make_promotion(Piece::WhiteRook, Piece::WhiteQueen, Square::H2, Square::H3, &net);
    other.remove_piece(Piece::WhiteRook, Square::H2, &net);
    other.add_piece(Piece::WhiteQueen, Square::H3, &net);
    assert_eq!(promoted.white, other.white);
    assert_eq!(promoted.black, other.black);
}
