//! The evaluation network during a search: one accumulator for each position
//! on the way from the root, and the output of the network for the last one.

use vstd::prelude::*;
use crate::chess::board::Board;
use crate::chess::move_ply::MovePly;
use crate::chess::position::{castle_squares, ep_victim};
use crate::chess::types::color::Color;
use crate::chess::types::move_flag::MoveFlag;
use crate::chess::types::piece::Piece;
use crate::chess::types::square::Square;
use crate::engine::eval::accumulator::Accumulator;
use crate::engine::eval::network::{Network, HIDDEN_SIZE};

verus! {

pub struct NNUE {
    accumulator_stack: Vec<Accumulator>,
    placements: Ghost<Seq<Seq<Piece>>>,
}

/// The activation of a hidden number: the number cut off below 0 and above 255, squared.
pub open spec fn scrlu(x: i16) -> int {
    let c: int = if x < 0 {
        0
    } else if x > 255 {
        255
    } else {
        x as int
    };
    c * c
}

/// The sum of the first `n` activations of `acc`, each times its output weight; the weights
/// begin at the place `offset`.
pub open spec fn dot(acc: Seq<i16>, weights: Seq<i16>, offset: int, n: int) -> int
    decreases n,
{
    if n <= 0 {
        0
    } else {
        dot(acc, weights, offset, n - 1) + scrlu(acc[n - 1]) * weights[offset + n - 1]
    }
}

/// Division that rounds towards zero.
pub open spec fn tdiv(x: int, d: int) -> int {
    if x >= 0 {
        x / d
    } else {
        -((-x) / d)
    }
}

/// A whole number cut off to 16 bits.
pub open spec fn clamp16(x: int) -> i16 {
    if x > i16::MAX {
        i16::MAX
    } else if x < i16::MIN {
        i16::MIN
    } else {
        x as i16
    }
}

/// The evaluation in centipawns that the network gives for the accumulators of the side to
/// move, `us`, and of the other side, `them`.
pub open spec fn output(net: &Network, us: Seq<i16>, them: Seq<i16>) -> int {
    let out = dot(us, net.output_weights@, 0, 256) + dot(them, net.output_weights@, 256, 256);
    tdiv((tdiv(out, 255) + net.output_bias) * 400, 16320)
}

fn div_toward_zero(x: i64, d: i64) -> (r: i64)
    requires
        d > 0,
        x > i64::MIN,
    ensures
        r == tdiv(x as int, d as int),
{
    if x >= 0 {
        ((x as u64) / (d as u64)) as i64
    } else {
        -((((-x) as u64) / (d as u64)) as i64)
    }
}

proof fn lemma_term_bound(c: int, w: int)
    requires
        0 <= c <= 255,
        -32768 <= w <= 32767,
    ensures
        0 <= c * c <= 65025,
        -2130739200 <= c * c * w <= 2130739200,
{
    assert(0 <= c * c <= 65025) by (nonlinear_arith)
        requires
            0 <= c <= 255,
    ;
    let s = c * c;
    assert(-2130739200 <= s * w <= 2130739200) by (nonlinear_arith)
        requires
            0 <= s <= 65025,
            -32768 <= w <= 32767,
    ;
}

impl NNUE {
    /// The accumulators, the one of the root first.
    pub closed spec fn stack(&self) -> Seq<Accumulator> {
        self.accumulator_stack@
    }

    /// The pieces of the positions that the accumulators stand for.
    pub closed spec fn boards(&self) -> Seq<Seq<Piece>> {
        self.placements@
    }

    /// Each accumulator holds what its position gives when it is computed from nothing.
    pub open spec fn wf(&self, net: &Network) -> bool {
        &&& self.stack().len() >= 1
        &&& self.boards().len() == self.stack().len()
        &&& forall|k: int|
            0 <= k < self.stack().len() ==> (#[trigger] self.boards()[k]).len() == 64 && self.stack()[k].matches(
                net,
                self.boards()[k],
            )
    }

    /// The pieces of the position that the last accumulator stands for.
    pub open spec fn top(&self) -> Seq<Piece> {
        self.boards().last()
    }

    /// Begins anew with the position on `board`, whose accumulator is computed from nothing.
    pub fn new(&mut self, board: &Board, net: &Network)
        requires
            net.wf(),
            board.wf_pieces(),
        ensures
            final(self).wf(net),
            final(self).boards() == seq![board@.pieces],
    {
        let mut accumulator = Accumulator::biases(net);
        let ghost mut pieces: Seq<Piece> = Seq::new(64, |i: int| Piece::NoPiece);
        proof {
            assert forall|i: int| 0 <= i < 256 implies #[trigger] accumulator.white[i]
                == crate::engine::eval::accumulator::acc_value(net, pieces, Color::White, i) by {
                lemma_empty_sum(net, pieces, Color::White, i, 64);
            }
            assert forall|i: int| 0 <= i < 256 implies #[trigger] accumulator.black[i]
                == crate::engine::eval::accumulator::acc_value(net, pieces, Color::Black, i) by {
                lemma_empty_sum(net, pieces, Color::Black, i, 64);
            }
        }
        let mut i: u8 = 0;
        while i < 64
            invariant
                i <= 64,
                net.wf(),
                pieces.len() == 64,
                accumulator.matches(net, pieces),
                forall|k: int| 0 <= k < i ==> pieces[k] == board@.pieces[k],
                forall|k: int| i <= k < 64 ==> pieces[k] == Piece::NoPiece,
            decreases 64 - i,
        {
            let square = Square::from_index(i);
            let piece = board.piece_at(square);
            if piece.is_piece() {
                accumulator.add_piece(piece, square, net);
                proof {
                    pieces = pieces.update(i as int, piece);
                }
            }
            i += 1;
        }
        proof {
            assert(pieces =~= board@.pieces);
        }
        let mut stack: Vec<Accumulator> = Vec::new();
        stack.push(accumulator);
        self.accumulator_stack = stack;
        self.placements = Ghost(Seq::empty().push(pieces));
    }

    /// Puts on the stack the accumulator of the position that `played` leads to. This is
    /// called before the move is made on `board`.
    pub fn make_move(&mut self, played: &MovePly, board: &Board, net: &Network)
        requires
            net.wf(),
            old(self).wf(net),
            board.wf_pieces(),
            old(self).top() == board@.pieces,
            board@.applicable(*played),
        ensures
            final(self).wf(net),
            final(self).boards() == old(self).boards().push(board@.pieces_after(*played)),
    {
        let n: usize = self.accumulator_stack.len();
        let mut current_accumulator: Accumulator = self.accumulator_stack[n - 1];
        let move_flag = played.flag();
        let from = played.from();
        let to = played.to();
        let piece = board.piece_at(from);
        let capture = board.piece_at(to);
        let us = board.side_to_move();
        let ghost pieces = board@.pieces;
        proof {
            played.lemma_ranges();
            from.lemma_idx();
            to.lemma_idx();
            assert(current_accumulator.matches(net, pieces));
            assert(self.boards()[n - 1].len() == 64);
            board@.ep_file.lemma_idx();
        }
        match move_flag {
            MoveFlag::Quiet | MoveFlag::DoubleJump => {
                if capture.is_piece() {
                    current_accumulator.make_capture(piece, from, to, capture, to, net);
                } else {
                    current_accumulator.move_piece(piece, from, to, net);
                }
            },
            MoveFlag::CastleKingSide => {
                match us {
                    Color::White => {
                        current_accumulator.castle_on(
                            Piece::WhiteKing,
                            Piece::WhiteRook,
                            Square::E1,
                            Square::G1,
                            Square::H1,
                            Square::F1,
                            net,
                        );
                    },
                    Color::Black => {
                        current_accumulator.castle_on(
                            Piece::BlackKing,
                            Piece::BlackRook,
                            Square::E8,
                            Square::G8,
                            Square::H8,
                            Square::F8,
                            net,
                        );
                    },
                }
            },
            MoveFlag::CastleQueenSide => {
                match us {
                    Color::White => {
                        current_accumulator.castle_on(
                            Piece::WhiteKing,
                            Piece::WhiteRook,
                            Square::E1,
                            Square::C1,
                            Square::A1,
                            Square::D1,
                            net,
                        );
                    },
                    Color::Black => {
                        current_accumulator.castle_on(
                            Piece::BlackKing,
                            Piece::BlackRook,
                            Square::E8,
                            Square::C8,
                            Square::A8,
                            Square::D8,
                            net,
                        );
                    },
                }
            },
            MoveFlag::EnPassantCapture => {
                let en_passant_file = match board.en_passant_file() {
                    Some(file) => file,
                    None => crate::chess::types::file::File::A,
                };
                let enemy_pawn_square = match us {
                    Color::White => Square::from_index(en_passant_file.index() + 32),
                    Color::Black => Square::from_index(en_passant_file.index() + 24),
                };
                let enemy_pawn = board.piece_at(enemy_pawn_square);
                current_accumulator.make_capture(piece, from, to, enemy_pawn, enemy_pawn_square, net);
            },
            _ => {
                let promotion_piece = move_flag.promotion_piece(us);
                if capture.is_piece() {
                    current_accumulator.remove_piece(capture, to, net);
                } else {
                    assert(pieces.update(to.idx(), Piece::NoPiece) =~= pieces);
                }
                current_accumulator.make_promotion(piece, promotion_piece, from, to, net);
            },
        }
        proof {
            let after = board@.pieces_after(*played);
            match move_flag {
                MoveFlag::Quiet | MoveFlag::DoubleJump => {
                    assert(pieces.update(to.idx(), Piece::NoPiece).update(from.idx(), Piece::NoPiece).update(
                        to.idx(),
                        piece,
                    ) =~= after);
                },
                MoveFlag::EnPassantCapture => {
                    let victim = ep_victim(board@.side, board@.ep_file);
                    assert(pieces.update(victim, Piece::NoPiece).update(from.idx(), Piece::NoPiece).update(
                        to.idx(),
                        piece,
                    ) =~= after);
                },
                MoveFlag::CastleKingSide | MoveFlag::CastleQueenSide => {},
                _ => {
                    assert(pieces.update(to.idx(), Piece::NoPiece).update(from.idx(), Piece::NoPiece).update(
                        to.idx(),
                        Piece::make(move_flag.idx(), us),
                    ) =~= after);
                },
            }
            assert(current_accumulator.matches(net, after));
        }
        self.accumulator_stack.push(current_accumulator);
        self.placements = Ghost(self.placements@.push(board@.pieces_after(*played)));
        proof {
            assert forall|k: int| 0 <= k < self.stack().len() implies (#[trigger] self.boards()[k]).len() == 64
                && self.stack()[k].matches(net, self.boards()[k]) by {
                if k < n {
                    assert(old(self).boards()[k].len() == 64);
                    assert(self.stack()[k] == old(self).stack()[k]);
                }
            }
        }
    }

    /// Takes the last accumulator off the stack.
    pub fn undo_move(&mut self)
        requires
            old(self).stack().len() >= 2,
        ensures
            final(self).stack() == old(self).stack().drop_last(),
            final(self).boards() == old(self).boards().drop_last(),
    {
        self.accumulator_stack.pop();
        self.placements = Ghost(self.placements@.drop_last());
    }

    /// Both accumulators of the last position hold, number for number, what the pieces of that
    /// position give when the accumulators are computed from nothing.
    pub proof fn lemma_recomputed(&self, net: &Network)
        requires
            self.wf(net),
        ensures
            forall|i: int|
                0 <= i < 256 ==> #[trigger] self.stack().last().white[i]
                    == crate::engine::eval::accumulator::acc_value(net, self.top(), Color::White, i),
            forall|i: int|
                0 <= i < 256 ==> #[trigger] self.stack().last().black[i]
                    == crate::engine::eval::accumulator::acc_value(net, self.top(), Color::Black, i),
    {
        let k = self.stack().len() - 1;
        assert(self.boards()[k].len() == 64 && self.stack()[k].matches(net, self.boards()[k]));
    }

    /// Two stacks whose last positions hold the same pieces evaluate alike.
    pub proof fn lemma_value_same(&self, other: &NNUE, side_to_move: Color, net: &Network)
        requires
            self.wf(net),
            other.wf(net),
            self.top() == other.top(),
        ensures
            self.value(side_to_move, net) == other.value(side_to_move, net),
    {
        self.lemma_recomputed(net);
        other.lemma_recomputed(net);
        assert(self.stack().last().white@ =~= other.stack().last().white@);
        assert(self.stack().last().black@ =~= other.stack().last().black@);
    }

    /// Without its last accumulator the stack is as good as with it.
    pub proof fn lemma_undo(before: &NNUE, after: &NNUE, net: &Network)
        requires
            before.wf(net),
            before.stack().len() >= 2,
            after.stack() == before.stack().drop_last(),
            after.boards() == before.boards().drop_last(),
        ensures
            after.wf(net),
    {
        assert forall|k: int| 0 <= k < after.stack().len() implies (#[trigger] after.boards()[k]).len() == 64
            && after.stack()[k].matches(net, after.boards()[k]) by {
            assert(before.boards()[k].len() == 64);
        }
    }

    fn squared_crelu(value: i16) -> (r: i64)
        ensures
            r == scrlu(value),
            0 <= r <= 65025,
    {
        let c: i64 = if value < 0 {
            0
        } else if value > 255 {
            255
        } else {
            value as i64
        };
        proof {
            lemma_term_bound(c as int, 0);
        }
        c * c
    }

    fn weighted_sum(acc: &[i16; 256], net: &Network, offset: usize) -> (r: i64)
        requires
            net.wf(),
            offset == 0 || offset == 256,
        ensures
            r == dot(acc@, net.output_weights@, offset as int, 256),
            -2130739200 * 256 <= r <= 2130739200 * 256,
    {
        let mut out: i64 = 0;
        let mut i: usize = 0;
        while i < HIDDEN_SIZE
            invariant
                i <= 256,
                net.wf(),
                offset == 0 || offset == 256,
                out == dot(acc@, net.output_weights@, offset as int, i as int),
                -2130739200 * i <= out <= 2130739200 * i,
            decreases 256 - i,
        {
            let activation: i64 = Self::squared_crelu(acc[i]);
            let weight: i64 = net.output_weights[offset + i] as i64;
            proof {
                let c: int = if acc[i as int] < 0 {
                    0
                } else if acc[i as int] > 255 {
                    255
                } else {
                    acc[i as int] as int
                };
                lemma_term_bound(c, weight as int);
            }
            out = out + activation * weight;
            i += 1;
        }
        out
    }

    /// The evaluation of the last position in centipawns, as `side_to_move` sees it.
    pub open spec fn value(&self, side_to_move: Color, net: &Network) -> i16 {
        clamp16(output(net, self.stack().last().side(side_to_move), self.stack().last().side(side_to_move.flip())))
    }

    /// The evaluation of the last position in centipawns, as the side to move sees it.
    pub fn evaluate(&self, side_to_move: Color, net: &Network) -> (r: i16)
        requires
            net.wf(),
            self.stack().len() >= 1,
        ensures
            r == self.value(side_to_move, net),
    {
        let n: usize = self.accumulator_stack.len();
        let top = &self.accumulator_stack[n - 1];
        let (us, them) = match side_to_move {
            Color::White => (&top.white, &top.black),
            Color::Black => (&top.black, &top.white),
        };
        let out: i64 = Self::weighted_sum(us, net, 0) + Self::weighted_sum(them, net, 256);
        let scaled: i64 = (div_toward_zero(out, 255) + net.output_bias as i64) * 400;
        let value: i64 = div_toward_zero(scaled, 16320);
        if value > 32767 {
            32767
        } else if value < -32768 {
            -32768
        } else {
            value as i16
        }
    }
}

impl Default for NNUE {
    /// An empty stack. `new` puts a position on it.
    fn default() -> (r: NNUE)
        ensures
            r.stack().len() == 0,
    {
        Self { accumulator_stack: Vec::new(), placements: Ghost(Seq::empty()) }
    }
}

proof fn lemma_empty_sum(net: &Network, pieces: Seq<Piece>, perspective: Color, i: int, n: int)
    requires
        pieces.len() == 64,
        forall|k: int| 0 <= k < 64 ==> pieces[k] == Piece::NoPiece,
        0 <= n <= 64,
    ensures
        crate::engine::eval::accumulator::acc_sum(net, pieces, perspective, i, n) == net.feature_biases[i],
    decreases n,
{
    if n > 0 {
        lemma_empty_sum(net, pieces, perspective, i, n - 1);
    }
}

} // verus!
