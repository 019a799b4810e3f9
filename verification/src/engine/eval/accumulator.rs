//! The hidden layer of the network for one position, once as White sees the
//! board and once as Black sees it, kept up to date move by move.
//!
//! The numbers are 16 bits wide and wrap around, as the sums of the weights
//! of a network may do.

use vstd::prelude::*;
use crate::chess::types::color::Color;
use crate::chess::types::piece::Piece;
use crate::chess::types::square::Square;
use crate::engine::eval::network::{Network, HIDDEN_SIZE};

verus! {

#[derive(Clone, Copy)]
pub struct Accumulator {
    pub white: [i16; 256],
    pub black: [i16; 256],
}

/// The sum of two numbers of 16 bits, wrapped around.
pub open spec fn wadd(a: i16, b: i16) -> i16 {
    if a + b > i16::MAX {
        (a + b - 65536) as i16
    } else if a + b < i16::MIN {
        (a + b + 65536) as i16
    } else {
        (a + b) as i16
    }
}

/// The difference of two numbers of 16 bits, wrapped around.
pub open spec fn wsub(a: i16, b: i16) -> i16 {
    if a - b > i16::MAX {
        (a - b - 65536) as i16
    } else if a - b < i16::MIN {
        (a - b + 65536) as i16
    } else {
        (a - b) as i16
    }
}

fn wrap_add(a: i16, b: i16) -> (r: i16)
    ensures
        r == wadd(a, b),
{
    let sum: i32 = a as i32 + b as i32;
    if sum > 32767 {
        (sum - 65536) as i16
    } else if sum < -32768 {
        (sum + 65536) as i16
    } else {
        sum as i16
    }
}

fn wrap_sub(a: i16, b: i16) -> (r: i16)
    ensures
        r == wsub(a, b),
{
    let difference: i32 = a as i32 - b as i32;
    if difference > 32767 {
        (difference - 65536) as i16
    } else if difference < -32768 {
        (difference + 65536) as i16
    } else {
        difference as i16
    }
}

/// The square as the other side sees it: mirrored across the middle of the board.
pub open spec fn flip(sq: int) -> int {
    sq % 8 + 8 * (7 - sq / 8)
}

/// The input of the network that is on when the piece with number `piece` stands on `sq`, as
/// `perspective` sees it: Black sees the colours swapped and the board mirrored.
pub open spec fn feature(perspective: Color, piece: int, sq: int) -> int {
    match perspective {
        Color::White => 64 * piece + sq,
        Color::Black => 64 * ((piece + 6) % 12) + flip(sq),
    }
}

/// What `piece` on `sq` adds to the `i`-th number of the accumulator of `perspective`.
pub open spec fn contribution(net: &Network, perspective: Color, piece: Piece, sq: int, i: int) -> i16 {
    if piece.occupied() {
        net.feature_weights[feature(perspective, piece.idx(), sq) * 256 + i]
    } else {
        0
    }
}

/// The number of 16 bits that a whole number wraps around to.
pub open spec fn wrap(x: int) -> i16 {
    ((x + 32768) % 65536 - 32768) as i16
}

pub proof fn lemma_wrap_add(x: int, b: i16)
    ensures
        wadd(wrap(x), b) == wrap(x + b),
        wsub(wrap(x), b) == wrap(x - b),
{
    let q = (x + 32768) / 65536;
    let r = (x + 32768) % 65536;
    assert(x + 32768 == 65536 * q + r);
    let q1 = (x + b + 32768) / 65536;
    let r1 = (x + b + 32768) % 65536;
    assert(x + b + 32768 == 65536 * q1 + r1);
    assert(q1 == q || q1 == q + 1 || q1 == q - 1);
    let q2 = (x - b + 32768) / 65536;
    let r2 = (x - b + 32768) % 65536;
    assert(x - b + 32768 == 65536 * q2 + r2);
    assert(q2 == q || q2 == q + 1 || q2 == q - 1);
}

/// The bias and the weights of the inputs that the pieces on the squares below `n` turn on,
/// for the `i`-th number of the accumulator of `perspective`, summed up as whole numbers.
pub open spec fn acc_sum(net: &Network, pieces: Seq<Piece>, perspective: Color, i: int, n: int) -> int
    decreases n,
{
    if n <= 0 {
        net.feature_biases[i] as int
    } else {
        acc_sum(net, pieces, perspective, i, n - 1) + contribution(net, perspective, pieces[n - 1], n - 1, i)
    }
}

/// The `i`-th number of the accumulator of `perspective`, computed from nothing but the
/// pieces: the bias and the weights of the inputs that are on, wrapped around to 16 bits.
pub open spec fn acc_value(net: &Network, pieces: Seq<Piece>, perspective: Color, i: int) -> i16 {
    wrap(acc_sum(net, pieces, perspective, i, 64))
}

/// Another piece on `sq` changes the sum by the weight of the new piece less that of the old one.
pub proof fn lemma_acc_update(
    net: &Network,
    pieces: Seq<Piece>,
    perspective: Color,
    i: int,
    sq: int,
    piece: Piece,
    n: int,
)
    requires
        0 <= sq < 64,
        pieces.len() == 64,
        0 <= n <= 64,
    ensures
        acc_sum(net, pieces.update(sq, piece), perspective, i, n) == acc_sum(net, pieces, perspective, i, n)
            + if sq < n {
            contribution(net, perspective, piece, sq, i) - contribution(net, perspective, pieces[sq], sq, i)
        } else {
            0
        },
    decreases n,
{
    if n > 0 {
        lemma_acc_update(net, pieces, perspective, i, sq, piece, n - 1);
    }
}

impl Accumulator {
    /// The numbers of the accumulator of `perspective`.
    pub open spec fn side(&self, perspective: Color) -> Seq<i16> {
        match perspective {
            Color::White => self.white@,
            Color::Black => self.black@,
        }
    }

    /// Every number is what the pieces give when it is computed from nothing.
    pub open spec fn matches(&self, net: &Network, pieces: Seq<Piece>) -> bool {
        &&& forall|i: int| 0 <= i < 256 ==> #[trigger] self.white[i] == acc_value(net, pieces, Color::White, i)
        &&& forall|i: int| 0 <= i < 256 ==> #[trigger] self.black[i] == acc_value(net, pieces, Color::Black, i)
    }

    /// The accumulator of the empty board: the biases.
    pub fn biases(net: &Network) -> (r: Accumulator)
        requires
            net.wf(),
        ensures
            forall|i: int| 0 <= i < 256 ==> #[trigger] r.white[i] == net.feature_biases[i],
            forall|i: int| 0 <= i < 256 ==> #[trigger] r.black[i] == net.feature_biases[i],
    {
        let mut r = Accumulator { white: [0; 256], black: [0; 256] };
        let mut i: usize = 0;
        while i < HIDDEN_SIZE
            invariant
                i <= 256,
                net.wf(),
                forall|k: int| 0 <= k < i ==> #[trigger] r.white[k] == net.feature_biases[k],
                forall|k: int| 0 <= k < i ==> #[trigger] r.black[k] == net.feature_biases[k],
            decreases 256 - i,
        {
            r.white[i] = net.feature_biases[i];
            r.black[i] = net.feature_biases[i];
            i += 1;
        }
        r
    }

    /// Where the weights of `piece` on `square` begin, for White's accumulator and for Black's.
    pub fn nnue_index(piece: Piece, square: Square) -> (r: (usize, usize))
        requires
            piece.occupied(),
        ensures
            r.0 == feature(Color::White, piece.idx(), square.idx()) * 256,
            r.1 == feature(Color::Black, piece.idx(), square.idx()) * 256,
            r.0 + 256 <= 768 * 256,
            r.1 + 256 <= 768 * 256,
    {
        let white_idx: usize = 64 * piece.index() as usize + square.index() as usize;
        let black_idx: usize = 64 * ((piece.index() as usize + 6) % 12) + square.vert_flip() as usize;
        (white_idx * HIDDEN_SIZE, black_idx * HIDDEN_SIZE)
    }

    pub fn remove_piece(&mut self, piece: Piece, square: Square, net: &Network)
        requires
            net.wf(),
            piece.occupied(),
        ensures
            forall|i: int|
                0 <= i < 256 ==> #[trigger] final(self).white[i] == wsub(
                    old(self).white[i],
                    contribution(net, Color::White, piece, square.idx(), i),
                ),
            forall|i: int|
                0 <= i < 256 ==> #[trigger] final(self).black[i] == wsub(
                    old(self).black[i],
                    contribution(net, Color::Black, piece, square.idx(), i),
                ),
            forall|pieces: Seq<Piece>|
                #[trigger] old(self).matches(net, pieces) && pieces.len() == 64 && pieces[square.idx()] == piece
                    ==> final(self).matches(net, pieces.update(square.idx(), Piece::NoPiece)),
    {
        let (white_idx, black_idx) = Self::nnue_index(piece, square);
        let mut i: usize = 0;
        while i < HIDDEN_SIZE
            invariant
                i <= 256,
                net.wf(),
                piece.occupied(),
                white_idx == feature(Color::White, piece.idx(), square.idx()) * 256,
                black_idx == feature(Color::Black, piece.idx(), square.idx()) * 256,
                white_idx + 256 <= 768 * 256,
                black_idx + 256 <= 768 * 256,
                forall|k: int| i <= k < 256 ==> #[trigger] self.white[k] == old(self).white[k],
                forall|k: int| i <= k < 256 ==> #[trigger] self.black[k] == old(self).black[k],
                forall|k: int|
                    0 <= k < i ==> #[trigger] self.white[k] == wsub(
                        old(self).white[k],
                        contribution(net, Color::White, piece, square.idx(), k),
                    ),
                forall|k: int|
                    0 <= k < i ==> #[trigger] self.black[k] == wsub(
                        old(self).black[k],
                        contribution(net, Color::Black, piece, square.idx(), k),
                    ),
            decreases 256 - i,
        {
            self.white[i] = wrap_sub(self.white[i], net.feature_weights[i + white_idx]);
            self.black[i] = wrap_sub(self.black[i], net.feature_weights[i + black_idx]);
            i += 1;
        }
        proof {
            square.lemma_idx();
            assert forall|pieces: Seq<Piece>|
                #[trigger] old(self).matches(net, pieces) && pieces.len() == 64 && pieces[square.idx()]
                    == piece implies self.matches(net, pieces.update(square.idx(), Piece::NoPiece)) by {
                old(self).lemma_set_piece(*self, net, pieces, square.idx(), Piece::NoPiece);
            }
        }
    }

    pub fn add_piece(&mut self, piece: Piece, square: Square, net: &Network)
        requires
            net.wf(),
            piece.occupied(),
        ensures
            forall|i: int|
                0 <= i < 256 ==> #[trigger] final(self).white[i] == wadd(
                    old(self).white[i],
                    contribution(net, Color::White, piece, square.idx(), i),
                ),
            forall|i: int|
                0 <= i < 256 ==> #[trigger] final(self).black[i] == wadd(
                    old(self).black[i],
                    contribution(net, Color::Black, piece, square.idx(), i),
                ),
            forall|pieces: Seq<Piece>|
                #[trigger] old(self).matches(net, pieces) && pieces.len() == 64 && pieces[square.idx()]
                    == Piece::NoPiece ==> final(self).matches(net, pieces.update(square.idx(), piece)),
    {
        let (white_idx, black_idx) = Self::nnue_index(piece, square);
        let mut i: usize = 0;
        while i < HIDDEN_SIZE
            invariant
                i <= 256,
                net.wf(),
                piece.occupied(),
                white_idx == feature(Color::White, piece.idx(), square.idx()) * 256,
                black_idx == feature(Color::Black, piece.idx(), square.idx()) * 256,
                white_idx + 256 <= 768 * 256,
                black_idx + 256 <= 768 * 256,
                forall|k: int| i <= k < 256 ==> #[trigger] self.white[k] == old(self).white[k],
                forall|k: int| i <= k < 256 ==> #[trigger] self.black[k] == old(self).black[k],
                forall|k: int|
                    0 <= k < i ==> #[trigger] self.white[k] == wadd(
                        old(self).white[k],
                        contribution(net, Color::White, piece, square.idx(), k),
                    ),
                forall|k: int|
                    0 <= k < i ==> #[trigger] self.black[k] == wadd(
                        old(self).black[k],
                        contribution(net, Color::Black, piece, square.idx(), k),
                    ),
            decreases 256 - i,
        {
            self.white[i] = wrap_add(self.white[i], net.feature_weights[i + white_idx]);
            self.black[i] = wrap_add(self.black[i], net.feature_weights[i + black_idx]);
            i += 1;
        }
        proof {
            square.lemma_idx();
            assert forall|pieces: Seq<Piece>|
                #[trigger] old(self).matches(net, pieces) && pieces.len() == 64 && pieces[square.idx()]
                    == Piece::NoPiece implies self.matches(net, pieces.update(square.idx(), piece)) by {
                old(self).lemma_set_piece(*self, net, pieces, square.idx(), piece);
            }
        }
    }

    pub fn move_piece(&mut self, piece: Piece, from: Square, to: Square, net: &Network)
        requires
            net.wf(),
            piece.occupied(),
        ensures
            forall|i: int|
                0 <= i < 256 ==> #[trigger] final(self).white[i] == wadd(
                    wsub(old(self).white[i], contribution(net, Color::White, piece, from.idx(), i)),
                    contribution(net, Color::White, piece, to.idx(), i),
                ),
            forall|i: int|
                0 <= i < 256 ==> #[trigger] final(self).black[i] == wadd(
                    wsub(old(self).black[i], contribution(net, Color::Black, piece, from.idx(), i)),
                    contribution(net, Color::Black, piece, to.idx(), i),
                ),
            forall|pieces: Seq<Piece>|
                #[trigger] old(self).matches(net, pieces) && pieces.len() == 64 && pieces[from.idx()] == piece
                    && pieces[to.idx()] == Piece::NoPiece ==> final(self).matches(
                    net,
                    pieces.update(from.idx(), Piece::NoPiece).update(to.idx(), piece),
                ),
    {
        self.remove_piece(piece, from, net);
        let ghost middle = *self;
        self.add_piece(piece, to, net);
        proof {
            from.lemma_idx();
            to.lemma_idx();
            assert forall|pieces: Seq<Piece>|
                #[trigger] old(self).matches(net, pieces) && pieces.len() == 64 && pieces[from.idx()] == piece
                    && pieces[to.idx()] == Piece::NoPiece implies self.matches(
                net,
                pieces.update(from.idx(), Piece::NoPiece).update(to.idx(), piece),
            ) by {
                assert(middle.matches(net, pieces.update(from.idx(), Piece::NoPiece)));
            }
        }
    }

    pub fn make_castle(
        &mut self,
        king: Piece,
        rook: Piece,
        king_from: Square,
        king_to: Square,
        rook_from: Square,
        rook_to: Square,
        net: &Network,
    )
        requires
            net.wf(),
            king.occupied(),
            rook.occupied(),
        ensures
            forall|i: int|
                0 <= i < 256 ==> #[trigger] final(self).white[i] == wadd(
                    wsub(
                        wadd(
                            wsub(old(self).white[i], contribution(net, Color::White, king, king_from.idx(), i)),
                            contribution(net, Color::White, king, king_to.idx(), i),
                        ),
                        contribution(net, Color::White, rook, rook_from.idx(), i),
                    ),
                    contribution(net, Color::White, rook, rook_to.idx(), i),
                ),
            forall|i: int|
                0 <= i < 256 ==> #[trigger] final(self).black[i] == wadd(
                    wsub(
                        wadd(
                            wsub(old(self).black[i], contribution(net, Color::Black, king, king_from.idx(), i)),
                            contribution(net, Color::Black, king, king_to.idx(), i),
                        ),
                        contribution(net, Color::Black, rook, rook_from.idx(), i),
                    ),
                    contribution(net, Color::Black, rook, rook_to.idx(), i),
                ),
    {
        self.move_piece(king, king_from, king_to, net);
        self.move_piece(rook, rook_from, rook_to, net);
    }

    /// Castling on an accumulator that matches the pieces: king and rook stand on the squares
    /// they leave and the squares they reach are empty.
    pub fn castle_on(
        &mut self,
        king: Piece,
        rook: Piece,
        king_from: Square,
        king_to: Square,
        rook_from: Square,
        rook_to: Square,
        net: &Network,
    )
        requires
            net.wf(),
            king.occupied(),
            rook.occupied(),
        ensures
            forall|pieces: Seq<Piece>|
                #[trigger] old(self).matches(net, pieces) && pieces.len() == 64 && pieces[king_from.idx()] == king
                    && pieces[king_to.idx()] == Piece::NoPiece && pieces[rook_from.idx()] == rook
                    && pieces[rook_to.idx()] == Piece::NoPiece && rook_from.idx() != king_from.idx()
                    && rook_from.idx() != king_to.idx() && rook_to.idx() != king_from.idx() && rook_to.idx()
                    != king_to.idx() ==> final(self).matches(
                    net,
                    pieces.update(king_from.idx(), Piece::NoPiece).update(king_to.idx(), king).update(
                        rook_from.idx(),
                        Piece::NoPiece,
                    ).update(rook_to.idx(), rook),
                ),
    {
        self.move_piece(king, king_from, king_to, net);
        let ghost middle = *self;
        self.move_piece(rook, rook_from, rook_to, net);
        proof {
            king_from.lemma_idx();
            king_to.lemma_idx();
            rook_from.lemma_idx();
            rook_to.lemma_idx();
            assert forall|pieces: Seq<Piece>|
                #[trigger] old(self).matches(net, pieces) && pieces.len() == 64 && pieces[king_from.idx()] == king
                    && pieces[king_to.idx()] == Piece::NoPiece && pieces[rook_from.idx()] == rook
                    && pieces[rook_to.idx()] == Piece::NoPiece && rook_from.idx() != king_from.idx()
                    && rook_from.idx() != king_to.idx() && rook_to.idx() != king_from.idx() && rook_to.idx()
                    != king_to.idx() implies self.matches(
                net,
                pieces.update(king_from.idx(), Piece::NoPiece).update(king_to.idx(), king).update(
                    rook_from.idx(),
                    Piece::NoPiece,
                ).update(rook_to.idx(), rook),
            ) by {
                assert(middle.matches(
                    net,
                    pieces.update(king_from.idx(), Piece::NoPiece).update(king_to.idx(), king),
                ));
            }
        }
    }

    pub fn make_capture(
        &mut self,
        piece: Piece,
        from: Square,
        to: Square,
        capture_piece: Piece,
        capture_square: Square,
        net: &Network,
    )
        requires
            net.wf(),
            piece.occupied(),
            capture_piece.occupied(),
        ensures
            forall|i: int|
                0 <= i < 256 ==> #[trigger] final(self).white[i] == wadd(
                    wsub(
                        wsub(
                            old(self).white[i],
                            contribution(net, Color::White, capture_piece, capture_square.idx(), i),
                        ),
                        contribution(net, Color::White, piece, from.idx(), i),
                    ),
                    contribution(net, Color::White, piece, to.idx(), i),
                ),
            forall|i: int|
                0 <= i < 256 ==> #[trigger] final(self).black[i] == wadd(
                    wsub(
                        wsub(
                            old(self).black[i],
                            contribution(net, Color::Black, capture_piece, capture_square.idx(), i),
                        ),
                        contribution(net, Color::Black, piece, from.idx(), i),
                    ),
                    contribution(net, Color::Black, piece, to.idx(), i),
                ),
            forall|pieces: Seq<Piece>|
                #[trigger] old(self).matches(net, pieces) && pieces.len() == 64 && pieces[from.idx()] == piece
                    && pieces[capture_square.idx()] == capture_piece && from.idx() != capture_square.idx() && (
                to.idx() == capture_square.idx() || pieces[to.idx()] == Piece::NoPiece) ==> final(self).matches(
                    net,
                    pieces.update(capture_square.idx(), Piece::NoPiece).update(from.idx(), Piece::NoPiece).update(
                        to.idx(),
                        piece,
                    ),
                ),
    {
        self.remove_piece(capture_piece, capture_square, net);
        let ghost middle = *self;
        self.move_piece(piece, from, to, net);
        proof {
            from.lemma_idx();
            to.lemma_idx();
            capture_square.lemma_idx();
            assert forall|pieces: Seq<Piece>|
                #[trigger] old(self).matches(net, pieces) && pieces.len() == 64 && pieces[from.idx()] == piece
                    && pieces[capture_square.idx()] == capture_piece && from.idx() != capture_square.idx() && (
                to.idx() == capture_square.idx() || pieces[to.idx()] == Piece::NoPiece) implies self.matches(
                net,
                pieces.update(capture_square.idx(), Piece::NoPiece).update(from.idx(), Piece::NoPiece).update(
                    to.idx(),
                    piece,
                ),
            ) by {
                assert(middle.matches(net, pieces.update(capture_square.idx(), Piece::NoPiece)));
            }
        }
    }

    pub fn make_promotion(&mut self, pawn: Piece, promotion: Piece, from: Square, to: Square, net: &Network)
        requires
            net.wf(),
            pawn.occupied(),
            promotion.occupied(),
        ensures
            forall|i: int|
                0 <= i < 256 ==> #[trigger] final(self).white[i] == wadd(
                    wsub(old(self).white[i], contribution(net, Color::White, pawn, from.idx(), i)),
                    contribution(net, Color::White, promotion, to.idx(), i),
                ),
            forall|i: int|
                0 <= i < 256 ==> #[trigger] final(self).black[i] == wadd(
                    wsub(old(self).black[i], contribution(net, Color::Black, pawn, from.idx(), i)),
                    contribution(net, Color::Black, promotion, to.idx(), i),
                ),
            forall|pieces: Seq<Piece>|
                #[trigger] old(self).matches(net, pieces) && pieces.len() == 64 && pieces[from.idx()] == pawn
                    && pieces[to.idx()] == Piece::NoPiece ==> final(self).matches(
                    net,
                    pieces.update(from.idx(), Piece::NoPiece).update(to.idx(), promotion),
                ),
    {
        self.remove_piece(pawn, from, net);
        let ghost middle = *self;
        self.add_piece(promotion, to, net);
        proof {
            from.lemma_idx();
            to.lemma_idx();
            assert forall|pieces: Seq<Piece>|
                #[trigger] old(self).matches(net, pieces) && pieces.len() == 64 && pieces[from.idx()] == pawn
                    && pieces[to.idx()] == Piece::NoPiece implies self.matches(
                net,
                pieces.update(from.idx(), Piece::NoPiece).update(to.idx(), promotion),
            ) by {
                assert(middle.matches(net, pieces.update(from.idx(), Piece::NoPiece)));
            }
        }
    }

    /// An accumulator that matches the pieces matches them after a piece has left a square or
    /// come to an empty one, once the weight of that piece is taken off or put on.
    pub proof fn lemma_set_piece(
        self,
        after: Accumulator,
        net: &Network,
        pieces: Seq<Piece>,
        sq: int,
        piece: Piece,
    )
        requires
            self.matches(net, pieces),
            pieces.len() == 64,
            0 <= sq < 64,
            pieces[sq] == Piece::NoPiece || piece == Piece::NoPiece,
            forall|i: int|
                0 <= i < 256 ==> #[trigger] after.white[i] == if piece == Piece::NoPiece {
                    wsub(self.white[i], contribution(net, Color::White, pieces[sq], sq, i))
                } else {
                    wadd(self.white[i], contribution(net, Color::White, piece, sq, i))
                },
            forall|i: int|
                0 <= i < 256 ==> #[trigger] after.black[i] == if piece == Piece::NoPiece {
                    wsub(self.black[i], contribution(net, Color::Black, pieces[sq], sq, i))
                } else {
                    wadd(self.black[i], contribution(net, Color::Black, piece, sq, i))
                },
        ensures
            after.matches(net, pieces.update(sq, piece)),
    {
        assert forall|i: int| 0 <= i < 256 implies #[trigger] after.white[i] == acc_value(
            net,
            pieces.update(sq, piece),
            Color::White,
            i,
        ) by {
            lemma_acc_update(net, pieces, Color::White, i, sq, piece, 64);
            assert(self.white[i] == acc_value(net, pieces, Color::White, i));
            let total = acc_sum(net, pieces, Color::White, i, 64);
            lemma_wrap_add(total, contribution(net, Color::White, pieces[sq], sq, i));
            lemma_wrap_add(total, contribution(net, Color::White, piece, sq, i));
        }
        assert forall|i: int| 0 <= i < 256 implies #[trigger] after.black[i] == acc_value(
            net,
            pieces.update(sq, piece),
            Color::Black,
            i,
        ) by {
            lemma_acc_update(net, pieces, Color::Black, i, sq, piece, 64);
            assert(self.black[i] == acc_value(net, pieces, Color::Black, i));
            let total = acc_sum(net, pieces, Color::Black, i, 64);
            lemma_wrap_add(total, contribution(net, Color::Black, pieces[sq], sq, i));
            lemma_wrap_add(total, contribution(net, Color::Black, piece, sq, i));
        }
    }
}

} // verus!
