//! The mathematical model of a position and of what a move does to it.

use vstd::prelude::*;
use crate::chess::move_ply::MovePly;
use crate::chess::types::color::Color;
use crate::chess::types::file::File;
use crate::chess::types::move_flag::MoveFlag;
use crate::chess::types::piece::Piece;
use crate::chess::geometry::{forward, hits, pawn_attack, pawn_jump, pawn_push, rank_of};
use crate::chess::types::rank::Rank;
use crate::precomputed::generators::zobrist::right;
use crate::general::bits::{bit, group_bits, member};

verus! {

/// The set of the squares below `n` on which a piece stands.
pub open spec fn occ_bits(pieces: Seq<Piece>, n: int) -> u64
    decreases n,
{
    if n <= 0 {
        0
    } else {
        occ_bits(pieces, n - 1) | if pieces[n - 1].occupied() {
            bit(n - 1)
        } else {
            0
        }
    }
}

pub proof fn lemma_occ_bits(pieces: Seq<Piece>, n: int, u: int)
    requires
        0 <= n <= 64,
    ensures
        member(occ_bits(pieces, n), u) <==> (0 <= u < n && pieces[u].occupied()),
    decreases n,
{
    broadcast use group_bits;
    if n > 0 {
        lemma_occ_bits(pieces, n - 1, u);
    }
}


/// A position: what stands on each square, who moves, and the rights that
/// depend on how the position came about.
pub struct Position {
    /// The piece on each of the 64 squares, a1 first.
    pub pieces: Seq<Piece>,
    pub side: Color,
    /// Bit 0: White may castle king-side; bit 1: White queen-side; bits 2 and 3: the same for Black.
    pub castling: u8,
    /// The file of the pawn that made a double step last; it counts only while `ep_valid`.
    pub ep_file: File,
    pub ep_valid: bool,
    /// Plies since the last pawn move or capture.
    pub half_move: u8,
}

/// The castling rights that survive a move from or to the square `sq`.
pub open spec fn castle_mask(sq: int) -> u8 {
    if sq == 0 {
        13
    } else if sq == 4 {
        12
    } else if sq == 7 {
        14
    } else if sq == 56 {
        7
    } else if sq == 60 {
        3
    } else if sq == 63 {
        11
    } else {
        15
    }
}

/// The square of the pawn that `side` takes en passant on `file`.
pub open spec fn ep_victim(side: Color, file: File) -> int {
    match side {
        Color::White => file.idx() + 32,
        Color::Black => file.idx() + 24,
    }
}

/// The square that a pawn of `side` reaches when it takes en passant on `file`.
pub open spec fn ep_target(side: Color, file: File) -> int {
    match side {
        Color::White => file.idx() + 40,
        Color::Black => file.idx() + 16,
    }
}

/// The squares of a castling move of `side`: where the king starts and ends, where the rook starts and ends.
pub open spec fn castle_squares(side: Color, king_side: bool) -> (int, int, int, int) {
    let base: int = match side {
        Color::White => 0,
        Color::Black => 56,
    };
    if king_side {
        (base + 4, base + 6, base + 7, base + 5)
    } else {
        (base + 4, base + 2, base + 0, base + 3)
    }
}

/// The half-move clock after a move that neither captures nor moves a pawn. It stops at 255.
pub open spec fn clock_after(half_move: u8) -> u8 {
    if half_move < 255 {
        (half_move + 1) as u8
    } else {
        255
    }
}

impl Position {
    pub open spec fn ok(self) -> bool {
        &&& self.pieces.len() == 64
        &&& self.castling < 16
    }

    /// Whether `side` castling on the given wing finds king and rook at home and their path squares empty.
    pub open spec fn castle_ready(self, king_side: bool) -> bool {
        let (kf, kt, rf, rt) = castle_squares(self.side, king_side);
        &&& self.pieces[kf] == Piece::make(5, self.side)
        &&& self.pieces[rf] == Piece::make(3, self.side)
        &&& self.pieces[kt] == Piece::NoPiece
        &&& self.pieces[rt] == Piece::NoPiece
    }

    /// What a move from `from` to `to` with `flag` must satisfy for [`Position::make`] to be
    /// meaningful: it moves a piece of the side to move, takes no king and no piece of its own
    /// side, and its flag fits the position.
    pub open spec fn applicable_at(self, from: int, to: int, flag: MoveFlag) -> bool {
        let moving = self.pieces[from];
        let captured = self.pieces[to];
        &&& from != to
        &&& moving.of_side(self.side)
        &&& !captured.king()
        &&& !captured.of_side(self.side)
        &&& match flag {
            MoveFlag::Quiet => true,
            MoveFlag::DoubleJump => moving.pawn() && !captured.occupied(),
            MoveFlag::EnPassantCapture => {
                &&& moving.pawn()
                &&& self.ep_valid
                &&& !captured.occupied()
                &&& to == ep_target(self.side, self.ep_file)
                &&& self.pieces[ep_victim(self.side, self.ep_file)] == Piece::make(0, self.side.flip())
            },
            MoveFlag::CastleKingSide => {
                &&& from == castle_squares(self.side, true).0
                &&& to == castle_squares(self.side, true).1
                &&& self.castle_ready(true)
            },
            MoveFlag::CastleQueenSide => {
                &&& from == castle_squares(self.side, false).0
                &&& to == castle_squares(self.side, false).1
                &&& self.castle_ready(false)
            },
            _ => moving.pawn(),
        }
    }

    /// Whether `mv` fits the position, so that it can be made.
    pub open spec fn applicable(self, mv: MovePly) -> bool {
        self.applicable_at(mv.from_idx(), mv.to_idx(), mv.spec_flag())
    }

    /// Whether the side to move may castle on the given wing: it has the right, king and rook
    /// are at home with nothing between them, and no piece of the other side attacks the
    /// square of the king, the one it passes or the one it reaches.
    pub open spec fn castle_path_ok(self, king_side: bool) -> bool {
        let (kf, kt, rf, rt) = castle_squares(self.side, king_side);
        &&& right(self.castling, 2 * self.side.idx() + if king_side { 0int } else { 1int })
        &&& self.castle_ready(king_side)
        &&& (!king_side ==> self.pieces[rf + 1] == Piece::NoPiece)
        &&& !self.attacked(self.side.flip(), kf)
        &&& !self.attacked(self.side.flip(), rt)
        &&& !self.attacked(self.side.flip(), kt)
    }

    /// Whether a pawn of the side to move goes from `from` to `to` by a step onto an empty
    /// square or by a capture of a piece.
    pub open spec fn pawn_goes(self, from: int, to: int) -> bool {
        ||| pawn_push(self.side, from, to) && !self.pieces[to].occupied()
        ||| pawn_attack(self.side, from, to) && self.pieces[to].occupied()
    }

    /// Whether the piece on `from` moves to `to` as the rules of its kind and `flag` say.
    pub open spec fn reaches_at(self, from: int, to: int, flag: MoveFlag) -> bool {
        let kind = self.pieces[from].kind();
        match flag {
            MoveFlag::Quiet => if kind == 0 {
                self.pawn_goes(from, to) && rank_of(to) != Rank::pawn_last(self.side)
            } else {
                hits(kind, self.side, self.occ(), from, to)
            },
            MoveFlag::DoubleJump => {
                &&& pawn_jump(self.side, from, to)
                &&& !self.pieces[to].occupied()
                &&& !self.pieces[from + 8 * forward(self.side)].occupied()
            },
            MoveFlag::EnPassantCapture => pawn_attack(self.side, from, to),
            MoveFlag::CastleKingSide => self.castle_path_ok(true),
            MoveFlag::CastleQueenSide => self.castle_path_ok(false),
            _ => self.pawn_goes(from, to) && rank_of(to) == Rank::pawn_last(self.side),
        }
    }

    /// Whether a piece of kind `kind` of the side to move would attack the king of the other side
    /// from `to`, over the occupancy as it is.
    pub open spec fn checks_from(self, kind: int, to: int) -> bool {
        exists|k: int|
            0 <= k < 64 && (#[trigger] self.pieces[k]) == Piece::make(5, self.side.flip()) && hits(
                kind,
                self.side,
                self.occ(),
                to,
                k,
            )
    }

    /// Whether the move is one of those that a quiescence search looks at: a capture, a
    /// promotion, or a move of a knight, bishop, rook or queen to a square from which it
    /// attacks the other king.
    pub open spec fn tactical_at(self, from: int, to: int, flag: MoveFlag) -> bool {
        ||| flag == MoveFlag::EnPassantCapture
        ||| flag.promotion()
        ||| flag == MoveFlag::Quiet && self.pieces[to].occupied()
        ||| flag == MoveFlag::Quiet && 1 <= self.pieces[from].kind() <= 4 && self.checks_from(
            self.pieces[from].kind(),
            to,
        )
    }

    pub open spec fn tactical(self, mv: MovePly) -> bool {
        self.tactical_at(mv.from_idx(), mv.to_idx(), mv.spec_flag())
    }

    /// Whether `mv` fits the position and moves its piece as the rules say. The king may still
    /// be left attacked.
    pub open spec fn fits_at(self, from: int, to: int, flag: MoveFlag) -> bool {
        self.applicable_at(from, to, flag) && self.reaches_at(from, to, flag)
    }

    pub open spec fn fits(self, mv: MovePly) -> bool {
        self.fits_at(mv.from_idx(), mv.to_idx(), mv.spec_flag())
    }

    /// The pieces after the side to move has castled on the given wing.
    pub open spec fn pieces_after_castle(self, king_side: bool) -> Seq<Piece> {
        let (kf, kt, rf, rt) = castle_squares(self.side, king_side);
        self.pieces.update(kf, Piece::NoPiece).update(kt, Piece::make(5, self.side)).update(
            rf,
            Piece::NoPiece,
        ).update(rt, Piece::make(3, self.side))
    }

    /// Whether king and rook of the side to move stand where castling on the given wing puts
    /// them, with their home squares empty.
    pub open spec fn castle_done(self, king_side: bool) -> bool {
        let (kf, kt, rf, rt) = castle_squares(self.side, king_side);
        &&& self.pieces[kt] == Piece::make(5, self.side)
        &&& self.pieces[rt] == Piece::make(3, self.side)
        &&& self.pieces[kf] == Piece::NoPiece
        &&& self.pieces[rf] == Piece::NoPiece
    }

    /// The pieces with king and rook of the side to move back on their home squares.
    pub open spec fn pieces_before_castle(self, king_side: bool) -> Seq<Piece> {
        let (kf, kt, rf, rt) = castle_squares(self.side, king_side);
        self.pieces.update(kt, Piece::NoPiece).update(kf, Piece::make(5, self.side)).update(
            rt,
            Piece::NoPiece,
        ).update(rf, Piece::make(3, self.side))
    }

    /// The pieces after the move.
    pub open spec fn pieces_after(self, mv: MovePly) -> Seq<Piece> {
        let from = mv.from_idx();
        let to = mv.to_idx();
        let moving = self.pieces[from];
        match mv.spec_flag() {
            MoveFlag::Quiet | MoveFlag::DoubleJump => self.pieces.update(from, Piece::NoPiece).update(
                to,
                moving,
            ),
            MoveFlag::EnPassantCapture => self.pieces.update(from, Piece::NoPiece).update(to, moving).update(
                ep_victim(self.side, self.ep_file),
                Piece::NoPiece,
            ),
            MoveFlag::CastleKingSide => self.pieces_after_castle(true),
            MoveFlag::CastleQueenSide => self.pieces_after_castle(false),
            flag => self.pieces.update(from, Piece::NoPiece).update(to, Piece::make(flag.idx(), self.side)),
        }
    }

    /// The position after the move.
    pub open spec fn make(self, mv: MovePly) -> Position {
        let from = mv.from_idx();
        let to = mv.to_idx();
        let moving = self.pieces[from];
        let captured = self.pieces[to];
        let jump = mv.spec_flag() == MoveFlag::DoubleJump;
        Position {
            pieces: self.pieces_after(mv),
            side: self.side.flip(),
            castling: self.castling & castle_mask(from) & castle_mask(to),
            ep_file: if jump {
                File::of(from % 8)
            } else {
                self.ep_file
            },
            ep_valid: jump,
            half_move: if moving.pawn() || captured.occupied() {
                0
            } else {
                clock_after(self.half_move)
            },
        }
    }

    /// The set of the occupied squares.
    pub open spec fn occ(self) -> u64 {
        occ_bits(self.pieces, 64)
    }

    /// Whether the piece on `t`, if it is one of `by`, attacks `sq`.
    pub open spec fn attacks(self, by: Color, t: int, sq: int) -> bool {
        self.pieces[t].of_side(by) && hits(self.pieces[t].kind(), by, self.occ(), t, sq)
    }

    /// Whether some piece of `by` attacks `sq`.
    pub open spec fn attacked(self, by: Color, sq: int) -> bool {
        exists|t: int| 0 <= t < 64 && #[trigger] self.attacks(by, t, sq)
    }

    /// Whether the square `k` holds the king of `color` and a piece of the other side attacks it.
    pub open spec fn king_hit(self, color: Color, k: int) -> bool {
        self.pieces[k] == Piece::make(5, color) && self.attacked(color.flip(), k)
    }

    /// Whether the king of `color` is attacked.
    pub open spec fn exposed(self, color: Color) -> bool {
        exists|k: int| 0 <= k < 64 && #[trigger] self.king_hit(color, k)
    }

    /// Whether the side to move is in check.
    pub open spec fn in_check(self) -> bool {
        self.exposed(self.side)
    }

    /// A move is legal if it fits the position, moves its piece as the rules say, and does
    /// not leave the king of the side that makes it attacked.
    pub open spec fn legal(self, mv: MovePly) -> bool {
        self.fits(mv) && !self.make(mv).exposed(self.side)
    }

    /// A legal move does not leave the king of the side that makes it attacked.
    pub proof fn lemma_legal_is_safe(self, mv: MovePly)
        requires
            self.legal(mv),
        ensures
            forall|k: int|
                0 <= k < 64 && self.make(mv).pieces[k] == Piece::make(5, self.side) ==> !self.make(mv).attacked(
                    self.side.flip(),
                    k,
                ),
    {
        assert forall|k: int| 0 <= k < 64 && self.make(mv).pieces[k] == Piece::make(5, self.side) implies !self.make(
            mv,
        ).attacked(self.side.flip(), k) by {
            if self.make(mv).attacked(self.side.flip(), k) {
                assert(self.make(mv).king_hit(self.side, k));
            }
        }
    }

    /// The position with the other side to move and nothing else changed but the
    /// en-passant right, which lapses.
    pub open spec fn pass(self) -> Position {
        Position { side: self.side.flip(), ep_valid: false, ..self }
    }
}

} // verus!
