//! A move packed into 16 bits: the square it leaves, the square it reaches and its flag.

use vstd::prelude::*;
use vstd::string::StringSliceAdditionalSpecFns;
use crate::chess::board::Board;
use crate::chess::types::file::File;
use crate::chess::types::move_flag::MoveFlag;
use crate::chess::types::piece::Piece;
use crate::chess::types::rank::Rank;
use crate::chess::types::square::Square;

verus! {

const SQUARE_MASK: u16 = 0b111111;

const TO_SHIFT: u16 = 6;

const FLAG_SHIFT: u16 = 12;

#[derive(Clone, Copy, PartialEq, Eq, Structural, Debug)]
pub struct MovePly {
    //   flag   to    from
    // 0b1111 111111 111111
    packed_data: u16,
}

impl MovePly {
    /// The 16 bits of the move.
    pub closed spec fn bits(self) -> u16 {
        self.packed_data
    }

    /// Number of the square that the move leaves.
    pub open spec fn from_idx(self) -> int {
        (self.bits() & 0x3f) as int
    }

    /// Number of the square that the move reaches.
    pub open spec fn to_idx(self) -> int {
        ((self.bits() >> 6) & 0x3f) as int
    }

    /// The four flag bits as a number.
    pub open spec fn flag_idx(self) -> int {
        (self.bits() >> 12) as int
    }

    /// The flag of the move. Flag bits that name no flag read as `Quiet`.
    pub open spec fn spec_flag(self) -> MoveFlag {
        MoveFlag::of(self.flag_idx())
    }

    /// The move with the given 16 bits.
    pub closed spec fn of_bits(data: u16) -> MovePly {
        MovePly { packed_data: data }
    }

    pub proof fn lemma_of_bits(data: u16)
        ensures
            MovePly::of_bits(data).bits() == data,
    {
    }

    /// Moves with the same 16 bits are the same move.
    pub proof fn lemma_bits_known(a: MovePly, b: MovePly)
        requires
            a.bits() == b.bits(),
        ensures
            a == b,
    {
    }

    /// The move from the square `from` to the square `to` with `flag`.
    pub closed spec fn of(from: int, to: int, flag: MoveFlag) -> MovePly {
        MovePly { packed_data: (from + 64 * to + 4096 * flag.idx()) as u16 }
    }

    /// A move is made of its two squares and its flag.
    pub proof fn lemma_of(from: int, to: int, flag: MoveFlag)
        requires
            0 <= from < 64,
            0 <= to < 64,
        ensures
            MovePly::of(from, to, flag).from_idx() == from,
            MovePly::of(from, to, flag).to_idx() == to,
            MovePly::of(from, to, flag).flag_idx() == flag.idx(),
            MovePly::of(from, to, flag).spec_flag() == flag,
    {
        flag.lemma_idx();
        let f = from as u16;
        let t = to as u16;
        let g = flag.idx() as u16;
        let d = (from + 64 * to + 4096 * flag.idx()) as u16;
        assert(d == f + 64 * t + 4096 * g);
        assert(d & 0x3f == f && (d >> 6) & 0x3f == t && d >> 12 == g) by (bit_vector)
            requires
                f < 64,
                t < 64,
                g < 16,
                d == f + 64 * t + 4096 * g,
        ;
    }

    pub proof fn lemma_ranges(self)
        ensures
            0 <= self.from_idx() < 64,
            0 <= self.to_idx() < 64,
            0 <= self.flag_idx() < 16,
    {
        let d = self.bits();
        assert((d & 0x3f) < 64 && ((d >> 6) & 0x3f) < 64 && (d >> 12) < 16) by (bit_vector);
    }

    /// The move of sixteen zero bits leaves and reaches the square a1.
    pub proof fn lemma_zero(self)
        requires
            self.bits() == 0,
        ensures
            self.from_idx() == 0,
            self.to_idx() == 0,
            self.flag_idx() == 0,
    {
        assert((0u16 & 0x3f) == 0 && ((0u16 >> 6) & 0x3f) == 0 && (0u16 >> 12) == 0) by (bit_vector);
    }

    /// Moves with the same squares and flag bits are the same move.
    pub proof fn lemma_same(self, other: MovePly)
        requires
            self.from_idx() == other.from_idx(),
            self.to_idx() == other.to_idx(),
            self.flag_idx() == other.flag_idx(),
        ensures
            self == other,
    {
        let a = self.bits();
        let b = other.bits();
        assert(a == b) by (bit_vector)
            requires
                a & 0x3f == b & 0x3f,
                (a >> 6) & 0x3f == (b >> 6) & 0x3f,
                a >> 12 == b >> 12,
        ;
    }

    pub fn new(from: Square, to: Square, flag: MoveFlag) -> (r: MovePly)
        ensures
            r.from_idx() == from.idx(),
            r.to_idx() == to.idx(),
            r.flag_idx() == flag.idx(),
            r.spec_flag() == flag,
            r.bits() == from.idx() + 64 * to.idx() + 4096 * flag.idx(),
            r == MovePly::of(from.idx(), to.idx(), flag),
    {
        let f: u16 = from.index() as u16;
        let t: u16 = to.index() as u16;
        let g: u16 = flag.index() as u16;
        let packed_data: u16 = (g << FLAG_SHIFT) | (t << TO_SHIFT) | f;
        proof {
            assert({
                let d = (g << 12) | (t << 6) | f;
                &&& d & 0x3f == f
                &&& (d >> 6) & 0x3f == t
                &&& d >> 12 == g
                &&& d == f + 64 * t + 4096 * g
            }) by (bit_vector)
                requires
                    f < 64,
                    t < 64,
                    g < 16,
            ;
            flag.lemma_idx();
        }
        MovePly { packed_data }
    }

    /// The move with the given 16 bits.
    pub fn from_packed(data: u16) -> (r: MovePly)
        ensures
            r.bits() == data,
            r == MovePly::of_bits(data),
    {
        MovePly { packed_data: data }
    }

    pub fn from(&self) -> (r: Square)
        ensures
            r.idx() == self.from_idx(),
    {
        proof {
            self.lemma_ranges();
        }
        Square::from_index((self.packed_data & SQUARE_MASK) as u8)
    }

    pub fn to(&self) -> (r: Square)
        ensures
            r.idx() == self.to_idx(),
    {
        proof {
            self.lemma_ranges();
        }
        Square::from_index(((self.packed_data >> TO_SHIFT) & SQUARE_MASK) as u8)
    }

    pub fn flag(&self) -> (r: MoveFlag)
        ensures
            r == self.spec_flag(),
    {
        proof {
            self.lemma_ranges();
        }
        MoveFlag::from_index((self.packed_data >> FLAG_SHIFT) as u8)
    }

    pub fn packed_data(&self) -> (r: u16)
        ensures
            r == self.bits(),
    {
        self.packed_data
    }

    /// Whether this is the move of sixteen zero bits, which stands for "no move".
    pub fn is_default(&self) -> (r: bool)
        ensures
            r == (self.bits() == 0),
    {
        self.packed_data == 0
    }

    /// The lower twelve bits: both squares without the flag.
    pub fn squares_key(&self) -> (r: usize)
        ensures
            r == self.from_idx() + 64 * self.to_idx(),
            r < 4096,
    {
        let d: u16 = self.packed_data;
        proof {
            assert((d & 0xfff) == (d & 0x3f) + 64 * ((d >> 6) & 0x3f) && (d & 0xfff) < 4096)
                by (bit_vector);
        }
        (d & 0xFFF) as usize
    }
}

impl Default for MovePly {
    fn default() -> (r: MovePly)
        ensures
            r.bits() == 0,
    {
        MovePly { packed_data: 0 }
    }
}

/// The promotion that a letter after the squares of a move asks for.
pub open spec fn promotion_of(c: u8) -> Option<MoveFlag> {
    if c == 110 {
        Some(MoveFlag::PromoteToKnight)
    } else if c == 98 {
        Some(MoveFlag::PromoteToBishop)
    } else if c == 114 {
        Some(MoveFlag::PromoteToRook)
    } else if c == 113 {
        Some(MoveFlag::PromoteToQueen)
    } else {
        None
    }
}

/// The flag of a move without a promotion from `from` to `to` on a board with `pieces`: a
/// pawn that goes from its first rank to the fourth from there jumps; a pawn that changes its
/// file onto an empty square takes en passant; a king that goes from e1 or e8 to the g-file or
/// the c-file castles.
pub open spec fn flag_on(pieces: Seq<Piece>, from: int, to: int) -> MoveFlag {
    let piece = pieces[from];
    let color = piece.side();
    if piece.pawn() && from % 8 != to % 8 && !pieces[to].occupied() {
        MoveFlag::EnPassantCapture
    } else if piece.pawn() && from / 8 == Rank::pawn_start(color) && to / 8 == Rank::pawn_start(color) + 2
        * crate::chess::geometry::forward(color) {
        MoveFlag::DoubleJump
    } else if piece.king() && ((from == 4 && to == 6) || (from == 60 && to == 62)) {
        MoveFlag::CastleKingSide
    } else if piece.king() && ((from == 4 && to == 2) || (from == 60 && to == 58)) {
        MoveFlag::CastleQueenSide
    } else {
        MoveFlag::Quiet
    }
}

/// The move that the text `text` names on a board with `pieces`: two squares and, for a
/// promotion, the letter of the new piece. `None` for any other text.
pub open spec fn uci_move(text: Seq<u8>, pieces: Seq<Piece>) -> Option<MovePly> {
    if text.len() != 4 && text.len() != 5 {
        None
    } else {
        match (Square::of_text(text[0], text[1]), Square::of_text(text[2], text[3])) {
            (Some(from), Some(to)) => if text.len() == 5 {
                match promotion_of(text[4]) {
                    Some(flag) => Some(MovePly::of(from.idx(), to.idx(), flag)),
                    None => None,
                }
            } else {
                Some(MovePly::of(from.idx(), to.idx(), flag_on(pieces, from.idx(), to.idx())))
            },
            _ => None,
        }
    }
}

/// Reads a move in the notation of the protocol, as `e2e4` or `e7e8q`, for the position on
/// `board`. The move need not be legal there.
pub fn uci_move_parser(played: &str, board: &Board) -> (r: Option<MovePly>)
    ensures
        r == uci_move(played.spec_bytes(), board@.pieces),
{
    let text = played.as_bytes();
    if text.len() != 4 && text.len() != 5 {
        return None;
    }
    let from = match Square::from_bytes(text[0], text[1]) {
        Some(square) => square,
        None => {
            return None;
        },
    };
    let to = match Square::from_bytes(text[2], text[3]) {
        Some(square) => square,
        None => {
            return None;
        },
    };
    if text.len() == 5 {
        let promotion_piece: u8 = text[4];
        let flag = if promotion_piece == 110 {
            MoveFlag::PromoteToKnight
        } else if promotion_piece == 98 {
            MoveFlag::PromoteToBishop
        } else if promotion_piece == 114 {
            MoveFlag::PromoteToRook
        } else if promotion_piece == 113 {
            MoveFlag::PromoteToQueen
        } else {
            return None;
        };
        return Some(MovePly::new(from, to, flag));
    }
    let mut flag = MoveFlag::Quiet;
    let piece_type = board.piece_at(from);
    let piece_color = piece_type.color();
    if piece_type.is_king() {
        if (from == Square::E1 && to == Square::G1) || (from == Square::E8 && to == Square::G8) {
            flag = MoveFlag::CastleKingSide;
        }
        if (from == Square::E1 && to == Square::C1) || (from == Square::E8 && to == Square::C8) {
            flag = MoveFlag::CastleQueenSide;
        }
    }
    if piece_type.is_pawn() {
        if from.rank().is_pawn_start(piece_color) && to.rank().is_pawn_jump_end(piece_color) {
            flag = MoveFlag::DoubleJump;
        }
        if from.file().index() != to.file().index() && !board.piece_at(to).is_piece() {
            flag = MoveFlag::EnPassantCapture;
        }
    }
    Some(MovePly::new(from, to, flag))
}

impl MovePly {
    /// The move in the notation of the protocol: the two squares and, for a promotion, the
    /// letter of the new piece.
    pub open spec fn uci_text(self) -> Seq<u8> {
        let squares = seq![
            (97 + self.from_idx() % 8) as u8,
            (49 + self.from_idx() / 8) as u8,
            (97 + self.to_idx() % 8) as u8,
            (49 + self.to_idx() / 8) as u8,
        ];
        match self.spec_flag() {
            MoveFlag::PromoteToKnight => squares.push(110u8),
            MoveFlag::PromoteToBishop => squares.push(98u8),
            MoveFlag::PromoteToRook => squares.push(114u8),
            MoveFlag::PromoteToQueen => squares.push(113u8),
            _ => squares,
        }
    }

    pub fn to_uci(&self) -> (r: Vec<u8>)
        ensures
            r@ == self.uci_text(),
    {
        let from = self.from();
        let to = self.to();
        let mut r: Vec<u8> = Vec::new();
        r.push(from.file().to_byte());
        r.push(from.rank().to_byte());
        r.push(to.file().to_byte());
        r.push(to.rank().to_byte());
        match self.flag() {
            MoveFlag::PromoteToKnight => r.push(110),
            MoveFlag::PromoteToBishop => r.push(98),
            MoveFlag::PromoteToRook => r.push(114),
            MoveFlag::PromoteToQueen => r.push(113),
            _ => {},
        }
        proof {
            assert(r@ =~= self.uci_text());
        }
        r
    }
}

} // verus!
