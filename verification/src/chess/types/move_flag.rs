//! What kind of move a packed move is.

use vstd::prelude::*;
use crate::chess::types::color::Color;
use crate::chess::types::piece::Piece;

verus! {

#[derive(Clone, Copy, PartialEq, Eq, Structural, Debug)]
pub enum MoveFlag {
    Quiet,
    PromoteToKnight,
    PromoteToBishop,
    PromoteToRook,
    PromoteToQueen,
    DoubleJump,
    EnPassantCapture,
    CastleKingSide,
    CastleQueenSide,
}

impl MoveFlag {
    /// The number of the flag, from 0. A promotion has the number of the kind that the pawn becomes.
    pub open spec fn idx(self) -> int {
        match self {
            MoveFlag::Quiet => 0,
            MoveFlag::PromoteToKnight => 1,
            MoveFlag::PromoteToBishop => 2,
            MoveFlag::PromoteToRook => 3,
            MoveFlag::PromoteToQueen => 4,
            MoveFlag::DoubleJump => 5,
            MoveFlag::EnPassantCapture => 6,
            MoveFlag::CastleKingSide => 7,
            MoveFlag::CastleQueenSide => 8,
        }
    }

    /// The flag with number `i`; `Quiet` for a number that names no flag.
    pub open spec fn of(i: int) -> MoveFlag {
        if i == 1 {
            MoveFlag::PromoteToKnight
        } else if i == 2 {
            MoveFlag::PromoteToBishop
        } else if i == 3 {
            MoveFlag::PromoteToRook
        } else if i == 4 {
            MoveFlag::PromoteToQueen
        } else if i == 5 {
            MoveFlag::DoubleJump
        } else if i == 6 {
            MoveFlag::EnPassantCapture
        } else if i == 7 {
            MoveFlag::CastleKingSide
        } else if i == 8 {
            MoveFlag::CastleQueenSide
        } else {
            MoveFlag::Quiet
        }
    }

    pub fn index(self) -> (r: u8)
        ensures
            r == self.idx(),
            r < 9,
    {
        match self {
            MoveFlag::Quiet => 0,
            MoveFlag::PromoteToKnight => 1,
            MoveFlag::PromoteToBishop => 2,
            MoveFlag::PromoteToRook => 3,
            MoveFlag::PromoteToQueen => 4,
            MoveFlag::DoubleJump => 5,
            MoveFlag::EnPassantCapture => 6,
            MoveFlag::CastleKingSide => 7,
            MoveFlag::CastleQueenSide => 8,
        }
    }

    pub fn from_index(i: u8) -> (r: MoveFlag)
        ensures
            r == MoveFlag::of(i as int),
            i < 9 ==> r.idx() == i,
    {
        match i {
            1 => MoveFlag::PromoteToKnight,
            2 => MoveFlag::PromoteToBishop,
            3 => MoveFlag::PromoteToRook,
            4 => MoveFlag::PromoteToQueen,
            5 => MoveFlag::DoubleJump,
            6 => MoveFlag::EnPassantCapture,
            7 => MoveFlag::CastleKingSide,
            8 => MoveFlag::CastleQueenSide,
            _ => MoveFlag::Quiet,
        }
    }

    pub proof fn lemma_idx(self)
        ensures
            0 <= self.idx() < 9,
            MoveFlag::of(self.idx()) == self,
    {
    }

    pub open spec fn promotion(self) -> bool {
        1 <= self.idx() <= 4
    }

    pub open spec fn castles(self) -> bool {
        self == MoveFlag::CastleKingSide || self == MoveFlag::CastleQueenSide
    }

    pub fn is_promotion(&self) -> (r: bool)
        ensures
            r == self.promotion(),
    {
        let i: u8 = self.index();
        1 <= i && i <= 4
    }

    pub fn is_castles(&self) -> (r: bool)
        ensures
            r == self.castles(),
    {
        let i: u8 = self.index();
        i == 7 || i == 8
    }

    pub fn is_en_passant_capture(&self) -> (r: bool)
        ensures
            r == (*self == MoveFlag::EnPassantCapture),
    {
        self.index() == 6
    }

    /// The piece that a pawn of `color` becomes by a promotion with this flag.
    pub fn promotion_piece(&self, color: Color) -> (r: Piece)
        requires
            self.promotion(),
        ensures
            r == Piece::make(self.idx(), color),
            r.occupied(),
            r.side() == color,
            !r.pawn(),
            !r.king(),
            r.idx() == self.idx() + 6 * color.idx(),
    {
        match color {
            Color::White => Piece::from_index(self.index()),
            Color::Black => Piece::from_index(self.index() + 6),
        }
    }
}

} // verus!
