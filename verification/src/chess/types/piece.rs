//! Pieces, with and without a colour.

use vstd::prelude::*;
use crate::chess::types::color::Color;

verus! {

/// The value of each piece in centipawns, by its number.
pub const PIECE_VALUES: [i16; 12] = [100, 320, 320, 500, 1000, 10000, 100, 320, 320, 500, 1000, 10000];

/// Selects all twelve pieces in [`Piece::iterator`].
pub const ITER_ALL: u8 = 0;

/// Selects the white pieces in [`Piece::iterator`].
pub const ITER_WHITE: u8 = 1;

/// Selects the black pieces in [`Piece::iterator`].
pub const ITER_BLACK: u8 = 2;

/// The value in centipawns of the kind of piece with number `kind`.
pub open spec fn kind_value(kind: int) -> int {
    if kind == 0 {
        100
    } else if kind == 1 || kind == 2 {
        320
    } else if kind == 3 {
        500
    } else if kind == 4 {
        1000
    } else {
        10000
    }
}

#[derive(Clone, Copy, PartialEq, Eq, Structural, Debug)]
pub enum Piece {
    WhitePawn,
    WhiteKnight,
    WhiteBishop,
    WhiteRook,
    WhiteQueen,
    WhiteKing,
    BlackPawn,
    BlackKnight,
    BlackBishop,
    BlackRook,
    BlackQueen,
    BlackKing,
    NoPiece,
}

impl Piece {
    /// The number of the variant, from 0.
    pub open spec fn idx(self) -> int {
        match self {
            Piece::WhitePawn => 0,
            Piece::WhiteKnight => 1,
            Piece::WhiteBishop => 2,
            Piece::WhiteRook => 3,
            Piece::WhiteQueen => 4,
            Piece::WhiteKing => 5,
            Piece::BlackPawn => 6,
            Piece::BlackKnight => 7,
            Piece::BlackBishop => 8,
            Piece::BlackRook => 9,
            Piece::BlackQueen => 10,
            Piece::BlackKing => 11,
            Piece::NoPiece => 12,
        }
    }

    /// The variant with number `i`; the last one for a larger number.
    pub open spec fn of(i: int) -> Piece {
        if i == 0 {
            Piece::WhitePawn
        } else if i == 1 {
            Piece::WhiteKnight
        } else if i == 2 {
            Piece::WhiteBishop
        } else if i == 3 {
            Piece::WhiteRook
        } else if i == 4 {
            Piece::WhiteQueen
        } else if i == 5 {
            Piece::WhiteKing
        } else if i == 6 {
            Piece::BlackPawn
        } else if i == 7 {
            Piece::BlackKnight
        } else if i == 8 {
            Piece::BlackBishop
        } else if i == 9 {
            Piece::BlackRook
        } else if i == 10 {
            Piece::BlackQueen
        } else if i == 11 {
            Piece::BlackKing
        } else {
            Piece::NoPiece
        }
    }

    pub fn index(self) -> (r: u8)
        ensures
            r == self.idx(),
            r < 13,
    {
        match self {
            Piece::WhitePawn => 0,
            Piece::WhiteKnight => 1,
            Piece::WhiteBishop => 2,
            Piece::WhiteRook => 3,
            Piece::WhiteQueen => 4,
            Piece::WhiteKing => 5,
            Piece::BlackPawn => 6,
            Piece::BlackKnight => 7,
            Piece::BlackBishop => 8,
            Piece::BlackRook => 9,
            Piece::BlackQueen => 10,
            Piece::BlackKing => 11,
            Piece::NoPiece => 12,
        }
    }

    pub fn from_index(i: u8) -> (r: Piece)
        requires
            i < 13,
        ensures
            r.idx() == i,
            r == Piece::of(i as int),
    {
        match i {
            0 => Piece::WhitePawn,
            1 => Piece::WhiteKnight,
            2 => Piece::WhiteBishop,
            3 => Piece::WhiteRook,
            4 => Piece::WhiteQueen,
            5 => Piece::WhiteKing,
            6 => Piece::BlackPawn,
            7 => Piece::BlackKnight,
            8 => Piece::BlackBishop,
            9 => Piece::BlackRook,
            10 => Piece::BlackQueen,
            11 => Piece::BlackKing,
            _ => Piece::NoPiece,
        }
    }

    pub proof fn lemma_idx(self)
        ensures
            0 <= self.idx() < 13,
            Piece::of(self.idx()) == self,
    {
    }

    pub proof fn lemma_of(i: int)
        requires
            0 <= i < 13,
        ensures
            Piece::of(i).idx() == i,
    {
    }

    /// Whether this stands for a piece, not for an empty square.
    pub open spec fn occupied(self) -> bool {
        self != Piece::NoPiece
    }

    /// The colour of a piece. The empty square counts as black, as its number does.
    pub open spec fn side(self) -> Color {
        if self.idx() >= 6 {
            Color::Black
        } else {
            Color::White
        }
    }

    /// The number of the piece's kind: 0 for a pawn, 5 for a king.
    pub open spec fn kind(self) -> int {
        self.idx() % 6
    }

    pub open spec fn pawn(self) -> bool {
        self == Piece::WhitePawn || self == Piece::BlackPawn
    }

    pub open spec fn king(self) -> bool {
        self == Piece::WhiteKing || self == Piece::BlackKing
    }

    /// The piece of kind number `kind` and of `color`.
    pub open spec fn make(kind: int, color: Color) -> Piece {
        Piece::of(kind + 6 * color.idx())
    }

    /// Whether this is a piece of `color`.
    pub open spec fn of_side(self, color: Color) -> bool {
        self.occupied() && self.side() == color
    }

    /// The pieces that `ITER_TYPE` selects, in the order of their numbers.
    pub fn iterator<const ITER_TYPE: u8>() -> (r: Vec<Piece>)
        requires
            ITER_TYPE <= 2,
        ensures
            ITER_TYPE == ITER_ALL ==> r.len() == 12 && forall|i: int| 0 <= i < 12 ==> r[i] == Piece::of(i),
            ITER_TYPE == ITER_WHITE ==> r.len() == 6 && forall|i: int| 0 <= i < 6 ==> r[i] == Piece::of(i),
            ITER_TYPE == ITER_BLACK ==> r.len() == 6 && forall|i: int| 0 <= i < 6 ==> r[i] == Piece::of(i + 6),
    {
        let lo: u8 = if ITER_TYPE == ITER_BLACK { 6 } else { 0 };
        let hi: u8 = if ITER_TYPE == ITER_WHITE { 6 } else { 12 };
        let mut r: Vec<Piece> = Vec::new();
        let mut i: u8 = lo;
        while i < hi
            invariant
                lo <= i <= hi <= 12,
                r.len() == i - lo,
                forall|k: int| 0 <= k < r.len() ==> r[k] == Piece::of(k + lo),
            decreases hi - i,
        {
            r.push(Piece::from_index(i));
            i += 1;
        }
        r
    }

    pub fn is_piece(&self) -> (r: bool)
        ensures
            r == self.occupied(),
    {
        self.index() != 12
    }

    pub fn is_pawn(&self) -> (r: bool)
        ensures
            r == self.pawn(),
    {
        self.index() == 0 || self.index() == 6
    }

    pub fn is_king(&self) -> (r: bool)
        ensures
            r == self.king(),
    {
        self.index() == 5 || self.index() == 11
    }

    pub fn color(&self) -> (r: Color)
        ensures
            r == self.side(),
    {
        if self.index() >= 6 {
            return Color::Black;
        }
        Color::White
    }

    /// The piece of kind `base_piece` and of `color`.
    pub fn from_base(base_piece: BasePiece, color: Color) -> (r: Piece)
        ensures
            r == Piece::make(base_piece.idx(), color),
            r.occupied(),
            r.side() == color,
            r.kind() == base_piece.idx(),
            r.idx() == base_piece.idx() + 6 * color.idx(),
    {
        let raw_value: u8 = match color {
            Color::White => base_piece.index(),
            Color::Black => base_piece.index() + 6,
        };
        Piece::from_index(raw_value)
    }

    /// The kind of a piece.
    pub fn base(&self) -> (r: BasePiece)
        requires
            self.occupied(),
        ensures
            r.idx() == self.kind(),
    {
        BasePiece::from_index(self.index() % 6)
    }

    /// The letter that stands for the piece, upper case for White; a blank for the empty square.
    pub open spec fn letter(self) -> char {
        match self {
            Piece::WhitePawn => 'P',
            Piece::WhiteKnight => 'N',
            Piece::WhiteBishop => 'B',
            Piece::WhiteRook => 'R',
            Piece::WhiteQueen => 'Q',
            Piece::WhiteKing => 'K',
            Piece::BlackPawn => 'p',
            Piece::BlackKnight => 'n',
            Piece::BlackBishop => 'b',
            Piece::BlackRook => 'r',
            Piece::BlackQueen => 'q',
            Piece::BlackKing => 'k',
            Piece::NoPiece => ' ',
        }
    }

    pub fn to_char(&self) -> (r: char)
        ensures
            r == self.letter(),
    {
        match self {
            Piece::WhitePawn => 'P',
            Piece::WhiteKnight => 'N',
            Piece::WhiteBishop => 'B',
            Piece::WhiteRook => 'R',
            Piece::WhiteQueen => 'Q',
            Piece::WhiteKing => 'K',
            Piece::BlackPawn => 'p',
            Piece::BlackKnight => 'n',
            Piece::BlackBishop => 'b',
            Piece::BlackRook => 'r',
            Piece::BlackQueen => 'q',
            Piece::BlackKing => 'k',
            Piece::NoPiece => ' ',
        }
    }
}

#[derive(Clone, Copy, PartialEq, Eq, Structural, Debug)]
pub enum BasePiece {
    Pawn,
    Knight,
    Bishop,
    Rook,
    Queen,
    King,
}

impl BasePiece {
    /// The number of the variant, from 0.
    pub open spec fn idx(self) -> int {
        match self {
            BasePiece::Pawn => 0,
            BasePiece::Knight => 1,
            BasePiece::Bishop => 2,
            BasePiece::Rook => 3,
            BasePiece::Queen => 4,
            BasePiece::King => 5,
        }
    }

    /// The variant with number `i`; the last one for a larger number.
    pub open spec fn of(i: int) -> BasePiece {
        if i == 0 {
            BasePiece::Pawn
        } else if i == 1 {
            BasePiece::Knight
        } else if i == 2 {
            BasePiece::Bishop
        } else if i == 3 {
            BasePiece::Rook
        } else if i == 4 {
            BasePiece::Queen
        } else {
            BasePiece::King
        }
    }

    pub fn index(self) -> (r: u8)
        ensures
            r == self.idx(),
            r < 6,
    {
        match self {
            BasePiece::Pawn => 0,
            BasePiece::Knight => 1,
            BasePiece::Bishop => 2,
            BasePiece::Rook => 3,
            BasePiece::Queen => 4,
            BasePiece::King => 5,
        }
    }

    pub fn from_index(i: u8) -> (r: BasePiece)
        requires
            i < 6,
        ensures
            r.idx() == i,
            r == BasePiece::of(i as int),
    {
        match i {
            0 => BasePiece::Pawn,
            1 => BasePiece::Knight,
            2 => BasePiece::Bishop,
            3 => BasePiece::Rook,
            4 => BasePiece::Queen,
            _ => BasePiece::King,
        }
    }

    pub proof fn lemma_idx(self)
        ensures
            0 <= self.idx() < 6,
            BasePiece::of(self.idx()) == self,
    {
    }

    pub proof fn lemma_of(i: int)
        requires
            0 <= i < 6,
        ensures
            BasePiece::of(i).idx() == i,
    {
    }

    /// The six kinds, pawn first.
    pub fn iterator() -> (r: Vec<BasePiece>)
        ensures
            r.len() == 6,
            forall|i: int| 0 <= i < 6 ==> r[i] == BasePiece::of(i),
    {
        let mut r: Vec<BasePiece> = Vec::new();
        let mut i: u8 = 0;
        while i < 6
            invariant
                i <= 6,
                r.len() == i,
                forall|k: int| 0 <= k < r.len() ==> r[k] == BasePiece::of(k),
            decreases 6 - i,
        {
            r.push(BasePiece::from_index(i));
            i += 1;
        }
        r
    }

    /// The upper-case letter that stands for the kind.
    pub open spec fn letter(self) -> char {
        match self {
            BasePiece::Pawn => 'P',
            BasePiece::Knight => 'N',
            BasePiece::Bishop => 'B',
            BasePiece::Rook => 'R',
            BasePiece::Queen => 'Q',
            BasePiece::King => 'K',
        }
    }

    pub fn to_char(&self) -> (r: char)
        ensures
            r == self.letter(),
    {
        match self {
            BasePiece::Pawn => 'P',
            BasePiece::Knight => 'N',
            BasePiece::Bishop => 'B',
            BasePiece::Rook => 'R',
            BasePiece::Queen => 'Q',
            BasePiece::King => 'K',
        }
    }
}

/// The piece that a letter of a position text stands for.
pub open spec fn piece_of_char(piece: char) -> Option<Piece> {
    match piece {
        'P' => Some(Piece::WhitePawn),
        'N' => Some(Piece::WhiteKnight),
        'B' => Some(Piece::WhiteBishop),
        'R' => Some(Piece::WhiteRook),
        'Q' => Some(Piece::WhiteQueen),
        'K' => Some(Piece::WhiteKing),
        'p' => Some(Piece::BlackPawn),
        'n' => Some(Piece::BlackKnight),
        'b' => Some(Piece::BlackBishop),
        'r' => Some(Piece::BlackRook),
        'q' => Some(Piece::BlackQueen),
        'k' => Some(Piece::BlackKing),
        _ => None,
    }
}

pub fn char_to_piece(piece: char) -> (r: Option<Piece>)
    ensures
        r == piece_of_char(piece),
        r matches Some(p) ==> p.occupied() && p.letter() == piece,
{
    match piece {
        'P' => Some(Piece::WhitePawn),
        'N' => Some(Piece::WhiteKnight),
        'B' => Some(Piece::WhiteBishop),
        'R' => Some(Piece::WhiteRook),
        'Q' => Some(Piece::WhiteQueen),
        'K' => Some(Piece::WhiteKing),
        'p' => Some(Piece::BlackPawn),
        'n' => Some(Piece::BlackKnight),
        'b' => Some(Piece::BlackBishop),
        'r' => Some(Piece::BlackRook),
        'q' => Some(Piece::BlackQueen),
        'k' => Some(Piece::BlackKing),
        _ => None,
    }
}

} // verus!
