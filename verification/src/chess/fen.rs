//! Positions written as text: the placement of the pieces from the eighth
//! rank down, then, each optional, the side to move, the castling rights, the
//! en-passant square and the half-move clock. What follows is not read.

use vstd::prelude::*;
use vstd::slice::slice_subrange;
use crate::chess::position::Position;
use crate::chess::types::color::Color;
use crate::chess::types::file::File;
use crate::chess::types::piece::{char_to_piece, piece_of_char, Piece};
use crate::general::text::{fields, number, parse_number, split_fields};

verus! {

/// A position as it is read from a text.
pub struct Setup {
    pub pieces: [Piece; 64],
    pub side: Color,
    pub castling: u8,
    pub ep_file: File,
    pub ep_valid: bool,
    pub half_move: u8,
}

impl View for Setup {
    type V = Position;

    open spec fn view(&self) -> Position {
        Position {
            pieces: self.pieces@,
            side: self.side,
            castling: self.castling,
            ep_file: self.ep_file,
            ep_valid: self.ep_valid,
            half_move: self.half_move,
        }
    }
}

/// 64 empty squares.
pub open spec fn empty_board() -> Seq<Piece> {
    Seq::new(64, |i: int| Piece::NoPiece)
}

/// The pieces that the placement text `s` puts on the board, read from the place `i` on, with
/// the squares before `file` on `rank` and the ranks above already in `pieces`. A letter puts
/// a piece, a digit leaves as many squares empty, a stroke ends a rank of eight squares.
pub open spec fn place(s: Seq<u8>, i: int, rank: int, file: int, pieces: Seq<Piece>) -> Option<Seq<Piece>>
    decreases s.len() - i,
{
    if i < 0 || i >= s.len() {
        if rank == 0 && file == 8 {
            Some(pieces)
        } else {
            None
        }
    } else if s[i] == 47 {
        if file == 8 && rank > 0 {
            place(s, i + 1, rank - 1, 0, pieces)
        } else {
            None
        }
    } else if 49 <= s[i] <= 56 {
        if file + (s[i] - 48) <= 8 {
            place(s, i + 1, rank, file + (s[i] - 48), pieces)
        } else {
            None
        }
    } else {
        match piece_of_char(s[i] as char) {
            Some(piece) => if file < 8 {
                place(s, i + 1, rank, file + 1, pieces.update(rank * 8 + file, piece))
            } else {
                None
            },
            None => None,
        }
    }
}

/// The pieces that the placement text `s` puts on the board.
pub open spec fn placement(s: Seq<u8>) -> Option<Seq<Piece>> {
    place(s, 0, 7, 0, empty_board())
}

/// How often `piece` stands on the squares below `n`.
pub open spec fn count_piece(pieces: Seq<Piece>, piece: Piece, n: int) -> nat
    decreases n,
{
    if n <= 0 {
        0
    } else {
        count_piece(pieces, piece, n - 1) + if pieces[n - 1] == piece {
            1nat
        } else {
            0nat
        }
    }
}

/// The side that the text names: `w` or `b`.
pub open spec fn side_of(s: Seq<u8>) -> Option<Color> {
    if s.len() == 1 && s[0] == 119 {
        Some(Color::White)
    } else if s.len() == 1 && s[0] == 98 {
        Some(Color::Black)
    } else {
        None
    }
}

/// The castling right that a letter stands for, 0 for a dash.
pub open spec fn right_of(c: u8) -> Option<u8> {
    if c == 75 {
        Some(1u8)
    } else if c == 81 {
        Some(2u8)
    } else if c == 107 {
        Some(4u8)
    } else if c == 113 {
        Some(8u8)
    } else if c == 45 {
        Some(0u8)
    } else {
        None
    }
}

/// The castling rights that the first `n` letters of `s` give.
pub open spec fn rights(s: Seq<u8>, n: int) -> Option<u8>
    decreases n,
{
    if n <= 0 {
        Some(0u8)
    } else {
        match (rights(s, n - 1), right_of(s[n - 1])) {
            (Some(before), Some(one)) => Some(before | one),
            _ => None,
        }
    }
}

/// The en-passant file that the text gives: none for a dash, the file of a square on the third
/// or sixth rank else.
pub open spec fn ep_of(s: Seq<u8>) -> Option<Option<File>> {
    if s.len() == 1 && s[0] == 45 {
        Some(None)
    } else if s.len() == 2 && (s[1] == 51 || s[1] == 54) {
        match File::of_letter(s[0]) {
            Some(file) => Some(Some(file)),
            None => None,
        }
    } else {
        None
    }
}

/// The position that the text `s` describes, if it describes one with one king for each side.
pub open spec fn fen_position(s: Seq<u8>) -> Option<Position> {
    let f = fields(s);
    if f.len() == 0 {
        None
    } else {
        let side = if f.len() > 1 {
            side_of(f[1])
        } else {
            Some(Color::White)
        };
        let castling = if f.len() > 2 {
            rights(f[2], f[2].len() as int)
        } else {
            Some(0u8)
        };
        let ep = if f.len() > 3 {
            ep_of(f[3])
        } else {
            Some(None)
        };
        let half = if f.len() > 4 {
            number(f[4], 255)
        } else {
            Some(0int)
        };
        match (placement(f[0]), side, castling, ep, half) {
            (Some(pieces), Some(side), Some(castling), Some(ep), Some(half)) => if count_piece(
                pieces,
                Piece::WhiteKing,
                64,
            ) == 1 && count_piece(pieces, Piece::BlackKing, 64) == 1 {
                Some(
                    Position {
                        pieces,
                        side,
                        castling,
                        ep_file: match ep {
                            Some(file) => file,
                            None => File::A,
                        },
                        ep_valid: ep.is_some(),
                        half_move: half as u8,
                    },
                )
            } else {
                None
            },
            _ => None,
        }
    }
}

fn parse_placement(text: &[u8]) -> (r: Option<[Piece; 64]>)
    ensures
        match r {
            Some(pieces) => placement(text@) == Some(pieces@),
            None => placement(text@).is_none(),
        },
{
    let mut pieces: [Piece; 64] = [Piece::NoPiece; 64];
    let mut rank: u8 = 7;
    let mut file: u8 = 0;
    let mut i: usize = 0;
    assert(pieces@ =~= empty_board());
    while i < text.len()
        invariant
            i <= text.len(),
            rank <= 7,
            file <= 8,
            place(text@, i as int, rank as int, file as int, pieces@) == placement(text@),
        decreases text.len() - i,
    {
        let c: u8 = text[i];
        if c == 47 {
            if file == 8 && rank > 0 {
                rank -= 1;
                file = 0;
            } else {
                return None;
            }
        } else if 49 <= c && c <= 56 {
            if file + (c - 48) <= 8 {
                file += c - 48;
            } else {
                return None;
            }
        } else {
            match char_to_piece(c as char) {
                Some(piece) => {
                    if file < 8 {
                        let ghost before = pieces@;
                        pieces[(rank * 8 + file) as usize] = piece;
                        assert(pieces@ =~= before.update(rank * 8 + file, piece));
                        file += 1;
                    } else {
                        return None;
                    }
                },
                None => {
                    return None;
                },
            }
        }
        i += 1;
    }
    if rank == 0 && file == 8 {
        Some(pieces)
    } else {
        None
    }
}

fn count_on_board(pieces: &[Piece; 64], piece: Piece) -> (r: u8)
    ensures
        r == count_piece(pieces@, piece, 64),
{
    let mut r: u8 = 0;
    let mut i: usize = 0;
    while i < 64
        invariant
            i <= 64,
            r <= i,
            r == count_piece(pieces@, piece, i as int),
        decreases 64 - i,
    {
        if pieces[i] == piece {
            r += 1;
        }
        i += 1;
    }
    r
}

fn parse_rights(text: &[u8]) -> (r: Option<u8>)
    ensures
        r == rights(text@, text@.len() as int),
        r matches Some(v) ==> v < 16,
{
    let mut value: u8 = 0;
    let mut i: usize = 0;
    while i < text.len()
        invariant
            i <= text.len(),
            value < 16,
            rights(text@, i as int) == Some(value),
        decreases text.len() - i,
    {
        let c: u8 = text[i];
        let one: u8 = if c == 75 {
            1
        } else if c == 81 {
            2
        } else if c == 107 {
            4
        } else if c == 113 {
            8
        } else if c == 45 {
            0
        } else {
            proof {
                lemma_rights_fail(text@, i as int + 1, text@.len() as int);
            }
            return None;
        };
        proof {
            assert(value < 16 && one < 16 ==> (value | one) < 16) by (bit_vector);
        }
        value = value | one;
        i += 1;
    }
    Some(value)
}

proof fn lemma_rights_fail(s: Seq<u8>, n: int, m: int)
    requires
        0 <= n <= m,
        rights(s, n).is_none(),
    ensures
        rights(s, m).is_none(),
    decreases m - n,
{
    if n < m {
        lemma_rights_fail(s, n, m - 1);
    }
}

fn parse_side(text: &[u8]) -> (r: Option<Color>)
    ensures
        r == side_of(text@),
{
    if text.len() == 1 && text[0] == 119 {
        Some(Color::White)
    } else if text.len() == 1 && text[0] == 98 {
        Some(Color::Black)
    } else {
        None
    }
}

fn parse_ep(text: &[u8]) -> (r: Option<Option<File>>)
    ensures
        r == ep_of(text@),
{
    if text.len() == 1 && text[0] == 45 {
        Some(None)
    } else if text.len() == 2 && (text[1] == 51 || text[1] == 54) {
        match File::from_byte(text[0]) {
            Some(file) => Some(Some(file)),
            None => None,
        }
    } else {
        None
    }
}

/// Reads a position from its text.
pub fn parse_fen(text: &[u8]) -> (r: Option<Setup>)
    ensures
        match r {
            Some(setup) => fen_position(text@) == Some(setup@) && setup@.ok() && count_piece(
                setup@.pieces,
                Piece::WhiteKing,
                64,
            ) == 1 && count_piece(setup@.pieces, Piece::BlackKing, 64) == 1,
            None => fen_position(text@).is_none(),
        },
{
    let parts = split_fields(text);
    if parts.len() == 0 {
        return None;
    }
    let ghost f = fields(text@);
    let pieces = match parse_placement(slice_subrange(text, parts[0].0, parts[0].1)) {
        Some(pieces) => pieces,
        None => {
            return None;
        },
    };
    let side = if parts.len() > 1 {
        match parse_side(slice_subrange(text, parts[1].0, parts[1].1)) {
            Some(side) => side,
            None => {
                return None;
            },
        }
    } else {
        Color::White
    };
    let castling: u8 = if parts.len() > 2 {
        match parse_rights(slice_subrange(text, parts[2].0, parts[2].1)) {
            Some(castling) => castling,
            None => {
                return None;
            },
        }
    } else {
        0
    };
    let ep: Option<File> = if parts.len() > 3 {
        match parse_ep(slice_subrange(text, parts[3].0, parts[3].1)) {
            Some(ep) => ep,
            None => {
                return None;
            },
        }
    } else {
        None
    };
    let half: u32 = if parts.len() > 4 {
        match parse_number(slice_subrange(text, parts[4].0, parts[4].1), 255) {
            Some(half) => half,
            None => {
                return None;
            },
        }
    } else {
        0
    };
    if count_on_board(&pieces, Piece::WhiteKing) != 1 || count_on_board(&pieces, Piece::BlackKing) != 1 {
        return None;
    }
    Some(
        Setup {
            pieces,
            side,
            castling,
            ep_file: match ep {
                Some(file) => file,
                None => File::A,
            },
            ep_valid: ep.is_some(),
            half_move: half as u8,
        },
    )
}

} // verus!
