//! What a move destroys, kept so that the move can be taken back.

use vstd::prelude::*;
use crate::chess::move_ply::MovePly;
use crate::chess::types::file::File;
use crate::chess::types::piece::Piece;

verus! {

#[derive(Clone, Copy, PartialEq, Eq, Structural, Debug)]
pub struct BoardState {
    pub played: MovePly,
    pub captured: Piece,
    pub half_move_clock: u8,
    pub castling_rights: u8,
    pub en_passant_file: File,
    pub can_en_passant: bool,
    pub zobrist: u64,
}

impl Default for BoardState {
    fn default() -> (r: BoardState)
        ensures
            r.played.bits() == 0,
            r.captured == Piece::NoPiece,
            r.half_move_clock == 0,
            r.castling_rights == 0,
            r.en_passant_file == File::A,
            !r.can_en_passant,
            r.zobrist == 0,
    {
        BoardState {
            played: MovePly::default(),
            captured: Piece::NoPiece,
            half_move_clock: 0,
            castling_rights: 0,
            en_passant_file: File::A,
            can_en_passant: false,
            zobrist: 0,
        }
    }
}

} // verus!
