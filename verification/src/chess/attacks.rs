//! Which pieces attack a square.

use vstd::prelude::*;
use crate::chess::board::Board;
use crate::chess::geometry::{hits, lemma_clear_sym};
use crate::chess::types::color::Color;
use crate::chess::types::piece::BasePiece;
use crate::chess::types::square::Square;
use crate::general::bits::{group_bits, lemma_empty, lemma_lowest, lowest, member};
use crate::precomputed::accessor::{bishop_lookup, rook_lookup, Precomputed};
use crate::precomputed::generators::movement_mask::row_ok;

verus! {

/// The squares from which a piece of `by` attacks `square` over the occupancy `occupied`.
pub fn attackers_of(board: &Board, tables: &Precomputed, square: Square, by: Color, occupied: u64) -> (r: u64)
    requires
        board.wf_pieces(),
        board.occ_ok(),
        tables.wf(),
    ensures
        forall|t: int|
            0 <= t < 64 ==> (#[trigger] member(r, t) <==> (board@.pieces[t].of_side(by) && hits(
                board@.pieces[t].kind(),
                by,
                occupied,
                t,
                square.idx(),
            ))),
{
    let pawns: u64 = tables.movement_masks.pawn_attacks(by.not(), square) & board.bitboard(BasePiece::Pawn, by);
    let knights: u64 = tables.movement_masks.knight[square.index() as usize] & board.bitboard(
        BasePiece::Knight,
        by,
    );
    let kings: u64 = tables.movement_masks.king[square.index() as usize] & board.bitboard(BasePiece::King, by);
    let queens: u64 = board.bitboard(BasePiece::Queen, by);
    let diagonal: u64 = bishop_lookup(tables, square, occupied) & (board.bitboard(BasePiece::Bishop, by)
        | queens);
    let orthogonal: u64 = rook_lookup(tables, square, occupied) & (board.bitboard(BasePiece::Rook, by)
        | queens);
    let r: u64 = pawns | knights | kings | diagonal | orthogonal;
    proof {
        broadcast use group_bits;
        let a = square.idx();
        square.lemma_idx();
        assert(row_ok(&tables.movement_masks, a));
        assert forall|t: int| 0 <= t < 64 implies (#[trigger] member(r, t) <==> (board@.pieces[t].of_side(by)
            && hits(board@.pieces[t].kind(), by, occupied, t, a))) by {
            board.lemma_square(t);
            lemma_clear_sym(occupied, a, t);
            let c = 6 * by.idx();
            assert(member(board.bbs()[c].0, t) <==> board@.pieces[t].idx() == c);
            assert(member(board.bbs()[c + 1].0, t) <==> board@.pieces[t].idx() == c + 1);
            assert(member(board.bbs()[c + 2].0, t) <==> board@.pieces[t].idx() == c + 2);
            assert(member(board.bbs()[c + 3].0, t) <==> board@.pieces[t].idx() == c + 3);
            assert(member(board.bbs()[c + 4].0, t) <==> board@.pieces[t].idx() == c + 4);
            assert(member(board.bbs()[c + 5].0, t) <==> board@.pieces[t].idx() == c + 5);
            assert(member(pawns, t) <==> (board@.pieces[t].idx() == c && hits(0, by, occupied, t, a)));
            assert(member(knights, t) <==> (board@.pieces[t].idx() == c + 1 && hits(1, by, occupied, t, a)));
            assert(member(kings, t) <==> (board@.pieces[t].idx() == c + 5 && hits(5, by, occupied, t, a)));
            assert(member(diagonal, t) <==> ((board@.pieces[t].idx() == c + 2 || board@.pieces[t].idx() == c
                + 4) && hits(2, by, occupied, t, a)));
            assert(member(orthogonal, t) <==> ((board@.pieces[t].idx() == c + 3 || board@.pieces[t].idx() == c
                + 4) && hits(3, by, occupied, t, a)));
        }
    }
    r
}

/// Whether a piece of `by` attacks `square`.
pub fn is_attacked(board: &Board, tables: &Precomputed, square: Square, by: Color) -> (r: bool)
    requires
        board.wf_pieces(),
        board.occ_ok(),
        tables.wf(),
    ensures
        r == board@.attacked(by, square.idx()),
{
    let attackers: u64 = attackers_of(board, tables, square, by, board.occupancy());
    proof {
        board.lemma_occ();
        broadcast use group_bits;
        if attackers != 0 {
            lemma_lowest(attackers);
            let t = lowest(attackers);
            assert(member(attackers, t));
            assert(board@.attacks(by, t, square.idx()));
        } else {
            assert forall|t: int| 0 <= t < 64 implies !#[trigger] board@.attacks(by, t, square.idx()) by {
                assert(!member(attackers, t));
            }
        }
    }
    attackers != 0
}

} // verus!
