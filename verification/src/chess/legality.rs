//! Why the squares that answer a check, the rays of pinned pieces and the
//! squares that the other side attacks leave no legal move out: a move that
//! ignores them leaves the king attacked.

use vstd::prelude::*;
use crate::chess::geometry::{between, bishop_line, clear_between, dist, hits, king_step, knight_step, lemma_between_sym, lemma_clear_sym, queen_line, rook_line};
use crate::chess::move_ply::MovePly;
use crate::chess::position::{ep_victim, lemma_occ_bits, Position};
use crate::chess::types::color::Color;
use crate::chess::types::move_flag::MoveFlag;
use crate::chess::types::piece::Piece;
use crate::general::bits::{bit, group_bits, member};

verus! {

/// The flag bits of the move name a flag, so that the move is known by its squares and its flag.
pub open spec fn canonical(mv: MovePly) -> bool {
    mv.flag_idx() <= 8
}

pub proof fn lemma_canonical(mv: MovePly)
    requires
        canonical(mv),
    ensures
        mv == MovePly::of(mv.from_idx(), mv.to_idx(), mv.spec_flag()),
{
    mv.lemma_ranges();
    MovePly::lemma_of(mv.from_idx(), mv.to_idx(), mv.spec_flag());
    mv.spec_flag().lemma_idx();
    MovePly::of(mv.from_idx(), mv.to_idx(), mv.spec_flag()).lemma_same(mv);
}

/// A square is in the occupancy of a position exactly if a piece stands on it.
pub proof fn lemma_occ(pos: Position, u: int)
    requires
        pos.pieces.len() == 64,
    ensures
        member(pos.occ(), u) <==> (0 <= u < 64 && pos.pieces[u].occupied()),
{
    lemma_occ_bits(pos.pieces, 64, u);
}

/// What stands on the square `u` after a move that is no move of the king: the piece that
/// moved or what it became on the square it reached, nothing on the square it left and on
/// the square of a pawn taken en passant, and what stood there before everywhere else.
pub proof fn lemma_after_square(pos: Position, mv: MovePly, u: int)
    requires
        pos.ok(),
        pos.applicable(mv),
        pos.pieces[mv.from_idx()].kind() != 5,
        0 <= u < 64,
    ensures
        pos.make(mv).pieces.len() == 64,
        u == mv.to_idx() ==> pos.make(mv).pieces[u].of_side(pos.side) && pos.make(mv).pieces[u].kind() != 5,
        u != mv.to_idx() && (u == mv.from_idx() || (mv.spec_flag() == MoveFlag::EnPassantCapture && u == ep_victim(
            pos.side,
            pos.ep_file,
        ))) ==> pos.make(mv).pieces[u] == Piece::NoPiece,
        u != mv.to_idx() && u != mv.from_idx() && !(mv.spec_flag() == MoveFlag::EnPassantCapture && u == ep_victim(
            pos.side,
            pos.ep_file,
        )) ==> pos.make(mv).pieces[u] == pos.pieces[u],
{
    mv.lemma_ranges();
    pos.ep_file.lemma_idx();
    pos.pieces[mv.from_idx()].lemma_idx();
    mv.spec_flag().lemma_idx();
}

/// A piece that attacks the king goes on attacking it after a move that neither moves the
/// king, nor takes the piece, nor puts something between the two.
pub proof fn lemma_check_stays(pos: Position, mv: MovePly, k: int, c: int)
    requires
        pos.ok(),
        pos.applicable(mv),
        pos.pieces[mv.from_idx()].kind() != 5,
        0 <= k < 64,
        0 <= c < 64,
        pos.pieces[k] == Piece::make(5, pos.side),
        pos.attacks(pos.side.flip(), c, k),
        mv.to_idx() != c,
        !between(k, mv.to_idx(), c),
        !(mv.spec_flag() == MoveFlag::EnPassantCapture && c == ep_victim(pos.side, pos.ep_file)),
    ensures
        pos.make(mv).exposed(pos.side),
{
    let after = pos.make(mv);
    let them = pos.side.flip();
    mv.lemma_ranges();
    lemma_after_square(pos, mv, k);
    lemma_after_square(pos, mv, c);
    pos.pieces[c].lemma_idx();
    assert(after.pieces[k] == pos.pieces[k]);
    assert(after.pieces[c] == pos.pieces[c]);
    assert(clear_between(pos.occ(), c, k) ==> clear_between(after.occ(), c, k)) by {
        if clear_between(pos.occ(), c, k) {
            assert forall|u: int| 0 <= u < 64 && #[trigger] between(c, u, k) implies !member(after.occ(), u) by {
                lemma_between_sym(c, u, k);
                lemma_after_square(pos, mv, u);
                lemma_occ(pos, u);
                lemma_occ(after, u);
            }
        }
    }
    assert(after.attacks(them, c, k));
    assert(after.attacked(them, k));
    assert(after.king_hit(pos.side, k));
}

/// A pinned piece that leaves the line between its king and the piece that pins it, without
/// taking that piece, leaves the king attacked. The pinning piece `p` is a rook, bishop or queen
/// of the other side on a line of its own with the king, and the square that the move
/// leaves is the one occupied square between the two.
pub proof fn lemma_pin_holds(pos: Position, mv: MovePly, k: int, p: int)
    requires
        pos.ok(),
        pos.applicable(mv),
        pos.pieces[mv.from_idx()].kind() != 5,
        0 <= k < 64,
        0 <= p < 64,
        pos.pieces[k] == Piece::make(5, pos.side),
        pos.pieces[p].of_side(pos.side.flip()),
        (rook_line(k, p) && (pos.pieces[p].kind() == 3 || pos.pieces[p].kind() == 4)) || (bishop_line(k, p) && (
        pos.pieces[p].kind() == 2 || pos.pieces[p].kind() == 4)),
        between(k, mv.from_idx(), p),
        forall|u: int| 0 <= u < 64 && #[trigger] between(k, u, p) ==> (pos.pieces[u].occupied() <==> u == mv.from_idx()),
        mv.to_idx() != p,
        !between(k, mv.to_idx(), p),
        !(mv.spec_flag() == MoveFlag::EnPassantCapture && p == ep_victim(pos.side, pos.ep_file)),
    ensures
        pos.make(mv).exposed(pos.side),
{
    let after = pos.make(mv);
    let them = pos.side.flip();
    mv.lemma_ranges();
    lemma_after_square(pos, mv, k);
    lemma_after_square(pos, mv, p);
    pos.pieces[p].lemma_idx();
    assert(after.pieces[k] == pos.pieces[k]);
    assert(after.pieces[p] == pos.pieces[p]);
    assert forall|u: int| 0 <= u < 64 && #[trigger] between(p, u, k) implies !member(after.occ(), u) by {
        lemma_between_sym(p, u, k);
        lemma_after_square(pos, mv, u);
        lemma_occ(after, u);
    }
    assert(clear_between(after.occ(), p, k));
    assert(after.attacks(them, p, k));
    assert(after.attacked(them, k));
    assert(after.king_hit(pos.side, k));
}

/// A knight on the line between two squares reaches neither the farther of them nor a
/// square between them.
pub proof fn lemma_knight_leaves_line(k: int, from: int, to: int, p: int)
    requires
        0 <= k < 64,
        0 <= from < 64,
        0 <= to < 64,
        0 <= p < 64,
        between(k, from, p),
        knight_step(from, to),
    ensures
        to != p,
        !between(k, to, p),
{
}

/// A king that steps onto a square which a piece of the other side attacks once the king is
/// off its square is attacked there.
pub proof fn lemma_king_walks_into(pos: Position, mv: MovePly, a: int)
    requires
        pos.ok(),
        pos.applicable(mv),
        pos.pieces[mv.from_idx()] == Piece::make(5, pos.side),
        mv.spec_flag() == MoveFlag::Quiet,
        0 <= a < 64,
        pos.pieces[a].of_side(pos.side.flip()),
        hits(pos.pieces[a].kind(), pos.side.flip(), pos.occ() & !bit(mv.from_idx()), a, mv.to_idx()),
    ensures
        pos.make(mv).exposed(pos.side),
{
    let after = pos.make(mv);
    let them = pos.side.flip();
    let from = mv.from_idx();
    let to = mv.to_idx();
    mv.lemma_ranges();
    pos.pieces[a].lemma_idx();
    assert(after.pieces =~= pos.pieces.update(from, Piece::NoPiece).update(to, pos.pieces[from]));
    assert(a != to);
    assert(after.pieces[a] == pos.pieces[a]);
    assert(after.pieces[to] == Piece::make(5, pos.side));
    broadcast use group_bits;
    assert(clear_between(pos.occ() & !bit(from), a, to) ==> clear_between(after.occ(), a, to)) by {
        if clear_between(pos.occ() & !bit(from), a, to) {
            assert forall|u: int| 0 <= u < 64 && #[trigger] between(a, u, to) implies !member(after.occ(), u) by {
                lemma_occ(pos, u);
                lemma_occ(after, u);
                assert(!member(pos.occ() & !bit(from), u));
            }
        }
    }
    assert(after.attacks(them, a, to));
    assert(after.attacked(them, to));
    assert(after.king_hit(pos.side, to));
}

/// Of two pieces that both attack the king, no move of another piece takes or blocks both.
pub proof fn lemma_two_checks(pos: Position, mv: MovePly, k: int, c1: int, c2: int)
    requires
        pos.ok(),
        pos.applicable(mv),
        pos.pieces[mv.from_idx()].kind() != 5,
        0 <= k < 64,
        0 <= c1 < 64,
        0 <= c2 < 64,
        c1 != c2,
        pos.pieces[k] == Piece::make(5, pos.side),
        pos.attacks(pos.side.flip(), c1, k),
        pos.attacks(pos.side.flip(), c2, k),
        mv.spec_flag() != MoveFlag::EnPassantCapture,
    ensures
        pos.make(mv).exposed(pos.side),
{
    let to = mv.to_idx();
    mv.lemma_ranges();
    pos.pieces[c1].lemma_idx();
    pos.pieces[c2].lemma_idx();
    lemma_occ(pos, c1);
    lemma_occ(pos, c2);
    if to != c1 && !between(k, to, c1) {
        lemma_check_stays(pos, mv, k, c1);
    } else if to != c2 && !between(k, to, c2) {
        lemma_check_stays(pos, mv, k, c2);
    } else {
        // one of the two would stand between the king and the other, which then gives no check
        lemma_between_sym(c1, c2, k);
        lemma_between_sym(c2, c1, k);
        if between(k, c1, c2) {
            assert(between(c2, c1, k));
        }
        if between(k, c2, c1) {
            assert(between(c1, c2, k));
        }
        assert(false);
    }
}

} // verus!
