//! Static exchange evaluation: what a capture wins or loses when both sides go
//! on to take on the same square, each time with the piece of least value.

use vstd::prelude::*;
use crate::chess::attacks::attackers_of;
use crate::chess::board::Board;
use crate::chess::geometry::hits;
use crate::chess::types::color::Color;
use crate::chess::types::piece::{kind_value, BasePiece, Piece};
use crate::chess::types::square::Square;
use crate::general::bits;
use crate::general::bits::{bit, group_bits, lemma_lowest, lowest, member};
use crate::engine::eval::nnue::clamp16;
use crate::precomputed::accessor::Precomputed;

verus! {

/// Whether a piece of kind `kind` and of `side` stands on `t`, is still in `occ`, and attacks `sq`.
pub open spec fn is_attacker(pieces: Seq<Piece>, occ: u64, side: Color, sq: int, kind: int, t: int) -> bool {
    member(occ, t) && pieces[t] == Piece::make(kind, side) && hits(kind, side, occ, t, sq)
}

/// The lowest square from `t` on that holds an attacker of kind `kind`; 64 if there is none.
pub open spec fn first_attacker(pieces: Seq<Piece>, occ: u64, side: Color, sq: int, kind: int, t: int) -> int
    decreases 64 - t,
{
    if t >= 64 {
        64
    } else if is_attacker(pieces, occ, side, sq, kind, t) {
        t
    } else {
        first_attacker(pieces, occ, side, sq, kind, t + 1)
    }
}

/// The attacker of least value: the lowest kind from `kind` on that has an attacker, with the
/// lowest square of such an attacker.
pub open spec fn least_attacker(pieces: Seq<Piece>, occ: u64, side: Color, sq: int, kind: int) -> Option<
    (int, int),
>
    decreases 6 - kind,
{
    if kind >= 6 {
        None
    } else if first_attacker(pieces, occ, side, sq, kind, 0) < 64 {
        Some((kind, first_attacker(pieces, occ, side, sq, kind, 0)))
    } else {
        least_attacker(pieces, occ, side, sq, kind + 1)
    }
}

/// The gain after the exchange on `sq` has gone on from `gain`: `side` takes next, with its
/// attacker of least value, the piece of kind `on_square` that stands there now. What the side
/// `start` takes counts for it, what the other side takes against it. At most `fuel` captures
/// follow.
pub open spec fn exchange(
    pieces: Seq<Piece>,
    occ: u64,
    sq: int,
    side: Color,
    start: Color,
    on_square: int,
    gain: int,
    fuel: nat,
) -> int
    decreases fuel,
{
    if fuel == 0 {
        gain
    } else {
        match least_attacker(pieces, occ, side, sq, 0) {
            None => gain,
            Some((kind, t)) => exchange(
                pieces,
                occ & !bit(t),
                sq,
                side.flip(),
                start,
                kind,
                if side == start {
                    gain + kind_value(on_square)
                } else {
                    gain - kind_value(on_square)
                },
                (fuel - 1) as nat,
            ),
        }
    }
}

/// The value of the exchange that the piece on `from` begins by taking on `to`: 0 if one of
/// the two squares is empty.
pub open spec fn see_value(board: &Board, from: int, to: int) -> int {
    if !board@.pieces[to].occupied() || !board@.pieces[from].occupied() {
        0
    } else {
        exchange(
            board@.pieces,
            board.occ_all() & !bit(from),
            to,
            board@.side.flip(),
            board@.side,
            board@.pieces[from].kind(),
            kind_value(board@.pieces[to].kind()),
            64,
        )
    }
}

/// The lowest square of a set described by a predicate is the first square that satisfies it.
proof fn lemma_first(pieces: Seq<Piece>, occ: u64, side: Color, sq: int, kind: int, mask: u64, t: int)
    requires
        0 <= t <= 64,
        forall|u: int| 0 <= u < 64 ==> (member(mask, u) <==> is_attacker(pieces, occ, side, sq, kind, u)),
        forall|u: int| 0 <= u < t ==> !member(mask, u),
    ensures
        first_attacker(pieces, occ, side, sq, kind, t) == lowest(mask),
    decreases 64 - t,
{
    lemma_lowest(mask);
    if t < 64 {
        if is_attacker(pieces, occ, side, sq, kind, t) {
            assert(member(mask, t));
        } else {
            lemma_first(pieces, occ, side, sq, kind, mask, t + 1);
        }
    } else {
        if mask != 0 {
            assert(member(mask, lowest(mask)));
        }
    }
}

/// The value of a piece of kind `kind` in centipawns.
pub fn piece_value(kind: BasePiece) -> (r: i32)
    ensures
        r == kind_value(kind.idx()),
{
    match kind {
        BasePiece::Pawn => 100,
        BasePiece::Knight => 320,
        BasePiece::Bishop => 320,
        BasePiece::Rook => 500,
        BasePiece::Queen => 1000,
        BasePiece::King => 10000,
    }
}

/// The attacker of least value of `side` on `square` over `occupancy`: its kind and its square.
fn next_attacker(board: &Board, tables: &Precomputed, square: Square, side: Color, occupancy: u64) -> (r: Option<
    (BasePiece, Square),
>)
    requires
        board.wf_pieces(),
        board.occ_ok(),
        tables.wf(),
    ensures
        match r {
            Some((kind, t)) => least_attacker(board@.pieces, occupancy, side, square.idx(), 0) == Some(
                (kind.idx(), t.idx()),
            ),
            None => least_attacker(board@.pieces, occupancy, side, square.idx(), 0).is_none(),
        },
{
    let found: u64 = attackers_of(board, tables, square, side, occupancy);
    let all: u64 = found & occupancy;
    proof {
        broadcast use group_bits;
        assert forall|t: int| 0 <= t < 64 implies (#[trigger] member(all, t) <==> (member(occupancy, t)
            && board@.pieces[t].of_side(side) && hits(
            board@.pieces[t].kind(),
            side,
            occupancy,
            t,
            square.idx(),
        ))) by {
            assert(member(all, t) == (member(found, t) && member(occupancy, t)));
        }
    }
    let mut k: u8 = 0;
    while k < 6
        invariant
            k <= 6,
            board.wf_pieces(),
            board.occ_ok(),
            least_attacker(board@.pieces, occupancy, side, square.idx(), k as int) == least_attacker(
                board@.pieces,
                occupancy,
                side,
                square.idx(),
                0,
            ),
            forall|t: int|
                0 <= t < 64 ==> (#[trigger] member(all, t) <==> (member(occupancy, t) && board@.pieces[t].of_side(
                    side,
                ) && hits(board@.pieces[t].kind(), side, occupancy, t, square.idx()))),
        decreases 6 - k,
    {
        let kind = BasePiece::from_index(k);
        let mask: u64 = all & board.bitboard(kind, side);
        proof {
            broadcast use group_bits;
            let p = k as int + 6 * side.idx();
            assert forall|u: int| 0 <= u < 64 implies (member(mask, u) <==> is_attacker(
                board@.pieces,
                occupancy,
                side,
                square.idx(),
                k as int,
                u,
            )) by {
                board.lemma_square(u);
                assert(member(board.bbs()[p].0, u) <==> board@.pieces[u].idx() == p);
                Piece::lemma_of(p);
                board@.pieces[u].lemma_idx();
            }
            lemma_first(board@.pieces, occupancy, side, square.idx(), k as int, mask, 0);
            lemma_lowest(mask);
        }
        if mask != 0 {
            return Some((kind, Square::from_index(bits::next(mask))));
        }
        k += 1;
    }
    None
}

/// The value in centipawns of the exchange that the piece on `first_attacker_square`
/// begins by taking what stands on `square`, cut off to 16 bits.
pub fn see(first_attacker_square: Square, square: Square, board: &Board, tables: &Precomputed) -> (r: i16)
    requires
        board.wf_pieces(),
        board.occ_ok(),
        tables.wf(),
    ensures
        r == clamp16(see_value(board, first_attacker_square.idx(), square.idx())),
{
    let first_victim = board.piece_at(square);
    let first_attacker = board.piece_at(first_attacker_square);
    if !first_victim.is_piece() || !first_attacker.is_piece() {
        return 0;
    }
    let mut occupancy: u64 = board.occupancy() & !first_attacker_square.mask();
    let mut gain: i32 = piece_value(first_victim.base());
    let mut occupied_by_piece: BasePiece = first_attacker.base();
    let start_color = board.side_to_move();
    let mut side_to_move = board.side_to_move().not();
    let mut fuel: u8 = 64;
    let ghost total = see_value(board, first_attacker_square.idx(), square.idx());
    loop
        invariant_except_break
            exchange(
                board@.pieces,
                occupancy,
                square.idx(),
                side_to_move,
                start_color,
                occupied_by_piece.idx(),
                gain as int,
                fuel as nat,
            ) == total,
        invariant
            board.wf_pieces(),
            board.occ_ok(),
            tables.wf(),
            fuel <= 64,
            -10000 * (65 - fuel) <= gain <= 10000 * (65 - fuel),
        ensures
            gain == total,
        decreases fuel,
    {
        if fuel == 0 {
            break ;
        }
        let (piece, attacker_square) = match next_attacker(board, tables, square, side_to_move, occupancy) {
            Some(found) => found,
            None => {
                break ;
            },
        };
        if side_to_move == start_color {
            gain += piece_value(occupied_by_piece);
        } else {
            gain -= piece_value(occupied_by_piece);
        }
        occupied_by_piece = piece;
        occupancy = occupancy & !attacker_square.mask();
        side_to_move = side_to_move.not();
        fuel -= 1;
    }
    if gain > 32767 {
        32767
    } else if gain < -32768 {
        -32768
    } else {
        gain as i16
    }
}

} // verus!
