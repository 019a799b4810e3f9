//! Legal move generation.
//!
//! Candidates come from the attack tables, cut down by the squares that
//! answer a check and by the rays of pinned pieces. Each candidate is then
//! made and taken back once, and kept only if the king was not attacked in
//! between. So every move that `generate` hands out is legal. No legal move
//! is missing among the candidates, and none stands there twice: `generate`
//! hands out each legal move once (with `GEN_TACTICS`, each legal capture,
//! promotion and check).

use vstd::prelude::*;
use crate::chess::attacks::{attackers_of, is_attacked};
use crate::chess::board::Board;
use crate::chess::geometry::{between, bishop_line, hits, rook_line};
use crate::chess::move_list::{lemma_contains_tail, lemma_moves_below, lemma_moves_has, lemma_moves_rise, lemma_promotions_below, lemma_promotions_differ, lemma_promotions_has, moves_below, promotions_below, MoveList};
use crate::chess::move_ply::MovePly;
use crate::chess::perft::{lemma_moves_counted, nodes};
use crate::chess::position::{castle_squares, ep_victim, Position};
use crate::chess::types::color::Color;
use crate::chess::types::move_flag::MoveFlag;
use crate::chess::types::piece::{BasePiece, Piece};
use crate::chess::types::square::Square;
use crate::general::bits;
use crate::chess::legality::{canonical, lemma_after_square, lemma_canonical, lemma_check_stays, lemma_king_walks_into, lemma_knight_leaves_line, lemma_pin_holds, lemma_two_checks};
use crate::general::bits::{bit, group_bits, lemma_count_one, lemma_count_two, lemma_count_zero, lemma_empty, lemma_ext, lemma_lowest, lemma_test_bit, lowest, member, popcount};
use crate::precomputed::accessor::{bishop_lookup, queen_lookup, rook_lookup, slider_lookup, Precomputed};
use crate::precomputed::generators::movement_mask::row_ok;
use crate::precomputed::generators::zobrist::lemma_right_bits;

verus! {

pub struct MoveGenerator<const GENERATOR_TYPE: bool> {}

/// All legal moves.
pub const GEN_ALL: bool = false;

/// Captures, promotions and checks only.
pub const GEN_TACTICS: bool = true;

/// The board is in use and the tables are made.
pub open spec fn ready(board: &Board, tables: &Precomputed) -> bool {
    board.wf(&tables.zobrist) && tables.wf()
}

/// `longer` begins with the moves of `shorter`.
pub open spec fn extends(longer: Seq<MovePly>, shorter: Seq<MovePly>) -> bool {
    &&& shorter.len() <= longer.len()
    &&& forall|i: int| 0 <= i < shorter.len() ==> longer[i] == shorter[i]
}

/// From the place `start` on, each move of `list` fits `pos` and moves its piece as the rules say.
pub open spec fn all_fit(pos: Position, tactics: bool, list: Seq<MovePly>, start: int) -> bool {
    forall|i: int|
        start <= i < list.len() ==> pos.fits(#[trigger] list[i]) && canonical(list[i]) && (tactics
            ==> pos.tactical(list[i]))
}

/// With `tactics` the move is one that a quiescence search looks at. Without, any move is wanted.
pub open spec fn wanted(tactics: bool, pos: Position, from: int, to: int, flag: MoveFlag) -> bool {
    tactics ==> pos.tactical_at(from, to, flag)
}

/// From the place `start` on, each move of `list` is one that a quiescence search looks at.
pub open spec fn all_tactical(pos: Position, list: Seq<MovePly>, start: int) -> bool {
    forall|i: int| start <= i < list.len() ==> pos.tactical(#[trigger] list[i])
}

/// From the place `start` on, no move stands twice in `list`.
pub open spec fn no_repeat(list: Seq<MovePly>, start: int) -> bool {
    forall|i: int, j: int| start <= i < j < list.len() ==> #[trigger] list[i] != #[trigger] list[j]
}

/// From the place `start` on, each move of `list` leaves the square `from` for a square of
/// `mask`; its flag is `flag`, or it promotes if `promotes`.
pub open spec fn all_from(list: Seq<MovePly>, start: int, from: int, mask: u64, flag: MoveFlag, promotes: bool) -> bool {
    forall|i: int|
        start <= i < list.len() ==> (#[trigger] list[i]).from_idx() == from && member(mask, list[i].to_idx()) && (
        if promotes {
            list[i].spec_flag().promotion()
        } else {
            list[i].spec_flag() == flag
        })
}

/// From the place `start` on, each move of `list` leaves the square `from`.
pub open spec fn all_leave(list: Seq<MovePly>, start: int, from: int) -> bool {
    forall|i: int| start <= i < list.len() ==> (#[trigger] list[i]).from_idx() == from
}

/// From the place `start` on, each move of `list` moves a piece of kind `kind` of the side to move.
pub open spec fn all_kind(pos: Position, list: Seq<MovePly>, start: int, kind: int) -> bool {
    forall|i: int|
        start <= i < list.len() ==> pos.pieces[(#[trigger] list[i]).from_idx()] == Piece::make(kind, pos.side)
}

/// Whether `x` is the number of one of the first `n` of `squares`.
pub open spec fn seen(squares: Seq<Square>, n: int, x: int) -> bool {
    exists|j: int| 0 <= j < n && (#[trigger] squares[j]).idx() == x
}

/// From the place `start` on, each move of `list` leaves one of the first `n` of `squares`.
pub open spec fn all_seen(list: Seq<MovePly>, start: int, squares: Seq<Square>, n: int) -> bool {
    forall|i: int| start <= i < list.len() ==> seen(squares, n, (#[trigger] list[i]).from_idx())
}

/// Moves that a list gains for a square which none of its moves from `start` on leaves are new
/// to it: if neither those nor the moves before them repeat, the longer list does not repeat.
pub proof fn lemma_gain_for_square(
    longer: Seq<MovePly>,
    shorter: Seq<MovePly>,
    start: int,
    squares: Seq<Square>,
    n: int,
)
    requires
        0 <= start <= shorter.len(),
        extends(longer, shorter),
        no_repeat(shorter, start),
        no_repeat(longer, shorter.len() as int),
        all_seen(shorter, start, squares, n),
        0 <= n < squares.len(),
        all_leave(longer, shorter.len() as int, squares[n].idx()),
        forall|j: int, k: int| 0 <= j < squares.len() && 0 <= k < squares.len() && j != k ==> squares[j].idx() != squares[k].idx(),
    ensures
        no_repeat(longer, start),
        all_seen(longer, start, squares, n + 1),
{
    assert forall|i: int| start <= i < longer.len() implies seen(squares, n + 1, (#[trigger] longer[i]).from_idx()) by {
        if i < shorter.len() {
            assert(longer[i] == shorter[i]);
            let j = choose|j: int| 0 <= j < n && (#[trigger] squares[j]).idx() == shorter[i].from_idx();
            assert(0 <= j < n + 1 && squares[j].idx() == longer[i].from_idx());
        } else {
            assert(squares[n].idx() == longer[i].from_idx());
        }
    }
    assert forall|i: int, j: int| start <= i < j < longer.len() implies #[trigger] longer[i] != #[trigger] longer[j] by {
        if j < shorter.len() {
            assert(longer[i] == shorter[i] && longer[j] == shorter[j]);
        } else if i < shorter.len() {
            assert(longer[i] == shorter[i]);
            let k = choose|k: int| 0 <= k < n && (#[trigger] squares[k]).idx() == shorter[i].from_idx();
            assert(longer[j].from_idx() == squares[n].idx());
        }
    }
}

/// The class of a move among the moves of one pawn: a capture en passant, a promotion, a step
/// or a capture without promotion, or a double step; steps and captures apart.
pub open spec fn class_of(pos: Position, played: MovePly) -> int {
    let taken: int = if pos.pieces[played.to_idx()].occupied() {
        1
    } else {
        0
    };
    if played.spec_flag() == MoveFlag::EnPassantCapture {
        0
    } else if played.spec_flag().promotion() {
        1 + taken
    } else if played.spec_flag() == MoveFlag::Quiet {
        3 + taken
    } else if played.spec_flag() == MoveFlag::DoubleJump {
        5
    } else if played.spec_flag() == MoveFlag::CastleKingSide {
        6
    } else {
        7
    }
}

/// From the place `start` on, each move of `list` is of the class `class`.
pub open spec fn all_class(pos: Position, list: Seq<MovePly>, start: int, class: int) -> bool {
    forall|i: int| start <= i < list.len() ==> class_of(pos, #[trigger] list[i]) == class
}

/// From the place `start` on, no move of `list` is of the class `class`.
pub open spec fn none_class(pos: Position, list: Seq<MovePly>, start: int, class: int) -> bool {
    forall|i: int| start <= i < list.len() ==> class_of(pos, #[trigger] list[i]) != class
}

/// Moves of a class that a list does not hold from `start` on are new to it.
pub proof fn lemma_gain_of_class(pos: Position, longer: Seq<MovePly>, shorter: Seq<MovePly>, start: int, class: int)
    requires
        0 <= start <= shorter.len(),
        extends(longer, shorter),
        no_repeat(shorter, start),
        no_repeat(longer, shorter.len() as int),
        none_class(pos, shorter, start, class),
        all_class(pos, longer, shorter.len() as int, class),
    ensures
        no_repeat(longer, start),
{
    assert forall|i: int, j: int| start <= i < j < longer.len() implies #[trigger] longer[i] != #[trigger] longer[j] by {
        if j < shorter.len() {
            assert(longer[i] == shorter[i] && longer[j] == shorter[j]);
        } else if i < shorter.len() {
            assert(longer[i] == shorter[i]);
            assert(class_of(pos, shorter[i]) != class);
            assert(class_of(pos, longer[j]) == class);
        }
    }
}

/// What a list holds from `start` on it holds at the same places after it has grown.
pub proof fn lemma_grown(longer: Seq<MovePly>, shorter: Seq<MovePly>, start: int, from: int, pos: Position)
    requires
        0 <= start <= shorter.len(),
        extends(longer, shorter),
    ensures
        forall|class: int|
            none_class(pos, shorter, start, class) && #[trigger] none_class(pos, longer, shorter.len() as int, class)
                ==> none_class(pos, longer, start, class),
        all_leave(shorter, start, from) && all_leave(longer, shorter.len() as int, from) ==> all_leave(
            longer,
            start,
            from,
        ),
{
    assert forall|class: int|
        none_class(pos, shorter, start, class) && #[trigger] none_class(
            pos,
            longer,
            shorter.len() as int,
            class,
        ) implies none_class(pos, longer, start, class) by {
        assert forall|i: int| start <= i < longer.len() implies class_of(pos, #[trigger] longer[i]) != class by {
            if i < shorter.len() {
                assert(longer[i] == shorter[i]);
            }
        }
    }
    if all_leave(shorter, start, from) && all_leave(longer, shorter.len() as int, from) {
        assert forall|i: int| start <= i < longer.len() implies (#[trigger] longer[i]).from_idx() == from by {
            if i < shorter.len() {
                assert(longer[i] == shorter[i]);
            }
        }
    }
}

/// The place of a kind of piece in the order in which the moves are listed: pawns, knights,
/// the king, bishops, rooks, queens.
pub open spec fn turn_of(kind: int) -> int {
    if kind == 5 {
        2
    } else if kind <= 1 {
        kind
    } else {
        kind + 1
    }
}

/// Each move of `list` moves a piece whose kind comes before the place `turn`.
pub open spec fn kinds_before(pos: Position, list: Seq<MovePly>, turn: int) -> bool {
    forall|i: int| 0 <= i < list.len() ==> turn_of(pos.pieces[(#[trigger] list[i]).from_idx()].kind()) < turn
}

/// Moves of a kind of piece whose turn has not come yet are new to a list.
pub proof fn lemma_gain_of_kind(pos: Position, longer: Seq<MovePly>, shorter: Seq<MovePly>, kind: int)
    requires
        0 <= kind < 6,
        extends(longer, shorter),
        no_repeat(shorter, 0),
        no_repeat(longer, shorter.len() as int),
        all_kind(pos, longer, shorter.len() as int, kind),
        kinds_before(pos, shorter, turn_of(kind)),
    ensures
        no_repeat(longer, 0),
        kinds_before(pos, longer, turn_of(kind) + 1),
{
    Piece::lemma_of(kind + 6 * pos.side.idx());
    assert(Piece::make(kind, pos.side).kind() == kind);
    assert forall|i: int, j: int| 0 <= i < j < longer.len() implies #[trigger] longer[i] != #[trigger] longer[j] by {
        if j < shorter.len() {
            assert(longer[i] == shorter[i] && longer[j] == shorter[j]);
        } else if i < shorter.len() {
            assert(longer[i] == shorter[i]);
        }
    }
    assert forall|i: int| 0 <= i < longer.len() implies turn_of(pos.pieces[(#[trigger] longer[i]).from_idx()].kind())
        < turn_of(kind) + 1 by {
        if i < shorter.len() {
            assert(longer[i] == shorter[i]);
        }
    }
}

/// After `played` a bishop, a rook or a queen of the other side attacks the king of the side
/// that made the move.
pub open spec fn uncovers(pos: Position, played: MovePly) -> bool {
    let after = pos.make(played);
    exists|t: int, k: int|
        0 <= t < 64 && 0 <= k < 64 && after.pieces[k] == Piece::make(5, pos.side) && 2 <= after.pieces[t].kind() <= 4
            && #[trigger] after.attacks(pos.side.flip(), t, k)
}

/// A legal move uncovers no attack on the king.
pub proof fn lemma_legal_covers(pos: Position, played: MovePly)
    requires
        pos.legal(played),
    ensures
        !uncovers(pos, played),
{
    let after = pos.make(played);
    if uncovers(pos, played) {
        let (t, k) = choose|t: int, k: int|
            0 <= t < 64 && 0 <= k < 64 && after.pieces[k] == Piece::make(5, pos.side) && 2 <= after.pieces[t].kind() <= 4
                && #[trigger] after.attacks(pos.side.flip(), t, k);
        assert(after.attacked(pos.side.flip(), k));
        assert(after.king_hit(pos.side, k));
    }
}

/// The pawn on `from` may take en passant on `to`, and uncovers no attack on its king by that.
pub open spec fn takes_in_passing(pos: Position, from: int, to: int) -> bool {
    pos.fits_at(from, to, MoveFlag::EnPassantCapture) && !uncovers(
        pos,
        MovePly::of(from, to, MoveFlag::EnPassantCapture),
    )
}

/// From the place `start` on, no capture en passant in `list` uncovers an attack on the king.
pub open spec fn all_covered(pos: Position, list: Seq<MovePly>, start: int) -> bool {
    forall|i: int|
        start <= i < list.len() && (#[trigger] list[i]).spec_flag() == MoveFlag::EnPassantCapture ==> !uncovers(
            pos,
            list[i],
        )
}

/// What holds of two parts of a list holds of the whole.
pub proof fn lemma_covered_join(pos: Position, longer: Seq<MovePly>, shorter: Seq<MovePly>, start: int)
    requires
        0 <= start <= shorter.len(),
        extends(longer, shorter),
        all_covered(pos, shorter, start),
        all_covered(pos, longer, shorter.len() as int),
    ensures
        all_covered(pos, longer, start),
{
    assert forall|i: int|
        start <= i < longer.len() && (#[trigger] longer[i]).spec_flag() == MoveFlag::EnPassantCapture implies !uncovers(
        pos,
        longer[i],
    ) by {
        if i < shorter.len() {
            assert(longer[i] == shorter[i]);
        }
    }
}

/// Whether `played` is one of the first `n` moves of `list`.
pub open spec fn taken_below(list: Seq<MovePly>, n: int, played: MovePly) -> bool {
    exists|at: int| 0 <= at < n && #[trigger] list[at] == played
}

/// The move from `from` to `to` with `flag` is in `list`.
pub open spec fn emits(list: Seq<MovePly>, from: int, to: int, flag: MoveFlag) -> bool {
    list.contains(MovePly::of(from, to, flag))
}

/// What is in `shorter` is in `longer`.
pub open spec fn keeps(longer: Seq<MovePly>, shorter: Seq<MovePly>) -> bool {
    forall|played: MovePly| shorter.contains(played) ==> #[trigger] longer.contains(played)
}

pub proof fn lemma_extends_keeps(longer: Seq<MovePly>, shorter: Seq<MovePly>)
    requires
        extends(longer, shorter),
    ensures
        keeps(longer, shorter),
{
    assert forall|played: MovePly| shorter.contains(played) implies #[trigger] longer.contains(played) by {
        let i = choose|i: int| 0 <= i < shorter.len() && shorter[i] == played;
        assert(longer[i] == played);
    }
}

/// From the place `start` on, each move of `list` is legal in `pos`.
pub open spec fn all_legal(pos: Position, list: Seq<MovePly>, start: int) -> bool {
    forall|i: int| start <= i < list.len() ==> pos.legal(#[trigger] list[i]) && canonical(list[i])
}

/// A list that holds legal moves only and every legal move is empty exactly if the
/// position has no legal move.
pub proof fn lemma_no_move(pos: Position, list: Seq<MovePly>)
    requires
        all_legal(pos, list, 0),
        forall|played: MovePly| canonical(played) && pos.legal(played) ==> #[trigger] list.contains(played),
    ensures
        list.len() == 0 <==> forall|played: MovePly| canonical(played) ==> !#[trigger] pos.legal(played),
{
    if list.len() > 0 {
        assert(pos.legal(list[0]) && canonical(list[0]));
    } else {
        assert forall|played: MovePly| canonical(played) implies !#[trigger] pos.legal(played) by {
            if pos.legal(played) {
                assert(list.contains(played));
            }
        }
    }
}

/// The squares that a piece of kind `kind` and of `color` on `square` attacks over `occupied`.
fn attacks_from(tables: &Precomputed, kind: BasePiece, color: Color, square: Square, occupied: u64) -> (r: u64)
    requires
        tables.wf(),
    ensures
        forall|s: int| 0 <= s < 64 ==> (#[trigger] member(r, s) <==> hits(kind.idx(), color, occupied, square.idx(), s)),
{
    proof {
        square.lemma_idx();
        assert(row_ok(&tables.movement_masks, square.idx()));
    }
    match kind {
        BasePiece::Pawn => tables.movement_masks.pawn_attacks(color, square),
        BasePiece::Knight => tables.movement_masks.knight[square.index() as usize],
        BasePiece::Bishop => bishop_lookup(tables, square, occupied),
        BasePiece::Rook => rook_lookup(tables, square, occupied),
        BasePiece::Queen => queen_lookup(tables, square, occupied),
        BasePiece::King => tables.movement_masks.king[square.index() as usize],
    }
}

/// Makes `played` on `board` if it is legal there; else the board keeps its position. A move
/// whose flag bits name no flag is not made.
pub fn make_if_legal(board: &mut Board, played: MovePly, tables: &Precomputed) -> (r: bool)
    requires
        ready(old(board), tables),
    ensures
        ready(final(board), tables),
        r == (canonical(played) && old(board)@.legal(played)),
        r ==> final(board)@ == old(board)@.make(played) && final(board).past() == old(board).past().push(
            old(board)@,
        ),
        !r ==> final(board).same_position(old(board)),
{
    if played.packed_data() >> 12 > 8 {
        return false;
    }
    let mut move_list = MoveList::default();
    MoveGenerator::<GEN_ALL>::generate(board, &mut move_list, tables);
    if move_list.contains_move(played) {
        proof {
            let k = choose|k: int| 0 <= k < move_list@.len() && move_list@[k] == played;
            assert(old(board)@.legal(move_list@[k]));
        }
        board.make_move(&played, &tables.zobrist);
        return true;
    }
    false
}

impl<const GENERATOR_TYPE: bool> MoveGenerator<GENERATOR_TYPE> {
    /// Appends to `move_list` the legal moves of the side to move, and records on the board
    /// whether that side is in check. Every move that is appended is legal, and none is
    /// appended twice. With `GEN_ALL` every legal move is appended; with `GEN_TACTICS`
    /// captures, promotions and checks are. A list that was empty is then as long as the
    /// position has legal moves: the list grows with the position, and has no room of its own
    /// that the moves could exceed.
    pub fn generate(board: &mut Board, move_list: &mut MoveList, tables: &Precomputed)
        requires
            ready(old(board), tables),
        ensures
            ready(final(board), tables),
            final(board)@ == old(board)@,
            final(board).hash() == old(board).hash(),
            final(board).history() == old(board).history(),
            final(board).past() == old(board).past(),
            final(board).check_flag() == old(board)@.in_check(),
            extends(final(move_list)@, old(move_list)@),
            all_legal(old(board)@, final(move_list)@, old(move_list)@.len() as int),
            GENERATOR_TYPE == GEN_TACTICS ==> all_tactical(
                old(board)@,
                final(move_list)@,
                old(move_list)@.len() as int,
            ),
            forall|played: MovePly|
                canonical(played) && old(board)@.legal(played) && (GENERATOR_TYPE == GEN_TACTICS
                    ==> old(board)@.tactical(played)) ==> #[trigger] final(move_list)@.contains(played),
            no_repeat(final(move_list)@, old(move_list)@.len() as int),
            GENERATOR_TYPE == GEN_ALL && old(move_list)@.len() == 0 ==> final(move_list)@.len() == nodes(old(board)@, 1),
    {
        board.update_occupancy();
        let (pieces_checking, allowed_squares) = Self::get_check_data(board, tables);
        board.set_in_check(pieces_checking != 0);
        let mut pin_ray_mask: [u64; 64] = [u64::MAX; 64];
        let pinned_pieces_mask = Self::get_pins(board, tables, &mut pin_ray_mask);
        let candidates = Self::candidates(
            board,
            tables,
            pieces_checking,
            allowed_squares,
            &pin_ray_mask,
            pinned_pieces_mask,
        );
        let ghost start = *board;
        proof {
            assert(masks_ok(&start, pieces_checking, allowed_squares, pin_ray_mask@, pinned_pieces_mask));
            assert forall|played: MovePly|
                canonical(played) && start@.legal(played) && (GENERATOR_TYPE ==> start@.tactical(
                    played,
                )) implies #[trigger] candidates@.contains(played) by {
                lemma_complete(
                    &start,
                    GENERATOR_TYPE,
                    pieces_checking,
                    allowed_squares,
                    pin_ray_mask@,
                    pinned_pieces_mask,
                    candidates@,
                    played,
                );
            }
        }
        let mut i: usize = 0;
        let ghost n0 = move_list@.len() as int;
        while i < candidates.move_count()
            invariant
                i <= candidates@.len(),
                ready(board, tables),
                board.same_state(&start),
                n0 == old(move_list)@.len(),
                no_repeat(candidates@, 0),
                no_repeat(move_list@, n0),
                forall|k: int| n0 <= k < move_list@.len() ==> taken_below(candidates@, i as int, #[trigger] move_list@[k]),
                all_fit(start@, GENERATOR_TYPE, candidates@, 0),
                extends(move_list@, old(move_list)@),
                all_legal(start@, move_list@, old(move_list)@.len() as int),
                GENERATOR_TYPE ==> all_tactical(start@, move_list@, old(move_list)@.len() as int),
                forall|k: int| 0 <= k < i && start@.legal(candidates@[k]) ==> move_list@.contains(#[trigger] candidates@[k]),
                forall|played: MovePly|
                    canonical(played) && start@.legal(played) && (GENERATOR_TYPE ==> start@.tactical(played))
                        ==> #[trigger] candidates@.contains(played),
            decreases candidates@.len() - i,
        {
            let played = candidates.move_at(i);
            assert(start@.fits(candidates@[i as int]));
            let ghost before = move_list@;
            if Self::leaves_king_safe(board, tables, played) {
                move_list.push(played);
                assert(move_list@[before.len() as int] == played);
                assert forall|a: int, b: int| n0 <= a < b < move_list@.len() implies #[trigger] move_list@[a]
                    != #[trigger] move_list@[b] by {
                    assert(move_list@[a] == before[a]);
                    if b < before.len() {
                        assert(move_list@[b] == before[b]);
                    } else {
                        assert(taken_below(candidates@, i as int, before[a]));
                    }
                }
                assert forall|k: int| old(move_list)@.len() <= k < move_list@.len() implies start@.legal(
                    #[trigger] move_list@[k],
                ) && canonical(move_list@[k]) by {
                    if k < before.len() {
                        assert(move_list@[k] == before[k]);
                    }
                }
                assert forall|k: int|
                    GENERATOR_TYPE && old(move_list)@.len() <= k < move_list@.len() implies start@.tactical(
                    #[trigger] move_list@[k],
                ) by {
                    if k < before.len() {
                        assert(move_list@[k] == before[k]);
                    }
                }
            }
            proof {
                assert forall|k: int| 0 <= k < i + 1 && start@.legal(candidates@[k]) implies move_list@.contains(
                    #[trigger] candidates@[k],
                ) by {
                    if k < i {
                        let at = choose|at: int| 0 <= at < before.len() && before[at] == candidates@[k];
                        assert(move_list@[at] == candidates@[k]);
                    }
                }
                assert forall|k: int| n0 <= k < move_list@.len() implies taken_below(
                    candidates@,
                    i + 1,
                    #[trigger] move_list@[k],
                ) by {
                    if k < before.len() {
                        assert(move_list@[k] == before[k]);
                        let at = choose|at: int| 0 <= at < i && candidates@[at] == before[k];
                        assert(candidates@[at] == move_list@[k]);
                    } else {
                        assert(candidates@[i as int] == move_list@[k]);
                    }
                }
            }
            i += 1;
        }
        proof {
            assert forall|played: MovePly|
                canonical(played) && start@.legal(played) && (GENERATOR_TYPE ==> start@.tactical(
                    played,
                )) implies #[trigger] move_list@.contains(played) by {
                assert(candidates@.contains(played));
                let k = choose|k: int| 0 <= k < candidates@.len() && candidates@[k] == played;
                assert(start@.legal(candidates@[k]));
                assert(move_list@.contains(candidates@[k]));
            }
            if GENERATOR_TYPE == GEN_ALL && old(move_list)@.len() == 0 {
                lemma_moves_counted(start@, move_list@);
            }
        }
    }

    /// The moves that fit the position and pass the squares that answer a check, the rays of
    /// the pinned pieces and the squares that the other side attacks. Whether they leave the king
    /// safe is still to be seen.
    fn candidates(
        board: &Board,
        tables: &Precomputed,
        pieces_checking: u64,
        allowed_squares: u64,
        pin_ray_mask: &[u64; 64],
        pinned_pieces_mask: u64,
    ) -> (candidates: MoveList)
        requires
            ready(board, tables),
        ensures
            all_fit(board@, GENERATOR_TYPE, candidates@, 0),
            emits_all(
                board,
                GENERATOR_TYPE,
                pieces_checking,
                allowed_squares,
                pin_ray_mask@,
                pinned_pieces_mask,
                candidates@,
            ),
            no_repeat(candidates@, 0),
    {
        let mut candidates = MoveList::default();
        let ghost none = candidates@;
        Self::update_pawn_moves(board, &mut candidates, allowed_squares, pin_ray_mask, tables);
        let ghost pawns = candidates@;
        Self::update_knight_moves(board, &mut candidates, allowed_squares, pinned_pieces_mask, tables);
        let ghost knights = candidates@;
        Self::update_king_moves(board, &mut candidates, pieces_checking, tables);
        let ghost kings = candidates@;
        Self::update_slider_moves(BasePiece::Bishop, board, &mut candidates, allowed_squares, pin_ray_mask, tables);
        let ghost bishops = candidates@;
        Self::update_slider_moves(BasePiece::Rook, board, &mut candidates, allowed_squares, pin_ray_mask, tables);
        let ghost rooks = candidates@;
        Self::update_slider_moves(BasePiece::Queen, board, &mut candidates, allowed_squares, pin_ray_mask, tables);
        proof {
            lemma_gain_of_kind(board@, pawns, none, 0);
            lemma_gain_of_kind(board@, knights, pawns, 1);
            lemma_gain_of_kind(board@, kings, knights, 5);
            lemma_gain_of_kind(board@, bishops, kings, 2);
            lemma_gain_of_kind(board@, rooks, bishops, 3);
            lemma_gain_of_kind(board@, candidates@, rooks, 4);
        }
        proof {
            let all = candidates@;
            lemma_extends_keeps(knights, pawns);
            lemma_extends_keeps(kings, knights);
            lemma_extends_keeps(bishops, kings);
            lemma_extends_keeps(rooks, bishops);
            lemma_extends_keeps(all, rooks);
            assert forall|from: int, t: int, flag: MoveFlag|
                0 <= from < 64 && 0 <= t < 64 && passes(
                    board,
                    GENERATOR_TYPE,
                    pieces_checking,
                    allowed_squares,
                    pin_ray_mask@,
                    pinned_pieces_mask,
                    from,
                    t,
                    flag,
                ) implies #[trigger] emits(all, from, t, flag) by {
                let kind = board@.pieces[from].kind();
                board@.pieces[from].lemma_idx();
                flag.lemma_idx();
                if kind == 0 {
                    assert(emits(pawns, from, t, flag));
                    assert(knights.contains(MovePly::of(from, t, flag)));
                } else if kind == 1 {
                    assert(emits(knights, from, t, flag));
                } else if kind == 5 {
                    Piece::lemma_of(5 + 6 * board@.side.idx());
                    assert(board@.pieces[from] == Piece::make(5, board@.side));
                    board.lemma_king_unique(board@.side, from);
                    assert(from == king_of(board));
                    if flag.castles() {
                        assert(emits(kings, from, t, flag));
                    } else {
                        assert(emits(kings, king_of(board), t, MoveFlag::Quiet));
                    }
                    assert(emits(kings, from, t, flag));
                } else if kind == 2 {
                    assert(emits(bishops, from, t, flag));
                } else if kind == 3 {
                    assert(emits(rooks, from, t, flag));
                } else {
                    assert(emits(all, from, t, flag));
                }
                assert(kings.contains(MovePly::of(from, t, flag)) ==> bishops.contains(MovePly::of(from, t, flag)));
                assert(knights.contains(MovePly::of(from, t, flag)) ==> kings.contains(MovePly::of(from, t, flag)));
                assert(bishops.contains(MovePly::of(from, t, flag)) ==> rooks.contains(MovePly::of(from, t, flag)));
                assert(rooks.contains(MovePly::of(from, t, flag)) ==> all.contains(MovePly::of(from, t, flag)));
            }
        }
        candidates
    }

    /// Whether `played` leaves the king of the side that makes it unattacked. The move is made
    /// and taken back.
    fn leaves_king_safe(board: &mut Board, tables: &Precomputed, played: MovePly) -> (r: bool)
        requires
            ready(old(board), tables),
            old(board)@.applicable(played),
        ensures
            ready(final(board), tables),
            final(board).same_state(old(board)),
            r == !old(board)@.make(played).exposed(old(board)@.side),
    {
        let mover = board.side_to_move();
        let ghost before = *board;
        proof {
            if played.bits() == 0 {
                played.lemma_zero();
            }
        }
        board.make_move(&played, &tables.zobrist);
        let ghost middle = *board;
        let king = board.king_square(mover);
        let hit = is_attacked(board, tables, king, mover.not());
        proof {
            king.lemma_idx();
            if hit {
                assert(board@.king_hit(mover, king.idx()));
            } else {
                assert forall|k: int| 0 <= k < 64 implies !#[trigger] board@.king_hit(mover, k) by {
                    if board@.pieces[k] == Piece::make(5, mover) {
                        board.lemma_king_unique(mover, k);
                    }
                }
            }
        }
        board.undo_move(&tables.zobrist);
        proof {
            Board::lemma_make_undo(&before, &middle, board, played);
        }
        !hit
    }

    /// The squares that the pieces of the other side attack, with the king of the side to move
    /// taken off the board, so that sliders attack through its square.
    fn get_enemy_attacks(board: &Board, tables: &Precomputed) -> (attack_mask: u64)
        requires
            ready(board, tables),
        ensures
            forall|s: int| 0 <= s < 64 ==> (#[trigger] member(attack_mask, s) <==> attacked_off_king(board, s)),
    {
        let them = board.side_to_move().not();
        let all_pieces_no_king: u64 = board.occupancy() & !board.king_square(board.side_to_move()).mask();
        let pawns: u64 = Self::attacks_of_kind(board, tables, BasePiece::Pawn, all_pieces_no_king);
        let knights: u64 = Self::attacks_of_kind(board, tables, BasePiece::Knight, all_pieces_no_king);
        let bishops: u64 = Self::attacks_of_kind(board, tables, BasePiece::Bishop, all_pieces_no_king);
        let rooks: u64 = Self::attacks_of_kind(board, tables, BasePiece::Rook, all_pieces_no_king);
        let queens: u64 = Self::attacks_of_kind(board, tables, BasePiece::Queen, all_pieces_no_king);
        let kings: u64 = Self::attacks_of_kind(board, tables, BasePiece::King, all_pieces_no_king);
        let attack_mask: u64 = pawns | knights | bishops | rooks | queens | kings;
        proof {
            broadcast use group_bits;
            let occ = all_pieces_no_king;
            let side = board@.side.flip();
            assert forall|s: int| 0 <= s < 64 implies (#[trigger] member(attack_mask, s) <==> exists|t: int|
                0 <= t < 64 && #[trigger] board@.pieces[t].of_side(side) && hits(
                    board@.pieces[t].kind(),
                    side,
                    occ,
                    t,
                    s,
                )) by {
                if member(attack_mask, s) {
                    let kind: int = if member(pawns, s) {
                        0
                    } else if member(knights, s) {
                        1
                    } else if member(bishops, s) {
                        2
                    } else if member(rooks, s) {
                        3
                    } else if member(queens, s) {
                        4
                    } else {
                        5
                    };
                    let t = choose|t: int|
                        0 <= t < 64 && #[trigger] board@.pieces[t] == Piece::make(kind, side) && hits(
                            kind,
                            side,
                            occ,
                            t,
                            s,
                        );
                    assert(board@.pieces[t].of_side(side) && hits(board@.pieces[t].kind(), side, occ, t, s));
                }
                if exists|t: int|
                    0 <= t < 64 && #[trigger] board@.pieces[t].of_side(side) && hits(
                        board@.pieces[t].kind(),
                        side,
                        occ,
                        t,
                        s,
                    ) {
                    let t = choose|t: int|
                        0 <= t < 64 && #[trigger] board@.pieces[t].of_side(side) && hits(
                            board@.pieces[t].kind(),
                            side,
                            occ,
                            t,
                            s,
                        );
                    let kind = board@.pieces[t].kind();
                    board@.pieces[t].lemma_idx();
                    assert(board@.pieces[t] == Piece::make(kind, side));
                }
            }
        }
        attack_mask
    }

    /// The squares that the pieces of kind `kind` of the other side attack over `occupied`.
    fn attacks_of_kind(board: &Board, tables: &Precomputed, kind: BasePiece, occupied: u64) -> (mask: u64)
        requires
            ready(board, tables),
        ensures
            forall|s: int|
                0 <= s < 64 ==> (#[trigger] member(mask, s) <==> exists|t: int|
                    0 <= t < 64 && #[trigger] board@.pieces[t] == Piece::make(kind.idx(), board@.side.flip())
                        && hits(kind.idx(), board@.side.flip(), occupied, t, s)),
    {
        let them = board.side_to_move().not();
        let list = board.piece_list_them(kind);
        let ghost p = kind.idx() + 6 * them.idx();
        let mut mask: u64 = 0;
        proof {
            broadcast use group_bits;
            kind.lemma_idx();
        }
        let mut i: usize = 0;
        while i < list.len()
            invariant
                i <= list.len(),
                ready(board, tables),
                list@ == board.list(p)@,
                p == kind.idx() + 6 * them.idx(),
                0 <= p < 12,
                them == board@.side.flip(),
                forall|s: int|
                    0 <= s < 64 ==> (#[trigger] member(mask, s) <==> exists|j: int|
                        0 <= j < i && hits(kind.idx(), them, occupied, (#[trigger] list@[j]).idx(), s)),
            decreases list.len() - i,
        {
            let square = list[i];
            let attacks: u64 = attacks_from(tables, kind, them, square, occupied);
            let ghost before = mask;
            mask = mask | attacks;
            proof {
                broadcast use group_bits;
                assert forall|s: int| 0 <= s < 64 implies (#[trigger] member(mask, s) <==> exists|j: int|
                    0 <= j < i + 1 && hits(kind.idx(), them, occupied, (#[trigger] list@[j]).idx(), s)) by {
                    if member(before, s) {
                        let j = choose|j: int|
                            0 <= j < i && hits(kind.idx(), them, occupied, (#[trigger] list@[j]).idx(), s);
                        assert(0 <= j < i + 1 && hits(kind.idx(), them, occupied, list@[j].idx(), s));
                    }
                    if member(attacks, s) {
                        assert(hits(kind.idx(), them, occupied, list@[i as int].idx(), s));
                    }
                    if exists|j: int|
                        0 <= j < i + 1 && hits(kind.idx(), them, occupied, (#[trigger] list@[j]).idx(), s) {
                        let j = choose|j: int|
                            0 <= j < i + 1 && hits(kind.idx(), them, occupied, (#[trigger] list@[j]).idx(), s);
                        if j < i {
                            assert(member(before, s));
                        }
                    }
                }
            }
            i += 1;
        }
        proof {
            assert forall|s: int| 0 <= s < 64 implies (#[trigger] member(mask, s) <==> exists|t: int|
                0 <= t < 64 && #[trigger] board@.pieces[t] == Piece::make(kind.idx(), them) && hits(
                    kind.idx(),
                    them,
                    occupied,
                    t,
                    s,
                )) by {
                Piece::lemma_of(p);
                if member(mask, s) {
                    let j = choose|j: int|
                        0 <= j < list@.len() && hits(kind.idx(), them, occupied, (#[trigger] list@[j]).idx(), s);
                    board.lemma_list_member(p, j);
                    let t = list@[j].idx();
                    assert(board@.pieces[t] == Piece::make(kind.idx(), them));
                }
                if exists|t: int|
                    0 <= t < 64 && #[trigger] board@.pieces[t] == Piece::make(kind.idx(), them) && hits(
                        kind.idx(),
                        them,
                        occupied,
                        t,
                        s,
                    ) {
                    let t = choose|t: int|
                        0 <= t < 64 && #[trigger] board@.pieces[t] == Piece::make(kind.idx(), them) && hits(
                            kind.idx(),
                            them,
                            occupied,
                            t,
                            s,
                        );
                    assert(board.lists()[p].contains(t) <==> board@.pieces[t].idx() == p);
                    assert(board.lists()[p].wf());
                    board.lists()[p].lemma_contains();
                    let j = choose|j: int| 0 <= j < board.list(p)@.len() && #[trigger] board.list(p)@[j].idx() == t;
                    assert(hits(kind.idx(), them, occupied, list@[j].idx(), s));
                }
            }
        }
        mask
    }

    /// The pieces that give check, and the squares on which a piece other than the king
    /// answers the check: every square without a check, the checking piece and what lies
    /// between it and the king with one check, none with two.
    fn get_check_data(board: &Board, tables: &Precomputed) -> (r: (u64, u64))
        requires
            ready(board, tables),
        ensures
            (r.0 != 0) == board@.in_check(),
            forall|t: int|
                0 <= t < 64 ==> (#[trigger] member(r.0, t) <==> board@.attacks(
                    board@.side.flip(),
                    t,
                    board.list(5 + 6 * board@.side.idx())@[0].idx(),
                )),
            r.0 == 0 ==> r.1 == u64::MAX,
            popcount(r.0) >= 2 ==> r.1 == 0,
            popcount(r.0) == 1 ==> forall|u: int|
                0 <= u < 64 ==> (#[trigger] member(r.1, u) <==> (u == lowest(r.0) || between(
                    board.list(5 + 6 * board@.side.idx())@[0].idx(),
                    u,
                    lowest(r.0),
                ))),
    {
        let us = board.side_to_move();
        let king_square = board.king_square(us);
        let all_checks: u64 = attackers_of(board, tables, king_square, us.not(), board.occupancy());
        let mut allowed_squares: u64 = 0;
        proof {
            broadcast use group_bits;
            board.lemma_occ();
            king_square.lemma_idx();
            lemma_count_zero(all_checks);
            if all_checks != 0 {
                lemma_lowest(all_checks);
                let t = lowest(all_checks);
                assert(member(all_checks, t));
                assert(board@.attacks(us.flip(), t, king_square.idx()));
                assert(board@.king_hit(us, king_square.idx()));
            } else {
                assert forall|k: int| 0 <= k < 64 implies !#[trigger] board@.king_hit(us, k) by {
                    if board@.pieces[k] == Piece::make(5, us) {
                        board.lemma_king_unique(us, k);
                        assert forall|t: int| 0 <= t < 64 implies !#[trigger] board@.attacks(us.flip(), t, k) by {
                            assert(!member(all_checks, t));
                        }
                    }
                }
            }
        }
        if bits::count(all_checks) == 1 {
            proof {
                lemma_count_one(all_checks);
            }
            let index: u8 = bits::next(all_checks);
            allowed_squares = tables.in_between.get(king_square, Square::from_index(index)) | (1u64 << (
            index as u64));
            proof {
                broadcast use group_bits;
                assert((1u64 << (index as u64)) == bit(index as int));
                assert forall|u: int| 0 <= u < 64 implies (#[trigger] member(allowed_squares, u) <==> (u
                    == lowest(all_checks) || between(king_square.idx(), u, lowest(all_checks)))) by {
                    assert(member(bit(index as int), u) == (u == index));
                }
            }
        }
        // without a check every square answers
        if all_checks == 0 {
            allowed_squares = !allowed_squares;
            proof {
                broadcast use group_bits;
                lemma_ext(allowed_squares, u64::MAX);
            }
        }
        (all_checks, allowed_squares)
    }

    /// The moves of the piece on `from` to the squares of `to_mask`, but to no square of the
    /// mover's own pieces and not onto the other king.
    fn add_quiet(board: &Board, move_list: &mut MoveList, to_mask: u64, from: Square, tables: &Precomputed)
        requires
            ready(board, tables),
            board@.pieces[from.idx()].of_side(board@.side),
            forall|t: int|
                0 <= t < 64 && member(to_mask, t) && !board@.pieces[t].of_side(board@.side) ==> board@.reaches_at(
                    from.idx(),
                    t,
                    MoveFlag::Quiet,
                ) && wanted(GENERATOR_TYPE, board@, from.idx(), t, MoveFlag::Quiet),
        ensures
            extends(final(move_list)@, old(move_list)@),
            all_fit(board@, GENERATOR_TYPE, old(move_list)@, 0) ==> all_fit(board@, GENERATOR_TYPE, final(move_list)@, 0),
            forall|t: int|
                0 <= t < 64 && member(to_mask, t) && board@.applicable_at(from.idx(), t, MoveFlag::Quiet)
                    ==> #[trigger] emits(final(move_list)@, from.idx(), t, MoveFlag::Quiet),
            all_from(final(move_list)@, old(move_list)@.len() as int, from.idx(), to_mask, MoveFlag::Quiet, false),
            no_repeat(final(move_list)@, old(move_list)@.len() as int),
    {
        let their_king = board.king_square(board.side_to_move().not());
        let targets: u64 = to_mask & !board.occupancy_us() & !their_king.mask() & !from.mask();
        move_list.add_moves(targets, from, MoveFlag::Quiet);
        proof {
            broadcast use group_bits;
            from.lemma_idx();
            their_king.lemma_idx();
            lemma_moves_rise(targets, from.idx(), MoveFlag::Quiet, 64);
            lemma_moves_below(targets, from.idx(), MoveFlag::Quiet, 64);
            assert forall|i: int, j: int| old(move_list)@.len() <= i < j < move_list@.len() implies #[trigger] move_list@[i]
                != #[trigger] move_list@[j] by {
                let n = old(move_list)@.len();
                let added = moves_below(targets, from.idx(), MoveFlag::Quiet, 64);
                assert(move_list@[i] == added[i - n] && move_list@[j] == added[j - n]);
            }
            assert forall|i: int| old(move_list)@.len() <= i < move_list@.len() implies (#[trigger] move_list@[i]).from_idx()
                == from.idx() && member(to_mask, move_list@[i].to_idx()) && move_list@[i].spec_flag()
                == MoveFlag::Quiet by {
                let n = old(move_list)@.len();
                let added = moves_below(targets, from.idx(), MoveFlag::Quiet, 64);
                assert(move_list@[i] == added[i - n]);
            }
            assert forall|t: int|
                0 <= t < 64 && member(to_mask, t) && board@.applicable_at(
                    from.idx(),
                    t,
                    MoveFlag::Quiet,
                ) implies #[trigger] emits(move_list@, from.idx(), t, MoveFlag::Quiet) by {
                board.lemma_square(t);
                assert(member(targets, t));
                lemma_moves_has(targets, from.idx(), MoveFlag::Quiet, 64, t);
                lemma_contains_tail(
                    old(move_list)@,
                    moves_below(targets, from.idx(), MoveFlag::Quiet, 64),
                    MovePly::of(from.idx(), t, MoveFlag::Quiet),
                );
            }
            let added = moves_below(targets, from.idx(), MoveFlag::Quiet, 64);
            lemma_moves_below(targets, from.idx(), MoveFlag::Quiet, 64);
            assert forall|i: int| old(move_list)@.len() <= i < move_list@.len() implies board@.fits(
                #[trigger] move_list@[i],
            ) && canonical(move_list@[i]) by {
                let m = added[i - old(move_list)@.len()];
                assert(move_list@[i] == m);
                let to = m.to_idx();
                m.lemma_ranges();
                board.lemma_square(to);
                if board@.pieces[to] == Piece::make(5, board@.side.flip()) {
                    board.lemma_king_unique(board@.side.flip(), to);
                }
            }
        }
    }

    /// The four promotions of the pawn on `from` to each square of `to_mask`, but to no square
    /// of the mover's own pieces and not onto the other king.
    fn add_promotions(board: &Board, move_list: &mut MoveList, to_mask: u64, from: Square, tables: &Precomputed)
        requires
            ready(board, tables),
            board@.pieces[from.idx()] == Piece::make(0, board@.side),
            forall|t: int|
                0 <= t < 64 && member(to_mask, t) && !board@.pieces[t].of_side(board@.side) ==> board@.reaches_at(
                    from.idx(),
                    t,
                    MoveFlag::PromoteToQueen,
                ),
        ensures
            extends(final(move_list)@, old(move_list)@),
            all_fit(board@, GENERATOR_TYPE, old(move_list)@, 0) ==> all_fit(board@, GENERATOR_TYPE, final(move_list)@, 0),
            forall|t: int, flag: MoveFlag|
                0 <= t < 64 && member(to_mask, t) && flag.promotion() && board@.applicable_at(from.idx(), t, flag)
                    ==> #[trigger] emits(final(move_list)@, from.idx(), t, flag),
            all_from(final(move_list)@, old(move_list)@.len() as int, from.idx(), to_mask, MoveFlag::Quiet, true),
            no_repeat(final(move_list)@, old(move_list)@.len() as int),
    {
        let their_king = board.king_square(board.side_to_move().not());
        let targets: u64 = to_mask & !board.occupancy_us() & !their_king.mask() & !from.mask();
        move_list.add_promotion_moves(targets, from);
        proof {
            broadcast use group_bits;
            from.lemma_idx();
            their_king.lemma_idx();
            lemma_promotions_differ(targets, from.idx(), 64);
            lemma_promotions_below(targets, from.idx(), 64);
            assert forall|i: int, j: int| old(move_list)@.len() <= i < j < move_list@.len() implies #[trigger] move_list@[i]
                != #[trigger] move_list@[j] by {
                let n = old(move_list)@.len();
                let added = promotions_below(targets, from.idx(), 64);
                assert(move_list@[i] == added[i - n] && move_list@[j] == added[j - n]);
            }
            assert forall|i: int| old(move_list)@.len() <= i < move_list@.len() implies (#[trigger] move_list@[i]).from_idx()
                == from.idx() && member(to_mask, move_list@[i].to_idx()) && move_list@[i].spec_flag().promotion() by {
                let n = old(move_list)@.len();
                let added = promotions_below(targets, from.idx(), 64);
                assert(move_list@[i] == added[i - n]);
            }
            assert forall|t: int, flag: MoveFlag|
                0 <= t < 64 && member(to_mask, t) && flag.promotion() && board@.applicable_at(
                    from.idx(),
                    t,
                    flag,
                ) implies #[trigger] emits(move_list@, from.idx(), t, flag) by {
                board.lemma_square(t);
                assert(member(targets, t));
                lemma_promotions_has(targets, from.idx(), 64, t);
                lemma_contains_tail(
                    old(move_list)@,
                    promotions_below(targets, from.idx(), 64),
                    MovePly::of(from.idx(), t, flag),
                );
            }
            let added = promotions_below(targets, from.idx(), 64);
            lemma_promotions_below(targets, from.idx(), 64);
            assert forall|i: int| old(move_list)@.len() <= i < move_list@.len() implies board@.fits(
                #[trigger] move_list@[i],
            ) && canonical(move_list@[i]) by {
                let m = added[i - old(move_list)@.len()];
                assert(move_list@[i] == m);
                let to = m.to_idx();
                m.lemma_ranges();
                board.lemma_square(to);
                if board@.pieces[to] == Piece::make(5, board@.side.flip()) {
                    board.lemma_king_unique(board@.side.flip(), to);
                }
            }
        }
    }

    /// The double steps of the pawn on `from` to the empty squares of `to_mask`.
    fn add_jump(board: &Board, move_list: &mut MoveList, to_mask: u64, from: Square, tables: &Precomputed)
        requires
            GENERATOR_TYPE == GEN_ALL,
            ready(board, tables),
            board@.pieces[from.idx()] == Piece::make(0, board@.side),
            forall|t: int|
                0 <= t < 64 && member(to_mask, t) && !board@.pieces[t].occupied() ==> board@.reaches_at(
                    from.idx(),
                    t,
                    MoveFlag::DoubleJump,
                ),
        ensures
            extends(final(move_list)@, old(move_list)@),
            all_fit(board@, GENERATOR_TYPE, old(move_list)@, 0) ==> all_fit(board@, GENERATOR_TYPE, final(move_list)@, 0),
            forall|t: int|
                0 <= t < 64 && member(to_mask, t) && board@.applicable_at(from.idx(), t, MoveFlag::DoubleJump)
                    ==> #[trigger] emits(final(move_list)@, from.idx(), t, MoveFlag::DoubleJump),
            all_from(final(move_list)@, old(move_list)@.len() as int, from.idx(), to_mask, MoveFlag::DoubleJump, false),
            no_repeat(final(move_list)@, old(move_list)@.len() as int),
    {
        let targets: u64 = to_mask & !board.occupancy() & !from.mask();
        move_list.add_moves(targets, from, MoveFlag::DoubleJump);
        proof {
            broadcast use group_bits;
            from.lemma_idx();
            lemma_moves_rise(targets, from.idx(), MoveFlag::DoubleJump, 64);
            lemma_moves_below(targets, from.idx(), MoveFlag::DoubleJump, 64);
            assert forall|i: int, j: int| old(move_list)@.len() <= i < j < move_list@.len() implies #[trigger] move_list@[i]
                != #[trigger] move_list@[j] by {
                let n = old(move_list)@.len();
                let added = moves_below(targets, from.idx(), MoveFlag::DoubleJump, 64);
                assert(move_list@[i] == added[i - n] && move_list@[j] == added[j - n]);
            }
            assert forall|i: int| old(move_list)@.len() <= i < move_list@.len() implies (#[trigger] move_list@[i]).from_idx()
                == from.idx() && member(to_mask, move_list@[i].to_idx()) && move_list@[i].spec_flag()
                == MoveFlag::DoubleJump by {
                let n = old(move_list)@.len();
                let added = moves_below(targets, from.idx(), MoveFlag::DoubleJump, 64);
                assert(move_list@[i] == added[i - n]);
            }
            assert forall|t: int|
                0 <= t < 64 && member(to_mask, t) && board@.applicable_at(
                    from.idx(),
                    t,
                    MoveFlag::DoubleJump,
                ) implies #[trigger] emits(move_list@, from.idx(), t, MoveFlag::DoubleJump) by {
                board.lemma_square(t);
                assert(member(targets, t));
                lemma_moves_has(targets, from.idx(), MoveFlag::DoubleJump, 64, t);
                lemma_contains_tail(
                    old(move_list)@,
                    moves_below(targets, from.idx(), MoveFlag::DoubleJump, 64),
                    MovePly::of(from.idx(), t, MoveFlag::DoubleJump),
                );
            }
            let added = moves_below(targets, from.idx(), MoveFlag::DoubleJump, 64);
            lemma_moves_below(targets, from.idx(), MoveFlag::DoubleJump, 64);
            assert forall|i: int| old(move_list)@.len() <= i < move_list@.len() implies board@.fits(
                #[trigger] move_list@[i],
            ) && canonical(move_list@[i]) by {
                let m = added[i - old(move_list)@.len()];
                assert(move_list@[i] == m);
                let to = m.to_idx();
                m.lemma_ranges();
                board.lemma_square(to);
            }
        }
    }

    /// The moves of the pawns of the side to move: steps, double steps, captures and
    /// promotions on squares that answer a check and stay on the ray of a pin. A capture en
    /// passant is added exactly if it fits the position and uncovers no bishop, rook or queen that
    /// attacks the king.
    fn update_pawn_moves(
        board: &Board,
        move_list: &mut MoveList,
        allowed_squares: u64,
        pin_ray_mask: &[u64; 64],
        tables: &Precomputed,
    )
        requires
            ready(board, tables),
        ensures
            extends(final(move_list)@, old(move_list)@),
            all_fit(board@, GENERATOR_TYPE, old(move_list)@, 0) ==> all_fit(board@, GENERATOR_TYPE, final(move_list)@, 0),
            forall|from: int, t: int|
                0 <= from < 64 && 0 <= t < 64 && board@.pieces[from] == Piece::make(0, board@.side)
                    && takes_in_passing(board@, from, t)
                    ==> #[trigger] emits(final(move_list)@, from, t, MoveFlag::EnPassantCapture),
            forall|from: int, t: int, flag: MoveFlag|
                0 <= from < 64 && 0 <= t < 64 && board@.pieces[from] == Piece::make(0, board@.side)
                    && flag != MoveFlag::EnPassantCapture && board@.fits_at(from, t, flag)
                    && member(allowed_squares, t) && member(pin_ray_mask[from], t) && wanted(
                    GENERATOR_TYPE,
                    board@,
                    from,
                    t,
                    flag,
                ) ==> #[trigger] emits(final(move_list)@, from, t, flag),
            no_repeat(final(move_list)@, old(move_list)@.len() as int),
            all_kind(board@, final(move_list)@, old(move_list)@.len() as int, 0),
            all_covered(board@, final(move_list)@, old(move_list)@.len() as int),
    {
        let pawns = board.piece_list_us(BasePiece::Pawn);
        let ghost p = 6 * board@.side.idx();
        let mut i: usize = 0;
        while i < pawns.len()
            invariant
                i <= pawns.len(),
                ready(board, tables),
                pawns@ == board.list(p)@,
                p == 6 * board@.side.idx(),
                no_repeat(move_list@, old(move_list)@.len() as int),
                all_covered(board@, move_list@, old(move_list)@.len() as int),
                all_seen(move_list@, old(move_list)@.len() as int, pawns@, i as int),
                extends(move_list@, old(move_list)@),
                all_fit(board@, GENERATOR_TYPE, old(move_list)@, 0) ==> all_fit(board@, GENERATOR_TYPE, move_list@, 0),
                forall|j: int, t: int|
                    0 <= j < i && 0 <= t < 64 && takes_in_passing(board@, pawns@[j].idx(), t)
                        ==> #[trigger] emits(move_list@, pawns@[j].idx(), t, MoveFlag::EnPassantCapture),
                forall|j: int, t: int, flag: MoveFlag|
                    0 <= j < i && 0 <= t < 64 && flag != MoveFlag::EnPassantCapture
                        && board@.fits_at(pawns@[j].idx(), t, flag) && member(allowed_squares, t)
                        && member(pin_ray_mask[pawns@[j].idx()], t) && wanted(
                        GENERATOR_TYPE,
                        board@,
                        pawns@[j].idx(),
                        t,
                        flag,
                    ) ==> #[trigger] emits(move_list@, pawns@[j].idx(), t, flag),
            decreases pawns.len() - i,
        {
            let square = pawns[i];
            let ghost before = move_list@;
            proof {
                board.lemma_list_member(p, i as int);
                Piece::lemma_of(p);
            }
            Self::pawn_moves_from(board, move_list, allowed_squares, pin_ray_mask, tables, square);
            proof {
                lemma_extends_keeps(move_list@, before);
                assert(board.lists()[p].wf());
                board.lists()[p].lemma_contains();
                lemma_gain_for_square(move_list@, before, old(move_list)@.len() as int, pawns@, i as int);
                lemma_covered_join(board@, move_list@, before, old(move_list)@.len() as int);
                assert forall|j: int, t: int|
                    0 <= j < i + 1 && 0 <= t < 64 && takes_in_passing(board@, pawns@[j].idx(), t)
                        implies #[trigger] emits(move_list@, pawns@[j].idx(), t, MoveFlag::EnPassantCapture) by {
                    if j < i {
                        assert(emits(before, pawns@[j].idx(), t, MoveFlag::EnPassantCapture));
                    }
                }
                assert forall|j: int, t: int, flag: MoveFlag|
                    0 <= j < i + 1 && 0 <= t < 64 && flag != MoveFlag::EnPassantCapture
                        && board@.fits_at(pawns@[j].idx(), t, flag) && member(
                        allowed_squares,
                        t,
                    ) && member(pin_ray_mask[pawns@[j].idx()], t) && wanted(
                        GENERATOR_TYPE,
                        board@,
                        pawns@[j].idx(),
                        t,
                        flag,
                    ) implies #[trigger] emits(move_list@, pawns@[j].idx(), t, flag) by {
                    if j < i {
                        assert(emits(before, pawns@[j].idx(), t, flag));
                    }
                }
            }
            i += 1;
        }
        proof {
            Piece::lemma_of(p);
            assert forall|from: int| 0 <= from < 64 && board@.pieces[from] == Piece::make(0, board@.side) implies exists|
                j: int,
            |
                0 <= j < pawns@.len() && #[trigger] pawns@[j].idx() == from by {
                assert(board.lists()[p].contains(from) <==> board@.pieces[from].idx() == p);
                assert(board.lists()[p].wf());
                board.lists()[p].lemma_contains();
            }
            assert forall|from: int, t: int|
                0 <= from < 64 && 0 <= t < 64 && board@.pieces[from] == Piece::make(0, board@.side)
                    && takes_in_passing(board@, from, t)
                    implies #[trigger] emits(move_list@, from, t, MoveFlag::EnPassantCapture) by {
                let j = choose|j: int| 0 <= j < pawns@.len() && #[trigger] pawns@[j].idx() == from;
                assert(emits(move_list@, pawns@[j].idx(), t, MoveFlag::EnPassantCapture));
            }
            assert forall|from: int, t: int, flag: MoveFlag|
                0 <= from < 64 && 0 <= t < 64 && board@.pieces[from] == Piece::make(0, board@.side)
                    && flag != MoveFlag::EnPassantCapture && board@.fits_at(from, t, flag)
                    && member(allowed_squares, t) && member(pin_ray_mask[from], t) && wanted(
                    GENERATOR_TYPE,
                    board@,
                    from,
                    t,
                    flag,
                ) implies #[trigger] emits(move_list@, from, t, flag) by {
                let j = choose|j: int| 0 <= j < pawns@.len() && #[trigger] pawns@[j].idx() == from;
                assert(emits(move_list@, pawns@[j].idx(), t, flag));
            }
            assert forall|k: int| old(move_list)@.len() <= k < move_list@.len() implies board@.pieces[(
            #[trigger] move_list@[k]).from_idx()] == Piece::make(0, board@.side) by {
                let j = choose|j: int| 0 <= j < pawns@.len() && (#[trigger] pawns@[j]).idx() == move_list@[k].from_idx();
                board.lemma_list_member(p, j);
            }
        }
    }

    /// The moves of the pawn on `square`.
    fn pawn_moves_from(
        board: &Board,
        move_list: &mut MoveList,
        allowed_squares: u64,
        pin_ray_mask: &[u64; 64],
        tables: &Precomputed,
        square: Square,
    )
        requires
            ready(board, tables),
            board@.pieces[square.idx()] == Piece::make(0, board@.side),
        ensures
            extends(final(move_list)@, old(move_list)@),
            all_fit(board@, GENERATOR_TYPE, old(move_list)@, 0) ==> all_fit(board@, GENERATOR_TYPE, final(move_list)@, 0),
            forall|t: int|
                0 <= t < 64 && takes_in_passing(board@, square.idx(), t) ==> #[trigger] emits(
                    final(move_list)@,
                    square.idx(),
                    t,
                    MoveFlag::EnPassantCapture,
                ),
            forall|t: int, flag: MoveFlag|
                0 <= t < 64 && flag != MoveFlag::EnPassantCapture && board@.fits_at(square.idx(), t, flag)
                    && member(allowed_squares, t) && member(
                    pin_ray_mask[square.idx()],
                    t,
                ) && wanted(GENERATOR_TYPE, board@, square.idx(), t, flag) ==> #[trigger] emits(
                    final(move_list)@,
                    square.idx(),
                    t,
                    flag,
                ),
            all_leave(final(move_list)@, old(move_list)@.len() as int, square.idx()),
            no_repeat(final(move_list)@, old(move_list)@.len() as int),
            all_covered(board@, final(move_list)@, old(move_list)@.len() as int),
    {
        let us = board.side_to_move();
        let pin_mask: u64 = pin_ray_mask[square.index() as usize];
        let ghost n0 = move_list@.len() as int;
        let single: u64 = tables.movement_masks.pawn_move(us, square);
        let pawn_attacks: u64 = tables.movement_masks.pawn_attacks(us, square) & board.occupancy_them()
            & allowed_squares & pin_mask;
        let pawn_moves: u64 = single & (!board.occupancy()) & allowed_squares & pin_mask;
        let double_jump: u64 = tables.movement_masks.pawn_jump(us, square) & (!board.occupancy())
            & allowed_squares & pin_mask;
        let ghost a = square.idx();
        let ghost pos = board@;
        proof {
            broadcast use group_bits;
            square.lemma_idx();
            assert(row_ok(&tables.movement_masks, a));
            assert forall|t: int| 0 <= t < 64 && (member(pawn_attacks, t) || member(pawn_moves, t)) implies board@.pawn_goes(
                a,
                t,
            ) by {
                board.lemma_square(t);
            }
            // what goes as a pawn goes and passes the masks is in one of the two sets
            assert forall|t: int|
                0 <= t < 64 && pos.pawn_goes(a, t) && !pos.pieces[t].of_side(pos.side) && member(
                    allowed_squares,
                    t,
                ) && member(pin_mask, t) implies member(pawn_attacks, t) || member(pawn_moves, t) by {
                board.lemma_square(t);
            }
        }
        // en passant
        Self::en_passant_from(board, move_list, tables, square);
        let ghost after_ep = move_list@;
        proof {
            broadcast use group_bits;
            assert(no_repeat(after_ep, n0));
            assert forall|c: int| 1 <= c <= 7 implies #[trigger] none_class(board@, after_ep, n0, c) by {}
            // what is in the sets of targets is of its class
            assert forall|m: MovePly| member(pawn_moves, (#[trigger] m.to_idx())) implies !pos.pieces[m.to_idx()].occupied() by {
                m.lemma_ranges();
                board.lemma_square(m.to_idx());
            }
            assert forall|m: MovePly| member(pawn_attacks, (#[trigger] m.to_idx())) implies pos.pieces[m.to_idx()].occupied() by {
                m.lemma_ranges();
                board.lemma_square(m.to_idx());
            }
            assert forall|m: MovePly| member(double_jump, (#[trigger] m.to_idx())) implies !pos.pieces[m.to_idx()].occupied() by {
                m.lemma_ranges();
                board.lemma_square(m.to_idx());
            }
        }
        // promotion
        if square.rank().can_pawn_promote(us) {
            Self::add_promotions(board, move_list, pawn_moves, square, tables);
            let ghost middle = move_list@;
            proof {
                assert(all_class(pos, middle, after_ep.len() as int, 1));
                lemma_gain_of_class(pos, middle, after_ep, n0, 1);
                assert(all_covered(pos, middle, after_ep.len() as int));
                lemma_covered_join(pos, middle, after_ep, n0);
                lemma_grown(middle, after_ep, n0, a, pos);
                assert(none_class(pos, middle, after_ep.len() as int, 2));
                assert(none_class(pos, middle, n0, 2));
            }
            Self::add_promotions(board, move_list, pawn_attacks, square, tables);
            proof {
                assert(all_class(pos, move_list@, middle.len() as int, 2));
                lemma_gain_of_class(pos, move_list@, middle, n0, 2);
                assert(all_covered(pos, move_list@, middle.len() as int));
                lemma_covered_join(pos, move_list@, middle, n0);
                lemma_grown(move_list@, middle, n0, a, pos);
                lemma_extends_keeps(middle, after_ep);
                lemma_extends_keeps(move_list@, middle);
                assert forall|t: int| 0 <= t < 64 && takes_in_passing(pos, a, t) implies #[trigger] emits(
                    move_list@,
                    a,
                    t,
                    MoveFlag::EnPassantCapture,
                ) by {
                    assert(emits(after_ep, a, t, MoveFlag::EnPassantCapture));
                }
                assert forall|t: int, flag: MoveFlag|
                    0 <= t < 64 && flag != MoveFlag::EnPassantCapture && pos.fits_at(a, t, flag)
                        && member(allowed_squares, t) && member(
                        pin_mask,
                        t,
                    ) implies #[trigger] emits(move_list@, a, t, flag) by {
                    flag.lemma_idx();
                    if flag == MoveFlag::EnPassantCapture {
                        assert(emits(after_ep, a, t, flag));
                    } else {
                        assert(flag.promotion());
                        if member(pawn_moves, t) {
                            assert(emits(middle, a, t, flag));
                        }
                    }
                }
            }
            return ;
        }
        Self::add_quiet(board, move_list, pawn_attacks, square, tables);
        let ghost after_attacks = move_list@;
        proof {
            lemma_extends_keeps(after_attacks, after_ep);
            assert(all_class(pos, after_attacks, after_ep.len() as int, 4));
            lemma_gain_of_class(pos, after_attacks, after_ep, n0, 4);
            assert(all_covered(pos, after_attacks, after_ep.len() as int));
            lemma_covered_join(pos, after_attacks, after_ep, n0);
            lemma_grown(after_attacks, after_ep, n0, a, pos);
            assert(none_class(pos, after_attacks, after_ep.len() as int, 3));
            assert(none_class(pos, after_attacks, after_ep.len() as int, 5));
            assert(none_class(pos, after_attacks, n0, 3));
            assert(none_class(pos, after_attacks, n0, 5));
        }
        if GENERATOR_TYPE == GEN_ALL {
            // steps
            Self::add_quiet(board, move_list, pawn_moves, square, tables);
            let ghost after_moves = move_list@;
            proof {
                assert(all_class(pos, after_moves, after_attacks.len() as int, 3));
                lemma_gain_of_class(pos, after_moves, after_attacks, n0, 3);
                assert(all_covered(pos, after_moves, after_attacks.len() as int));
                lemma_covered_join(pos, after_moves, after_attacks, n0);
                lemma_grown(after_moves, after_attacks, n0, a, pos);
                assert(none_class(pos, after_moves, after_attacks.len() as int, 5));
                assert(none_class(pos, after_moves, n0, 5));
            }
            // double step
            let in_way: u64 = single & (!board.occupancy());
            let no_piece_in_way: bool = in_way != 0;
            if square.rank().is_pawn_start(us) && no_piece_in_way {
                proof {
                    broadcast use group_bits;
                    lemma_lowest(in_way);
                    let m = lowest(in_way);
                    assert(member(in_way, m));
                    board.lemma_square(m);
                    assert forall|t: int|
                        0 <= t < 64 && member(double_jump, t) && !board@.pieces[t].occupied() implies board@.reaches_at(
                        a,
                        t,
                        MoveFlag::DoubleJump,
                    ) by {
                        board.lemma_square(t);
                    }
                }
                Self::add_jump(board, move_list, double_jump, square, tables);
                proof {
                    assert(all_class(pos, move_list@, after_moves.len() as int, 5));
                    lemma_gain_of_class(pos, move_list@, after_moves, n0, 5);
                    assert(all_covered(pos, move_list@, after_moves.len() as int));
                    lemma_covered_join(pos, move_list@, after_moves, n0);
                    lemma_grown(move_list@, after_moves, n0, a, pos);
                }
            }
            proof {
                broadcast use group_bits;
                lemma_extends_keeps(after_moves, after_attacks);
                lemma_extends_keeps(move_list@, after_moves);
                assert forall|t: int, flag: MoveFlag|
                    0 <= t < 64 && flag != MoveFlag::EnPassantCapture && pos.fits_at(a, t, flag)
                        && member(allowed_squares, t) && member(
                        pin_mask,
                        t,
                    ) implies #[trigger] emits(move_list@, a, t, flag) by {
                    flag.lemma_idx();
                    board.lemma_square(t);
                    if flag == MoveFlag::EnPassantCapture {
                        assert(emits(after_ep, a, t, flag));
                    } else if flag == MoveFlag::Quiet {
                        if member(pawn_attacks, t) {
                            assert(emits(after_attacks, a, t, flag));
                        } else {
                            assert(member(pawn_moves, t));
                            assert(emits(after_moves, a, t, flag));
                        }
                    } else if flag == MoveFlag::DoubleJump {
                        let m = a + 8 * crate::chess::geometry::forward(pos.side);
                        board.lemma_square(m);
                        assert(member(in_way, m));
                        assert(in_way != 0) by {
                            if in_way == 0 {
                                crate::general::bits::lemma_member_zero(m);
                            }
                        }
                        assert(member(double_jump, t));
                    }
                }
            }
        }
        proof {
            broadcast use group_bits;
            lemma_extends_keeps(move_list@, after_attacks);
            assert forall|t: int| 0 <= t < 64 && takes_in_passing(pos, a, t) implies #[trigger] emits(
                move_list@,
                a,
                t,
                MoveFlag::EnPassantCapture,
            ) by {
                assert(emits(after_ep, a, t, MoveFlag::EnPassantCapture));
            }
            if GENERATOR_TYPE == GEN_TACTICS {
                assert forall|t: int, flag: MoveFlag|
                    0 <= t < 64 && flag != MoveFlag::EnPassantCapture && pos.fits_at(a, t, flag)
                        && member(allowed_squares, t) && member(
                        pin_mask,
                        t,
                    ) && pos.tactical_at(a, t, flag) implies #[trigger] emits(move_list@, a, t, flag) by {
                    flag.lemma_idx();
                    board.lemma_square(t);
                    if flag == MoveFlag::EnPassantCapture {
                        assert(emits(after_ep, a, t, flag));
                    } else if flag == MoveFlag::Quiet {
                        assert(member(pawn_attacks, t));
                        assert(emits(after_attacks, a, t, flag));
                    }
                }
            }
        }
    }

    /// Whether the capture en passant from `square` to `target` uncovers a bishop, a rook or a
    /// queen of the other side that attacks the king: with the two pawns off their squares and
    /// the capturing pawn on `target`, the sliders of the other side are asked.
    fn en_passant_uncovers(board: &Board, tables: &Precomputed, square: Square, target: Square, victim: Square) -> (r:
        bool)
        requires
            ready(board, tables),
            board@.fits_at(square.idx(), target.idx(), MoveFlag::EnPassantCapture),
            victim.idx() == ep_victim(board@.side, board@.ep_file),
        ensures
            r == uncovers(board@, MovePly::of(square.idx(), target.idx(), MoveFlag::EnPassantCapture)),
    {
        let us = board.side_to_move();
        let king_square = board.king_square(us);
        let new_blockers: u64 = (board.occupancy() & !victim.mask() & !square.mask()) | target.mask();
        let sliders: u64 = board.orthogonal_bitboard_them() | board.diagonal_bitboard_them();
        let attackers: u64 = attackers_of(board, tables, king_square, us.not(), new_blockers) & sliders;
        proof {
            broadcast use group_bits;
            let pos = board@;
            let them = pos.side.flip();
            let played = MovePly::of(square.idx(), target.idx(), MoveFlag::EnPassantCapture);
            let after = pos.make(played);
            let king = king_square.idx();
            square.lemma_idx();
            target.lemma_idx();
            victim.lemma_idx();
            king_square.lemma_idx();
            MovePly::lemma_of(square.idx(), target.idx(), MoveFlag::EnPassantCapture);
            Piece::lemma_of(5 + 6 * pos.side.idx());
            Piece::lemma_of(6 * them.idx());
            Piece::lemma_of(6 * pos.side.idx());
            assert forall|u: int| 0 <= u < 64 implies member(new_blockers, u) == member(after.occ(), u) by {
                lemma_after_square(pos, played, u);
                crate::chess::legality::lemma_occ(after, u);
                board.lemma_square(u);
            }
            lemma_ext(new_blockers, after.occ());
            lemma_after_square(pos, played, king);
            assert(after.pieces[king] == pos.pieces[king]);
            assert forall|t: int| 0 <= t < 64 implies (member(attackers, t) <==> (2 <= after.pieces[t].kind() <= 4
                && after.attacks(them, t, king))) by {
                lemma_after_square(pos, played, t);
                board.lemma_square(t);
                pos.pieces[t].lemma_idx();
                after.pieces[t].lemma_idx();
            }
            if attackers != 0 {
                lemma_lowest(attackers);
                let t = lowest(attackers) as int;
                assert(after.attacks(them, t, king));
            } else {
                lemma_empty(attackers);
                if uncovers(pos, played) {
                    let (t, k) = choose|t: int, k: int|
                        0 <= t < 64 && 0 <= k < 64 && after.pieces[k] == Piece::make(5, pos.side) && 2
                            <= after.pieces[t].kind() <= 4 && #[trigger] after.attacks(them, t, k);
                    lemma_after_square(pos, played, k);
                    assert(pos.pieces[k] == Piece::make(5, pos.side));
                    board.lemma_king_unique(pos.side, k);
                    assert(member(attackers, t));
                }
            }
        }
        attackers != 0
    }

    /// The capture en passant by the pawn on `square`, if the position offers one and the
    /// capture uncovers no bishop, rook or queen that attacks the king.
    fn en_passant_from(board: &Board, move_list: &mut MoveList, tables: &Precomputed, square: Square)
        requires
            ready(board, tables),
            board@.pieces[square.idx()] == Piece::make(0, board@.side),
        ensures
            all_covered(board@, final(move_list)@, old(move_list)@.len() as int),
            forall|i: int| old(move_list)@.len() <= i < final(move_list)@.len() ==> board@.fits(#[trigger] final(move_list)@[i]),
            extends(final(move_list)@, old(move_list)@),
            all_fit(board@, GENERATOR_TYPE, old(move_list)@, 0) ==> all_fit(board@, GENERATOR_TYPE, final(move_list)@, 0),
            forall|t: int|
                0 <= t < 64 && takes_in_passing(board@, square.idx(), t) ==> #[trigger] emits(
                    final(move_list)@,
                    square.idx(),
                    t,
                    MoveFlag::EnPassantCapture,
                ),
            final(move_list)@.len() <= old(move_list)@.len() + 1,
            all_leave(final(move_list)@, old(move_list)@.len() as int, square.idx()),
            all_class(board@, final(move_list)@, old(move_list)@.len() as int, 0),
    {
        let us = board.side_to_move();
        let en_passant_file = match board.en_passant_file() {
            Some(file) => file,
            None => {
                return ;
            },
        };
        let target = if us.is_white() {
            Square::from_index(en_passant_file.index() + 40)
        } else {
            Square::from_index(en_passant_file.index() + 16)
        };
        let victim = if us.is_white() {
            Square::from_index(en_passant_file.index() + 32)
        } else {
            Square::from_index(en_passant_file.index() + 24)
        };
        let attack_square_mask: u64 = tables.movement_masks.pawn_attacks(us, square) & target.mask();
        let their_pawn = Piece::from_base(BasePiece::Pawn, us.not());
        proof {
            broadcast use group_bits;
            square.lemma_idx();
            target.lemma_idx();
            en_passant_file.lemma_idx();
            assert(row_ok(&tables.movement_masks, square.idx()));
            lemma_test_bit(tables.movement_masks.attacks_of(us)[square.idx()], target.idx());
        }
        if attack_square_mask != 0 && !board.piece_at(target).is_piece() && board.piece_at(victim) == their_pawn
            && !Self::en_passant_uncovers(board, tables, square, target, victim) {
            let played = MovePly::new(square, target, MoveFlag::EnPassantCapture);
            let ghost before = move_list@;
            move_list.push(played);
            proof {
                assert(board@.fits(played));
                assert(!uncovers(board@, played));
                assert(move_list@[before.len() as int] == played);
                assert forall|i: int| 0 <= i < move_list@.len() && all_fit(board@, GENERATOR_TYPE,
                    old(move_list)@,
                    0,
                ) implies board@.fits(#[trigger] move_list@[i]) && canonical(move_list@[i]) && (GENERATOR_TYPE
                    ==> board@.tactical(move_list@[i])) by {
                    if i < before.len() {
                        assert(move_list@[i] == before[i]);
                    }
                }
            }
        }
    }

    fn update_knight_moves(
        board: &Board,
        move_list: &mut MoveList,
        allowed_squares: u64,
        pinned_pieces_mask: u64,
        tables: &Precomputed,
    )
        requires
            ready(board, tables),
        ensures
            extends(final(move_list)@, old(move_list)@),
            all_fit(board@, GENERATOR_TYPE, old(move_list)@, 0) ==> all_fit(board@, GENERATOR_TYPE, final(move_list)@, 0),
            forall|from: int, t: int|
                0 <= from < 64 && 0 <= t < 64 && board@.pieces[from] == Piece::make(1, board@.side) && board@.fits_at(
                    from,
                    t,
                    MoveFlag::Quiet,
                ) && member(allowed_squares, t) && !member(pinned_pieces_mask, from) && wanted(
                    GENERATOR_TYPE,
                    board@,
                    from,
                    t,
                    MoveFlag::Quiet,
                ) ==> #[trigger] emits(final(move_list)@, from, t, MoveFlag::Quiet),
            no_repeat(final(move_list)@, old(move_list)@.len() as int),
            all_kind(board@, final(move_list)@, old(move_list)@.len() as int, 1),
    {
        let mut allowed: u64 = allowed_squares;
        let enemy_king = board.king_square(board.side_to_move().not());
        let checking_squares: u64 = tables.movement_masks.knight[enemy_king.index() as usize];
        if GENERATOR_TYPE == GEN_TACTICS {
            allowed = (allowed & board.occupancy_them()) | (allowed & checking_squares);
        }
        proof {
            broadcast use group_bits;
            enemy_king.lemma_idx();
            assert(row_ok(&tables.movement_masks, enemy_king.idx()));
            assert(checks_known(board, GENERATOR_TYPE, 1, allowed_squares, allowed, enemy_king.idx())) by {
                if GENERATOR_TYPE {
                    assert forall|t: int| 0 <= t < 64 implies (#[trigger] member(allowed, t) <==> (member(
                        allowed_squares,
                        t,
                    ) && (member(board.occ_of(board@.side.flip()), t) || hits(
                        1,
                        board@.side,
                        board@.occ(),
                        t,
                        enemy_king.idx(),
                    )))) by {}
                }
            }
        }
        let knights = board.piece_list_us(BasePiece::Knight);
        let ghost p = 1 + 6 * board@.side.idx();
        let mut i: usize = 0;
        while i < knights.len()
            invariant
                i <= knights.len(),
                ready(board, tables),
                knights@ == board.list(p)@,
                p == 1 + 6 * board@.side.idx(),
                checks_known(board, GENERATOR_TYPE, 1, allowed_squares, allowed, enemy_king.idx()),
                no_repeat(move_list@, old(move_list)@.len() as int),
                all_seen(move_list@, old(move_list)@.len() as int, knights@, i as int),
                extends(move_list@, old(move_list)@),
                all_fit(board@, GENERATOR_TYPE, old(move_list)@, 0) ==> all_fit(board@, GENERATOR_TYPE, move_list@, 0),
                forall|j: int, t: int|
                    0 <= j < i && 0 <= t < 64 && board@.fits_at(knights@[j].idx(), t, MoveFlag::Quiet) && member(
                        allowed_squares,
                        t,
                    ) && !member(pinned_pieces_mask, knights@[j].idx()) && wanted(
                        GENERATOR_TYPE,
                        board@,
                        knights@[j].idx(),
                        t,
                        MoveFlag::Quiet,
                    ) ==> #[trigger] emits(move_list@, knights@[j].idx(), t, MoveFlag::Quiet),
            decreases knights.len() - i,
        {
            let square = knights[i];
            let ghost before = move_list@;
            proof {
                board.lemma_list_member(p, i as int);
                Piece::lemma_of(p);
                lemma_test_bit(pinned_pieces_mask, square.idx());
            }
            if pinned_pieces_mask & square.mask() == 0 {
                let knight_moves: u64 = tables.movement_masks.knight[square.index() as usize];
                proof {
                    assert(row_ok(&tables.movement_masks, square.idx()));
                }
                Self::piece_moves_from(
                    BasePiece::Knight,
                    board,
                    move_list,
                    knight_moves,
                    allowed_squares,
                    allowed,
                    u64::MAX,
                    enemy_king,
                    tables,
                    square,
                );
            }
            proof {
                broadcast use group_bits;
                lemma_extends_keeps(move_list@, before);
                assert(board.lists()[p].wf());
                board.lists()[p].lemma_contains();
                lemma_gain_for_square(move_list@, before, old(move_list)@.len() as int, knights@, i as int);
                assert forall|j: int, t: int|
                    0 <= j < i + 1 && 0 <= t < 64 && board@.fits_at(knights@[j].idx(), t, MoveFlag::Quiet) && member(
                        allowed_squares,
                        t,
                    ) && !member(pinned_pieces_mask, knights@[j].idx()) && wanted(
                        GENERATOR_TYPE,
                        board@,
                        knights@[j].idx(),
                        t,
                        MoveFlag::Quiet,
                    ) implies #[trigger] emits(move_list@, knights@[j].idx(), t, MoveFlag::Quiet) by {
                    if j < i {
                        assert(emits(before, knights@[j].idx(), t, MoveFlag::Quiet));
                    }
                }
            }
            i += 1;
        }
        proof {
            Piece::lemma_of(p);
            assert forall|from: int, t: int|
                0 <= from < 64 && 0 <= t < 64 && board@.pieces[from] == Piece::make(1, board@.side) && board@.fits_at(
                    from,
                    t,
                    MoveFlag::Quiet,
                ) && member(allowed_squares, t) && !member(pinned_pieces_mask, from) && wanted(
                    GENERATOR_TYPE,
                    board@,
                    from,
                    t,
                    MoveFlag::Quiet,
                ) implies #[trigger] emits(move_list@, from, t, MoveFlag::Quiet) by {
                assert(board.lists()[p].contains(from) <==> board@.pieces[from].idx() == p);
                assert(board.lists()[p].wf());
                board.lists()[p].lemma_contains();
                let j = choose|j: int| 0 <= j < knights@.len() && #[trigger] knights@[j].idx() == from;
                assert(emits(move_list@, knights@[j].idx(), t, MoveFlag::Quiet));
            }
            assert forall|k: int| old(move_list)@.len() <= k < move_list@.len() implies board@.pieces[(
            #[trigger] move_list@[k]).from_idx()] == Piece::make(1, board@.side) by {
                let j = choose|j: int| 0 <= j < knights@.len() && (#[trigger] knights@[j]).idx() == move_list@[k].from_idx();
                board.lemma_list_member(p, j);
            }
        }
    }

    /// The moves of the knight, bishop, rook or queen on `square` to the squares of `reach`, the
    /// squares that it attacks, as far as they are in `allowed` and in `pin_mask`.
    fn piece_moves_from(
        kind: BasePiece,
        board: &Board,
        move_list: &mut MoveList,
        reach: u64,
        allowed_squares: u64,
        allowed: u64,
        pin_mask: u64,
        enemy_king: Square,
        tables: &Precomputed,
        square: Square,
    )
        requires
            ready(board, tables),
            1 <= kind.idx() <= 4,
            board@.pieces[square.idx()] == Piece::make(kind.idx(), board@.side),
            forall|t: int|
                0 <= t < 64 ==> (#[trigger] member(reach, t) <==> hits(
                    kind.idx(),
                    board@.side,
                    board@.occ(),
                    square.idx(),
                    t,
                )),
            checks_known(board, GENERATOR_TYPE, kind.idx(), allowed_squares, allowed, enemy_king.idx()),
        ensures
            extends(final(move_list)@, old(move_list)@),
            all_fit(board@, GENERATOR_TYPE, old(move_list)@, 0) ==> all_fit(board@, GENERATOR_TYPE, final(move_list)@, 0),
            forall|t: int|
                0 <= t < 64 && board@.fits_at(square.idx(), t, MoveFlag::Quiet) && member(allowed_squares, t) && member(
                    pin_mask,
                    t,
                ) && wanted(GENERATOR_TYPE, board@, square.idx(), t, MoveFlag::Quiet) ==> #[trigger] emits(
                    final(move_list)@,
                    square.idx(),
                    t,
                    MoveFlag::Quiet,
                ),
            all_leave(final(move_list)@, old(move_list)@.len() as int, square.idx()),
            no_repeat(final(move_list)@, old(move_list)@.len() as int),
    {
        let targets: u64 = reach & !board.occupancy_us() & allowed & pin_mask;
        let ghost pos = board@;
        let ghost a = square.idx();
        let ghost ek = enemy_king.idx();
        proof {
            broadcast use group_bits;
            square.lemma_idx();
            pos.pieces[a].lemma_idx();
            Piece::lemma_of(kind.idx() + 6 * pos.side.idx());
            assert forall|t: int| 0 <= t < 64 && member(targets, t) && !pos.pieces[t].of_side(pos.side) implies pos.reaches_at(
                a,
                t,
                MoveFlag::Quiet,
            ) && wanted(GENERATOR_TYPE, pos, a, t, MoveFlag::Quiet) by {
                board.lemma_square(t);
                if GENERATOR_TYPE && !pos.pieces[t].occupied() {
                    assert(pos.checks_from(kind.idx(), t));
                }
            }
        }
        Self::add_quiet(board, move_list, targets, square, tables);
        proof {
            broadcast use group_bits;
            assert forall|t: int|
                0 <= t < 64 && pos.fits_at(a, t, MoveFlag::Quiet) && member(allowed_squares, t) && member(
                    pin_mask,
                    t,
                ) && wanted(GENERATOR_TYPE, pos, a, t, MoveFlag::Quiet) implies #[trigger] emits(
                move_list@,
                a,
                t,
                MoveFlag::Quiet,
            ) by {
                board.lemma_square(t);
                if GENERATOR_TYPE && !pos.pieces[t].occupied() {
                    let k = choose|k: int|
                        0 <= k < 64 && (#[trigger] pos.pieces[k]) == Piece::make(5, pos.side.flip()) && hits(
                            kind.idx(),
                            pos.side,
                            pos.occ(),
                            t,
                            k,
                        );
                    board.lemma_king_unique(pos.side.flip(), k);
                    board.lemma_king_unique(pos.side.flip(), ek);
                }
                assert(member(allowed, t));
                assert(member(targets, t));
            }
        }
    }

    fn update_slider_moves(
        slider_type: BasePiece,
        board: &Board,
        move_list: &mut MoveList,
        allowed_squares: u64,
        pin_ray_mask: &[u64; 64],
        tables: &Precomputed,
    )
        requires
            ready(board, tables),
            slider_type == BasePiece::Bishop || slider_type == BasePiece::Rook || slider_type == BasePiece::Queen,
        ensures
            extends(final(move_list)@, old(move_list)@),
            all_fit(board@, GENERATOR_TYPE, old(move_list)@, 0) ==> all_fit(board@, GENERATOR_TYPE, final(move_list)@, 0),
            forall|from: int, t: int|
                0 <= from < 64 && 0 <= t < 64 && board@.pieces[from] == Piece::make(slider_type.idx(), board@.side)
                    && board@.fits_at(from, t, MoveFlag::Quiet) && member(allowed_squares, t) && member(
                    pin_ray_mask[from],
                    t,
                ) && wanted(GENERATOR_TYPE, board@, from, t, MoveFlag::Quiet) ==> #[trigger] emits(
                    final(move_list)@,
                    from,
                    t,
                    MoveFlag::Quiet,
                ),
            no_repeat(final(move_list)@, old(move_list)@.len() as int),
            all_kind(board@, final(move_list)@, old(move_list)@.len() as int, slider_type.idx()),
    {
        let mut allowed: u64 = allowed_squares;
        let enemy_king = board.king_square(board.side_to_move().not());
        let checking_squares: u64 = slider_lookup(tables, slider_type, enemy_king, board.occupancy());
        if GENERATOR_TYPE == GEN_TACTICS {
            allowed = (allowed & board.occupancy_them()) | (allowed & checking_squares);
        }
        proof {
            broadcast use group_bits;
            enemy_king.lemma_idx();
            board.lemma_occ();
            assert(checks_known(board, GENERATOR_TYPE, slider_type.idx(), allowed_squares, allowed, enemy_king.idx())) by {
                if GENERATOR_TYPE {
                    assert forall|t: int| 0 <= t < 64 implies (#[trigger] member(allowed, t) <==> (member(
                        allowed_squares,
                        t,
                    ) && (member(board.occ_of(board@.side.flip()), t) || hits(
                        slider_type.idx(),
                        board@.side,
                        board@.occ(),
                        t,
                        enemy_king.idx(),
                    )))) by {
                        crate::chess::geometry::lemma_clear_sym(board@.occ(), enemy_king.idx(), t);
                    }
                }
            }
        }
        let sliders = board.piece_list_us(slider_type);
        let ghost p = slider_type.idx() + 6 * board@.side.idx();
        let mut i: usize = 0;
        while i < sliders.len()
            invariant
                i <= sliders.len(),
                ready(board, tables),
                slider_type == BasePiece::Bishop || slider_type == BasePiece::Rook || slider_type
                    == BasePiece::Queen,
                sliders@ == board.list(p)@,
                p == slider_type.idx() + 6 * board@.side.idx(),
                checks_known(board, GENERATOR_TYPE, slider_type.idx(), allowed_squares, allowed, enemy_king.idx()),
                no_repeat(move_list@, old(move_list)@.len() as int),
                all_seen(move_list@, old(move_list)@.len() as int, sliders@, i as int),
                extends(move_list@, old(move_list)@),
                all_fit(board@, GENERATOR_TYPE, old(move_list)@, 0) ==> all_fit(board@, GENERATOR_TYPE, move_list@, 0),
                forall|j: int, t: int|
                    0 <= j < i && 0 <= t < 64 && board@.fits_at(sliders@[j].idx(), t, MoveFlag::Quiet) && member(
                        allowed_squares,
                        t,
                    ) && member(pin_ray_mask[sliders@[j].idx()], t) && wanted(
                        GENERATOR_TYPE,
                        board@,
                        sliders@[j].idx(),
                        t,
                        MoveFlag::Quiet,
                    ) ==> #[trigger] emits(move_list@, sliders@[j].idx(), t, MoveFlag::Quiet),
            decreases sliders.len() - i,
        {
            let square = sliders[i];
            let ghost before = move_list@;
            let reach: u64 = slider_lookup(tables, slider_type, square, board.occupancy());
            proof {
                board.lemma_list_member(p, i as int);
                Piece::lemma_of(p);
                board.lemma_occ();
            }
            Self::piece_moves_from(
                slider_type,
                board,
                move_list,
                reach,
                allowed_squares,
                allowed,
                pin_ray_mask[square.index() as usize],
                enemy_king,
                tables,
                square,
            );
            proof {
                lemma_extends_keeps(move_list@, before);
                assert(board.lists()[p].wf());
                board.lists()[p].lemma_contains();
                lemma_gain_for_square(move_list@, before, old(move_list)@.len() as int, sliders@, i as int);
                assert forall|j: int, t: int|
                    0 <= j < i + 1 && 0 <= t < 64 && board@.fits_at(sliders@[j].idx(), t, MoveFlag::Quiet) && member(
                        allowed_squares,
                        t,
                    ) && member(pin_ray_mask[sliders@[j].idx()], t) && wanted(
                        GENERATOR_TYPE,
                        board@,
                        sliders@[j].idx(),
                        t,
                        MoveFlag::Quiet,
                    ) implies #[trigger] emits(move_list@, sliders@[j].idx(), t, MoveFlag::Quiet) by {
                    if j < i {
                        assert(emits(before, sliders@[j].idx(), t, MoveFlag::Quiet));
                    }
                }
            }
            i += 1;
        }
        proof {
            Piece::lemma_of(p);
            assert forall|from: int, t: int|
                0 <= from < 64 && 0 <= t < 64 && board@.pieces[from] == Piece::make(slider_type.idx(), board@.side)
                    && board@.fits_at(from, t, MoveFlag::Quiet) && member(allowed_squares, t) && member(
                    pin_ray_mask[from],
                    t,
                ) && wanted(GENERATOR_TYPE, board@, from, t, MoveFlag::Quiet) implies #[trigger] emits(
                move_list@,
                from,
                t,
                MoveFlag::Quiet,
            ) by {
                assert(board.lists()[p].contains(from) <==> board@.pieces[from].idx() == p);
                assert(board.lists()[p].wf());
                board.lists()[p].lemma_contains();
                let j = choose|j: int| 0 <= j < sliders@.len() && #[trigger] sliders@[j].idx() == from;
                assert(emits(move_list@, sliders@[j].idx(), t, MoveFlag::Quiet));
            }
            assert forall|k: int| old(move_list)@.len() <= k < move_list@.len() implies board@.pieces[(
            #[trigger] move_list@[k]).from_idx()] == Piece::make(slider_type.idx(), board@.side) by {
                let j = choose|j: int| 0 <= j < sliders@.len() && (#[trigger] sliders@[j]).idx() == move_list@[k].from_idx();
                board.lemma_list_member(p, j);
            }
        }
    }

    fn update_king_moves(board: &Board, move_list: &mut MoveList, pieces_checking: u64, tables: &Precomputed)
        requires
            ready(board, tables),
        ensures
            extends(final(move_list)@, old(move_list)@),
            all_fit(board@, GENERATOR_TYPE, old(move_list)@, 0) ==> all_fit(board@, GENERATOR_TYPE, final(move_list)@, 0),
            forall|t: int|
                0 <= t < 64 && board@.fits_at(king_of(board), t, MoveFlag::Quiet) && !attacked_off_king(board, t)
                    && wanted(GENERATOR_TYPE, board@, king_of(board), t, MoveFlag::Quiet) ==> #[trigger] emits(
                    final(move_list)@,
                    king_of(board),
                    t,
                    MoveFlag::Quiet,
                ),
            GENERATOR_TYPE == GEN_ALL ==> forall|from: int, t: int, flag: MoveFlag|
                0 <= from < 64 && 0 <= t < 64 && flag.castles() && board@.fits_at(from, t, flag) && pieces_checking
                    == 0 ==> #[trigger] emits(final(move_list)@, from, t, flag),
            no_repeat(final(move_list)@, old(move_list)@.len() as int),
            all_kind(board@, final(move_list)@, old(move_list)@.len() as int, 5),
    {
        let us = board.side_to_move();
        let ghost n0 = move_list@.len() as int;
        let attack_squares: u64 = Self::get_enemy_attacks(board, tables);
        let king_square = board.king_square(us);
        let mut valid_moves: u64 = (tables.movement_masks.king[king_square.index() as usize])
            & !board.occupancy_us() & !attack_squares;
        proof {
            broadcast use group_bits;
            king_square.lemma_idx();
            assert(row_ok(&tables.movement_masks, king_square.idx()));
        }
        if GENERATOR_TYPE == GEN_TACTICS {
            let ghost steps = valid_moves;
            valid_moves = valid_moves & board.occupancy_them();
            proof {
                broadcast use group_bits;
                assert forall|t: int|
                    0 <= t < 64 && member(valid_moves, t) && !board@.pieces[t].of_side(
                        board@.side,
                    ) implies wanted(GENERATOR_TYPE, board@, king_square.idx(), t, MoveFlag::Quiet) by {
                    board.lemma_square(t);
                }
            }
            Self::add_quiet(board, move_list, valid_moves, king_square, tables);
            proof {
                broadcast use group_bits;
                board@.pieces[king_square.idx()].lemma_idx();
                assert forall|t: int|
                    0 <= t < 64 && board@.fits_at(king_of(board), t, MoveFlag::Quiet) && !attacked_off_king(
                        board,
                        t,
                    ) && wanted(GENERATOR_TYPE, board@, king_of(board), t, MoveFlag::Quiet) implies #[trigger] emits(
                    move_list@,
                    king_of(board),
                    t,
                    MoveFlag::Quiet,
                ) by {
                    board.lemma_square(t);
                    assert(member(steps, t));
                    assert(member(valid_moves, t));
                }
                assert forall|k: int| n0 <= k < move_list@.len() implies board@.pieces[(
                #[trigger] move_list@[k]).from_idx()] == Piece::make(5, board@.side) by {}
            }
            return ;
        }
        Self::add_quiet(board, move_list, valid_moves, king_square, tables);
        let ghost after_steps = move_list@;
        proof {
            broadcast use group_bits;
            let pos = board@;
            assert(all_leave(after_steps, n0, king_of(board)));
            assert forall|c: int| 5 <= c <= 7 implies #[trigger] none_class(pos, after_steps, n0, c) by {}
            assert forall|t: int|
                0 <= t < 64 && board@.fits_at(king_of(board), t, MoveFlag::Quiet) && !attacked_off_king(
                    board,
                    t,
                ) implies #[trigger] emits(move_list@, king_of(board), t, MoveFlag::Quiet) by {
                board.lemma_square(t);
                assert(member(valid_moves, t));
            }
        }
        if pieces_checking == 0 {
            Self::castle(board, move_list, tables, true);
            let ghost after_short = move_list@;
            proof {
                let pos = board@;
                assert(no_repeat(after_short, after_steps.len() as int));
                lemma_gain_of_class(pos, after_short, after_steps, n0, 6);
                lemma_grown(after_short, after_steps, n0, king_of(board), pos);
                assert(none_class(pos, after_short, after_steps.len() as int, 7));
                assert(none_class(pos, after_short, n0, 7));
            }
            Self::castle(board, move_list, tables, false);
            proof {
                let pos = board@;
                assert(no_repeat(move_list@, after_short.len() as int));
                lemma_gain_of_class(pos, move_list@, after_short, n0, 7);
                lemma_grown(move_list@, after_short, n0, king_of(board), pos);
                lemma_extends_keeps(after_short, after_steps);
                lemma_extends_keeps(move_list@, after_short);
                assert forall|t: int|
                    0 <= t < 64 && board@.fits_at(king_of(board), t, MoveFlag::Quiet) && !attacked_off_king(
                        board,
                        t,
                    ) implies #[trigger] emits(move_list@, king_of(board), t, MoveFlag::Quiet) by {
                    assert(emits(after_steps, king_of(board), t, MoveFlag::Quiet));
                }
                assert forall|from: int, t: int, flag: MoveFlag|
                    0 <= from < 64 && 0 <= t < 64 && flag.castles() && board@.fits_at(
                        from,
                        t,
                        flag,
                    ) implies #[trigger] emits(move_list@, from, t, flag) by {
                    if flag == MoveFlag::CastleKingSide {
                        assert(emits(after_short, from, t, flag));
                    }
                }
            }
        }
        proof {
            assert forall|k: int| n0 <= k < move_list@.len() implies board@.pieces[(
            #[trigger] move_list@[k]).from_idx()] == Piece::make(5, board@.side) by {}
        }
    }

    /// The castling move on the given wing, if the rules allow it: the side has the right, king
    /// and rook are at home with nothing between them, and none of the squares of the king,
    /// the one it passes and the one it reaches is attacked.
    fn castle(board: &Board, move_list: &mut MoveList, tables: &Precomputed, king_side: bool)
        requires
            GENERATOR_TYPE == GEN_ALL,
            ready(board, tables),
        ensures
            extends(final(move_list)@, old(move_list)@),
            all_fit(board@, GENERATOR_TYPE, old(move_list)@, 0) ==> all_fit(board@, GENERATOR_TYPE, final(move_list)@, 0),
            forall|from: int, t: int|
                0 <= from < 64 && 0 <= t < 64 && board@.fits_at(from, t, castle_flag(king_side)) ==> #[trigger] emits(
                    final(move_list)@,
                    from,
                    t,
                    castle_flag(king_side),
                ),
            final(move_list)@.len() <= old(move_list)@.len() + 1,
            all_leave(final(move_list)@, old(move_list)@.len() as int, king_of(board)),
            all_class(board@, final(move_list)@, old(move_list)@.len() as int, if king_side {
                6int
            } else {
                7int
            }),
    {
        proof {
            board.lemma_list_member(5 + 6 * board@.side.idx(), 0);
            Piece::lemma_of(5 + 6 * board@.side.idx());
        }
        let us = board.side_to_move();
        let them = us.not();
        let base: u8 = if us.is_white() {
            0
        } else {
            56
        };
        let king_from = Square::from_index(base + 4);
        let (king_to, rook_from, rook_to) = if king_side {
            (Square::from_index(base + 6), Square::from_index(base + 7), Square::from_index(base + 5))
        } else {
            (Square::from_index(base + 2), Square::from_index(base), Square::from_index(base + 3))
        };
        let has_right: bool = if king_side {
            board.has_short_castle_rights(us)
        } else {
            board.has_long_castle_rights(us)
        };
        let king = Piece::from_base(BasePiece::King, us);
        let rook = Piece::from_base(BasePiece::Rook, us);
        let at_home: bool = board.piece_at(king_from) == king && board.piece_at(rook_from) == rook;
        let empty: bool = !board.piece_at(king_to).is_piece() && !board.piece_at(rook_to).is_piece() && (king_side
            || !board.piece_at(Square::from_index(base + 1)).is_piece());
        let flag = if king_side {
            MoveFlag::CastleKingSide
        } else {
            MoveFlag::CastleQueenSide
        };
        proof {
            assert(castle_squares(us, king_side) == (
                king_from.idx(),
                king_to.idx(),
                rook_from.idx(),
                rook_to.idx(),
            ));
        }
        if has_right && at_home && empty {
            if !is_attacked(board, tables, king_from, them) && !is_attacked(board, tables, rook_to, them)
                && !is_attacked(board, tables, king_to, them) {
                let played = MovePly::new(king_from, king_to, flag);
                let ghost before = move_list@;
                move_list.push(played);
                proof {
                    board.lemma_king_unique(us, king_from.idx());
                    assert(board@.castle_path_ok(king_side));
                    assert(board@.fits(played));
                    assert(move_list@[before.len() as int] == played);
                    assert forall|i: int| 0 <= i < move_list@.len() && all_fit(board@, GENERATOR_TYPE,
                        old(move_list)@,
                        0,
                    ) implies board@.fits(#[trigger] move_list@[i]) && canonical(move_list@[i]) && (GENERATOR_TYPE
                    ==> board@.tactical(move_list@[i])) by {
                        if i < before.len() {
                            assert(move_list@[i] == before[i]);
                        }
                    }
                }
            }
        }
    }

    /// The pinned pieces of the side to move. For each of them `pin_ray_mask` gets the
    /// squares on which it may still move: those between the king and the piece that pins
    /// it, and the square of that piece.
    fn get_pins(board: &Board, tables: &Precomputed, pin_ray_mask: &mut [u64; 64]) -> (pinned_pieces_mask: u64)
        requires
            ready(board, tables),
        ensures
            forall|sq: int|
                0 <= sq < 64 && !member(pinned_pieces_mask, sq) ==> (#[trigger] final(pin_ray_mask)[sq]) == old(
                    pin_ray_mask,
                )[sq],
            forall|sq: int|
                0 <= sq < 64 && #[trigger] member(pinned_pieces_mask, sq) ==> pin_ok(
                    board,
                    sq,
                    final(pin_ray_mask)[sq],
                ),
    {
        let friendly_king_square = board.king_square(board.side_to_move());
        let friendly_pieces: u64 = board.occupancy_us();
        let enemy_pieces: u64 = board.occupancy_them();
        let enemy_orthogonal: u64 = board.orthogonal_bitboard_them();
        let enemy_diagonal: u64 = board.diagonal_bitboard_them();
        let possible_orthogonally_pinned: u64 = tables.movement_masks.rook[friendly_king_square.index() as usize]
            & enemy_orthogonal;
        let possible_diagonally_pinned: u64 = tables.movement_masks.bishop[friendly_king_square.index() as usize]
            & enemy_diagonal;
        let all_pinners: u64 = possible_orthogonally_pinned | possible_diagonally_pinned;
        let mut possible_pinners: u64 = all_pinners;
        let mut pinned_pieces_mask: u64 = 0;
        let ghost king = friendly_king_square.idx();
        proof {
            broadcast use group_bits;
            friendly_king_square.lemma_idx();
            assert(row_ok(&tables.movement_masks, king));
        }
        while possible_pinners != 0
            invariant
                ready(board, tables),
                0 <= king < 64,
                king == friendly_king_square.idx(),
                king == king_of(board),
                friendly_pieces == board.occ_of(board@.side),
                enemy_pieces == board.occ_of(board@.side.flip()),
                forall|t: int| member(possible_pinners, t) ==> #[trigger] pinner_ok(board, t),
                forall|sq: int|
                    0 <= sq < 64 && !member(pinned_pieces_mask, sq) ==> (#[trigger] pin_ray_mask[sq]) == old(
                        pin_ray_mask,
                    )[sq],
                forall|sq: int|
                    0 <= sq < 64 && #[trigger] member(pinned_pieces_mask, sq) ==> pin_ok(board, sq, pin_ray_mask[sq]),
            decreases popcount(possible_pinners),
        {
            let possible_pinner: u8 = bits::next(possible_pinners);
            let ray: u64 = tables.in_between.get(friendly_king_square, Square::from_index(possible_pinner));
            let rest: u64 = bits::pop(possible_pinners);
            assert(pinner_ok(board, possible_pinner as int));
            // pieces of the other side between the king and the pinner
            if (ray & enemy_pieces) == 0 {
                let friendly_pieces_between: u64 = ray & friendly_pieces;
                if bits::count(friendly_pieces_between) == 1 {
                    proof {
                        lemma_count_one(friendly_pieces_between);
                    }
                    let ghost before_mask = pinned_pieces_mask;
                    let ghost before_rays = *pin_ray_mask;
                    pinned_pieces_mask = pinned_pieces_mask | friendly_pieces_between;
                    let friendly_piece_index: usize = bits::next(friendly_pieces_between) as usize;
                    let new_ray: u64 = ray | (1u64 << (possible_pinner as u64));
                    pin_ray_mask[friendly_piece_index] = new_ray;
                    proof {
                        broadcast use group_bits;
                        let pinner = possible_pinner as int;
                        let s = friendly_piece_index as int;
                        assert(member(friendly_pieces_between, s));
                        assert forall|u: int| 0 <= u < 64 && #[trigger] between(king, u, pinner) implies (member(
                            board.occ_all(),
                            u,
                        ) <==> u == s) by {
                            board.lemma_square(u);
                            assert(!member(ray & enemy_pieces, u));
                            assert(member(friendly_pieces_between, u) <==> u == s);
                        }
                        assert(pins(board, pinner, s));
                        assert((1u64 << (possible_pinner as u64)) == bit(pinner));
                        assert forall|u: int| 0 <= u < 64 implies (#[trigger] member(new_ray, u) <==> (u
                            == pinner || between(king, u, pinner))) by {
                            assert(member(bit(pinner), u) == (u == pinner));
                        }
                        assert(ray_to(new_ray, king, pinner));
                        assert(pinned_by(board, pinner, s, new_ray));
                        assert forall|sq: int| 0 <= sq < 64 && #[trigger] member(
                            pinned_pieces_mask,
                            sq,
                        ) implies pin_ok(board, sq, pin_ray_mask[sq]) by {
                            if sq != s {
                                assert(member(before_mask, sq));
                                assert(pin_ray_mask[sq] == before_rays[sq]);
                                assert(pin_ok(board, sq, before_rays[sq]));
                            }
                        }
                    }
                }
            }
            possible_pinners = rest;
        }
        pinned_pieces_mask
    }
}

/// What is known of the squares `allowed` to which a piece of kind `kind` may go: all of
/// `allowed_squares` when every move is wanted; with `tactics` those of them on which a piece of
/// the other side stands or from which the piece attacks the other king, which stands on `ek`.
pub open spec fn checks_known(
    board: &Board,
    tactics: bool,
    kind: int,
    allowed_squares: u64,
    allowed: u64,
    ek: int,
) -> bool {
    &&& 0 <= ek < 64
    &&& board@.pieces[ek] == Piece::make(5, board@.side.flip())
    &&& !tactics ==> allowed == allowed_squares
    &&& tactics ==> forall|t: int|
        0 <= t < 64 ==> (#[trigger] member(allowed, t) <==> (member(allowed_squares, t) && (member(
            board.occ_of(board@.side.flip()),
            t,
        ) || hits(kind, board@.side, board@.occ(), t, ek))))
}

/// The flag of castling on the given wing.
pub open spec fn castle_flag(king_side: bool) -> MoveFlag {
    if king_side {
        MoveFlag::CastleKingSide
    } else {
        MoveFlag::CastleQueenSide
    }
}

/// Whether a piece of the other side attacks `s` once the king of the side to move is off
/// the board, so that rooks, bishops and queens attack through its square.
pub open spec fn attacked_off_king(board: &Board, s: int) -> bool {
    exists|t: int|
        0 <= t < 64 && #[trigger] board@.pieces[t].of_side(board@.side.flip()) && hits(
            board@.pieces[t].kind(),
            board@.side.flip(),
            board.occ_all() & !bit(king_of(board)),
            t,
            s,
        )
}

/// The square of the king of the side to move.
pub open spec fn king_of(board: &Board) -> int {
    board.list(5 + 6 * board@.side.idx())@[0].idx()
}

/// Whether the piece on `t` is one that can pin a piece to the king of the side to move: a
/// rook or queen of the other side on a file or rank with the king, or a bishop or queen of the
/// other side on a diagonal with it.
pub open spec fn pinner_ok(board: &Board, t: int) -> bool {
    let king = king_of(board);
    let them = board@.side.flip().idx();
    ||| rook_line(king, t) && member(board.bb(3 + 6 * them) | board.bb(4 + 6 * them), t)
    ||| bishop_line(king, t) && member(board.bb(2 + 6 * them) | board.bb(4 + 6 * them), t)
}

/// Whether the piece of the other side on `pinner` pins the piece of the side to move on `sq`
/// to its king: `sq` is the one occupied square between the two.
pub open spec fn pins(board: &Board, pinner: int, sq: int) -> bool {
    let king = king_of(board);
    &&& between(king, sq, pinner)
    &&& member(board.occ_of(board@.side), sq)
    &&& pinner_ok(board, pinner)
    &&& forall|u: int| 0 <= u < 64 && #[trigger] between(king, u, pinner) ==> (member(board.occ_all(), u) <==> u == sq)
}

/// `mask` holds the square `pinner` and the squares between it and `king`.
pub open spec fn ray_to(mask: u64, king: int, pinner: int) -> bool {
    forall|u: int| 0 <= u < 64 ==> (#[trigger] member(mask, u) <==> (u == pinner || between(king, u, pinner)))
}

pub open spec fn pinned_by(board: &Board, pinner: int, sq: int, mask: u64) -> bool {
    0 <= pinner < 64 && pins(board, pinner, sq) && ray_to(mask, king_of(board), pinner)
}

/// Some piece pins the piece on `sq`, and `mask` is the ray on which the pinned piece may move.
pub open spec fn pin_ok(board: &Board, sq: int, mask: u64) -> bool {
    exists|pinner: int| #[trigger] pinned_by(board, pinner, sq, mask)
}

/// Whether the move from `from` to `to` with `flag` fits the position and passes what the
/// generator cuts its candidates by: a king steps onto no square that is attacked once it is
/// off its own, and castles only out of no check; a capture en passant passes if it uncovers
/// no bishop, rook or queen that attacks the king; any other
/// move goes to a square that answers the check and stays on the ray of its pin, and a pinned
/// knight does not move.
pub open spec fn passes(
    board: &Board,
    tactics: bool,
    checkers: u64,
    allowed: u64,
    pins: Seq<u64>,
    pinned: u64,
    from: int,
    to: int,
    flag: MoveFlag,
) -> bool {
    let kind = board@.pieces[from].kind();
    &&& board@.fits_at(from, to, flag)
    &&& wanted(tactics, board@, from, to, flag)
    &&& if kind == 5 {
        if flag.castles() {
            checkers == 0
        } else {
            flag == MoveFlag::Quiet && !attacked_off_king(board, to)
        }
    } else if flag == MoveFlag::EnPassantCapture {
        !uncovers(board@, MovePly::of(from, to, flag))
    } else {
        &&& member(allowed, to)
        &&& if kind == 1 {
            !member(pinned, from)
        } else {
            member(pins[from], to)
        }
    }
}

/// Every move that passes is among `list`.
pub open spec fn emits_all(
    board: &Board,
    tactics: bool,
    checkers: u64,
    allowed: u64,
    pins: Seq<u64>,
    pinned: u64,
    list: Seq<MovePly>,
) -> bool {
    forall|from: int, t: int, flag: MoveFlag|
        0 <= from < 64 && 0 <= t < 64 && passes(board, tactics, checkers, allowed, pins, pinned, from, t, flag)
            ==> #[trigger] emits(list, from, t, flag)
}

/// What the check data and the pins say of the position.
pub open spec fn masks_ok(board: &Board, checkers: u64, allowed: u64, pins: Seq<u64>, pinned: u64) -> bool {
    &&& pins.len() == 64
    &&& forall|t: int|
        0 <= t < 64 ==> (#[trigger] member(checkers, t) <==> board@.attacks(board@.side.flip(), t, king_of(board)))
    &&& checkers == 0 ==> allowed == u64::MAX
    &&& popcount(checkers) >= 2 ==> allowed == 0
    &&& popcount(checkers) == 1 ==> forall|u: int|
        0 <= u < 64 ==> (#[trigger] member(allowed, u) <==> (u == lowest(checkers) || between(
            king_of(board),
            u,
            lowest(checkers),
        )))
    &&& forall|sq: int| 0 <= sq < 64 && !member(pinned, sq) ==> (#[trigger] pins[sq]) == u64::MAX
    &&& forall|sq: int| 0 <= sq < 64 && #[trigger] member(pinned, sq) ==> pin_ok(board, sq, pins[sq])
}

/// A legal move of a piece other than the king, and no capture en passant, goes to a square
/// that answers the check and stays on the ray of its pin; and a pinned knight has none.
proof fn lemma_passes_masks(board: &Board, checkers: u64, allowed: u64, pins: Seq<u64>, pinned: u64, played: MovePly)
    requires
        board.wf_pieces(),
        board.occ_ok(),
        board.kings_ok(),
        board@.ok(),
        masks_ok(board, checkers, allowed, pins, pinned),
        board@.legal(played),
        board@.pieces[played.from_idx()].kind() != 5,
        played.spec_flag() != MoveFlag::EnPassantCapture,
    ensures
        member(allowed, played.to_idx()),
        member(pins[played.from_idx()], played.to_idx()),
        board@.pieces[played.from_idx()].kind() == 1 ==> !member(pinned, played.from_idx()),
{
    broadcast use group_bits;
    let pos = board@;
    let from = played.from_idx();
    let to = played.to_idx();
    let k = king_of(board);
    let them = pos.side.flip();
    played.lemma_ranges();
    pos.pieces[from].lemma_idx();
    board.lemma_list_member(5 + 6 * pos.side.idx(), 0);
    Piece::lemma_of(5 + 6 * pos.side.idx());
    assert(pos.pieces[k] == Piece::make(5, pos.side));
    // the check
    lemma_count_zero(checkers);
    if checkers != 0 {
        if popcount(checkers) == 1 {
            lemma_count_one(checkers);
            let c = lowest(checkers);
            assert(member(checkers, c));
            if to != c && !between(k, to, c) {
                lemma_check_stays(pos, played, k, c);
            }
        } else {
            let c2 = lemma_count_two(checkers);
            let c1 = lowest(checkers);
            lemma_two_checks(pos, played, k, c1, c2);
        }
    }
    // the pin
    if member(pinned, from) {
        assert(pin_ok(board, from, pins[from]));
        let p = choose|p: int| #[trigger] pinned_by(board, p, from, pins[from]);
        board.lemma_square(p);
        let c = 6 * them.idx();
        assert(member(board.bbs()[c + 2].0, p) <==> pos.pieces[p].idx() == c + 2);
        assert(member(board.bbs()[c + 3].0, p) <==> pos.pieces[p].idx() == c + 3);
        assert(member(board.bbs()[c + 4].0, p) <==> pos.pieces[p].idx() == c + 4);
        pos.pieces[p].lemma_idx();
        assert forall|u: int| 0 <= u < 64 && #[trigger] between(k, u, p) implies (pos.pieces[u].occupied() <==> u
            == from) by {
            board.lemma_square(u);
        }
        if pos.pieces[from].kind() == 1 {
            lemma_knight_leaves_line(k, from, to, p);
        }
        if to != p && !between(k, to, p) {
            lemma_pin_holds(pos, played, k, p);
        }
        assert(member(pins[from], to));
    }
}

/// Every legal move passes what the generator cuts its candidates by, so that it is among them.
proof fn lemma_complete(
    board: &Board,
    tactics: bool,
    checkers: u64,
    allowed: u64,
    pins: Seq<u64>,
    pinned: u64,
    list: Seq<MovePly>,
    played: MovePly,
)
    requires
        board.wf_pieces(),
        board.occ_ok(),
        board.kings_ok(),
        board@.ok(),
        masks_ok(board, checkers, allowed, pins, pinned),
        emits_all(board, tactics, checkers, allowed, pins, pinned, list),
        canonical(played),
        board@.legal(played),
        tactics ==> board@.tactical(played),
    ensures
        list.contains(played),
{
    broadcast use group_bits;
    let pos = board@;
    let from = played.from_idx();
    let to = played.to_idx();
    let flag = played.spec_flag();
    let k = king_of(board);
    played.lemma_ranges();
    lemma_canonical(played);
    pos.pieces[from].lemma_idx();
    flag.lemma_idx();
    board.lemma_list_member(5 + 6 * pos.side.idx(), 0);
    Piece::lemma_of(5 + 6 * pos.side.idx());
    if pos.pieces[from].kind() == 5 {
        board.lemma_king_unique(pos.side, from);
        if flag.castles() {
            assert forall|t: int| 0 <= t < 64 implies !member(checkers, t) by {
                if pos.attacks(pos.side.flip(), t, k) {
                    assert(pos.attacked(pos.side.flip(), k));
                }
            }
            lemma_empty(checkers);
        } else {
            board.lemma_occ();
            if attacked_off_king(board, to) {
                let a = choose|a: int|
                    0 <= a < 64 && #[trigger] pos.pieces[a].of_side(pos.side.flip()) && hits(
                        pos.pieces[a].kind(),
                        pos.side.flip(),
                        board.occ_all() & !bit(k),
                        a,
                        to,
                    );
                lemma_king_walks_into(pos, played, a);
            }
        }
    } else if flag != MoveFlag::EnPassantCapture {
        lemma_passes_masks(board, checkers, allowed, pins, pinned, played);
    } else {
        lemma_legal_covers(pos, played);
    }
    assert(passes(board, tactics, checkers, allowed, pins, pinned, from, to, flag));
    assert(emits(list, from, to, flag));
}

} // verus!
