//! Whether a game is over, and how.

use vstd::prelude::*;
use crate::chess::board::Board;
use crate::chess::board_state::BoardState;
use crate::chess::legality::canonical;
use crate::chess::move_generator::{all_legal, lemma_no_move};
use crate::chess::move_list::MoveList;
use crate::chess::move_ply::MovePly;
use crate::chess::types::piece::BasePiece;
use crate::engine::types::match_result::MatchResult;
use crate::general::bits;
use crate::general::bits::{group_bits, lemma_empty, lemma_lowest, lowest, member, popcount};

verus! {

pub struct Arbiter {}

/// How many of the entries up to the place `k` hold the hash `zobrist`, counted from `k` down
/// and not beyond an entry whose half-move clock is 0: what came before such a position
/// cannot come again.
pub open spec fn repetitions(history: Seq<BoardState>, k: int, zobrist: u64) -> nat
    decreases k + 1,
{
    if k < 0 {
        0
    } else {
        (if history[k].zobrist == zobrist {
            1nat
        } else {
            0nat
        }) + if history[k].half_move_clock == 0 {
            0nat
        } else {
            repetitions(history, k - 1, zobrist)
        }
    }
}

/// The position on the board has come about three times since the last pawn move or capture.
pub open spec fn three_fold(board: &Board) -> bool {
    board@.half_move > 0 && 1 + repetitions(board.history(), board.history().len() - 1, board.hash()) >= 3
}

pub open spec fn fifty_moves(board: &Board) -> bool {
    board@.half_move >= 100
}

/// At most three pieces are left and none of them is a pawn, a rook or a queen.
pub open spec fn insufficient_material(board: &Board) -> bool {
    &&& popcount(board.occ_all()) <= 3
    &&& forall|sq: int|
        0 <= sq < 64 && (#[trigger] board@.pieces[sq]).occupied() ==> board@.pieces[sq].kind() != 0
            && board@.pieces[sq].kind() != 3 && board@.pieces[sq].kind() != 4
}

/// The result for the side to move, which has no move exactly if `no_moves`.
pub open spec fn result_of(board: &Board, no_moves: bool) -> MatchResult {
    if no_moves && board.check_flag() {
        MatchResult::Loss
    } else if no_moves {
        MatchResult::Draw
    } else if fifty_moves(board) || three_fold(board) || insufficient_material(board) {
        MatchResult::Draw
    } else {
        MatchResult::Ongoing
    }
}

/// With the legal moves of the position in `list` and the check recorded on the board, the
/// result is a loss exactly if the side to move is in check and has no legal move, and a
/// draw without a move exactly if it is not in check.
pub proof fn lemma_mate(board: &Board, list: Seq<MovePly>)
    requires
        all_legal(board@, list, 0),
        forall|played: MovePly| canonical(played) && board@.legal(played) ==> #[trigger] list.contains(played),
        board.check_flag() == board@.in_check(),
    ensures
        result_of(board, list.len() == 0) == MatchResult::Loss <==> (board@.in_check() && forall|played: MovePly|
            canonical(played) ==> !#[trigger] board@.legal(played)),
        (forall|played: MovePly| canonical(played) ==> !#[trigger] board@.legal(played)) && !board@.in_check()
            ==> result_of(board, list.len() == 0) == MatchResult::Draw,
{
    lemma_no_move(board@, list);
}

/// The side to move has no legal move.
pub open spec fn no_moves(board: &Board) -> bool {
    forall|played: MovePly| canonical(played) ==> !#[trigger] board@.legal(played)
}

/// The result of the game on `board` for the side to move, by the position and its history
/// alone: a loss if it is mated, a draw if it has no move but is not in check, after a
/// hundred plies without progress, when the position stands for the third time or when the
/// material cannot mate.
pub open spec fn verdict(board: &Board) -> MatchResult {
    if no_moves(board) && board@.in_check() {
        MatchResult::Loss
    } else if no_moves(board) {
        MatchResult::Draw
    } else if fifty_moves(board) || three_fold(board) || insufficient_material(board) {
        MatchResult::Draw
    } else {
        MatchResult::Ongoing
    }
}

/// With the legal moves of the position in `list` and the check recorded on the board, the
/// arbiter's result is the verdict.
pub proof fn lemma_verdict(board: &Board, list: Seq<MovePly>)
    requires
        all_legal(board@, list, 0),
        forall|played: MovePly| canonical(played) && board@.legal(played) ==> #[trigger] list.contains(played),
        board.check_flag() == board@.in_check(),
    ensures
        result_of(board, list.len() == 0) == verdict(board),
        list.len() == 0 <==> no_moves(board),
{
    lemma_no_move(board@, list);
    if list.len() > 0 {
        assert(board@.legal(list[0]) && canonical(list[0]));
    }
}

/// The verdict is a matter of the position, the hash and the history.
pub proof fn lemma_verdict_same(a: &Board, b: &Board)
    requires
        a.same_position(b),
        a.wf_pieces(),
        a.occ_ok(),
        b.wf_pieces(),
        b.occ_ok(),
    ensures
        verdict(a) == verdict(b),
{
    a.lemma_same_pieces(b);
}

impl Arbiter {
    /// The result of the game for the side to move, whose legal moves are `move_list`. Whether
    /// that side is in check is read from the board, where the move generator has left it.
    pub fn arbitrate(board: &Board, move_list: &MoveList) -> (r: MatchResult)
        requires
            board.wf_pieces(),
            board.occ_ok(),
        ensures
            r == result_of(board, move_list@.len() == 0),
    {
        if Self::is_checkmate(board, move_list) {
            return MatchResult::Loss;
        }
        if Self::is_insufficient_material(board) || Self::is_stalemate(board, move_list)
            || Self::is_fifty_move_rule(board) || Self::is_three_fold(board) {
            return MatchResult::Draw;
        }
        MatchResult::Ongoing
    }

    /// Whether the game is drawn whatever the moves are.
    pub fn is_draw(board: &Board) -> (r: bool)
        requires
            board.wf_pieces(),
            board.occ_ok(),
        ensures
            r == (fifty_moves(board) || insufficient_material(board) || three_fold(board)),
    {
        Self::is_fifty_move_rule(board) || Self::is_insufficient_material(board) || Self::is_three_fold(board)
    }

    fn is_stalemate(board: &Board, move_list: &MoveList) -> (r: bool)
        ensures
            r == (move_list@.len() == 0 && !board.check_flag()),
    {
        move_list.move_count() == 0 && !board.in_check()
    }

    fn is_checkmate(board: &Board, move_list: &MoveList) -> (r: bool)
        ensures
            r == (move_list@.len() == 0 && board.check_flag()),
    {
        move_list.move_count() == 0 && board.in_check()
    }

    fn is_fifty_move_rule(board: &Board) -> (r: bool)
        ensures
            r == fifty_moves(board),
    {
        if board.half_move_clock() >= 100 {
            return true;
        }
        false
    }

    // two knights against a bare king are no draw
    fn is_insufficient_material(board: &Board) -> (r: bool)
        requires
            board.wf_pieces(),
            board.occ_ok(),
        ensures
            r == insufficient_material(board),
    {
        let pawns: u64 = board.bitboard_combined(BasePiece::Pawn);
        let rooks: u64 = board.bitboard_combined(BasePiece::Rook);
        let queens: u64 = board.bitboard_combined(BasePiece::Queen);
        proof {
            broadcast use group_bits;
            let heavy = pawns | rooks | queens;
            if heavy != 0 {
                lemma_lowest(heavy);
                let sq = lowest(heavy);
                assert(member(heavy, sq));
                board.lemma_square(sq);
                assert(member(board.bbs()[0].0, sq) <==> board@.pieces[sq].idx() == 0);
                assert(member(board.bbs()[6].0, sq) <==> board@.pieces[sq].idx() == 6);
                assert(member(board.bbs()[3].0, sq) <==> board@.pieces[sq].idx() == 3);
                assert(member(board.bbs()[9].0, sq) <==> board@.pieces[sq].idx() == 9);
                assert(member(board.bbs()[4].0, sq) <==> board@.pieces[sq].idx() == 4);
                assert(member(board.bbs()[10].0, sq) <==> board@.pieces[sq].idx() == 10);
                assert(board@.pieces[sq].occupied());
            } else {
                assert forall|sq: int| 0 <= sq < 64 && (#[trigger] board@.pieces[sq]).occupied() implies board@.pieces[sq].kind()
                    != 0 && board@.pieces[sq].kind() != 3 && board@.pieces[sq].kind() != 4 by {
                    board.lemma_square(sq);
                    assert(!member(heavy, sq));
                    assert(member(board.bbs()[0].0, sq) <==> board@.pieces[sq].idx() == 0);
                    assert(member(board.bbs()[6].0, sq) <==> board@.pieces[sq].idx() == 6);
                    assert(member(board.bbs()[3].0, sq) <==> board@.pieces[sq].idx() == 3);
                    assert(member(board.bbs()[9].0, sq) <==> board@.pieces[sq].idx() == 9);
                    assert(member(board.bbs()[4].0, sq) <==> board@.pieces[sq].idx() == 4);
                    assert(member(board.bbs()[10].0, sq) <==> board@.pieces[sq].idx() == 10);
                }
            }
            assert(pawns == 0 && rooks == 0 && queens == 0 <==> heavy == 0) by (bit_vector)
                requires
                    heavy == pawns | rooks | queens,
            ;
        }
        if bits::count(board.occupancy()) <= 3 {
            if bits::count(pawns) != 0 {
                proof {
                    bits::lemma_count_zero(pawns);
                }
                return false;
            }
            if bits::count(rooks) != 0 {
                proof {
                    bits::lemma_count_zero(rooks);
                }
                return false;
            }
            if bits::count(queens) != 0 {
                proof {
                    bits::lemma_count_zero(queens);
                }
                return false;
            }
            proof {
                bits::lemma_count_zero(pawns);
                bits::lemma_count_zero(rooks);
                bits::lemma_count_zero(queens);
            }
            return true;
        }
        false
    }

    fn is_three_fold(board: &Board) -> (r: bool)
        ensures
            r == three_fold(board),
    {
        if board.half_move_clock() == 0 {
            return false;
        }
        let zobrist: u64 = board.zobrist();
        let mut position_count: usize = 1;
        let ghost total = 1 + repetitions(board.history(), board.history().len() - 1, zobrist);
        if let Some(past_states) = board.past_board_states() {
            let mut k: usize = past_states.len();
            while k > 0
                invariant_except_break
                    position_count + repetitions(board.history(), k as int - 1, zobrist) == total,
                invariant
                    k <= past_states.len(),
                    past_states@ == board.history(),
                    zobrist == board.hash(),
                    1 <= position_count < 3,
                    board@.half_move > 0,
                    total == 1 + repetitions(board.history(), board.history().len() - 1, zobrist),
                ensures
                    position_count == total,
                    position_count < 3,
                decreases k,
            {
                k -= 1;
                let past_board_state = past_states[k];
                assert(repetitions(board.history(), k as int, zobrist) == (if past_board_state.zobrist == zobrist {
                    1nat
                } else {
                    0nat
                }) + if past_board_state.half_move_clock == 0 {
                    0nat
                } else {
                    repetitions(board.history(), k as int - 1, zobrist)
                });
                if past_board_state.zobrist == zobrist {
                    position_count += 1;
                }
                if position_count >= 3 {
                    assert(position_count <= total);
                    assert(board@.half_move > 0);
                    assert(three_fold(board));
                    return true;
                }
                if past_board_state.half_move_clock == 0 {
                    break ;
                }
            }
        }
        false
    }
}

} // verus!
