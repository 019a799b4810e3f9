//! Alpha-beta search: iterative deepening over a negamax with a transposition
//! table, quiescence, null-move pruning, reverse futility, late-move
//! reductions and move ordering.
//!
//! How good the move is that a search finds depends on the network, on the
//! clock and on what the table holds. What is proved of every search is that
//! it leaves the position, its hash and its history exactly as they were,
//! that the evaluation stack still matches the position, that every move it
//! makes is legal, and that its score lies between `-INFINITY` and `INFINITY`.
//! The rules by which it prunes and orders stand in functions of their own.
//!
//! A node asks the clock first. `search` and `quiescence_search` make that
//! call and hand what the clock said to `search_node` and `quiescence_node`,
//! which say what a node does for either answer: a node that was stopped
//! gives 0 and notes the stop in the records of the search; a node that the
//! table settles, a node at the deepest ply, a drawn position and a mate give
//! their score at once, which is stated exactly; any other node tries moves
//! and fails hard, so that its score lies in the window unless a stop or the
//! table further down decides. The clock is asked again after each move; what
//! a node does with the score of the move and that answer stands in
//! `after_move`, `after_tactical_move`, `after_null_move` and `next_window`,
//! and what follows an iteration in `after_iteration`.
//!
//! Why a node gives `beta` stands in `refuted_at`. How the score of a node
//! that has tried all its moves comes from the scores of the moves stands in
//! `went_through` and `went_through_quietly`: it is the largest of them, or
//! the lower end of the window if none is larger, and the move that is stored
//! is one that gave it.

use vstd::prelude::*;
use crate::chess::board::Board;
use crate::chess::legality::canonical;
use crate::chess::move_generator::{all_legal, all_tactical, no_repeat, ready, MoveGenerator, GEN_ALL, GEN_TACTICS};
use crate::chess::perft::nodes;
use crate::chess::move_list::{is_ordering, MoveList};
use crate::chess::move_ply::MovePly;
use crate::chess::types::color::Color;
use crate::chess::types::move_flag::MoveFlag;
use crate::chess::types::piece::{kind_value, BasePiece, Piece};
use crate::engine::arbiter::{lemma_mate, lemma_verdict, lemma_verdict_same, result_of, verdict, Arbiter};
use crate::engine::eval::network::Network;
use crate::engine::eval::nnue::{clamp16, NNUE};
use crate::engine::search_limits::SearchLimits;
use crate::engine::see::{piece_value, see, see_value};
use crate::engine::thread::ThreadData;
use crate::engine::transposition::{replacement_score, TTEntry, Transposition};
use crate::engine::types::match_result::MatchResult;
use crate::engine::types::tt_flag::TTFlag;
use crate::general::bits::{group_bits, lemma_empty, lemma_ext, member};
use crate::chess::position::Position;
use crate::precomputed::accessor::Precomputed;
use crate::precomputed::generators::zobrist::Zobrist;

verus! {

/// The score of a won game. A mate in `n` plies scores `INFINITY - n`.
pub const INFINITY: i16 = 30000;

/// The order key of the move that the table gives: above every other key.
pub const TABLE_MOVE_KEY: i32 = 1000000;

/// How many plies the quiescence search goes on at most.
pub const QUIESCENCE_DEPTH: u8 = 8;

/// How many moves of a principal variation are read from the table at most.
pub const PV_LENGTH: u8 = 20;

pub open spec fn score_ok(score: i16) -> bool {
    -INFINITY <= score <= INFINITY
}

pub open spec fn window_ok(alpha: i16, beta: i16) -> bool {
    -INFINITY <= alpha < beta <= INFINITY
}

/// A score cut off to the scores of a game.
pub open spec fn clamped(score: i16) -> i16 {
    if score > INFINITY {
        INFINITY
    } else if score < -INFINITY {
        (-INFINITY) as i16
    } else {
        score
    }
}

pub fn clamp_score(score: i16) -> (r: i16)
    ensures
        r == clamped(score),
        score_ok(r),
{
    if score > INFINITY {
        INFINITY
    } else if score < -INFINITY {
        -INFINITY
    } else {
        score
    }
}

/// What an entry of the table settles for a node that is searched `depth` plies deep in
/// the window from `alpha` to `beta`: nothing if the entry is less deep; an exact score is the
/// score, but not at the root; a lower bound is, if it is at least `beta`; an upper bound, if it
/// is at most `alpha`.
pub open spec fn cutoff(entry: TTEntry, depth: u8, alpha: i16, beta: i16, root: bool) -> Option<i16> {
    if entry.depth < depth {
        None
    } else {
        match entry.tt_flag {
            TTFlag::Exact => if root {
                None
            } else {
                Some(clamped(entry.eval))
            },
            TTFlag::Upper => if entry.eval <= alpha {
                Some(clamped(entry.eval))
            } else {
                None
            },
            TTFlag::Lower => if entry.eval >= beta {
                Some(clamped(entry.eval))
            } else {
                None
            },
        }
    }
}

pub fn tt_cutoff(entry: &TTEntry, depth: u8, alpha: i16, beta: i16, root: bool) -> (r: Option<i16>)
    ensures
        r == cutoff(*entry, depth, alpha, beta, root),
        r matches Some(score) ==> score_ok(score),
{
    if entry.depth >= depth {
        match entry.tt_flag {
            TTFlag::Exact => {
                if !root {
                    return Some(clamp_score(entry.eval));
                }
            },
            TTFlag::Upper => {
                if entry.eval <= alpha {
                    return Some(clamp_score(entry.eval));
                }
            },
            TTFlag::Lower => {
                if entry.eval >= beta {
                    return Some(clamp_score(entry.eval));
                }
            },
        }
    }
    None
}

/// Whether a node tries a null move: outside the principal variation, more than six plies
/// deep, not in check, and with more than king and pawns.
pub fn null_move_allowed(pv_node: bool, depth: u8, in_check: bool, zugzwang: bool) -> (r: bool)
    ensures
        r == (!pv_node && depth > 6 && !in_check && !zugzwang),
{
    !pv_node && depth > 6 && !in_check && !zugzwang
}

/// Whether the static evaluation is so far above `beta` that the node is cut: by 80
/// centipawns for each ply of depth.
pub fn reverse_futility(static_eval: i16, beta: i16, depth: u8) -> (r: bool)
    ensures
        r == (static_eval >= beta + 80 * depth),
{
    static_eval as i32 >= beta as i32 + 80 * depth as i32
}

/// Whether the move at the place `index` of an ordered list is searched less deep at first.
pub fn late_move(index: usize, depth: u8) -> (r: bool)
    ensures
        r == (index >= 3 && depth >= 3),
{
    index >= 3 && depth >= 3
}

/// The key by which a move is ordered, larger keys first: the move of the table above all;
/// else 300 for the answer to the move made last, 5000 for a killer, five times what the
/// exchange wins, ten times the value of the piece a pawn becomes, 1000 for castling, and
/// how often the move refuted a line.
pub open spec fn key_of(
    table_move: bool,
    counter_move: bool,
    killer: bool,
    exchange: i16,
    flag: MoveFlag,
    history: u16,
) -> int {
    if table_move {
        TABLE_MOVE_KEY as int
    } else {
        (if counter_move {
            300int
        } else {
            0int
        }) + (if killer {
            5000int
        } else {
            0int
        }) + 5 * (if exchange > 0 {
            exchange as int
        } else {
            0int
        }) + (if flag.promotion() {
            10 * kind_value(flag.idx())
        } else {
            0int
        }) + (if flag.castles() {
            1000int
        } else {
            0int
        }) + history
    }
}

pub fn move_key(table_move: bool, counter_move: bool, killer: bool, exchange: i16, flag: MoveFlag, history: u16) -> (r:
    i32)
    ensures
        r == key_of(table_move, counter_move, killer, exchange, flag, history),
{
    if table_move {
        return TABLE_MOVE_KEY;
    }
    let mut value: i32 = 0;
    if counter_move {
        value += 300;
    }
    if killer {
        value += 5000;
    }
    if exchange > 0 {
        value += 5 * exchange as i32;
    }
    if flag.is_promotion() {
        value += 10 * piece_value(BasePiece::from_index(flag.index()));
    }
    if flag.is_castles() {
        value += 1000;
    }
    value += history as i32;
    value
}

/// The window of the first search of an iteration: all scores up to depth 4, and 25
/// centipawns around the score of the iteration before from depth 5 on.
pub open spec fn first_window(depth: u8, last_score: i16) -> (i16, i16) {
    if depth >= 5 {
        (
            if clamped(last_score) - 25 < -INFINITY {
                (-INFINITY) as i16
            } else {
                (clamped(last_score) - 25) as i16
            },
            if clamped(last_score) + 25 > INFINITY {
                INFINITY
            } else {
                (clamped(last_score) + 25) as i16
            },
        )
    } else {
        ((-INFINITY) as i16, INFINITY)
    }
}

pub fn aspiration_start(depth: u8, last_score: i16) -> (r: (i16, i16))
    ensures
        r == first_window(depth, last_score),
        window_ok(r.0, r.1),
{
    if depth >= 5 {
        let center: i16 = clamp_score(last_score);
        let alpha: i16 = if center - 25 < -INFINITY {
            -INFINITY
        } else {
            center - 25
        };
        let beta: i16 = if center + 25 > INFINITY {
            INFINITY
        } else {
            center + 25
        };
        (alpha, beta)
    } else {
        (-INFINITY, INFINITY)
    }
}

/// The half of a sum, rounded towards zero.
pub open spec fn half(sum: int) -> int {
    if sum >= 0 {
        sum / 2
    } else {
        -((-sum) / 2)
    }
}

/// The window and the step after a search in the window from `alpha` to `beta` came back
/// with `eval` outside of it. A score at or below `alpha` moves `beta` to the middle and `alpha`
/// down by the step; a score at or above `beta` moves `beta` up by the step. The step grows by
/// its half, and from 1000 on the window is all scores.
pub open spec fn widened(alpha: i16, beta: i16, delta: i16, eval: i16) -> (i16, i16, i16) {
    let low = eval <= alpha;
    let next_beta: int = if low {
        half(alpha + beta)
    } else if beta + delta > INFINITY {
        INFINITY as int
    } else {
        beta + delta
    };
    let next_alpha: int = if low && alpha - delta >= -INFINITY {
        alpha - delta
    } else if low {
        -INFINITY as int
    } else {
        alpha as int
    };
    let next_delta: int = delta + delta / 2;
    if next_delta >= 1000 {
        ((-INFINITY) as i16, INFINITY, next_delta as i16)
    } else {
        (next_alpha as i16, next_beta as i16, next_delta as i16)
    }
}

pub fn widen(alpha: i16, beta: i16, delta: i16, eval: i16) -> (r: (i16, i16, i16))
    requires
        window_ok(alpha, beta),
        25 <= delta < 1000,
        eval <= alpha || eval >= beta,
    ensures
        r == widened(alpha, beta, delta, eval),
        window_ok(r.0, r.1),
        r.2 > delta,
        r.2 < 1500,
        r.2 >= 1000 ==> r.0 == -INFINITY && r.1 == INFINITY,
{
    let mut next_alpha: i16 = alpha;
    let mut next_beta: i16 = beta;
    if eval <= alpha {
        let sum: i32 = alpha as i32 + beta as i32;
        next_beta = if sum >= 0 {
            (sum / 2) as i16
        } else {
            (-(((-sum) as u32 / 2) as i32)) as i16
        };
        next_alpha = if alpha - delta >= -INFINITY {
            alpha - delta
        } else {
            -INFINITY
        };
    } else {
        next_beta = if beta as i32 + delta as i32 > INFINITY as i32 {
            INFINITY
        } else {
            beta + delta
        };
    }
    let next_delta: i16 = delta + delta / 2;
    if next_delta >= 1000 {
        next_alpha = -INFINITY;
        next_beta = INFINITY;
    }
    (next_alpha, next_beta, next_delta)
}

/// The side to move has nothing but its king and pawns.
pub open spec fn only_king_and_pawns(board: &Board) -> bool {
    forall|sq: int|
        0 <= sq < 64 && (#[trigger] board@.pieces[sq]).of_side(board@.side) ==> board@.pieces[sq].kind() == 0
            || board@.pieces[sq].kind() == 5
}

/// Whether a null move is unsafe because the side to move may have no good move at all.
pub fn in_zugzwang(board: &Board) -> (r: bool)
    requires
        board.wf_pieces(),
        board.occ_ok(),
    ensures
        r == only_king_and_pawns(board),
{
    let us = board.side_to_move();
    let king_pawn_occupancy: u64 = board.bitboard(BasePiece::Pawn, us) | board.bitboard(BasePiece::King, us);
    let ours: u64 = board.occupancy_us();
    proof {
        broadcast use group_bits;
        let c = 6 * us.idx();
        if ours == king_pawn_occupancy {
            assert forall|sq: int| 0 <= sq < 64 && (#[trigger] board@.pieces[sq]).of_side(us) implies board@.pieces[sq].kind()
                == 0 || board@.pieces[sq].kind() == 5 by {
                board.lemma_square(sq);
                assert(member(board.bbs()[c].0, sq) <==> board@.pieces[sq].idx() == c);
                assert(member(board.bbs()[c + 5].0, sq) <==> board@.pieces[sq].idx() == c + 5);
                assert(member(king_pawn_occupancy, sq));
            }
        }
        if only_king_and_pawns(board) {
            assert forall|sq: int| 0 <= sq < 64 implies member(ours, sq) == member(king_pawn_occupancy, sq) by {
                board.lemma_square(sq);
                assert(member(board.bbs()[c].0, sq) <==> board@.pieces[sq].idx() == c);
                assert(member(board.bbs()[c + 5].0, sq) <==> board@.pieces[sq].idx() == c + 5);
                if board@.pieces[sq].of_side(us) {
                    assert(board@.pieces[sq].kind() == 0 || board@.pieces[sq].kind() == 5);
                }
            }
            lemma_ext(ours, king_pawn_occupancy);
        }
    }
    if ours == king_pawn_occupancy {
        return true;
    }
    false
}

/// The side to move is mated: its king is attacked and it has no legal move.
pub open spec fn mated(pos: Position) -> bool {
    pos.in_check() && forall|played: MovePly| canonical(played) ==> !#[trigger] pos.legal(played)
}

/// Whether the entry of the table settles a node with the window from `alpha` to `beta` at
/// the score `r`, whatever the depth: as an exact score, as an upper bound that is at most
/// `alpha`, or as a lower bound that is at least `beta`.
pub open spec fn cut_by(found: Option<TTEntry>, alpha: i16, beta: i16, r: i16) -> bool {
    found matches Some(entry) && r == clamped(entry.eval) && (match entry.tt_flag {
        TTFlag::Exact => true,
        TTFlag::Upper => entry.eval <= alpha,
        TTFlag::Lower => entry.eval >= beta,
    })
}

/// What holds of the score `r` of a node `ply` plies from the root with the window from
/// `alpha` to `beta`. The search fails hard: the score lies in the window. The exceptions are
/// 0, the score of a draw and of a search that was stopped; the score of being mated `ply`
/// plies from the root; and the score that the entry of the table settles the node at.
pub open spec fn settled(r: i16, alpha: i16, beta: i16, ply: u8, pos: Position, found: Option<TTEntry>) -> bool {
    ||| alpha <= r <= beta
    ||| r == 0
    ||| mated(pos) && r == -INFINITY + ply
    ||| cut_by(found, alpha, beta, r)
}

/// The table `after` is the table `before`: the same cells, age and root.
pub open spec fn same_table(before: &Transposition, after: &Transposition) -> bool {
    &&& after.cells() == before.cells()
    &&& after.age() == before.age()
    &&& root_kept(before, after)
}

/// The move and the score of the root are those of `before`.
pub open spec fn root_kept(before: &Transposition, after: &Transposition) -> bool {
    after.root_move() == before.root_move() && after.root_score() == before.root_score()
}

/// The root of the table holds a legal move of `pos` with the score `r`.
pub open spec fn published(pos: Position, table: &Transposition, r: i16) -> bool {
    table.root_score() == r && exists|played: MovePly|
        canonical(played) && pos.legal(played) && #[trigger] played.bits() == table.root_move()
}

/// What a search `ply` plies from the root leaves of the table: its age, and its root, which
/// only a search of the root changes, to a legal move with the score that the search returns.
pub open spec fn table_kept(before: &Transposition, after: &Transposition, ply: u8, pos: Position, r: i16) -> bool {
    &&& after.age() == before.age()
    &&& root_kept(before, after) || (ply == 0 && published(pos, after, r))
}

/// The records of a search with the stop noted that the clock has told.
pub open spec fn halted(records: ThreadData) -> ThreadData {
    ThreadData { stopped: true, ..records }
}

/// The records of a search with one node more counted, as far as the counter goes.
pub open spec fn bumped(records: ThreadData) -> ThreadData {
    ThreadData {
        nodes: if records.nodes < u64::MAX {
            (records.nodes + 1) as u64
        } else {
            u64::MAX
        },
        ..records
    }
}

/// What a node of the search answers before it tries a move, if it does: what the entry of
/// the table settles it at; at the deepest ply the evaluation `value` of the network; 0 for a
/// draw; and for a mate the score of being mated `ply` plies from the root.
pub open spec fn first_answer(
    board: &Board,
    found: Option<TTEntry>,
    value: i16,
    ply: u8,
    depth: u8,
    alpha: i16,
    beta: i16,
) -> Option<i16> {
    if found is Some && cutoff(found.unwrap(), depth, alpha, beta, ply == 0) is Some {
        cutoff(found.unwrap(), depth, alpha, beta, ply == 0)
    } else if ply == 255 {
        Some(clamped(value))
    } else {
        match verdict(board) {
            MatchResult::Draw => Some(0i16),
            MatchResult::Loss => Some((-INFINITY + ply) as i16),
            _ => None,
        }
    }
}

/// What a node of the quiescence search answers before it tries a move, if it does: what the
/// entry of the table settles it at; `beta` if the evaluation `value` of the network reaches
/// it; the larger of `alpha` and `value` when no ply is left; 0 for a draw; and for a mate the
/// score of being mated `ply` plies from the root.
pub open spec fn first_answer_quiet(
    board: &Board,
    found: Option<TTEntry>,
    value: i16,
    ply: u8,
    depth: u8,
    alpha: i16,
    beta: i16,
) -> Option<i16> {
    if found is Some && cutoff(found.unwrap(), depth, alpha, beta, false) is Some {
        cutoff(found.unwrap(), depth, alpha, beta, false)
    } else if value >= beta {
        Some(beta)
    } else if depth == 0 || ply == 255 {
        Some(if alpha < value {
            value
        } else {
            alpha
        })
    } else {
        match verdict(board) {
            MatchResult::Draw => Some(0i16),
            MatchResult::Loss => Some((-INFINITY + ply) as i16),
            _ => None,
        }
    }
}

/// What a node does, by what the clock said when the node was entered (`stopped`). A node
/// that was stopped answers 0, notes the stop in the records and leaves the table alone. A node with a first answer
/// `first` gives it, counts itself and leaves the table alone. Any other node tries moves; of
/// its score `within` holds.
pub open spec fn node_ok(
    stopped: bool,
    r: i16,
    first: Option<i16>,
    within: bool,
    table_before: &Transposition,
    table_after: &Transposition,
    records_before: ThreadData,
    records_after: ThreadData,
) -> bool {
    if stopped {
        r == 0 && same_table(table_before, table_after) && records_after == halted(records_before)
    } else {
        match first {
            Some(score) => r == score && same_table(table_before, table_after) && records_after == bumped(
                records_before,
            ),
            None => within,
        }
    }
}

/// What a node does with the score of a move that it has tried.
#[derive(Clone, Copy, PartialEq, Eq, Structural, Debug)]
pub enum Step {
    /// The clock said stop: the node gives 0.
    Halt,
    /// The score reaches `beta`: the node gives `beta`.
    Cut,
    /// The score is better than what the node has so far: it is the new lower bound.
    Raise,
    /// The node goes on as it was.
    Keep,
}

/// What a node does with the score `eval` of a move when the clock has said `stopped` after
/// the move, the best score so far is `lower` and the window ends at `beta`.
pub open spec fn step_of(stopped: bool, eval: i16, lower: i16, beta: i16) -> Step {
    if stopped {
        Step::Halt
    } else if eval >= beta {
        Step::Cut
    } else if eval > lower {
        Step::Raise
    } else {
        Step::Keep
    }
}

/// The cells of `after` are what `Transposition::update` leaves of the cells of `before` when
/// it is given the hash `zobrist`, the move `played`, the score `eval`, `depth` and `flag`; the
/// age is the same.
pub open spec fn stored(
    before: &Transposition,
    after: &Transposition,
    zobrist: u64,
    played: MovePly,
    eval: i16,
    depth: u8,
    flag: TTFlag,
) -> bool {
    &&& after.age() == before.age()
    &&& after.cells() == if before.replaces(zobrist, replacement_score(depth, flag, before.age())) {
        before.cells().update(
            before.index_of(zobrist),
            (TTEntry {
                zobrist,
                score: replacement_score(depth, flag, before.age()),
                cur_move: played,
                eval,
                depth,
                tt_flag: flag,
            }).packed(),
        )
    } else {
        before.cells()
    }
}

/// The records `after` are the records `before` with `played` noted as a move of `side`
/// that refuted a line `ply` plies from the root: it is the first killer of that ply, and the
/// first so far the second; its squares count once more in the history; and it is the answer
/// to the move `answered`, if there is one.
pub open spec fn refuted(
    before: ThreadData,
    after: ThreadData,
    played: MovePly,
    ply: u8,
    side: Color,
    answered: Option<MovePly>,
) -> bool {
    &&& after.nodes == before.nodes
    &&& after.stopped == before.stopped
    &&& after.killers.slot(ply as int, 0) == played
    &&& after.killers.slot(ply as int, 1) == before.killers.slot(ply as int, 0)
    &&& forall|d: int, s: int|
        0 <= d < 256 && 0 <= s < 2 && d != ply ==> after.killers.slot(d, s) == before.killers.slot(d, s)
    &&& forall|color: Color, from: int, to: int|
        0 <= from < 64 && 0 <= to < 64 ==> #[trigger] after.history_heuristics.count(color, from, to) == if color
            == side && from == played.from_idx() && to == played.to_idx() {
            if before.history_heuristics.count(color, from, to) < u16::MAX {
                (before.history_heuristics.count(color, from, to) + 1) as u16
            } else {
                u16::MAX
            }
        } else {
            before.history_heuristics.count(color, from, to)
        }
    &&& match answered {
        Some(last) => forall|color: Color, from: int, to: int|
            0 <= from < 64 && 0 <= to < 64 ==> #[trigger] after.counter_move_heuristics.answer(color, from, to)
                == if color == side && from == last.from_idx() && to == last.to_idx() {
                played
            } else {
                before.counter_move_heuristics.answer(color, from, to)
            },
        None => after.counter_move_heuristics == before.counter_move_heuristics,
    }
}

/// What a node of the search does with the score `eval` of the move `cur_move`, once the
/// clock has been asked after the move: `stopped` says whether the hard stop was reached. On a
/// stop the stop is noted in the records and nothing else. A score that reaches `beta` is stored
/// in the table as a lower bound
/// for the position with the hash `zobrist`, and the move is noted in the records as one that
/// refuted a line. Any other score changes neither table nor records.
pub fn after_move(
    stopped: bool,
    eval: i16,
    cur_move: MovePly,
    lower: i16,
    beta: i16,
    depth: u8,
    ply_searched: u8,
    zobrist: u64,
    side: Color,
    last_move: Option<MovePly>,
    thread_data: &mut ThreadData,
    tt: &mut Transposition,
) -> (r: Step)
    requires
        old(thread_data).wf(),
        old(tt).wf(),
    ensures
        r == step_of(stopped, eval, lower, beta),
        final(thread_data).wf(),
        final(tt).wf(),
        root_kept(old(tt), final(tt)),
        r == Step::Cut ==> stored(old(tt), final(tt), zobrist, cur_move, beta, depth, TTFlag::Lower) && refuted(
            *old(thread_data),
            *final(thread_data),
            cur_move,
            ply_searched,
            side,
            last_move,
        ),
        r != Step::Cut ==> same_table(old(tt), final(tt)) && *final(tt) == *old(tt),
        r == Step::Halt ==> *final(thread_data) == halted(*old(thread_data)),
        r == Step::Raise || r == Step::Keep ==> *final(thread_data) == *old(thread_data),
{
    if stopped {
        thread_data.stopped = true;
        return Step::Halt;
    }
    if eval >= beta {
        tt.update(zobrist, cur_move, beta, depth, TTFlag::Lower);
        thread_data.killers.update(cur_move, ply_searched);
        thread_data.history_heuristics.update_history(cur_move, side);
        if let Some(answered) = last_move {
            thread_data.counter_move_heuristics.update_counter_move(answered, cur_move, side);
        }
        return Step::Cut;
    }
    if eval > lower {
        return Step::Raise;
    }
    Step::Keep
}

/// What a node answers after it has let the other side move twice, once the clock has been
/// asked: `stopped` says whether the hard stop was reached, `value` is the score of the
/// position with the move passed on. On a stop the node gives 0 and the stop is noted in the
/// records; with a score that reaches `beta` it gives `beta`; else it goes on.
pub fn after_null_move(stopped: bool, value: i16, beta: i16, thread_data: &mut ThreadData) -> (r: Option<i16>)
    ensures
        r == if stopped {
            Some(0i16)
        } else if value >= beta {
            Some(beta)
        } else {
            None
        },
        *final(thread_data) == if stopped {
            halted(*old(thread_data))
        } else {
            *old(thread_data)
        },
{
    if stopped {
        thread_data.stopped = true;
        return Some(0);
    }
    if value >= beta {
        return Some(beta);
    }
    None
}

/// The window in which the root is searched again, after a search in the window from
/// `alpha` to `beta` has given `eval` and the clock has been asked: `stopped` says whether the
/// hard stop was reached. There is none after a stop, which is noted in the records, nor when
/// the score lies inside the window or the window holds all scores; else it is the window that
/// `widen` gives.
pub fn next_window(
    stopped: bool,
    eval: i16,
    alpha: i16,
    beta: i16,
    delta: i16,
    thread_data: &mut ThreadData,
) -> (r: Option<(i16, i16, i16)>)
    requires
        window_ok(alpha, beta),
        25 <= delta < 1500,
        delta >= 1000 ==> alpha == -INFINITY && beta == INFINITY,
    ensures
        r == if stopped || (alpha < eval && eval < beta) || (alpha == -INFINITY && beta == INFINITY) {
            None
        } else {
            Some(widened(alpha, beta, delta, eval))
        },
        r matches Some(next) ==> window_ok(next.0, next.1) && delta < next.2 < 1500 && (next.2 >= 1000 ==> next.0
            == -INFINITY && next.1 == INFINITY),
        *final(thread_data) == if stopped {
            halted(*old(thread_data))
        } else {
            *old(thread_data)
        },
{
    if stopped {
        thread_data.stopped = true;
        return None;
    }
    if (alpha < eval && eval < beta) || (alpha == -INFINITY && beta == INFINITY) {
        return None;
    }
    Some(widen(alpha, beta, delta, eval))
}

/// What a node of the quiescence search does with the score `eval` of the move `cur_move`,
/// once the clock has been asked after the move: `stopped` says whether the hard stop was
/// reached. A stop is noted in the records. A score that reaches `beta` is stored in the table
/// as a lower bound of depth 0 for the position with the hash `zobrist`. Any other score leaves
/// the table alone.
pub fn after_tactical_move(
    stopped: bool,
    eval: i16,
    cur_move: MovePly,
    lower: i16,
    beta: i16,
    zobrist: u64,
    thread_data: &mut ThreadData,
    tt: &mut Transposition,
) -> (r: Step)
    requires
        old(tt).wf(),
    ensures
        r == step_of(stopped, eval, lower, beta),
        final(tt).wf(),
        root_kept(old(tt), final(tt)),
        r == Step::Cut ==> stored(old(tt), final(tt), zobrist, cur_move, beta, 0, TTFlag::Lower),
        r != Step::Cut ==> same_table(old(tt), final(tt)) && *final(tt) == *old(tt),
        r == Step::Halt ==> *final(thread_data) == halted(*old(thread_data)),
        r != Step::Halt ==> *final(thread_data) == *old(thread_data),
{
    if stopped {
        thread_data.stopped = true;
        return Step::Halt;
    }
    if eval >= beta {
        tt.update(zobrist, cur_move, beta, 0, TTFlag::Lower);
        return Step::Cut;
    }
    if eval > lower {
        return Step::Raise;
    }
    Step::Keep
}

/// The move that was made last on `board`, unless the move was passed on.
pub open spec fn answered(board: &Board) -> Option<MovePly> {
    if board.history().len() > 0 && board.history().last().played.bits() != 0 {
        Some(board.history().last().played)
    } else {
        None
    }
}

/// The evaluation that a node goes by before it tries a move: that of the entry of the
/// table, if there is one, else the evaluation `value` of the network.
pub open spec fn static_eval_of(found: Option<TTEntry>, value: i16) -> i16 {
    match found {
        Some(entry) => entry.eval,
        None => value,
    }
}

/// How many plies deep a node searches that was asked for `depth` plies: one more in check.
pub open spec fn left_of(board: &Board, depth: u8) -> u8 {
    if board@.in_check() && depth < 255 {
        (depth + 1) as u8
    } else {
        depth
    }
}

/// The score `score` of the other side refutes a line whose window ends at `beta`.
pub open spec fn fails_high(score: i16, beta: i16) -> bool {
    -score >= beta
}

/// `child` is a board in use for the position on `board` with the move passed on to the
/// other side, with the history of `board` and one entry more, which names no move.
pub open spec fn passed(child: &Board, board: &Board, tables: &Precomputed) -> bool {
    &&& ready(child, tables)
    &&& child@ == board@.pass()
    &&& child.past() == board.past().push(board@)
    &&& child.history().len() == board.history().len() + 1
    &&& child.history().drop_last() == board.history()
    &&& child.history().last().played.bits() == 0
    &&& child.history().last().zobrist == board.hash()
}

/// The larger of `alpha` and the first `n` of `scores`.
pub open spec fn best_of(alpha: i16, scores: Seq<i16>, n: int) -> i16
    decreases n,
{
    if n <= 0 {
        alpha
    } else {
        let before = best_of(alpha, scores, n - 1);
        if scores[n - 1] > before {
            scores[n - 1]
        } else {
            before
        }
    }
}

/// A score more at the end does not change the best of those before it.
pub proof fn lemma_best_push(alpha: i16, scores: Seq<i16>, more: i16, n: int)
    requires
        0 <= n <= scores.len(),
    ensures
        best_of(alpha, scores.push(more), n) == best_of(alpha, scores, n),
    decreases n,
{
    if n > 0 {
        lemma_best_push(alpha, scores, more, n - 1);
        assert(scores.push(more)[n - 1] == scores[n - 1]);
    }
}

/// How many plies deep a node searches its moves that was asked for `depth` plies: one more
/// in check, and one less if more than four are left and the table has no entry.
pub open spec fn searched_left(board: &Board, depth: u8, found: Option<TTEntry>) -> u8 {
    if left_of(board, depth) > 4 && found is None {
        (left_of(board, depth) - 1) as u8
    } else {
        left_of(board, depth)
    }
}

/// The moves of a node with their scores, the tables and the records between the searches
/// of the moves, and the place `best` of a move with the largest score.
pub open spec fn lined_up(
    moves: Seq<MovePly>,
    scores: Seq<i16>,
    middles: Seq<Transposition>,
    notes: Seq<ThreadData>,
    best: int,
) -> bool {
    &&& moves.len() >= 1
    &&& scores.len() == moves.len()
    &&& middles.len() == moves.len() + 1
    &&& notes.len() == moves.len() + 1
    &&& 0 <= best < moves.len()
    &&& forall|k: int| 0 <= k < scores.len() ==> #[trigger] scores[k] <= scores[best]
}

/// The node has tried every legal move of the position, each once, one after the other,
/// `left` plies deep, beginning with a table of the age `age` and with records of `counted`
/// nodes or more: the score of each move is what `move_searched` says, in the window from the best score so far
/// to `beta`, on the table and the records that the move before has left; moves from the
/// fourth on are reduced if three plies or more are left. No score has reached `beta`. The
/// score `r` of the node is the largest of the scores of the moves, or `alpha` if none is
/// larger. It is stored in the table with a move that gave the largest score, as an exact
/// score if it is above `alpha` and as an upper bound if it is not; at the root the move and
/// the score are published.
#[verifier::opaque]
pub open spec fn went_through(
    r: i16,
    board: &Board,
    nnue: &NNUE,
    net: &Network,
    ply: u8,
    left: u8,
    alpha: i16,
    beta: i16,
    age: u16,
    counted: u64,
    table_after: &Transposition,
    records_after: ThreadData,
    tables: &Precomputed,
) -> bool {
    exists|moves: Seq<MovePly>, scores: Seq<i16>, middles: Seq<Transposition>, notes: Seq<ThreadData>, best: int|
        #![trigger lined_up(moves, scores, middles, notes, best)]
        lined_up(moves, scores, middles, notes, best) && all_legal(board@, moves, 0) && no_repeat(moves, 0)
            && moves.len() == nodes(board@, 1) && middles[0].age() == age && notes[0].nodes >= counted
            && (forall|k: int|
            0 <= k < moves.len() ==> (#[trigger] scores[k]) < beta && move_searched(
                scores[k],
                board,
                nnue,
                moves[k],
                ply,
                left,
                best_of(alpha, scores, k),
                beta,
                k >= 3 && left >= 3,
                &middles[k],
                &middles[k + 1],
                notes[k],
                notes[k + 1],
                tables,
                net,
            )) && r == best_of(alpha, scores, moves.len() as int) && stored(
            &middles[moves.len() as int],
            table_after,
            board.hash(),
            moves[best],
            r,
            left,
            if r > alpha {
                TTFlag::Exact
            } else {
                TTFlag::Upper
            },
        ) && records_after == notes[moves.len() as int] && (ply == 0 ==> published(board@, table_after, r))
}

/// The node has stored its score `r` in the table with a legal move: as an exact score if
/// it is above `alpha`, as an upper bound if it is not; at the root the move and the score
/// are published.
pub open spec fn best_stored(r: i16, board: &Board, ply: u8, alpha: i16, table_after: &Transposition) -> bool {
    exists|played: MovePly, flag: TTFlag, left: u8, before: Transposition|
        canonical(played) && board@.legal(played) && flag != TTFlag::Lower && (flag == TTFlag::Exact <==> r > alpha)
            && #[trigger] stored(&before, table_after, board.hash(), played, r, left, flag) && (ply == 0
            ==> published(board@, table_after, r))
}

/// A legal move has refuted the line with a score that reaches `beta`: it is stored in the
/// table as a lower bound and noted in the records.
pub open spec fn cut_off(
    board: &Board,
    ply: u8,
    beta: i16,
    table_after: &Transposition,
    records_after: ThreadData,
) -> bool {
    exists|played: MovePly, left: u8, before: Transposition, records: ThreadData|
        #![trigger
            stored(&before, table_after, board.hash(), played, beta, left, TTFlag::Lower),
            refuted(records, records_after, played, ply, board@.side, answered(board)),
        ]
        canonical(played) && board@.legal(played) && stored(
            &before,
            table_after,
            board.hash(),
            played,
            beta,
            left,
            TTFlag::Lower,
        ) && refuted(records, records_after, played, ply, board@.side, answered(board))
}

/// Why a node of the search that has tried a move or the null move gives `beta`. A move
/// has refuted the line: it is stored in the table as a lower bound and noted in the records.
/// Or the evaluation is better than `beta` by 80 for each ply that is left. Or, outside the
/// principal variation, more than six plies deep, out of check and with more than king and
/// pawns, the side to move has passed the move on, and the search behind that, four plies
/// less deep in the window of one point below `beta`, has given the other side no more than
/// `-beta`.
pub open spec fn refuted_at(
    board: &Board,
    nnue: &NNUE,
    net: &Network,
    ply: u8,
    depth: u8,
    alpha: i16,
    beta: i16,
    table_before: &Transposition,
    table_after: &Transposition,
    counted: ThreadData,
    records_after: ThreadData,
    tables: &Precomputed,
) -> bool
    decreases 255 - ply, 4int,
{
    ||| cut_off(board, ply, beta, table_after, records_after)
    ||| static_eval_of(table_before.found(board.hash()), nnue.value(board@.side, net)) >= beta + 80 * left_of(
        board,
        depth,
    )
    ||| ply < 255 && alpha == beta - 1 && left_of(board, depth) > 6 && !board@.in_check() && !only_king_and_pawns(
        board,
    ) && exists|child: Board, score: i16|
        #![trigger passed(&child, board, tables), fails_high(score, beta)]
        passed(&child, board, tables) && fails_high(score, beta) && search_ok(
            score,
            &child,
            nnue,
            net,
            (ply + 1) as u8,
            (left_of(board, depth) - 4) as u8,
            (-beta) as i16,
            (-beta + 1) as i16,
            table_before,
            table_after,
            counted,
            records_after,
            tables,
        )
}

/// What holds of a node of the search that tries moves, with the records `counted` after it
/// has counted itself. The nodes below it count themselves. Its score is 0 after a stop, which the records then note; or
/// `beta`, for one of the reasons of `refuted_at`; or the node has gone over to the quiescence
/// search, because no ply was left and the king is not in check; or it has tried every move,
/// and then the score lies in the window below `beta` and is stored, as `best_stored` says.
/// How the score comes from the scores of the moves stands in `traced`.
pub open spec fn tried(
    r: i16,
    board: &Board,
    nnue: &NNUE,
    net: &Network,
    ply: u8,
    depth: u8,
    alpha: i16,
    beta: i16,
    table_before: &Transposition,
    table_after: &Transposition,
    counted: ThreadData,
    records_after: ThreadData,
    tables: &Precomputed,
) -> bool
    decreases 255 - ply, 5int,
{
    &&& records_after.nodes >= counted.nodes
    &&& settled(r, alpha, beta, ply, board@, table_before.found(board.hash()))
    &&& {
        ||| r == 0 && records_after.stopped
        ||| r == beta && refuted_at(
            board,
            nnue,
            net,
            ply,
            depth,
            alpha,
            beta,
            table_before,
            table_after,
            counted,
            records_after,
            tables,
        )
        ||| depth == 0 && !board@.in_check() && ply < 255 && quiescence_ok(
            r,
            board,
            nnue,
            net,
            (ply + 1) as u8,
            QUIESCENCE_DEPTH,
            alpha,
            beta,
            table_before,
            table_after,
            counted,
            records_after,
        )
        ||| alpha <= r < beta && best_stored(r, board, ply, alpha, table_after)
    }
}

/// The search behind a capture, a promotion or a check is a matter of the position, its
/// hash and its history, and of the pieces that the evaluation stack stands for.
pub proof fn lemma_one_quiescence_same(
    r: i16,
    board: &Board,
    nnue: &NNUE,
    other: &Board,
    stack: &NNUE,
    played: MovePly,
    ply: u8,
    depth: u8,
    alpha: i16,
    beta: i16,
    table_before: &Transposition,
    table_after: &Transposition,
    records_before: ThreadData,
    records_after: ThreadData,
    tables: &Precomputed,
    net: &Network,
)
    requires
        board.same_position(other),
        nnue.boards() == stack.boards(),
        one_quiescence(
            r,
            board,
            nnue,
            played,
            ply,
            depth,
            alpha,
            beta,
            table_before,
            table_after,
            records_before,
            records_after,
            tables,
            net,
        ),
    ensures
        one_quiescence(
            r,
            other,
            stack,
            played,
            ply,
            depth,
            alpha,
            beta,
            table_before,
            table_after,
            records_before,
            records_after,
            tables,
            net,
        ),
{
    let (child, top) = choose|child: Board, top: NNUE| #[trigger]
        behind(&child, &top, board, nnue, played, tables, net) && quiescence_ok(
            (-r) as i16,
            &child,
            &top,
            net,
            (ply + 1) as u8,
            depth,
            (-beta) as i16,
            (-alpha) as i16,
            table_before,
            table_after,
            records_before,
            records_after,
        );
    assert(behind(&child, &top, other, stack, played, tables, net));
}

/// The captures, promotions and checks of a node with their scores, and the tables and the
/// records between the searches of the moves.
pub open spec fn lined_up_quietly(
    moves: Seq<MovePly>,
    scores: Seq<i16>,
    middles: Seq<Transposition>,
    notes: Seq<ThreadData>,
    played: MovePly,
) -> bool {
    &&& scores.len() == moves.len()
    &&& middles.len() == moves.len() + 1
    &&& notes.len() == moves.len() + 1
}

/// `moves` holds every legal capture, promotion and check of `pos`, each once, and nothing
/// else.
pub open spec fn all_tactics(pos: Position, moves: Seq<MovePly>) -> bool {
    &&& all_legal(pos, moves, 0)
    &&& all_tactical(pos, moves, 0)
    &&& no_repeat(moves, 0)
    &&& forall|other: MovePly|
        canonical(other) && pos.legal(other) && pos.tactical(other) ==> #[trigger] moves.contains(other)
}

/// The score of each of `moves` is below `beta` and is what the quiescence search behind the
/// move gives, `depth` plies deep, in the window from the best score so far to `beta`, on the
/// table and the records that the move before has left.
pub open spec fn scored_quietly(
    board: &Board,
    nnue: &NNUE,
    net: &Network,
    ply: u8,
    depth: u8,
    standing: i16,
    beta: i16,
    moves: Seq<MovePly>,
    scores: Seq<i16>,
    middles: Seq<Transposition>,
    notes: Seq<ThreadData>,
    tables: &Precomputed,
) -> bool {
    forall|k: int|
        0 <= k < moves.len() ==> (#[trigger] scores[k]) < beta && one_quiescence(
            scores[k],
            board,
            nnue,
            moves[k],
            ply,
            depth,
            best_of(standing, scores, k),
            beta,
            &middles[k],
            &middles[k + 1],
            notes[k],
            notes[k + 1],
            tables,
            net,
        )
}

/// The score `r` is the largest of `scores`, or `standing` if none is larger, and is stored
/// in `table_after` with depth 0 for the position with the hash `zobrist`: as an exact score
/// with a move that gave it, if it is above `standing`, and else as an upper bound with no
/// move.
pub open spec fn ended_quietly(
    r: i16,
    zobrist: u64,
    standing: i16,
    moves: Seq<MovePly>,
    scores: Seq<i16>,
    played: MovePly,
    last: &Transposition,
    table_after: &Transposition,
) -> bool {
    &&& r == best_of(standing, scores, moves.len() as int)
    &&& stored(last, table_after, zobrist, played, r, 0, if r > standing {
        TTFlag::Exact
    } else {
        TTFlag::Upper
    })
    &&& r > standing ==> exists|best: int| 0 <= best < moves.len() && moves[best] == played && #[trigger] scores[best] == r
    &&& r <= standing ==> played.bits() == 0
}

/// The node of the quiescence search has tried every legal capture, promotion and check of
/// the position, each once, one after the other, beginning with the table `table_before` and
/// the records `counted`: the score of each move is what the quiescence search behind it
/// gives, one ply less deep, in the window from the best score so far to `beta`, on the table
/// and the records that the move before has left. No score has reached `beta`. The score `r`
/// of the node is the largest of the scores of the moves, or `standing` if none is larger. It
/// is stored in the table with depth 0: as an exact score with a move that gave it, if it is
/// above `standing`, and else as an upper bound with no move.
#[verifier::opaque]
pub open spec fn went_through_quietly(
    r: i16,
    board: &Board,
    nnue: &NNUE,
    net: &Network,
    ply: u8,
    depth: u8,
    standing: i16,
    beta: i16,
    table_before: &Transposition,
    table_after: &Transposition,
    counted: ThreadData,
    records_after: ThreadData,
    tables: &Precomputed,
) -> bool {
    exists|moves: Seq<MovePly>, scores: Seq<i16>, middles: Seq<Transposition>, notes: Seq<ThreadData>, played: MovePly|
        #![trigger lined_up_quietly(moves, scores, middles, notes, played)]
        lined_up_quietly(moves, scores, middles, notes, played) && all_tactics(board@, moves) && middles[0]
            == *table_before && notes[0] == counted && scored_quietly(
            board,
            nnue,
            net,
            ply,
            (depth - 1) as u8,
            standing,
            beta,
            moves,
            scores,
            middles,
            notes,
            tables,
        ) && ended_quietly(
            r,
            board.hash(),
            standing,
            moves,
            scores,
            played,
            &middles[moves.len() as int],
            table_after,
        ) && records_after == notes[moves.len() as int]
}

/// A node whose moves, scores, tables and records are lined up as `went_through_quietly`
/// says has gone through its moves.
proof fn lemma_went_through_quietly_made(
    r: i16,
    board: &Board,
    nnue: &NNUE,
    net: &Network,
    ply: u8,
    depth: u8,
    standing: i16,
    beta: i16,
    table_before: &Transposition,
    table_after: &Transposition,
    counted: ThreadData,
    records_after: ThreadData,
    tables: &Precomputed,
    moves: Seq<MovePly>,
    scores: Seq<i16>,
    middles: Seq<Transposition>,
    notes: Seq<ThreadData>,
    played: MovePly,
)
    requires
        lined_up_quietly(moves, scores, middles, notes, played),
        all_tactics(board@, moves),
        middles[0] == *table_before,
        notes[0] == counted,
        scored_quietly(board, nnue, net, ply, (depth - 1) as u8, standing, beta, moves, scores, middles, notes, tables),
        ended_quietly(r, board.hash(), standing, moves, scores, played, &middles[moves.len() as int], table_after),
        records_after == notes[moves.len() as int],
    ensures
        went_through_quietly(
            r,
            board,
            nnue,
            net,
            ply,
            depth,
            standing,
            beta,
            table_before,
            table_after,
            counted,
            records_after,
            tables,
        ),
{
    reveal(went_through_quietly);
}

/// How a node went through its captures, promotions and checks is a matter of the position,
/// its hash and its history.
proof fn lemma_went_through_quietly_same(
    r: i16,
    checked: &Board,
    board: &Board,
    nnue: &NNUE,
    stack: &NNUE,
    net: &Network,
    ply: u8,
    depth: u8,
    standing: i16,
    beta: i16,
    table_before: &Transposition,
    table_after: &Transposition,
    counted: ThreadData,
    records_after: ThreadData,
    tables: &Precomputed,
)
    requires
        checked.same_position(board),
        nnue.boards() == stack.boards(),
        went_through_quietly(
            r,
            checked,
            nnue,
            net,
            ply,
            depth,
            standing,
            beta,
            table_before,
            table_after,
            counted,
            records_after,
            tables,
        ),
    ensures
        went_through_quietly(
            r,
            board,
            stack,
            net,
            ply,
            depth,
            standing,
            beta,
            table_before,
            table_after,
            counted,
            records_after,
            tables,
        ),
{
    reveal(went_through_quietly);
    assert(checked@ == board@ && checked.hash() == board.hash());
    let (moves, scores, middles, notes, played) = choose|
        moves: Seq<MovePly>,
        scores: Seq<i16>,
        middles: Seq<Transposition>,
        notes: Seq<ThreadData>,
        played: MovePly,
    |
        #![trigger lined_up_quietly(moves, scores, middles, notes, played)]
        lined_up_quietly(moves, scores, middles, notes, played) && all_tactics(checked@, moves) && middles[0]
            == *table_before && notes[0] == counted && scored_quietly(
            checked,
            nnue,
            net,
            ply,
            (depth - 1) as u8,
            standing,
            beta,
            moves,
            scores,
            middles,
            notes,
            tables,
        ) && ended_quietly(
            r,
            checked.hash(),
            standing,
            moves,
            scores,
            played,
            &middles[moves.len() as int],
            table_after,
        ) && records_after == notes[moves.len() as int];
    assert forall|k: int| 0 <= k < moves.len() implies (#[trigger] scores[k]) < beta && one_quiescence(
        scores[k],
        board,
        stack,
        moves[k],
        ply,
        (depth - 1) as u8,
        best_of(standing, scores, k),
        beta,
        &middles[k],
        &middles[k + 1],
        notes[k],
        notes[k + 1],
        tables,
        net,
    ) by {
        lemma_one_quiescence_same(
            scores[k],
            checked,
            nnue,
            board,
            stack,
            moves[k],
            ply,
            (depth - 1) as u8,
            best_of(standing, scores, k),
            beta,
            &middles[k],
            &middles[k + 1],
            notes[k],
            notes[k + 1],
            tables,
            net,
        );
    }
    assert(scored_quietly(
        board,
        stack,
        net,
        ply,
        (depth - 1) as u8,
        standing,
        beta,
        moves,
        scores,
        middles,
        notes,
        tables,
    ));
    assert(lined_up_quietly(moves, scores, middles, notes, played));
}

/// A legal capture, promotion or check has refuted the line with a score that reaches `beta`
/// and is stored in the table as a lower bound of depth 0.
pub open spec fn cut_off_quietly(board: &Board, beta: i16, table_after: &Transposition) -> bool {
    exists|played: MovePly, before: Transposition|
        canonical(played) && board@.legal(played) && board@.tactical(played) && #[trigger] stored(
            &before,
            table_after,
            board.hash(),
            played,
            beta,
            0,
            TTFlag::Lower,
        )
}

/// The node has stored its score `r` in the table with depth 0: as an exact score with a
/// legal move if it is above `standing`, and else as an upper bound with no move.
pub open spec fn kept_quietly(r: i16, board: &Board, standing: i16, table_after: &Transposition) -> bool {
    exists|played: MovePly, flag: TTFlag, before: Transposition|
        flag != TTFlag::Lower && (flag == TTFlag::Exact <==> r > standing) && (flag == TTFlag::Exact ==> canonical(
            played,
        ) && board@.legal(played)) && (flag != TTFlag::Exact ==> played.bits() == 0) && #[trigger] stored(
            &before,
            table_after,
            board.hash(),
            played,
            r,
            0,
            flag,
        )
}

/// What holds of the captures, promotions and checks of a node once they are tried one
/// after the other: the score is 0 after a stop, which the records then note; or `beta`, and
/// a move has refuted the line; or every move was tried, as `went_through_quietly` says.
pub open spec fn each_tried_quietly(
    r: i16,
    board: &Board,
    nnue: &NNUE,
    net: &Network,
    ply: u8,
    depth: u8,
    standing: i16,
    beta: i16,
    table_before: &Transposition,
    table_after: &Transposition,
    counted: ThreadData,
    records_after: ThreadData,
    tables: &Precomputed,
) -> bool {
    ||| r == 0 && records_after.stopped
    ||| r == beta && cut_off_quietly(board, beta, table_after)
    ||| standing <= r < beta && kept_quietly(r, board, standing, table_after) && went_through_quietly(
        r,
        board,
        nnue,
        net,
        ply,
        depth,
        standing,
        beta,
        table_before,
        table_after,
        counted,
        records_after,
        tables,
    )
}

/// The larger of `alpha` and the evaluation `value`: what a node of the quiescence search
/// has before it tries a move.
pub open spec fn standing_of(alpha: i16, value: i16) -> i16 {
    if alpha < value {
        value
    } else {
        alpha
    }
}

/// How the score of a node of the quiescence search that tries its moves comes from the
/// scores of the moves. For a node that gives no first answer, whose score lies below `beta`
/// and is not the 0 of a stop that the records note: the node has gone through its captures,
/// promotions and checks as `went_through_quietly` says.
pub open spec fn traced_quietly(
    r: i16,
    board: &Board,
    nnue: &NNUE,
    net: &Network,
    ply: u8,
    depth: u8,
    alpha: i16,
    beta: i16,
    table_before: &Transposition,
    table_after: &Transposition,
    records_before: ThreadData,
    records_after: ThreadData,
    tables: &Precomputed,
) -> bool {
    first_answer_quiet(
        board,
        table_before.found(board.hash()),
        nnue.value(board@.side, net),
        ply,
        depth,
        alpha,
        beta,
    ) is None && r < beta && !(r == 0 && records_after.stopped) ==> went_through_quietly(
        r,
        board,
        nnue,
        net,
        ply,
        depth,
        standing_of(alpha, nnue.value(board@.side, net)),
        beta,
        table_before,
        table_after,
        bumped(records_before),
        records_after,
        tables,
    )
}

/// What holds of a node of the quiescence search that tries moves. It counts itself, and
/// the nodes below it count themselves. Its score is 0 after a stop, which the records then
/// note; or `beta`, and then a capture, a promotion or a check has refuted the line and is
/// stored in the table as a lower bound; or it has tried every capture, promotion and check, and
/// then the score lies below `beta` and is at least `alpha` and the evaluation `value` of the
/// network, and it is stored in the table with depth 0: as an exact score with the best move, a
/// legal one, if a move gave more than both, and as an upper bound with no move if none did.
pub open spec fn tried_quietly(
    r: i16,
    board: &Board,
    value: i16,
    ply: u8,
    alpha: i16,
    beta: i16,
    table_before: &Transposition,
    table_after: &Transposition,
    records_before: ThreadData,
    records_after: ThreadData,
) -> bool {
    &&& records_after.nodes >= bumped(records_before).nodes
    &&& settled(r, alpha, beta, ply, board@, table_before.found(board.hash()))
    &&& {
        ||| r == 0 && records_after.stopped
        ||| r == beta && exists|played: MovePly, before: Transposition|
            canonical(played) && board@.legal(played) && board@.tactical(played) && #[trigger] stored(
                &before,
                table_after,
                board.hash(),
                played,
                beta,
                0,
                TTFlag::Lower,
            )
        ||| exists|played: MovePly, flag: TTFlag, before: Transposition|
            alpha <= r < beta && value <= r && flag != TTFlag::Lower && (flag == TTFlag::Exact <==> r > alpha && r
                > value) && (flag == TTFlag::Exact ==> canonical(played) && board@.legal(played)) && (flag
                != TTFlag::Exact
                ==> played.bits() == 0) && #[trigger] stored(&before, table_after, board.hash(), played, r, 0, flag)
    }
}

/// What holds of the score `r` of a search of the position on `board` and of what the search
/// leaves of the table and the records, whatever the clock said when the node was entered.
pub open spec fn search_ok(
    r: i16,
    board: &Board,
    nnue: &NNUE,
    net: &Network,
    ply: u8,
    depth: u8,
    alpha: i16,
    beta: i16,
    table_before: &Transposition,
    table_after: &Transposition,
    records_before: ThreadData,
    records_after: ThreadData,
    tables: &Precomputed,
) -> bool
    decreases 255 - ply, 6int,
{
    let first = first_answer(
        board,
        table_before.found(board.hash()),
        nnue.value(board@.side, net),
        ply,
        depth,
        alpha,
        beta,
    );
    let within = tried(
        r,
        board,
        nnue,
        net,
        ply,
        depth,
        alpha,
        beta,
        table_before,
        table_after,
        bumped(records_before),
        records_after,
        tables,
    );
    &&& score_ok(r)
    &&& table_kept(table_before, table_after, ply, board@, r)
    &&& records_after.nodes >= records_before.nodes
    &&& records_before.stopped ==> records_after.stopped
    &&& node_ok(true, r, first, within, table_before, table_after, records_before, records_after) || node_ok(
        false,
        r,
        first,
        within,
        table_before,
        table_after,
        records_before,
        records_after,
    )
}

/// What holds of the score `r` of a quiescence search of the position on `board` and of what
/// the search leaves of the table and the records, whatever the clock said when the node was
/// entered.
pub open spec fn quiescence_ok(
    r: i16,
    board: &Board,
    nnue: &NNUE,
    net: &Network,
    ply: u8,
    depth: u8,
    alpha: i16,
    beta: i16,
    table_before: &Transposition,
    table_after: &Transposition,
    records_before: ThreadData,
    records_after: ThreadData,
) -> bool {
    let first = first_answer_quiet(
        board,
        table_before.found(board.hash()),
        nnue.value(board@.side, net),
        ply,
        depth,
        alpha,
        beta,
    );
    let within = tried_quietly(
        r,
        board,
        nnue.value(board@.side, net),
        ply,
        alpha,
        beta,
        table_before,
        table_after,
        records_before,
        records_after,
    );
    &&& score_ok(r)
    &&& table_after.age() == table_before.age()
    &&& root_kept(table_before, table_after)
    &&& records_after.nodes >= records_before.nodes
    &&& records_before.stopped ==> records_after.stopped
    &&& node_ok(true, r, first, within, table_before, table_after, records_before, records_after) || node_ok(
        false,
        r,
        first,
        within,
        table_before,
        table_after,
        records_before,
        records_after,
    )
}

/// `child` and `stack` are a board in use and an evaluation stack for the position that
/// `played` leads to from the position on `board`, with the history of `board` and one entry
/// more.
pub open spec fn behind(
    child: &Board,
    stack: &NNUE,
    board: &Board,
    nnue: &NNUE,
    played: MovePly,
    tables: &Precomputed,
    net: &Network,
) -> bool {
    &&& ready(child, tables)
    &&& child@ == board@.make(played)
    &&& child.past() == board.past().push(board@)
    &&& child.history().len() == board.history().len() + 1
    &&& child.history().drop_last() == board.history()
    &&& child.history().last().played == played
    &&& child.history().last().zobrist == board.hash()
    &&& child.history().last().half_move_clock == board@.half_move
    &&& stack.wf(net)
    &&& stack.boards() == nnue.boards().push(board@.pieces_after(played))
}

/// The score `r` is, for the side that makes `played`, what a search of the position behind
/// that move gives `ply + 1` plies from the root, `depth` plies deep, in the window from
/// `alpha` to `beta` as the other side sees it.
pub open spec fn one_search(
    r: i16,
    board: &Board,
    nnue: &NNUE,
    played: MovePly,
    ply: u8,
    depth: u8,
    alpha: i16,
    beta: i16,
    table_before: &Transposition,
    table_after: &Transposition,
    records_before: ThreadData,
    records_after: ThreadData,
    tables: &Precomputed,
    net: &Network,
) -> bool {
    exists|child: Board, stack: NNUE| #[trigger]
        behind(&child, &stack, board, nnue, played, tables, net) && search_ok(
            (-r) as i16,
            &child,
            &stack,
            net,
            (ply + 1) as u8,
            depth,
            (-beta) as i16,
            (-alpha) as i16,
            table_before,
            table_after,
            records_before,
            records_after,
            tables,
        )
}

/// A search of a move in a window of one point has given `first` and left `table` and
/// `records` of `table_before` and `records_before`: a score of a game, a table of the same
/// age, and no fewer nodes.
pub open spec fn narrow_try(
    first: i16,
    table: &Transposition,
    records: ThreadData,
    table_before: &Transposition,
    records_before: ThreadData,
) -> bool {
    score_ok(first) && table.age() == table_before.age() && records.nodes >= records_before.nodes
}

/// The score `r` is what the search of the move `played` gives to the side that makes it
/// at a node `ply` plies from the root that has `depth` plies left: the search behind the move
/// `depth - 1` plies deep in the window from `alpha` to `beta`; for a move that is `reduced`
/// that search only if one that is a ply less deep, in the window of one point above `alpha`,
/// has given more than `alpha`, and else the score of the latter.
#[verifier::opaque]
pub open spec fn move_searched(
    r: i16,
    board: &Board,
    nnue: &NNUE,
    played: MovePly,
    ply: u8,
    depth: u8,
    alpha: i16,
    beta: i16,
    reduced: bool,
    table_before: &Transposition,
    table_after: &Transposition,
    records_before: ThreadData,
    records_after: ThreadData,
    tables: &Precomputed,
    net: &Network,
) -> bool {
    if reduced {
        exists|first: i16, table: Transposition, records: ThreadData|
            #![trigger narrow_try(first, &table, records, table_before, records_before)]
            narrow_try(first, &table, records, table_before, records_before) && one_search(
                first,
                board,
                nnue,
                played,
                ply,
                (depth - 2) as u8,
                alpha,
                (alpha + 1) as i16,
                table_before,
                &table,
                records_before,
                records,
                tables,
                net,
            ) && if first > alpha {
                one_search(
                    r,
                    board,
                    nnue,
                    played,
                    ply,
                    (depth - 1) as u8,
                    alpha,
                    beta,
                    &table,
                    table_after,
                    records,
                    records_after,
                    tables,
                    net,
                )
            } else {
                r == first && same_table(&table, table_after) && records_after == records
            }
    } else {
        one_search(
            r,
            board,
            nnue,
            played,
            ply,
            (depth - 1) as u8,
            alpha,
            beta,
            table_before,
            table_after,
            records_before,
            records_after,
            tables,
            net,
        )
    }
}

/// The search behind a move is a matter of the position, its hash and its history, and of
/// the pieces that the evaluation stack stands for.
pub proof fn lemma_one_search_same(
    r: i16,
    board: &Board,
    nnue: &NNUE,
    other: &Board,
    stack: &NNUE,
    played: MovePly,
    ply: u8,
    depth: u8,
    alpha: i16,
    beta: i16,
    table_before: &Transposition,
    table_after: &Transposition,
    records_before: ThreadData,
    records_after: ThreadData,
    tables: &Precomputed,
    net: &Network,
)
    requires
        board.same_position(other),
        nnue.boards() == stack.boards(),
        one_search(
            r,
            board,
            nnue,
            played,
            ply,
            depth,
            alpha,
            beta,
            table_before,
            table_after,
            records_before,
            records_after,
            tables,
            net,
        ),
    ensures
        one_search(
            r,
            other,
            stack,
            played,
            ply,
            depth,
            alpha,
            beta,
            table_before,
            table_after,
            records_before,
            records_after,
            tables,
            net,
        ),
{
    let (child, top) = choose|child: Board, top: NNUE| #[trigger]
        behind(&child, &top, board, nnue, played, tables, net) && search_ok(
            (-r) as i16,
            &child,
            &top,
            net,
            (ply + 1) as u8,
            depth,
            (-beta) as i16,
            (-alpha) as i16,
            table_before,
            table_after,
            records_before,
            records_after,
            tables,
        );
    assert(behind(&child, &top, other, stack, played, tables, net));
}

/// The search of a move is a matter of the position, its hash and its history, and of the
/// pieces that the evaluation stack stands for.
pub proof fn lemma_move_searched_same(
    r: i16,
    board: &Board,
    nnue: &NNUE,
    other: &Board,
    stack: &NNUE,
    played: MovePly,
    ply: u8,
    depth: u8,
    alpha: i16,
    beta: i16,
    reduced: bool,
    table_before: &Transposition,
    table_after: &Transposition,
    records_before: ThreadData,
    records_after: ThreadData,
    tables: &Precomputed,
    net: &Network,
)
    requires
        board.same_position(other),
        nnue.boards() == stack.boards(),
        move_searched(
            r,
            board,
            nnue,
            played,
            ply,
            depth,
            alpha,
            beta,
            reduced,
            table_before,
            table_after,
            records_before,
            records_after,
            tables,
            net,
        ),
    ensures
        move_searched(
            r,
            other,
            stack,
            played,
            ply,
            depth,
            alpha,
            beta,
            reduced,
            table_before,
            table_after,
            records_before,
            records_after,
            tables,
            net,
        ),
{
    reveal(move_searched);
    if reduced {
        let (first, table, records) = choose|first: i16, table: Transposition, records: ThreadData|
            #![trigger narrow_try(first, &table, records, table_before, records_before)]
            narrow_try(first, &table, records, table_before, records_before) && one_search(
                first,
                board,
                nnue,
                played,
                ply,
                (depth - 2) as u8,
                alpha,
                (alpha + 1) as i16,
                table_before,
                &table,
                records_before,
                records,
                tables,
                net,
            ) && if first > alpha {
                one_search(
                    r,
                    board,
                    nnue,
                    played,
                    ply,
                    (depth - 1) as u8,
                    alpha,
                    beta,
                    &table,
                    table_after,
                    records,
                    records_after,
                    tables,
                    net,
                )
            } else {
                r == first && same_table(&table, table_after) && records_after == records
            };
        lemma_one_search_same(
            first,
            board,
            nnue,
            other,
            stack,
            played,
            ply,
            (depth - 2) as u8,
            alpha,
            (alpha + 1) as i16,
            table_before,
            &table,
            records_before,
            records,
            tables,
            net,
        );
        if first > alpha {
            lemma_one_search_same(
                r,
                board,
                nnue,
                other,
                stack,
                played,
                ply,
                (depth - 1) as u8,
                alpha,
                beta,
                &table,
                table_after,
                records,
                records_after,
                tables,
                net,
            );
        }
        assert(narrow_try(first, &table, records, table_before, records_before));
    } else {
        lemma_one_search_same(
            r,
            board,
            nnue,
            other,
            stack,
            played,
            ply,
            (depth - 1) as u8,
            alpha,
            beta,
            table_before,
            table_after,
            records_before,
            records_after,
            tables,
            net,
        );
    }
}

/// The score `r` is, for the side that makes `played`, what a quiescence search of the
/// position behind that move gives `ply + 1` plies from the root, `depth` plies deep, in the
/// window from `alpha` to `beta` as the other side sees it.
pub open spec fn one_quiescence(
    r: i16,
    board: &Board,
    nnue: &NNUE,
    played: MovePly,
    ply: u8,
    depth: u8,
    alpha: i16,
    beta: i16,
    table_before: &Transposition,
    table_after: &Transposition,
    records_before: ThreadData,
    records_after: ThreadData,
    tables: &Precomputed,
    net: &Network,
) -> bool {
    exists|child: Board, stack: NNUE| #[trigger]
        behind(&child, &stack, board, nnue, played, tables, net) && quiescence_ok(
            (-r) as i16,
            &child,
            &stack,
            net,
            (ply + 1) as u8,
            depth,
            (-beta) as i16,
            (-alpha) as i16,
            table_before,
            table_after,
            records_before,
            records_after,
        )
}

/// What every search needs: a board in use, tables, a network, an evaluation stack that
/// matches the board, a table and the records of the search.
pub open spec fn searching(
    board: &Board,
    nnue: &NNUE,
    tt: &Transposition,
    thread_data: &ThreadData,
    tables: &Precomputed,
    net: &Network,
) -> bool {
    &&& ready(board, tables)
    &&& net.wf()
    &&& nnue.wf(net)
    &&& nnue.top() == board@.pieces
    &&& tt.wf()
    &&& thread_data.wf()
}

/// Counts one node more, as far as the counter goes.
fn count_node(thread_data: &mut ThreadData)
    ensures
        *final(thread_data) == bumped(*old(thread_data)),
        final(thread_data).wf() == old(thread_data).wf(),
{
    if thread_data.nodes < u64::MAX {
        thread_data.nodes += 1;
    }
}

/// The move that the side to move has on record as the answer to the move made last; the
/// move with no bits if no move was made or none is on record.
pub open spec fn answer_on_record(board: &Board, thread_data: &ThreadData) -> MovePly {
    if board.history().len() > 0 && board.history().last().played.bits() != 0 {
        thread_data.counter_move_heuristics.answer(
            board@.side,
            board.history().last().played.from_idx(),
            board.history().last().played.to_idx(),
        )
    } else {
        MovePly::of_bits(0)
    }
}

/// The key by which `played` is ordered at a node `ply_searched` plies from the root.
pub open spec fn ordering_key(
    board: &Board,
    prev_best_move: Option<TTEntry>,
    thread_data: &ThreadData,
    ply_searched: u8,
    played: MovePly,
) -> int {
    key_of(
        prev_best_move matches Some(entry) && entry.cur_move == played,
        played == answer_on_record(board, thread_data),
        thread_data.killers.slot(ply_searched as int, 0) == played || thread_data.killers.slot(ply_searched as int, 1)
            == played,
        clamp16(see_value(board, played.from_idx(), played.to_idx())),
        played.spec_flag(),
        thread_data.history_heuristics.count(board@.side, played.from_idx(), played.to_idx()),
    )
}

/// Whether `keys` holds the key of each move of `moves`.
pub open spec fn keys_of(
    board: &Board,
    prev_best_move: Option<TTEntry>,
    thread_data: &ThreadData,
    ply_searched: u8,
    moves: Seq<MovePly>,
    keys: Seq<i32>,
) -> bool {
    &&& keys.len() == moves.len()
    &&& forall|i: int|
        0 <= i < moves.len() ==> #[trigger] keys[i] == ordering_key(
            board,
            prev_best_move,
            thread_data,
            ply_searched,
            moves[i],
        )
}

/// Orders the moves of a node, the most promising first: by their keys, moves with the
/// same key in the order that they had.
fn order_moves(
    board: &Board,
    move_list: &mut MoveList,
    prev_best_move: &Option<TTEntry>,
    thread_data: &ThreadData,
    ply_searched: u8,
    tables: &Precomputed,
)
    requires
        ready(board, tables),
        thread_data.wf(),
    ensures
        exists|perm: Seq<int>, keys: Seq<i32>|
            keys_of(board, *prev_best_move, thread_data, ply_searched, old(move_list)@, keys) && is_ordering(
                perm,
                old(move_list)@,
                keys,
                final(move_list)@,
            ),
        forall|i: int|
            0 <= i < final(move_list)@.len() ==> old(move_list)@.contains(#[trigger] final(move_list)@[i]),
        final(move_list)@.len() == old(move_list)@.len(),
{
    let mut move_values: Vec<i32> = Vec::new();
    let side = board.side_to_move();
    let mut counter_move = MovePly::default();
    if let Some(last_move) = board.last_move() {
        counter_move = thread_data.counter_move_heuristics.get_counter_move(last_move, side);
    }
    proof {
        if counter_move.bits() == 0 {
            MovePly::lemma_of_bits(0);
            MovePly::lemma_bits_known(counter_move, MovePly::of_bits(0));
        }
        if board.history().len() > 0 && board.history().last().played.bits() != 0 {
            board.history().last().played.lemma_ranges();
        }
        assert(counter_move == answer_on_record(board, thread_data));
    }
    let mut i: usize = 0;
    while i < move_list.move_count()
        invariant
            i <= move_list@.len(),
            move_values@.len() == i,
            ready(board, tables),
            thread_data.wf(),
            side == board@.side,
            counter_move == answer_on_record(board, thread_data),
            move_list@ == old(move_list)@,
            forall|k: int|
                0 <= k < i ==> #[trigger] move_values@[k] == ordering_key(
                    board,
                    *prev_best_move,
                    thread_data,
                    ply_searched,
                    move_list@[k],
                ),
        decreases move_list@.len() - i,
    {
        let cur_move = move_list.move_at(i);
        let table_move: bool = match prev_best_move {
            Some(entry) => entry.cur_move == cur_move,
            None => false,
        };
        let key: i32 = move_key(
            table_move,
            cur_move == counter_move,
            thread_data.killers.contains(ply_searched, cur_move),
            see(cur_move.from(), cur_move.to(), board, tables),
            cur_move.flag(),
            thread_data.history_heuristics.get_history(cur_move, side),
        );
        proof {
            cur_move.lemma_ranges();
        }
        let ghost before = move_values@;
        move_values.push(key);
        assert forall|k: int| 0 <= k < i + 1 implies #[trigger] move_values@[k] == ordering_key(
            board,
            *prev_best_move,
            thread_data,
            ply_searched,
            move_list@[k],
        ) by {
            if k < i {
                assert(move_values@[k] == before[k]);
            }
        }
        i += 1;
    }
    move_list.order_moves(&move_values);
    proof {
        let perm = choose|perm: Seq<int>| is_ordering(perm, old(move_list)@, move_values@, move_list@);
        assert(keys_of(board, *prev_best_move, thread_data, ply_searched, old(move_list)@, move_values@));
        assert forall|i: int| 0 <= i < move_list@.len() implies old(move_list)@.contains(
            #[trigger] move_list@[i],
        ) by {
            assert(move_list@[i] == old(move_list)@[perm[i]]);
        }
    }
}

/// Makes `cur_move`, searches the position behind it `depth - 1` plies deep, and takes the
/// move back. A late move is searched `depth - 2` plies deep with a window of one point first, and
/// again only if that beats `alpha`. The score is seen from the side that makes the move: it is
/// minus the score of the last of these searches. The root of the table is not touched.
fn search_move(
    board: &mut Board,
    ply_searched: u8,
    depth: u8,
    alpha: i16,
    beta: i16,
    reduced: bool,
    cur_move: MovePly,
    thread_data: &mut ThreadData,
    tt: &mut Transposition,
    nnue: &mut NNUE,
    limits: &SearchLimits,
    tables: &Precomputed,
    net: &Network,
) -> (r: i16)
    requires
        searching(old(board), old(nnue), old(tt), old(thread_data), tables, net),
        window_ok(alpha, beta),
        ply_searched < 255,
        depth >= 1,
        reduced ==> depth >= 3,
        old(board)@.legal(cur_move),
    ensures
        searching(final(board), final(nnue), final(tt), final(thread_data), tables, net),
        final(board).same_position(old(board)),
        final(nnue).boards() == old(nnue).boards(),
        score_ok(r),
        final(tt).age() == old(tt).age(),
        root_kept(old(tt), final(tt)),
        final(thread_data).nodes >= old(thread_data).nodes,
        old(thread_data).stopped ==> final(thread_data).stopped,
        limits.hard() == 0 ==> r == 0 && same_table(old(tt), final(tt)) && *final(thread_data) == halted(
            *old(thread_data),
        ),
        move_searched(
            r,
            old(board),
            old(nnue),
            cur_move,
            ply_searched,
            depth,
            alpha,
            beta,
            reduced,
            old(tt),
            final(tt),
            *old(thread_data),
            *final(thread_data),
            tables,
            net,
        ),
    decreases 255 - ply_searched, 0int,
{
    proof {
        reveal(move_searched);
    }
    let ghost before = *board;
    let ghost nnue_before = *nnue;
    proof {
        if cur_move.bits() == 0 {
            cur_move.lemma_zero();
        }
    }
    nnue.make_move(&cur_move, board, net);
    board.make_move(&cur_move, &tables.zobrist);
    let ghost middle = *board;
    let ghost stack = *nnue;
    proof {
        assert(middle.history().drop_last() =~= old(board).history());
        assert(behind(&middle, &stack, old(board), old(nnue), cur_move, tables, net));
    }
    let mut eval: i16;
    if reduced {
        eval = -search(board, ply_searched + 1, depth - 2, -alpha - 1, -alpha, thread_data, tt, nnue, limits, tables, net);
        let ghost first = eval;
        let ghost table = *tt;
        let ghost records = *thread_data;
        let ghost again = *board;
        let ghost stack_again = *nnue;
        assert(behind(&again, &stack_again, old(board), old(nnue), cur_move, tables, net));
        if eval > alpha {
            eval = -search(board, ply_searched + 1, depth - 1, -beta, -alpha, thread_data, tt, nnue, limits, tables, net);
        }
        assert(narrow_try(first, &table, records, old(tt), *old(thread_data)));
        assert(one_search(
            first,
            old(board),
            old(nnue),
            cur_move,
            ply_searched,
            (depth - 2) as u8,
            alpha,
            (alpha + 1) as i16,
            old(tt),
            &table,
            *old(thread_data),
            records,
            tables,
            net,
        ) && if first > alpha {
            one_search(
                eval,
                old(board),
                old(nnue),
                cur_move,
                ply_searched,
                (depth - 1) as u8,
                alpha,
                beta,
                &table,
                tt,
                records,
                *thread_data,
                tables,
                net,
            )
        } else {
            eval == first && same_table(&table, tt) && *thread_data == records
        });
    } else {
        eval = -search(board, ply_searched + 1, depth - 1, -beta, -alpha, thread_data, tt, nnue, limits, tables, net);
    }
    let ghost resumed = *board;
    let ghost nnue_resumed = *nnue;
    board.undo_move(&tables.zobrist);
    nnue.undo_move();
    proof {
        Board::lemma_undo_after(&before, &middle, &resumed, board, cur_move);
        NNUE::lemma_undo(&nnue_resumed, nnue, net);
        assert(nnue.boards() =~= nnue_before.boards());
    }
    eval
}

/// The score of the position on `board` for the side to move, searched `depth` plies deep in
/// the window from `alpha` to `beta`. `ply_searched` counts the plies from the root. The clock
/// is asked, and the node does what `search_node` does for its answer. With a hard stop of 0
/// milliseconds the score is 0 and nothing changes.
pub fn search(
    board: &mut Board,
    ply_searched: u8,
    depth: u8,
    alpha: i16,
    beta: i16,
    thread_data: &mut ThreadData,
    tt: &mut Transposition,
    nnue: &mut NNUE,
    limits: &SearchLimits,
    tables: &Precomputed,
    net: &Network,
) -> (r: i16)
    requires
        searching(old(board), old(nnue), old(tt), old(thread_data), tables, net),
        window_ok(alpha, beta),
    ensures
        searching(final(board), final(nnue), final(tt), final(thread_data), tables, net),
        final(board).same_position(old(board)),
        final(nnue).boards() == old(nnue).boards(),
        search_ok(
            r,
            old(board),
            old(nnue),
            net,
            ply_searched,
            depth,
            alpha,
            beta,
            old(tt),
            final(tt),
            *old(thread_data),
            *final(thread_data),
            tables,
        ),
        limits.hard() == 0 ==> r == 0 && same_table(old(tt), final(tt)) && *final(thread_data) == halted(
            *old(thread_data),
        ),
        traced(
            r,
            old(board),
            old(nnue),
            net,
            ply_searched,
            depth,
            alpha,
            beta,
            old(tt),
            final(tt),
            bumped(*old(thread_data)),
            *final(thread_data),
            tables,
        ),
    decreases 255 - ply_searched, 4int,
{
    let stopped: bool = limits.is_hard_stop();
    search_node(stopped, board, ply_searched, depth, alpha, beta, thread_data, tt, nnue, limits, tables, net)
}

/// A node of the search, once the clock has been asked: `stopped` says whether the hard stop
/// was reached. A node that was stopped answers 0. Any other counts itself, and answers with
/// what the table settles, at the deepest ply with the evaluation of the network, with 0 for a
/// draw and with the mate score when the side to move is mated. Else it tries the moves, and
/// its score lies in the window, but for a stop and what the table settles further down.
pub fn search_node(
    stopped: bool,
    board: &mut Board,
    ply_searched: u8,
    depth: u8,
    alpha: i16,
    beta: i16,
    thread_data: &mut ThreadData,
    tt: &mut Transposition,
    nnue: &mut NNUE,
    limits: &SearchLimits,
    tables: &Precomputed,
    net: &Network,
) -> (r: i16)
    requires
        searching(old(board), old(nnue), old(tt), old(thread_data), tables, net),
        window_ok(alpha, beta),
    ensures
        searching(final(board), final(nnue), final(tt), final(thread_data), tables, net),
        final(board).same_position(old(board)),
        final(nnue).boards() == old(nnue).boards(),
        score_ok(r),
        table_kept(old(tt), final(tt), ply_searched, old(board)@, r),
        final(thread_data).nodes >= old(thread_data).nodes,
        old(thread_data).stopped ==> final(thread_data).stopped,
        node_ok(
            stopped,
            r,
            first_answer(
                old(board),
                old(tt).found(old(board).hash()),
                old(nnue).value(old(board)@.side, net),
                ply_searched,
                depth,
                alpha,
                beta,
            ),
            tried(
                r,
                old(board),
                old(nnue),
                net,
                ply_searched,
                depth,
                alpha,
                beta,
                old(tt),
                final(tt),
                bumped(*old(thread_data)),
                *final(thread_data),
                tables,
            ),
            old(tt),
            final(tt),
            *old(thread_data),
            *final(thread_data),
        ),
        traced(
            r,
            old(board),
            old(nnue),
            net,
            ply_searched,
            depth,
            alpha,
            beta,
            old(tt),
            final(tt),
            bumped(*old(thread_data)),
            *final(thread_data),
            tables,
        ),
    decreases 255 - ply_searched, 3int,
{
    if stopped {
        thread_data.stopped = true;
        return 0;
    }
    count_node(thread_data);
    let ghost first = first_answer(
        old(board),
        old(tt).found(old(board).hash()),
        old(nnue).value(old(board)@.side, net),
        ply_searched,
        depth,
        alpha,
        beta,
    );
    let mut left: u8 = depth;
    let mut lower: i16 = alpha;
    let tt_entry = tt.probe(board.zobrist());
    if let Some(entry) = tt_entry {
        if let Some(score) = tt_cutoff(&entry, left, lower, beta, ply_searched == 0) {
            return score;
        }
    }
    if ply_searched == 255 {
        return clamp_score(nnue.evaluate(board.side_to_move(), net));
    }
    let mut move_list = MoveList::default();
    MoveGenerator::<GEN_ALL>::generate(board, &mut move_list, tables);
    let match_result = Arbiter::arbitrate(board, &move_list);
    proof {
        lemma_mate(board, move_list@);
        lemma_verdict(board, move_list@);
        lemma_verdict_same(board, old(board));
        assert(first is None <==> match_result != MatchResult::Draw && match_result != MatchResult::Loss);
    }
    match match_result {
        MatchResult::Draw => {
            return 0;
        },
        MatchResult::Loss => {
            return -INFINITY + ply_searched as i16;
        },
        _ => {},
    }
    let ghost counted = *thread_data;
    let ghost checked = *board;
    let r = try_moves(board, ply_searched, depth, alpha, beta, move_list, tt_entry, thread_data, tt, nnue, limits, tables, net);
    proof {
        assert(searched_left(&checked, depth, old(tt).found(checked.hash())) == searched_left(
            old(board),
            depth,
            old(tt).found(old(board).hash()),
        ));
        if left_of(&checked, depth) >= 1 && alpha <= r < beta && !(r == 0 && thread_data.stopped) {
            lemma_went_through_same(
                r,
                &checked,
                old(board),
                old(nnue),
                old(nnue),
                net,
                ply_searched,
                searched_left(&checked, depth, old(tt).found(checked.hash())),
                alpha,
                beta,
                old(tt).age(),
                counted.nodes,
                tt,
                *thread_data,
                tables,
            );
        }
        lemma_tried_same(
            r,
            &checked,
            old(board),
            old(nnue),
            net,
            ply_searched,
            depth,
            alpha,
            beta,
            old(tt),
            tt,
            counted,
            *thread_data,
            tables,
        );
    }
    r
}

/// How a node went through its moves is a matter of the position, its hash and its history.
proof fn lemma_went_through_same(
    r: i16,
    checked: &Board,
    board: &Board,
    nnue: &NNUE,
    stack: &NNUE,
    net: &Network,
    ply: u8,
    left: u8,
    alpha: i16,
    beta: i16,
    age: u16,
    counted: u64,
    table_after: &Transposition,
    records_after: ThreadData,
    tables: &Precomputed,
)
    requires
        checked.same_position(board),
        nnue.boards() == stack.boards(),
        went_through(r, checked, nnue, net, ply, left, alpha, beta, age, counted, table_after, records_after, tables),
    ensures
        went_through(r, board, stack, net, ply, left, alpha, beta, age, counted, table_after, records_after, tables),
{
    reveal(went_through);
    assert(checked@ == board@ && checked.hash() == board.hash());
    let (moves, scores, middles, notes, best) = choose|
        moves: Seq<MovePly>,
        scores: Seq<i16>,
        middles: Seq<Transposition>,
        notes: Seq<ThreadData>,
        best: int,
    |
        #![trigger lined_up(moves, scores, middles, notes, best)]
        lined_up(moves, scores, middles, notes, best) && all_legal(checked@, moves, 0) && no_repeat(moves, 0)
            && moves.len() == nodes(checked@, 1) && middles[0].age() == age && notes[0].nodes >= counted
            && (forall|k: int|
            0 <= k < moves.len() ==> (#[trigger] scores[k]) < beta && move_searched(
                scores[k],
                checked,
                nnue,
                moves[k],
                ply,
                left,
                best_of(alpha, scores, k),
                beta,
                k >= 3 && left >= 3,
                &middles[k],
                &middles[k + 1],
                notes[k],
                notes[k + 1],
                tables,
                net,
            )) && r == best_of(alpha, scores, moves.len() as int) && stored(
            &middles[moves.len() as int],
            table_after,
            checked.hash(),
            moves[best],
            r,
            left,
            if r > alpha {
                TTFlag::Exact
            } else {
                TTFlag::Upper
            },
        ) && records_after == notes[moves.len() as int] && (ply == 0 ==> published(checked@, table_after, r));
    assert forall|k: int| 0 <= k < moves.len() implies (#[trigger] scores[k]) < beta && move_searched(
        scores[k],
        board,
        stack,
        moves[k],
        ply,
        left,
        best_of(alpha, scores, k),
        beta,
        k >= 3 && left >= 3,
        &middles[k],
        &middles[k + 1],
        notes[k],
        notes[k + 1],
        tables,
        net,
    ) by {
        lemma_move_searched_same(
            scores[k],
            checked,
            nnue,
            board,
            stack,
            moves[k],
            ply,
            left,
            best_of(alpha, scores, k),
            beta,
            k >= 3 && left >= 3,
            &middles[k],
            &middles[k + 1],
            notes[k],
            notes[k + 1],
            tables,
            net,
        );
    }
    assert(lined_up(moves, scores, middles, notes, best));
}

/// What holds of the moves that were tried one after the other is a matter of the position,
/// its hash and its history.
proof fn lemma_each_tried_same(
    r: i16,
    checked: &Board,
    board: &Board,
    nnue: &NNUE,
    stack: &NNUE,
    net: &Network,
    ply: u8,
    left: u8,
    alpha: i16,
    beta: i16,
    table_before: &Transposition,
    table_after: &Transposition,
    records_before: ThreadData,
    records_after: ThreadData,
    tables: &Precomputed,
)
    requires
        checked.same_position(board),
        nnue.boards() == stack.boards(),
        each_tried(
            r,
            checked,
            nnue,
            net,
            ply,
            left,
            alpha,
            beta,
            table_before,
            table_after,
            records_before,
            records_after,
            tables,
        ),
    ensures
        each_tried(
            r,
            board,
            stack,
            net,
            ply,
            left,
            alpha,
            beta,
            table_before,
            table_after,
            records_before,
            records_after,
            tables,
        ),
{
    assert(answered(checked) == answered(board));
    if r == beta && cut_off(checked, ply, beta, table_after, records_after) {
        assert(cut_off(board, ply, beta, table_after, records_after));
    }
    if alpha <= r < beta && best_stored(r, checked, ply, alpha, table_after) && went_through(
        r,
        checked,
        nnue,
        net,
        ply,
        left,
        alpha,
        beta,
        table_before.age(),
        records_before.nodes,
        table_after,
        records_after,
        tables,
    ) {
        assert(best_stored(r, board, ply, alpha, table_after));
        lemma_went_through_same(
            r,
            checked,
            board,
            nnue,
            stack,
            net,
            ply,
            left,
            alpha,
            beta,
            table_before.age(),
            records_before.nodes,
            table_after,
            records_after,
            tables,
        );
    }
}

/// What holds of a node that tries moves is a matter of the position, its hash and its
/// history.
proof fn lemma_tried_same(
    r: i16,
    checked: &Board,
    board: &Board,
    nnue: &NNUE,
    net: &Network,
    ply: u8,
    depth: u8,
    alpha: i16,
    beta: i16,
    table_before: &Transposition,
    table_after: &Transposition,
    counted: ThreadData,
    records_after: ThreadData,
    tables: &Precomputed,
)
    requires
        checked.same_position(board),
        ready(checked, tables),
        ready(board, tables),
        tried(r, checked, nnue, net, ply, depth, alpha, beta, table_before, table_after, counted, records_after, tables),
    ensures
        tried(r, board, nnue, net, ply, depth, alpha, beta, table_before, table_after, counted, records_after, tables),
{
    lemma_verdict_same(checked, board);
    if alpha <= r < beta && best_stored(r, checked, ply, alpha, table_after) {
        assert(best_stored(r, board, ply, alpha, table_after));
    }
    if r == beta && cut_off(checked, ply, beta, table_after, records_after) {
        assert(cut_off(board, ply, beta, table_after, records_after));
    }
    assert(answered(checked) == answered(board));
    assert(only_king_and_pawns(checked) == only_king_and_pawns(board));
    assert(left_of(checked, depth) == left_of(board, depth));
    if r == beta && refuted_at(
        checked,
        nnue,
        net,
        ply,
        depth,
        alpha,
        beta,
        table_before,
        table_after,
        counted,
        records_after,
        tables,
    ) {
        if ply < 255 && alpha == beta - 1 && left_of(checked, depth) > 6 && !checked@.in_check() && !only_king_and_pawns(
            checked,
        ) && exists|child: Board, score: i16|
            #![trigger passed(&child, checked, tables), fails_high(score, beta)]
            passed(&child, checked, tables) && fails_high(score, beta) && search_ok(
                score,
                &child,
                nnue,
                net,
                (ply + 1) as u8,
                (left_of(checked, depth) - 4) as u8,
                (-beta) as i16,
                (-beta + 1) as i16,
                table_before,
                table_after,
                counted,
                records_after,
                tables,
            ) {
            let (child, score) = choose|child: Board, score: i16|
                #![trigger passed(&child, checked, tables), fails_high(score, beta)]
                passed(&child, checked, tables) && fails_high(score, beta) && search_ok(
                    score,
                    &child,
                    nnue,
                    net,
                    (ply + 1) as u8,
                    (left_of(checked, depth) - 4) as u8,
                    (-beta) as i16,
                    (-beta + 1) as i16,
                    table_before,
                    table_after,
                    counted,
                    records_after,
                    tables,
                );
            assert(passed(&child, board, tables));
        }
        assert(refuted_at(
            board,
            nnue,
            net,
            ply,
            depth,
            alpha,
            beta,
            table_before,
            table_after,
            counted,
            records_after,
            tables,
        ));
    }
}

/// Orders the legal moves of a node, the most promising first.
fn order_legal_moves(
    board: &Board,
    move_list: &mut MoveList,
    prev_best_move: &Option<TTEntry>,
    thread_data: &ThreadData,
    ply_searched: u8,
    tables: &Precomputed,
)
    requires
        ready(board, tables),
        thread_data.wf(),
        all_legal(board@, old(move_list)@, 0),
        no_repeat(old(move_list)@, 0),
    ensures
        all_legal(board@, final(move_list)@, 0),
        no_repeat(final(move_list)@, 0),
        final(move_list)@.len() == old(move_list)@.len(),
        exists|perm: Seq<int>, keys: Seq<i32>|
            keys_of(board, *prev_best_move, thread_data, ply_searched, old(move_list)@, keys) && is_ordering(
                perm,
                old(move_list)@,
                keys,
                final(move_list)@,
            ),
{
    let ghost generated = move_list@;
    order_moves(board, move_list, prev_best_move, thread_data, ply_searched, tables);
    proof {
        let (perm, keys) = choose|perm: Seq<int>, keys: Seq<i32>|
            keys_of(board, *prev_best_move, thread_data, ply_searched, generated, keys) && is_ordering(
                perm,
                generated,
                keys,
                move_list@,
            );
        assert forall|a: int, b: int| 0 <= a < b < move_list@.len() implies #[trigger] move_list@[a]
            != #[trigger] move_list@[b] by {
            assert(move_list@[a] == generated[perm[a]] && move_list@[b] == generated[perm[b]]);
            assert(perm[a] != perm[b]);
            if perm[a] < perm[b] {
                assert(generated[perm[a]] != generated[perm[b]]);
            } else {
                assert(generated[perm[b]] != generated[perm[a]]);
            }
        }
        assert forall|k: int| 0 <= k < move_list@.len() implies board@.legal(#[trigger] move_list@[k]) && canonical(
            move_list@[k],
        ) by {
            assert(move_list@[k] == generated[perm[k]]);
        }
    }
}

/// What holds of the moves that were tried one after the other holds of the node.
proof fn lemma_tried_from_each(
    r: i16,
    board: &Board,
    nnue: &NNUE,
    net: &Network,
    ply: u8,
    depth: u8,
    left: u8,
    alpha: i16,
    beta: i16,
    table_before: &Transposition,
    first: &Transposition,
    table_after: &Transposition,
    counted: ThreadData,
    started: ThreadData,
    records_after: ThreadData,
    tables: &Precomputed,
)
    requires
        window_ok(alpha, beta),
        left == searched_left(board, depth, table_before.found(board.hash())),
        first.age() == table_before.age(),
        started.nodes >= counted.nodes,
        records_after.nodes >= started.nodes,
        each_tried(r, board, nnue, net, ply, left, alpha, beta, first, table_after, started, records_after, tables),
    ensures
        tried(r, board, nnue, net, ply, depth, alpha, beta, table_before, table_after, counted, records_after, tables),
        alpha <= r < beta && !(r == 0 && records_after.stopped) ==> went_through(
            r,
            board,
            nnue,
            net,
            ply,
            left,
            alpha,
            beta,
            table_before.age(),
            counted.nodes,
            table_after,
            records_after,
            tables,
        ),
{
    if r == beta && cut_off(board, ply, beta, table_after, records_after) {
        assert(refuted_at(
            board,
            nnue,
            net,
            ply,
            depth,
            alpha,
            beta,
            table_before,
            table_after,
            counted,
            records_after,
            tables,
        ));
    }
    if alpha <= r < beta && !(r == 0 && records_after.stopped) {
        lemma_went_through_weaker(
            r,
            board,
            nnue,
            net,
            ply,
            left,
            alpha,
            beta,
            first.age(),
            started.nodes,
            counted.nodes,
            table_after,
            records_after,
            tables,
        );
    }
}

/// What a node of the search does once it is known that the game goes on and that the table
/// does not settle the node: it goes over to the quiescence search if no ply is left, tries the
/// null move and the evaluation against `beta`, and then the moves of `move_list`, the legal
/// moves of the position, one after the other.
fn try_moves(
    board: &mut Board,
    ply_searched: u8,
    depth: u8,
    alpha: i16,
    beta: i16,
    move_list: MoveList,
    tt_entry: Option<TTEntry>,
    thread_data: &mut ThreadData,
    tt: &mut Transposition,
    nnue: &mut NNUE,
    limits: &SearchLimits,
    tables: &Precomputed,
    net: &Network,
) -> (r: i16)
    requires
        searching(old(board), old(nnue), old(tt), old(thread_data), tables, net),
        window_ok(alpha, beta),
        ply_searched < 255,
        old(board).check_flag() == old(board)@.in_check(),
        all_legal(old(board)@, move_list@, 0),
        no_repeat(move_list@, 0),
        move_list@.len() == nodes(old(board)@, 1),
        move_list@.len() > 0,
        tt_entry == old(tt).found(old(board).hash()),
    ensures
        searching(final(board), final(nnue), final(tt), final(thread_data), tables, net),
        final(board).same_position(old(board)),
        final(nnue).boards() == old(nnue).boards(),
        score_ok(r),
        table_kept(old(tt), final(tt), ply_searched, old(board)@, r),
        final(thread_data).nodes >= old(thread_data).nodes,
        old(thread_data).stopped ==> final(thread_data).stopped,
        tried(
            r,
            old(board),
            old(nnue),
            net,
            ply_searched,
            depth,
            alpha,
            beta,
            old(tt),
            final(tt),
            *old(thread_data),
            *final(thread_data),
            tables,
        ),
        left_of(old(board), depth) >= 1 && alpha <= r < beta && !(r == 0 && final(thread_data).stopped)
            ==> went_through(
            r,
            old(board),
            old(nnue),
            net,
            ply_searched,
            searched_left(old(board), depth, old(tt).found(old(board).hash())),
            alpha,
            beta,
            old(tt).age(),
            old(thread_data).nodes,
            final(tt),
            *final(thread_data),
            tables,
        ),
    decreases 255 - ply_searched, 2int,
{
    let mut move_list = move_list;
    let mut left: u8 = depth;
    let mut lower: i16 = alpha;
    if board.in_check() && left < 255 {
        left += 1;
    }
    if left == 0 {
        return quiescence_search(
            board,
            ply_searched + 1,
            QUIESCENCE_DEPTH,
            lower,
            beta,
            thread_data,
            tt,
            nnue,
            limits,
            tables,
            net,
        );
    }
    let pv_node: bool = lower != beta - 1;
    if null_move_allowed(pv_node, left, board.in_check(), in_zugzwang(board)) {
        let ghost before = *board;
        board.make_null_move(&tables.zobrist);
        let ghost middle = *board;
        let value: i16 = -search(
            board,
            ply_searched + 1,
            left - 4,
            -beta,
            -beta + 1,
            thread_data,
            tt,
            nnue,
            limits,
            tables,
            net,
        );
        board.undo_null_move(&tables.zobrist);
        proof {
            assert(before.past().push(before@).drop_last() =~= before.past());
        }
        let ghost counted = *thread_data;
        let stopped_since: bool = limits.is_hard_stop();
        if let Some(score) = after_null_move(stopped_since, value, beta, thread_data) {
            proof {
                if !stopped_since {
                    assert(left == left_of(old(board), depth));
                    assert(alpha == beta - 1);
                    assert(!old(board)@.in_check());
                    assert(!only_king_and_pawns(old(board)));
                    assert(passed(&middle, old(board), tables));
                    assert(search_ok(
                        (-value) as i16,
                        &middle,
                        old(nnue),
                        net,
                        (ply_searched + 1) as u8,
                        (left - 4) as u8,
                        (-beta) as i16,
                        (-beta + 1) as i16,
                        old(tt),
                        tt,
                        *old(thread_data),
                        counted,
                        tables,
                    ));
                    assert(*thread_data == counted);
                    assert(fails_high((-value) as i16, beta));
                    assert(refuted_at(
                        old(board),
                        old(nnue),
                        net,
                        ply_searched,
                        depth,
                        alpha,
                        beta,
                        old(tt),
                        tt,
                        *old(thread_data),
                        *thread_data,
                        tables,
                    ));
                }
            }
            return score;
        }
    }
    let static_eval: i16 = match tt_entry {
        Some(entry) => entry.eval,
        None => nnue.evaluate(board.side_to_move(), net),
    };
    proof {
        nnue.lemma_value_same(old(nnue), board@.side, net);
        assert(static_eval == static_eval_of(old(tt).found(old(board).hash()), old(nnue).value(old(board)@.side, net)));
        assert(left == left_of(old(board), depth));
    }
    if reverse_futility(static_eval, beta, left) {
        return beta;
    }
    if left > 4 && tt_entry.is_none() {
        left -= 1;
    }
    proof {
        assert(left == searched_left(old(board), depth, old(tt).found(old(board).hash())));
    }
    order_legal_moves(board, &mut move_list, &tt_entry, thread_data, ply_searched, tables);
    let ghost started = *thread_data;
    let ghost first = *tt;
    let ghost board_then = *board;
    let ghost nnue_then = *nnue;
    let r = try_each(board, ply_searched, left, alpha, beta, &move_list, thread_data, tt, nnue, limits, tables, net);
    proof {
        lemma_each_tried_same(
            r,
            &board_then,
            old(board),
            &nnue_then,
            old(nnue),
            net,
            ply_searched,
            left,
            alpha,
            beta,
            &first,
            tt,
            started,
            *thread_data,
            tables,
        );
        lemma_tried_from_each(
            r,
            old(board),
            old(nnue),
            net,
            ply_searched,
            depth,
            left,
            alpha,
            beta,
            old(tt),
            &first,
            tt,
            *old(thread_data),
            started,
            *thread_data,
            tables,
        );
    }
    r
}

/// How a node went through its moves holds all the more of records that had counted fewer
/// nodes.
proof fn lemma_went_through_weaker(
    r: i16,
    board: &Board,
    nnue: &NNUE,
    net: &Network,
    ply: u8,
    left: u8,
    alpha: i16,
    beta: i16,
    age: u16,
    counted: u64,
    fewer: u64,
    table_after: &Transposition,
    records_after: ThreadData,
    tables: &Precomputed,
)
    requires
        fewer <= counted,
        went_through(r, board, nnue, net, ply, left, alpha, beta, age, counted, table_after, records_after, tables),
    ensures
        went_through(r, board, nnue, net, ply, left, alpha, beta, age, fewer, table_after, records_after, tables),
{
    reveal(went_through);
}

/// What holds of the moves of a node once they are tried one after the other, `left` plies
/// deep: the score is 0 after a stop, which the records then note; or `beta`, and a move has
/// refuted the line; or every move was tried, as `went_through` says.
pub open spec fn each_tried(
    r: i16,
    board: &Board,
    nnue: &NNUE,
    net: &Network,
    ply: u8,
    left: u8,
    alpha: i16,
    beta: i16,
    table_before: &Transposition,
    table_after: &Transposition,
    records_before: ThreadData,
    records_after: ThreadData,
    tables: &Precomputed,
) -> bool {
    ||| r == 0 && records_after.stopped
    ||| r == beta && cut_off(board, ply, beta, table_after, records_after)
    ||| alpha <= r < beta && best_stored(r, board, ply, alpha, table_after) && went_through(
        r,
        board,
        nnue,
        net,
        ply,
        left,
        alpha,
        beta,
        table_before.age(),
        records_before.nodes,
        table_after,
        records_after,
        tables,
    )
}

/// How the score of a node that tries its moves comes from the scores of the moves. For a
/// node that the table does not settle and where the game goes on, that has a ply left, whose
/// score lies in the window below `beta` and is not the 0 of a stop that the records note:
/// the node has gone through its moves as `went_through` says.
pub open spec fn traced(
    r: i16,
    board: &Board,
    nnue: &NNUE,
    net: &Network,
    ply: u8,
    depth: u8,
    alpha: i16,
    beta: i16,
    table_before: &Transposition,
    table_after: &Transposition,
    records_before: ThreadData,
    records_after: ThreadData,
    tables: &Precomputed,
) -> bool {
    first_answer(
        board,
        table_before.found(board.hash()),
        nnue.value(board@.side, net),
        ply,
        depth,
        alpha,
        beta,
    ) is None && left_of(board, depth) >= 1 && alpha <= r < beta && !(r == 0 && records_after.stopped)
        ==> went_through(
        r,
        board,
        nnue,
        net,
        ply,
        searched_left(board, depth, table_before.found(board.hash())),
        alpha,
        beta,
        table_before.age(),
        records_before.nodes,
        table_after,
        records_after,
        tables,
    )
}

/// Tries the moves of `move_list`, the legal moves of the position in the order in which
/// they are to be tried, one after the other, `left` plies deep, and stores the best.
fn try_each(
    board: &mut Board,
    ply_searched: u8,
    left: u8,
    alpha: i16,
    beta: i16,
    move_list: &MoveList,
    thread_data: &mut ThreadData,
    tt: &mut Transposition,
    nnue: &mut NNUE,
    limits: &SearchLimits,
    tables: &Precomputed,
    net: &Network,
) -> (r: i16)
    requires
        searching(old(board), old(nnue), old(tt), old(thread_data), tables, net),
        window_ok(alpha, beta),
        ply_searched < 255,
        left >= 1,
        all_legal(old(board)@, move_list@, 0),
        no_repeat(move_list@, 0),
        move_list@.len() == nodes(old(board)@, 1),
        move_list@.len() > 0,
    ensures
        searching(final(board), final(nnue), final(tt), final(thread_data), tables, net),
        final(board).same_position(old(board)),
        final(nnue).boards() == old(nnue).boards(),
        score_ok(r),
        table_kept(old(tt), final(tt), ply_searched, old(board)@, r),
        final(thread_data).nodes >= old(thread_data).nodes,
        old(thread_data).stopped ==> final(thread_data).stopped,
        each_tried(
            r,
            old(board),
            old(nnue),
            net,
            ply_searched,
            left,
            alpha,
            beta,
            old(tt),
            final(tt),
            *old(thread_data),
            *final(thread_data),
            tables,
        ),
    decreases 255 - ply_searched, 1int,
{
    let mut lower: i16 = alpha;
    let mut node_type = TTFlag::Upper;
    let mut best_eval: i16 = -INFINITY;
    let mut best_move = move_list.move_at(0);
    let ghost start = *board;
    let ghost mut scores: Seq<i16> = Seq::empty();
    let ghost mut middles: Seq<Transposition> = Seq::empty().push(*tt);
    let ghost mut notes: Seq<ThreadData> = Seq::empty().push(*thread_data);
    let ghost mut best: int = 0;
    let ghost nnue_start = *nnue;
    let side = board.side_to_move();
    let zobrist: u64 = board.zobrist();
    let last_move = board.last_move();
    let mut i: usize = 0;
    while i < move_list.move_count()
        invariant
            i <= move_list@.len(),
            searching(board, nnue, tt, thread_data, tables, net),
            board.same_position(&start),
            start.same_position(old(board)),
            nnue.boards() == nnue_start.boards(),
            nnue_start.boards() == old(nnue).boards(),
            window_ok(lower, beta),
            alpha <= lower,
            score_ok(best_eval),
            ply_searched < 255,
            left >= 1,
            tt.age() == old(tt).age(),
            root_kept(old(tt), tt),
            canonical(best_move) && old(board)@.legal(best_move),
            thread_data.nodes >= old(thread_data).nodes,
            old(thread_data).stopped ==> thread_data.stopped,
            node_type != TTFlag::Lower,
            (node_type == TTFlag::Exact) <==> lower > alpha,
            zobrist == old(board).hash(),
            side == old(board)@.side,
            last_move == answered(old(board)),
            all_legal(old(board)@, move_list@, 0),
            no_repeat(move_list@, 0),
            move_list@.len() == nodes(old(board)@, 1),
            move_list@.len() >= 1,
            scores.len() == i,
            middles.len() == i + 1,
            notes.len() == i + 1,
            middles[i as int] == *tt,
            notes[i as int] == *thread_data,
            middles[0].age() == old(tt).age(),
            notes[0].nodes >= old(thread_data).nodes,
            lower == best_of(alpha, scores, i as int),
            lower >= best_eval,
            0 <= best < move_list@.len(),
            best_move == move_list@[best],
            i > 0 ==> best < i && best_eval == scores[best],
            i == 0 ==> best == 0 && best_eval == -INFINITY,
            forall|k: int| 0 <= k < i ==> #[trigger] scores[k] <= best_eval,
            forall|k: int|
                0 <= k < i ==> (#[trigger] scores[k]) < beta && move_searched(
                    scores[k],
                    old(board),
                    old(nnue),
                    move_list@[k],
                    ply_searched,
                    left,
                    best_of(alpha, scores, k),
                    beta,
                    k >= 3 && left >= 3,
                    &middles[k],
                    &middles[k + 1],
                    notes[k],
                    notes[k + 1],
                    tables,
                    net,
                ),
        decreases move_list@.len() - i,
    {
        let cur_move = move_list.move_at(i);
        proof {
            assert(old(board)@.legal(move_list@[i as int]) && canonical(move_list@[i as int]));
        }
        let ghost board_then = *board;
        let ghost nnue_then = *nnue;
        let ghost table_then = *tt;
        let ghost records_then = *thread_data;
        let eval: i16 = search_move(
            board,
            ply_searched,
            left,
            lower,
            beta,
            late_move(i, left),
            cur_move,
            thread_data,
            tt,
            nnue,
            limits,
            tables,
            net,
        );
        let ghost table_since = *tt;
        let ghost records_since = *thread_data;
        proof {
            lemma_move_searched_same(
                eval,
                &board_then,
                &nnue_then,
                old(board),
                old(nnue),
                cur_move,
                ply_searched,
                left,
                lower,
                beta,
                i >= 3 && left >= 3,
                &table_then,
                &table_since,
                records_then,
                records_since,
                tables,
                net,
            );
        }
        let ghost lower_then = lower;
        let stopped_since: bool = limits.is_hard_stop();
        match after_move(
            stopped_since,
            eval,
            cur_move,
            lower,
            beta,
            left,
            ply_searched,
            zobrist,
            side,
            last_move,
            thread_data,
            tt,
        ) {
            Step::Halt => {
                return 0;
            },
            Step::Cut => {
                return beta;
            },
            Step::Raise => {
                lower = eval;
                node_type = TTFlag::Exact;
                best_move = cur_move;
            },
            Step::Keep => {},
        }
        if eval > best_eval {
            best_eval = eval;
            best_move = cur_move;
            proof {
                best = i as int;
            }
        }
        proof {
            let ghost earlier = scores;
            assert forall|k: int| 0 <= k <= i implies best_of(alpha, earlier.push(eval), k) == best_of(
                alpha,
                earlier,
                k,
            ) by {
                lemma_best_push(alpha, earlier, eval, k);
            }
            scores = scores.push(eval);
            middles = middles.push(*tt);
            notes = notes.push(*thread_data);
            assert(lower == best_of(alpha, scores, i + 1));
            assert forall|k: int| 0 <= k < i + 1 implies (#[trigger] scores[k]) < beta && move_searched(
                scores[k],
                old(board),
                old(nnue),
                move_list@[k],
                ply_searched,
                left,
                best_of(alpha, scores, k),
                beta,
                k >= 3 && left >= 3,
                &middles[k],
                &middles[k + 1],
                notes[k],
                notes[k + 1],
                tables,
                net,
            ) by {
                if k < i {
                    assert(scores[k] == earlier[k]);
                    assert(best_of(alpha, scores, k) == best_of(alpha, earlier, k));
                } else {
                    assert(best_of(alpha, scores, k) == lower_then);
                }
            }
        }
        i += 1;
    }
    let ghost before = *tt;
    tt.update(zobrist, best_move, lower, left, node_type);
    if ply_searched == 0 {
        tt.set_best(best_move, lower);
        assert(best_move.bits() == tt.root_move());
    }
    proof {
        assert(stored(&before, tt, old(board).hash(), best_move, lower, left, node_type));
        assert(lined_up(move_list@, scores, middles, notes, best));
        assert(best_stored(lower, old(board), ply_searched, alpha, tt));
        reveal(went_through);
        assert(went_through(
            lower,
            old(board),
            old(nnue),
            net,
            ply_searched,
            left,
            alpha,
            beta,
            old(tt).age(),
            old(thread_data).nodes,
            tt,
            *thread_data,
            tables,
        ));
    }
    lower
}

/// Makes `cur_move`, goes on with the quiescence search behind it one ply further from the
/// root and one ply less deep, and takes the move back. The score is minus the score of that
/// search. The root of the table is not touched.
fn quiescence_move(
    board: &mut Board,
    ply_searched: u8,
    depth: u8,
    alpha: i16,
    beta: i16,
    cur_move: MovePly,
    thread_data: &mut ThreadData,
    tt: &mut Transposition,
    nnue: &mut NNUE,
    limits: &SearchLimits,
    tables: &Precomputed,
    net: &Network,
) -> (r: i16)
    requires
        searching(old(board), old(nnue), old(tt), old(thread_data), tables, net),
        window_ok(alpha, beta),
        ply_searched < 255,
        depth >= 1,
        old(board)@.legal(cur_move),
    ensures
        searching(final(board), final(nnue), final(tt), final(thread_data), tables, net),
        final(board).same_position(old(board)),
        final(nnue).boards() == old(nnue).boards(),
        score_ok(r),
        final(tt).age() == old(tt).age(),
        root_kept(old(tt), final(tt)),
        final(thread_data).nodes >= old(thread_data).nodes,
        old(thread_data).stopped ==> final(thread_data).stopped,
        limits.hard() == 0 ==> r == 0 && same_table(old(tt), final(tt)) && *final(thread_data) == halted(
            *old(thread_data),
        ),
        one_quiescence(
            r,
            old(board),
            old(nnue),
            cur_move,
            ply_searched,
            (depth - 1) as u8,
            alpha,
            beta,
            old(tt),
            final(tt),
            *old(thread_data),
            *final(thread_data),
            tables,
            net,
        ),
    decreases 255 - ply_searched, 0int,
{
    let ghost before = *board;
    let ghost nnue_before = *nnue;
    proof {
        if cur_move.bits() == 0 {
            cur_move.lemma_zero();
        }
    }
    nnue.make_move(&cur_move, board, net);
    board.make_move(&cur_move, &tables.zobrist);
    let ghost middle = *board;
    let ghost stack = *nnue;
    proof {
        assert(middle.history().drop_last() =~= old(board).history());
        assert(behind(&middle, &stack, old(board), old(nnue), cur_move, tables, net));
    }
    let eval: i16 = -quiescence_search(
        board,
        ply_searched + 1,
        depth - 1,
        -beta,
        -alpha,
        thread_data,
        tt,
        nnue,
        limits,
        tables,
        net,
    );
    let ghost resumed = *board;
    let ghost nnue_resumed = *nnue;
    board.undo_move(&tables.zobrist);
    nnue.undo_move();
    proof {
        Board::lemma_undo_after(&before, &middle, &resumed, board, cur_move);
        NNUE::lemma_undo(&nnue_resumed, nnue, net);
        assert(nnue.boards() =~= nnue_before.boards());
    }
    eval
}

/// The score of the position for the side to move when only captures, promotions and checks
/// are tried, at most `depth` plies deep: the evaluation of the network, unless such a move
/// gives more. The clock is asked, and the node does what `quiescence_node` does for its
/// answer. With a hard stop of 0 milliseconds the score is 0 and nothing changes.
pub fn quiescence_search(
    board: &mut Board,
    ply_searched: u8,
    depth: u8,
    alpha: i16,
    beta: i16,
    thread_data: &mut ThreadData,
    tt: &mut Transposition,
    nnue: &mut NNUE,
    limits: &SearchLimits,
    tables: &Precomputed,
    net: &Network,
) -> (r: i16)
    requires
        searching(old(board), old(nnue), old(tt), old(thread_data), tables, net),
        window_ok(alpha, beta),
    ensures
        searching(final(board), final(nnue), final(tt), final(thread_data), tables, net),
        final(board).same_position(old(board)),
        final(nnue).boards() == old(nnue).boards(),
        quiescence_ok(
            r,
            old(board),
            old(nnue),
            net,
            ply_searched,
            depth,
            alpha,
            beta,
            old(tt),
            final(tt),
            *old(thread_data),
            *final(thread_data),
        ),
        limits.hard() == 0 ==> r == 0 && same_table(old(tt), final(tt)) && *final(thread_data) == halted(
            *old(thread_data),
        ),
        traced_quietly(
            r,
            old(board),
            old(nnue),
            net,
            ply_searched,
            depth,
            alpha,
            beta,
            old(tt),
            final(tt),
            *old(thread_data),
            *final(thread_data),
            tables,
        ),
    decreases 255 - ply_searched, 3int,
{
    let stopped: bool = limits.is_hard_stop();
    quiescence_node(stopped, board, ply_searched, depth, alpha, beta, thread_data, tt, nnue, limits, tables, net)
}

/// A node of the quiescence search, once the clock has been asked: `stopped` says whether
/// the hard stop was reached. A node that was stopped answers 0. Any other counts itself, and
/// answers with what the table settles, with `beta` if the evaluation of the network reaches
/// it, with the larger of `alpha` and the evaluation when no ply is left, with 0 for a draw and
/// with the mate score when the side to move is mated. Else it tries captures, promotions and
/// checks, and its score lies in the window, but for a stop.
pub fn quiescence_node(
    stopped: bool,
    board: &mut Board,
    ply_searched: u8,
    depth: u8,
    alpha: i16,
    beta: i16,
    thread_data: &mut ThreadData,
    tt: &mut Transposition,
    nnue: &mut NNUE,
    limits: &SearchLimits,
    tables: &Precomputed,
    net: &Network,
) -> (r: i16)
    requires
        searching(old(board), old(nnue), old(tt), old(thread_data), tables, net),
        window_ok(alpha, beta),
    ensures
        searching(final(board), final(nnue), final(tt), final(thread_data), tables, net),
        final(board).same_position(old(board)),
        final(nnue).boards() == old(nnue).boards(),
        score_ok(r),
        final(tt).age() == old(tt).age(),
        root_kept(old(tt), final(tt)),
        final(thread_data).nodes >= old(thread_data).nodes,
        old(thread_data).stopped ==> final(thread_data).stopped,
        node_ok(
            stopped,
            r,
            first_answer_quiet(
                old(board),
                old(tt).found(old(board).hash()),
                old(nnue).value(old(board)@.side, net),
                ply_searched,
                depth,
                alpha,
                beta,
            ),
            tried_quietly(
                r,
                old(board),
                old(nnue).value(old(board)@.side, net),
                ply_searched,
                alpha,
                beta,
                old(tt),
                final(tt),
                *old(thread_data),
                *final(thread_data),
            ),
            old(tt),
            final(tt),
            *old(thread_data),
            *final(thread_data),
        ),
        traced_quietly(
            r,
            old(board),
            old(nnue),
            net,
            ply_searched,
            depth,
            alpha,
            beta,
            old(tt),
            final(tt),
            *old(thread_data),
            *final(thread_data),
            tables,
        ),
    decreases 255 - ply_searched, 2int,
{
    if stopped {
        thread_data.stopped = true;
        return 0;
    }
    count_node(thread_data);
    let ghost first = first_answer_quiet(
        old(board),
        old(tt).found(old(board).hash()),
        old(nnue).value(old(board)@.side, net),
        ply_searched,
        depth,
        alpha,
        beta,
    );
    let mut lower: i16 = alpha;
    let tt_entry = tt.probe(board.zobrist());
    if let Some(entry) = tt_entry {
        if let Some(score) = tt_cutoff(&entry, depth, lower, beta, false) {
            return score;
        }
    }
    let eval: i16 = nnue.evaluate(board.side_to_move(), net);
    if eval >= beta {
        return beta;
    }
    if lower < eval {
        lower = eval;
    }
    if depth == 0 || ply_searched == 255 {
        return lower;
    }
    let mut all_move_list = MoveList::default();
    MoveGenerator::<GEN_ALL>::generate(board, &mut all_move_list, tables);
    let match_result = Arbiter::arbitrate(board, &all_move_list);
    proof {
        lemma_mate(board, all_move_list@);
        lemma_verdict(board, all_move_list@);
        lemma_verdict_same(board, old(board));
        assert(first is None <==> match_result != MatchResult::Draw && match_result != MatchResult::Loss);
    }
    match match_result {
        MatchResult::Draw => {
            return 0;
        },
        MatchResult::Loss => {
            return -INFINITY + ply_searched as i16;
        },
        _ => {},
    }
    let mut quiet_move_list = MoveList::default();
    MoveGenerator::<GEN_TACTICS>::generate(board, &mut quiet_move_list, tables);
    let ghost counted = *thread_data;
    let ghost checked = *board;
    let ghost value = old(nnue).value(old(board)@.side, net);
    proof {
        assert(lower == standing_of(alpha, value));
        assert(all_tactics(board@, quiet_move_list@));
        assert(*tt == *old(tt));
        assert(*nnue == *old(nnue));
    }
    let r = try_tactics(board, ply_searched, depth, lower, beta, &quiet_move_list, thread_data, tt, nnue, limits, tables, net);
    proof {
        assert(checked@ == old(board)@ && checked.hash() == old(board).hash());
        if r == beta && cut_off_quietly(&checked, beta, tt) {
            let (played, before) = choose|played: MovePly, before: Transposition|
                canonical(played) && checked@.legal(played) && checked@.tactical(played) && #[trigger] stored(
                    &before,
                    tt,
                    checked.hash(),
                    played,
                    beta,
                    0,
                    TTFlag::Lower,
                );
            assert(stored(&before, tt, old(board).hash(), played, beta, 0, TTFlag::Lower));
        }
        if lower <= r < beta && kept_quietly(r, &checked, lower, tt) && went_through_quietly(
            r,
            &checked,
            old(nnue),
            net,
            ply_searched,
            depth,
            lower,
            beta,
            old(tt),
            tt,
            counted,
            *thread_data,
            tables,
        ) {
            let (played, flag, before) = choose|played: MovePly, flag: TTFlag, before: Transposition|
                flag != TTFlag::Lower && (flag == TTFlag::Exact <==> r > lower) && (flag == TTFlag::Exact
                    ==> canonical(played) && checked@.legal(played)) && (flag != TTFlag::Exact ==> played.bits() == 0)
                    && #[trigger] stored(&before, tt, checked.hash(), played, r, 0, flag);
            assert(stored(&before, tt, old(board).hash(), played, r, 0, flag));
            lemma_went_through_quietly_same(
                r,
                &checked,
                old(board),
                old(nnue),
                old(nnue),
                net,
                ply_searched,
                depth,
                lower,
                beta,
                old(tt),
                tt,
                counted,
                *thread_data,
                tables,
            );
        }
    }
    r
}/// Tries the moves of `move_list`, the legal captures, promotions and checks of the
/// position, one after the other, and stores the best.
fn try_tactics(
    board: &mut Board,
    ply_searched: u8,
    depth: u8,
    standing: i16,
    beta: i16,
    move_list: &MoveList,
    thread_data: &mut ThreadData,
    tt: &mut Transposition,
    nnue: &mut NNUE,
    limits: &SearchLimits,
    tables: &Precomputed,
    net: &Network,
) -> (r: i16)
    requires
        searching(old(board), old(nnue), old(tt), old(thread_data), tables, net),
        window_ok(standing, beta),
        ply_searched < 255,
        depth >= 1,
        all_tactics(old(board)@, move_list@),
    ensures
        searching(final(board), final(nnue), final(tt), final(thread_data), tables, net),
        final(board).same_position(old(board)),
        final(nnue).boards() == old(nnue).boards(),
        score_ok(r),
        final(tt).age() == old(tt).age(),
        root_kept(old(tt), final(tt)),
        final(thread_data).nodes >= old(thread_data).nodes,
        old(thread_data).stopped ==> final(thread_data).stopped,
        each_tried_quietly(
            r,
            old(board),
            old(nnue),
            net,
            ply_searched,
            depth,
            standing,
            beta,
            old(tt),
            final(tt),
            *old(thread_data),
            *final(thread_data),
            tables,
        ),
    decreases 255 - ply_searched, 1int,
{
    let mut lower: i16 = standing;
    let mut node_type = TTFlag::Upper;
    let mut best_move = MovePly::default();
    let ghost mut scores: Seq<i16> = Seq::empty();
    let ghost mut middles: Seq<Transposition> = Seq::empty().push(*tt);
    let ghost mut notes: Seq<ThreadData> = Seq::empty().push(*thread_data);
    let ghost mut best: int = 0;
    let ghost start = *board;
    let ghost nnue_start = *nnue;
    let zobrist: u64 = board.zobrist();
    let mut i: usize = 0;
    while i < move_list.move_count()
        invariant
            i <= move_list@.len(),
            searching(board, nnue, tt, thread_data, tables, net),
            board.same_position(&start),
            start.same_position(old(board)),
            nnue.boards() == nnue_start.boards(),
            nnue_start.boards() == old(nnue).boards(),
            window_ok(lower, beta),
            standing <= lower,
            ply_searched < 255,
            depth >= 1,
            all_tactics(old(board)@, move_list@),
            scores.len() == i,
            middles.len() == i + 1,
            notes.len() == i + 1,
            middles[i as int] == *tt,
            notes[i as int] == *thread_data,
            middles[0] == *old(tt),
            notes[0] == *old(thread_data),
            lower == best_of(standing, scores, i as int),
            lower > standing ==> 0 <= best < i && move_list@[best] == best_move && scores[best] == lower,
            forall|k: int|
                0 <= k < i ==> (#[trigger] scores[k]) < beta && one_quiescence(
                    scores[k],
                    old(board),
                    old(nnue),
                    move_list@[k],
                    ply_searched,
                    (depth - 1) as u8,
                    best_of(standing, scores, k),
                    beta,
                    &middles[k],
                    &middles[k + 1],
                    notes[k],
                    notes[k + 1],
                    tables,
                    net,
                ),
            tt.age() == old(tt).age(),
            root_kept(old(tt), tt),
            thread_data.nodes >= old(thread_data).nodes,
            old(thread_data).stopped ==> thread_data.stopped,
            node_type != TTFlag::Lower,
            (node_type == TTFlag::Exact) <==> lower > standing,
            node_type == TTFlag::Exact ==> canonical(best_move) && old(board)@.legal(best_move),
            node_type != TTFlag::Exact ==> best_move.bits() == 0,
            zobrist == old(board).hash(),
        decreases move_list@.len() - i,
    {
        let cur_move = move_list.move_at(i);
        assert(old(board)@.legal(move_list@[i as int]) && canonical(move_list@[i as int]) && old(board)@.tactical(
            move_list@[i as int],
        ));
        let ghost board_then = *board;
        let ghost nnue_then = *nnue;
        let ghost table_then = *tt;
        let ghost records_then = *thread_data;
        let ghost lower_then = lower;
        let eval: i16 = quiescence_move(
            board,
            ply_searched,
            depth,
            lower,
            beta,
            cur_move,
            thread_data,
            tt,
            nnue,
            limits,
            tables,
            net,
        );
        let ghost table_since = *tt;
        let ghost records_since = *thread_data;
        proof {
            lemma_one_quiescence_same(
                eval,
                &board_then,
                &nnue_then,
                old(board),
                old(nnue),
                cur_move,
                ply_searched,
                (depth - 1) as u8,
                lower,
                beta,
                &table_then,
                &table_since,
                records_then,
                records_since,
                tables,
                net,
            );
        }
        let stopped_since: bool = limits.is_hard_stop();
        match after_tactical_move(stopped_since, eval, cur_move, lower, beta, zobrist, thread_data, tt) {
            Step::Halt => {
                return 0;
            },
            Step::Cut => {
                return beta;
            },
            Step::Raise => {
                best_move = cur_move;
                node_type = TTFlag::Exact;
                lower = eval;
                proof {
                    best = i as int;
                }
            },
            Step::Keep => {},
        }
        proof {
            let ghost earlier = scores;
            assert forall|k: int| 0 <= k <= i implies best_of(standing, earlier.push(eval), k) == best_of(
                standing,
                earlier,
                k,
            ) by {
                lemma_best_push(standing, earlier, eval, k);
            }
            scores = scores.push(eval);
            middles = middles.push(*tt);
            notes = notes.push(*thread_data);
            assert(lower == best_of(standing, scores, i + 1));
            assert forall|k: int| 0 <= k < i + 1 implies (#[trigger] scores[k]) < beta && one_quiescence(
                scores[k],
                old(board),
                old(nnue),
                move_list@[k],
                ply_searched,
                (depth - 1) as u8,
                best_of(standing, scores, k),
                beta,
                &middles[k],
                &middles[k + 1],
                notes[k],
                notes[k + 1],
                tables,
                net,
            ) by {
                if k < i {
                    assert(scores[k] == earlier[k]);
                    assert(best_of(standing, scores, k) == best_of(standing, earlier, k));
                } else {
                    assert(best_of(standing, scores, k) == lower_then);
                }
            }
        }
        i += 1;
    }
    let ghost before = *tt;
    tt.update(zobrist, best_move, lower, 0, node_type);
    proof {
        assert(stored(&before, tt, old(board).hash(), best_move, lower, 0, node_type));
        assert(kept_quietly(lower, old(board), standing, tt));
        assert(scored_quietly(
            old(board),
            old(nnue),
            net,
            ply_searched,
            (depth - 1) as u8,
            standing,
            beta,
            move_list@,
            scores,
            middles,
            notes,
            tables,
        ));
        assert(ended_quietly(
            lower,
            old(board).hash(),
            standing,
            move_list@,
            scores,
            best_move,
            &middles[move_list@.len() as int],
            tt,
        ));
        lemma_went_through_quietly_made(
            lower,
            old(board),
            old(nnue),
            net,
            ply_searched,
            depth,
            standing,
            beta,
            old(tt),
            tt,
            *old(thread_data),
            *thread_data,
            tables,
            move_list@,
            scores,
            middles,
            notes,
            best_move,
        );
    }
    lower
}


/// Each move of `moves` is legal in the position that the moves before it lead to from `pos`.
pub open spec fn legal_line(pos: Position, moves: Seq<MovePly>) -> bool
    decreases moves.len(),
{
    if moves.len() == 0 {
        true
    } else {
        pos.legal(moves[0]) && legal_line(pos.make(moves[0]), moves.drop_first())
    }
}

/// The line of play that the table holds for a position: the move of the entry that a probe
/// for the position finds, if it is legal there, and so on from the position behind it; at
/// most `left` moves.
pub open spec fn table_line(tt: &Transposition, zobrist: &Zobrist, pos: Position, left: nat) -> Seq<MovePly>
    decreases left,
{
    if left == 0 {
        Seq::empty()
    } else {
        match tt.found(zobrist.hash(pos)) {
            Some(entry) => if canonical(entry.cur_move) && pos.legal(entry.cur_move) {
                seq![entry.cur_move] + table_line(tt, zobrist, pos.make(entry.cur_move), (left - 1) as nat)
            } else {
                Seq::empty()
            },
            None => Seq::empty(),
        }
    }
}

/// Each move of the line that the table holds is legal where it is made.
pub proof fn lemma_table_line(tt: &Transposition, zobrist: &Zobrist, pos: Position, left: nat)
    ensures
        table_line(tt, zobrist, pos, left).len() <= left,
        legal_line(pos, table_line(tt, zobrist, pos, left)),
    decreases left,
{
    if left > 0 {
        match tt.found(zobrist.hash(pos)) {
            Some(entry) => {
                if canonical(entry.cur_move) && pos.legal(entry.cur_move) {
                    lemma_table_line(tt, zobrist, pos.make(entry.cur_move), (left - 1) as nat);
                    let rest = table_line(tt, zobrist, pos.make(entry.cur_move), (left - 1) as nat);
                    assert((seq![entry.cur_move] + rest).drop_first() =~= rest);
                }
            },
            None => {},
        }
    }
}

/// Appends to `line` the line of play that the table holds for the position on `board`, at
/// most `left` moves of it.
fn pv_line(board: &mut Board, tt: &Transposition, tables: &Precomputed, left: u8, line: &mut Vec<MovePly>)
    requires
        ready(old(board), tables),
        tt.wf(),
    ensures
        ready(final(board), tables),
        final(board).same_position(old(board)),
        final(line)@ == old(line)@ + table_line(tt, &tables.zobrist, old(board)@, left as nat),
    decreases left,
{
    if left == 0 {
        assert(line@ =~= line@ + Seq::<MovePly>::empty());
        return ;
    }
    if let Some(entry) = tt.probe(board.zobrist()) {
        let best_move = entry.cur_move;
        let mut valid_moves = MoveList::default();
        MoveGenerator::<GEN_ALL>::generate(board, &mut valid_moves, tables);
        if valid_moves.contains_move(best_move) {
            let ghost before = *board;
            proof {
                let k = choose|k: int| 0 <= k < valid_moves@.len() && valid_moves@[k] == best_move;
                assert(before@.legal(valid_moves@[k]) && canonical(valid_moves@[k]));
                if best_move.bits() == 0 {
                    best_move.lemma_zero();
                }
            }
            line.push(best_move);
            let ghost pushed = line@;
            board.make_move(&best_move, &tables.zobrist);
            let ghost middle = *board;
            pv_line(board, tt, tables, left - 1, line);
            let ghost resumed = *board;
            board.undo_move(&tables.zobrist);
            proof {
                Board::lemma_undo_after(&before, &middle, &resumed, board, best_move);
                let rest = table_line(tt, &tables.zobrist, middle@, (left - 1) as nat);
                assert(line@ =~= old(line)@ + (seq![best_move] + rest));
            }
            return ;
        }
    }
    assert(line@ =~= line@ + Seq::<MovePly>::empty());
}

/// The line of play that the table holds for the position on `board`, at most `PV_LENGTH`
/// moves of it. The board is left as it was.
pub fn pv_from_transposition(board: &mut Board, tt: &Transposition, tables: &Precomputed) -> (pv_line: Vec<
    MovePly,
>)
    requires
        ready(old(board), tables),
        tt.wf(),
    ensures
        ready(final(board), tables),
        final(board).same_position(old(board)),
        pv_line@ == table_line(tt, &tables.zobrist, old(board)@, PV_LENGTH as nat),
        pv_line@.len() <= PV_LENGTH,
        legal_line(old(board)@, pv_line@),
{
    let mut line: Vec<MovePly> = Vec::new();
    pv_line(board, tt, tables, PV_LENGTH, &mut line);
    proof {
        let found = table_line(tt, &tables.zobrist, old(board)@, PV_LENGTH as nat);
        assert(line@ =~= found);
        lemma_table_line(tt, &tables.zobrist, old(board)@, PV_LENGTH as nat);
    }
    line
}

/// `root` and `stack` are a board in use and an evaluation stack for the position on `board`
/// with its hash and its history.
pub open spec fn at_root(
    root: &Board,
    stack: &NNUE,
    board: &Board,
    nnue: &NNUE,
    tables: &Precomputed,
    net: &Network,
) -> bool {
    &&& ready(root, tables)
    &&& root.same_position(board)
    &&& stack.wf(net)
    &&& stack.boards() == nnue.boards()
}

/// Table and records are what a search of the root `depth` plies deep has left of a table
/// of the same age and of records with no more nodes: the last search of the root that was
/// made, with what `search_ok` and `traced` say of it. The records may note a stop that the clock told after that search.
pub open spec fn searched_root(
    board: &Board,
    nnue: &NNUE,
    depth: u8,
    table_first: &Transposition,
    table_after: &Transposition,
    records_first: ThreadData,
    records_after: ThreadData,
    tables: &Precomputed,
    net: &Network,
) -> bool {
    exists|
        root: Board,
        stack: NNUE,
        score: i16,
        alpha: i16,
        beta: i16,
        table: Transposition,
        records: ThreadData,
        counted: ThreadData,
    |
        at_root(&root, &stack, board, nnue, tables, net) && window_ok(alpha, beta) && table.age() == table_first.age()
            && records.nodes >= records_first.nodes && #[trigger] search_ok(
            score,
            &root,
            &stack,
            net,
            0,
            depth,
            alpha,
            beta,
            &table,
            table_after,
            records,
            counted,
            tables,
        ) && traced(
            score,
            &root,
            &stack,
            net,
            0,
            depth,
            alpha,
            beta,
            &table,
            table_after,
            bumped(records),
            counted,
            tables,
        ) && (records_after == counted || records_after == halted(counted))
}

/// Searches the root `depth` plies deep: first in the window that `aspiration_start` gives,
/// then, as long as the score falls outside, in the window that `widen` gives. The search
/// ends before its time when the hard stop is reached. The table keeps its age; its root is
/// as it was, or holds a legal move of the position, which a search that finished has put
/// there with its score. Up to depth 4 one search of the root is made, in the window of all
/// scores.
pub fn aspiration_windows(
    board: &mut Board,
    tt: &mut Transposition,
    nnue: &mut NNUE,
    search_limits: &SearchLimits,
    thread_data: &mut ThreadData,
    depth: u8,
    tables: &Precomputed,
    net: &Network,
)
    requires
        searching(old(board), old(nnue), old(tt), old(thread_data), tables, net),
    ensures
        searching(final(board), final(nnue), final(tt), final(thread_data), tables, net),
        final(board).same_position(old(board)),
        final(nnue).boards() == old(nnue).boards(),
        final(tt).age() == old(tt).age(),
        root_kept(old(tt), final(tt)) || published(old(board)@, final(tt), final(tt).root_score()),
        search_limits.hard() == 0 ==> same_table(old(tt), final(tt)) && *final(thread_data) == halted(
            *old(thread_data),
        ),
        final(thread_data).nodes >= old(thread_data).nodes,
        old(thread_data).stopped ==> final(thread_data).stopped,
        searched_root(
            old(board),
            old(nnue),
            depth,
            old(tt),
            final(tt),
            *old(thread_data),
            *final(thread_data),
            tables,
            net,
        ),
        depth < 5 ==> exists|score: i16, counted: ThreadData| #[trigger]
            search_ok(
                score,
                old(board),
                old(nnue),
                net,
                0,
                depth,
                (-INFINITY) as i16,
                INFINITY,
                old(tt),
                final(tt),
                *old(thread_data),
                counted,
                tables,
            ) && (*final(thread_data) == counted || *final(thread_data) == halted(counted)),
{
    let (first_alpha, first_beta) = aspiration_start(depth, tt.best_move_score());
    let mut alpha: i16 = first_alpha;
    let mut beta: i16 = first_beta;
    let mut delta: i16 = 25;
    let ghost mut first: bool = true;
    loop
        invariant
            first ==> *tt == *old(tt) && *thread_data == *old(thread_data) && *board == *old(board) && *nnue == *old(
                nnue,
            ),
            depth < 5 ==> first && alpha == -INFINITY && beta == INFINITY,
            thread_data.nodes >= old(thread_data).nodes,
            old(thread_data).stopped ==> thread_data.stopped,
            searching(board, nnue, tt, thread_data, tables, net),
            board.same_position(old(board)),
            nnue.boards() == old(nnue).boards(),
            window_ok(alpha, beta),
            25 <= delta < 1500,
            delta >= 1000 ==> alpha == -INFINITY && beta == INFINITY,
            tt.age() == old(tt).age(),
            root_kept(old(tt), tt) || published(old(board)@, tt, tt.root_score()),
            search_limits.hard() == 0 ==> same_table(old(tt), tt) && (*thread_data == *old(thread_data)
                || *thread_data == halted(*old(thread_data))),
        decreases 1500 - delta,
    {
        let ghost root = *board;
        let ghost stack = *nnue;
        let ghost table = *tt;
        let ghost records = *thread_data;
        let eval: i16 = search(board, 0, depth, alpha, beta, thread_data, tt, nnue, search_limits, tables, net);
        let ghost counted = *thread_data;
        let ghost table_then = *tt;
        proof {
            assert(at_root(&root, &stack, old(board), old(nnue), tables, net));
            assert(search_ok(eval, &root, &stack, net, 0, depth, alpha, beta, &table, tt, records, counted, tables));
            assert(traced(
                eval,
                &root,
                &stack,
                net,
                0,
                depth,
                alpha,
                beta,
                &table,
                tt,
                bumped(records),
                counted,
                tables,
            ));
            if depth < 5 {
                assert(root == *old(board) && stack == *old(nnue) && table == *old(tt) && records == *old(thread_data));
                assert(search_ok(
                    eval,
                    old(board),
                    old(nnue),
                    net,
                    0,
                    depth,
                    (-INFINITY) as i16,
                    INFINITY,
                    old(tt),
                    &table_then,
                    *old(thread_data),
                    counted,
                    tables,
                ));
            }
            first = false;
        }
        let stopped_since: bool = search_limits.is_hard_stop();
        match next_window(stopped_since, eval, alpha, beta, delta, thread_data) {
            None => {
                proof {
                    assert(*tt == table_then);
                    assert(*thread_data == counted || *thread_data == halted(counted));
                }
                return ;
            },
            Some((next_alpha, next_beta, next_delta)) => {
                alpha = next_alpha;
                beta = next_beta;
                delta = next_delta;
            },
        }
    }
}

/// The reports of the iterations that finished, the first of depth 1 and each one ply deeper
/// than the one before; each names a line of legal moves from `pos` and the length of that
/// line.
pub open spec fn reports_ok(pos: Position, reports: Seq<SearchInfo>) -> bool {
    forall|k: int|
        0 <= k < reports.len() ==> (#[trigger] reports[k]).depth == k + 1 && reports[k].sel_depth
            == reports[k].pv@.len() && legal_line(pos, reports[k].pv@)
}

/// The report `info` is what the table held after a search of the root `depth` plies deep
/// that no stop has cut short: its score is the score of the root of that table, and its line
/// is the line that the table gives from the position.
pub open spec fn reported(
    info: SearchInfo,
    depth: u8,
    board: &Board,
    nnue: &NNUE,
    tables: &Precomputed,
    net: &Network,
) -> bool {
    exists|first: Transposition, table: Transposition, records: ThreadData, noted: ThreadData| #[trigger]
        searched_root(board, nnue, depth, &first, &table, records, noted, tables, net) && !noted.stopped && info.score
            == table.root_score() && info.pv@ == table_line(&table, &tables.zobrist, board@, PV_LENGTH as nat)
}

/// Each report is what the table held after the search of its depth.
pub open spec fn reports_made(
    reports: Seq<SearchInfo>,
    board: &Board,
    nnue: &NNUE,
    tables: &Precomputed,
    net: &Network,
) -> bool {
    forall|k: int| 0 <= k < reports.len() ==> reported(#[trigger] reports[k], (k + 1) as u8, board, nnue, tables, net)
}

/// A search of the root of one board is a search of the root of any board with the same
/// position, hash and history.
pub proof fn lemma_searched_root_same(
    board: &Board,
    nnue: &NNUE,
    other: &Board,
    stack: &NNUE,
    depth: u8,
    table_first: &Transposition,
    table_after: &Transposition,
    records_first: ThreadData,
    records_after: ThreadData,
    tables: &Precomputed,
    net: &Network,
)
    requires
        searched_root(board, nnue, depth, table_first, table_after, records_first, records_after, tables, net),
        board.same_position(other),
        nnue.boards() == stack.boards(),
    ensures
        searched_root(other, stack, depth, table_first, table_after, records_first, records_after, tables, net),
{
    let (root, top, score, alpha, beta, table, records, counted) = choose|
        root: Board,
        top: NNUE,
        score: i16,
        alpha: i16,
        beta: i16,
        table: Transposition,
        records: ThreadData,
        counted: ThreadData,
    |
        at_root(&root, &top, board, nnue, tables, net) && window_ok(alpha, beta) && table.age() == table_first.age()
            && records.nodes >= records_first.nodes && #[trigger] search_ok(
            score,
            &root,
            &top,
            net,
            0,
            depth,
            alpha,
            beta,
            &table,
            table_after,
            records,
            counted,
            tables,
        ) && traced(
            score,
            &root,
            &top,
            net,
            0,
            depth,
            alpha,
            beta,
            &table,
            table_after,
            bumped(records),
            counted,
            tables,
        ) && (records_after == counted || records_after == halted(counted));
    assert(at_root(&root, &top, other, stack, tables, net));
}

/// What follows an iteration of the search.
#[derive(Clone, Copy, PartialEq, Eq, Structural, Debug)]
pub enum Round {
    /// The iteration counts for nothing and the search ends.
    Stop,
    /// The iteration is reported and the search ends.
    ReportAndEnd,
    /// The iteration is reported and the next one begins.
    ReportAndGoOn,
}

/// What follows an iteration `depth` plies deep, by what the clock said after it of the
/// hard stop (`stopped`) and of the soft stop (`soft`) and by whether the records note a stop
/// (`noted`): after a hard stop the iteration counts for nothing; else it is reported, and the
/// next one begins unless the soft stop is reached or the deepest iteration was made.
pub open spec fn round_of(stopped: bool, noted: bool, soft: bool, depth: u8) -> Round {
    if stopped || noted {
        Round::Stop
    } else if soft || depth >= 254 {
        Round::ReportAndEnd
    } else {
        Round::ReportAndGoOn
    }
}

/// What follows an iteration `depth` plies deep, once the clock has been asked after it:
/// `stopped` and `soft` say whether the hard and the soft stop were reached, `noted` whether
/// the records of the search note a stop.
pub fn after_iteration(stopped: bool, noted: bool, soft: bool, depth: u8) -> (r: Round)
    ensures
        r == round_of(stopped, noted, soft, depth),
{
    if stopped || noted {
        Round::Stop
    } else if soft || depth >= 254 {
        Round::ReportAndEnd
    } else {
        Round::ReportAndGoOn
    }
}

/// What one finished iteration of the search has to report.
pub struct SearchInfo {
    pub depth: u8,
    /// The number of moves of the principal variation.
    pub sel_depth: usize,
    /// The score of the root in centipawns.
    pub score: i16,
    pub nodes: u64,
    /// Milliseconds since the search began.
    pub time: u128,
    pub pv: Vec<MovePly>,
}

/// Searches the position on `board` one ply deeper at a time until a stop is reached or
/// the deepest ply is, and gives the best move that the last finished search published, with
/// a report for each iteration that finished: an iteration during which the clock said stop
/// counts for nothing, as `after_iteration` says. Each report holds the score of the root and
/// the line that the table held after the search of its depth. The table is one search older. Its root is as it
/// was, or holds a legal move of the position with its score; the move that is given is the
/// move of the root. With a hard stop of 0 milliseconds no report is made and the root is as it
/// was.
pub fn iterative_deepening(
    board: &mut Board,
    tt: &mut Transposition,
    nnue: &mut NNUE,
    search_limits: &SearchLimits,
    tables: &Precomputed,
    net: &Network,
) -> (r: (MovePly, Vec<SearchInfo>))
    requires
        ready(old(board), tables),
        net.wf(),
        old(nnue).wf(net),
        old(nnue).top() == old(board)@.pieces,
        old(tt).wf(),
    ensures
        ready(final(board), tables),
        final(board).same_position(old(board)),
        final(nnue).wf(net),
        final(nnue).boards() == old(nnue).boards(),
        final(tt).wf(),
        r.0.bits() == final(tt).root_move(),
        reports_ok(old(board)@, r.1@),
        reports_made(r.1@, old(board), old(nnue), tables, net),
        final(tt).age() == if old(tt).age() < u16::MAX {
            (old(tt).age() + 1) as u16
        } else {
            u16::MAX
        },
        root_kept(old(tt), final(tt)) || (published(old(board)@, final(tt), final(tt).root_score()) && canonical(r.0)
            && old(board)@.legal(r.0)),
        search_limits.hard() == 0 ==> r.1@.len() == 0 && root_kept(old(tt), final(tt)) && final(tt).cells() == old(
            tt,
        ).cells(),
{
    let mut thread_data = ThreadData::default();
    let mut reports: Vec<SearchInfo> = Vec::new();
    tt.new_search();
    let mut cur_depth: u8 = 1;
    while cur_depth < 255
        invariant_except_break
            reports@.len() == cur_depth - 1,
        invariant
            1 <= cur_depth <= 255,
            searching(board, nnue, tt, &thread_data, tables, net),
            board.same_position(old(board)),
            nnue.boards() == old(nnue).boards(),
            reports_ok(old(board)@, reports@),
            reports_made(reports@, old(board), old(nnue), tables, net),
            tt.age() == if old(tt).age() < u16::MAX {
                (old(tt).age() + 1) as u16
            } else {
                u16::MAX
            },
            root_kept(old(tt), tt) || published(old(board)@, tt, tt.root_score()),
            search_limits.hard() == 0 ==> reports@.len() == 0 && root_kept(old(tt), tt) && tt.cells() == old(tt).cells(),
        decreases 255 - cur_depth,
    {
        let ghost root = *board;
        let ghost stack = *nnue;
        let ghost first = *tt;
        let ghost records = thread_data;
        aspiration_windows(board, tt, nnue, search_limits, &mut thread_data, cur_depth, tables, net);
        let stopped_since: bool = search_limits.is_hard_stop();
        let soft: bool = search_limits.is_soft_stop();
        let round = after_iteration(stopped_since, thread_data.stopped, soft, cur_depth);
        match round {
            Round::Stop => {
                break ;
            },
            _ => {},
        }
        let ghost table = *tt;
        let ghost noted = thread_data;
        proof {
            lemma_searched_root_same(
                &root,
                &stack,
                old(board),
                old(nnue),
                cur_depth,
                &first,
                &table,
                records,
                noted,
                tables,
                net,
            );
        }
        let pv_line = pv_from_transposition(board, tt, tables);
        let ghost before = reports@;
        let info = SearchInfo {
            depth: cur_depth,
            sel_depth: pv_line.len(),
            score: tt.best_move_score(),
            nodes: thread_data.nodes,
            time: search_limits.ms_elapsed(),
            pv: pv_line,
        };
        proof {
            assert(reported(info, cur_depth, old(board), old(nnue), tables, net));
        }
        reports.push(info);
        assert forall|k: int| 0 <= k < reports@.len() implies (#[trigger] reports@[k]).depth == k + 1
            && reports@[k].sel_depth == reports@[k].pv@.len() && legal_line(old(board)@, reports@[k].pv@) by {
            if k < before.len() {
                assert(reports@[k] == before[k]);
            }
        }
        assert forall|k: int| 0 <= k < reports@.len() implies reported(
            #[trigger] reports@[k],
            (k + 1) as u8,
            old(board),
            old(nnue),
            tables,
            net,
        ) by {
            if k < before.len() {
                assert(reports@[k] == before[k]);
            }
        }
        match round {
            Round::ReportAndEnd => {
                break ;
            },
            _ => {},
        }
        cur_depth += 1;
    }
    let best_move = tt.best_move();
    proof {
        if !root_kept(old(tt), tt) {
            let played = choose|played: MovePly|
                canonical(played) && old(board)@.legal(played) && #[trigger] played.bits() == tt.root_move();
            MovePly::lemma_bits_known(played, best_move);
        }
    }
    (best_move, reports)
}

/// `candidate` if it is a legal move in the position on `board`; else some legal move; `None`
/// if the position has no legal move.
pub fn best_legal(board: &mut Board, tables: &Precomputed, candidate: MovePly) -> (r: Option<MovePly>)
    requires
        ready(old(board), tables),
    ensures
        ready(final(board), tables),
        final(board).same_position(old(board)),
        r matches Some(played) ==> old(board)@.legal(played),
        canonical(candidate) && old(board)@.legal(candidate) ==> r == Some(candidate),
        r.is_none() ==> forall|played: MovePly| canonical(played) ==> !#[trigger] old(board)@.legal(played),
{
    let mut valid_moves = MoveList::default();
    MoveGenerator::<GEN_ALL>::generate(board, &mut valid_moves, tables);
    if valid_moves.contains_move(candidate) {
        proof {
            let k = choose|k: int| 0 <= k < valid_moves@.len() && valid_moves@[k] == candidate;
            assert(old(board)@.legal(valid_moves@[k]));
        }
        return Some(candidate);
    }
    if valid_moves.move_count() > 0 {
        assert(old(board)@.legal(valid_moves@[0]));
        return Some(valid_moves.move_at(0));
    }
    proof {
        assert forall|played: MovePly| canonical(played) implies !#[trigger] old(board)@.legal(played) by {
            if old(board)@.legal(played) {
                assert(valid_moves@.contains(played));
            }
        }
    }
    None
}

/// The outcome of a search: the move to play, if there is a legal one, and the reports of
/// the iterations.
pub struct SearchReport {
    pub best_move: Option<MovePly>,
    pub reports: Vec<SearchInfo>,
}

/// Searches the position on `board` within `search_limits` and gives a legal move to play.
/// The board is left as it was. One search runs, whatever `num_threads` is.
pub fn search_start(
    num_threads: usize,
    board: &mut Board,
    tt: &mut Transposition,
    search_limits: &SearchLimits,
    tables: &Precomputed,
    net: &Network,
) -> (r: SearchReport)
    requires
        ready(old(board), tables),
        net.wf(),
        old(tt).wf(),
    ensures
        ready(final(board), tables),
        final(board).same_position(old(board)),
        final(tt).wf(),
        r.best_move matches Some(played) ==> old(board)@.legal(played),
        r.best_move.is_none() ==> forall|played: MovePly| canonical(played) ==> !#[trigger] old(board)@.legal(played),
        reports_ok(old(board)@, r.reports@),
        exists|stack: NNUE|
            stack.wf(net) && stack.boards() == seq![old(board)@.pieces] && #[trigger] reports_made(
                r.reports@,
                old(board),
                &stack,
                tables,
                net,
            ),
        final(tt).age() == if old(tt).age() < u16::MAX {
            (old(tt).age() + 1) as u16
        } else {
            u16::MAX
        },
        root_kept(old(tt), final(tt)) || (published(old(board)@, final(tt), final(tt).root_score())
            && r.best_move.is_some() && r.best_move.unwrap().bits() == final(tt).root_move()),
        search_limits.hard() == 0 ==> r.reports@.len() == 0 && root_kept(old(tt), final(tt)) && final(tt).cells()
            == old(tt).cells(),
{
    let mut nnue = NNUE::default();
    nnue.new(board, net);
    let ghost stack = nnue;
    proof {
        assert(stack.wf(net) && stack.boards() == seq![old(board)@.pieces]);
    }
    let (best_move, reports) = iterative_deepening(board, tt, &mut nnue, search_limits, tables, net);
    let ghost made = reports@;
    proof {
        assert(reports_made(made, old(board), &stack, tables, net));
    }
    let best_move = best_legal(board, tables, best_move);
    let report = SearchReport { best_move, reports };
    proof {
        assert(report.reports@ == made);
        assert(reports_made(report.reports@, old(board), &stack, tables, net));
    }
    report
}

} // verus!
