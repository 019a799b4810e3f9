//! Counting the positions that legal moves lead to.

use vstd::prelude::*;
use crate::chess::board::Board;
use crate::chess::legality::canonical;
use crate::chess::move_generator::{all_legal, no_repeat, ready, taken_below, MoveGenerator, GEN_ALL};
use crate::chess::move_list::MoveList;
use crate::chess::move_ply::MovePly;
use crate::chess::position::Position;
use crate::precomputed::accessor::Precomputed;

verus! {

/// The number of ways to make `depth` legal moves in a row from `pos`.
pub open spec fn nodes(pos: Position, depth: nat) -> nat
    decreases depth, 65537nat,
{
    if depth == 0 {
        1
    } else {
        nodes_below(pos, depth, 65536)
    }
}

/// The number of ways to make `depth` legal moves in a row from `pos`, the first of them with
/// bits below `n`.
pub open spec fn nodes_below(pos: Position, depth: nat, n: nat) -> nat
    decreases depth, n,
{
    if depth == 0 || n == 0 || n > 65536 {
        0
    } else {
        nodes_below(pos, depth, (n - 1) as nat) + nodes_after(pos, depth, MovePly::of_bits((n - 1) as u16))
    }
}

/// The number of ways to make `depth` legal moves in a row from `pos`, the first of them
/// `played`: none unless `played` is legal and its flag bits name a flag.
pub open spec fn nodes_after(pos: Position, depth: nat, played: MovePly) -> nat
    decreases depth, 0nat,
{
    if depth > 0 && canonical(played) && pos.legal(played) {
        nodes(pos.make(played), (depth - 1) as nat)
    } else {
        0
    }
}

/// A count as the machine holds it: the largest number of its type stands for all above it.
pub open spec fn counted(n: nat) -> u64 {
    if n <= u64::MAX {
        n as u64
    } else {
        u64::MAX
    }
}

/// The sum of `nodes_after` over those of the first `k` moves of `list` whose bits are below `n`.
pub open spec fn listed(pos: Position, depth: nat, list: Seq<MovePly>, k: nat, n: nat) -> nat
    decreases k,
{
    if k == 0 || k > list.len() {
        0
    } else {
        listed(pos, depth, list, (k - 1) as nat, n) + if list[k - 1].bits() < n {
            nodes_after(pos, depth, list[k - 1])
        } else {
            0
        }
    }
}

proof fn lemma_listed_none(pos: Position, depth: nat, list: Seq<MovePly>, k: nat)
    requires
        k <= list.len(),
    ensures
        listed(pos, depth, list, k, 0) == 0,
    decreases k,
{
    if k > 0 {
        lemma_listed_none(pos, depth, list, (k - 1) as nat);
    }
}

proof fn lemma_listed_step(pos: Position, depth: nat, list: Seq<MovePly>, k: nat, n: nat)
    requires
        k <= list.len(),
        n < 65536,
        no_repeat(list, 0),
    ensures
        listed(pos, depth, list, k, n + 1) == listed(pos, depth, list, k, n) + if taken_below(
            list,
            k as int,
            MovePly::of_bits(n as u16),
        ) {
            nodes_after(pos, depth, MovePly::of_bits(n as u16))
        } else {
            0
        },
    decreases k,
{
    let wanted = MovePly::of_bits(n as u16);
    MovePly::lemma_of_bits(n as u16);
    if k > 0 {
        lemma_listed_step(pos, depth, list, (k - 1) as nat, n);
        let last = list[k - 1];
        if last.bits() == n {
            MovePly::lemma_bits_known(last, wanted);
            assert(taken_below(list, k as int, wanted));
            if taken_below(list, k - 1, wanted) {
                let at = choose|at: int| 0 <= at < k - 1 && #[trigger] list[at] == wanted;
                assert(list[at] != list[k - 1]);
            }
        } else {
            if taken_below(list, k as int, wanted) {
                let at = choose|at: int| 0 <= at < k && #[trigger] list[at] == wanted;
                assert(at != k - 1);
                assert(taken_below(list, k - 1, wanted));
            }
            if taken_below(list, k - 1, wanted) {
                let at = choose|at: int| 0 <= at < k - 1 && #[trigger] list[at] == wanted;
                assert(taken_below(list, k as int, wanted));
            }
        }
    }
}

/// Over a list that holds each legal move once and nothing else, the sum is the count.
pub proof fn lemma_listed_all(pos: Position, depth: nat, list: Seq<MovePly>, n: nat)
    requires
        depth > 0,
        n <= 65536,
        no_repeat(list, 0),
        all_legal(pos, list, 0),
        forall|played: MovePly| canonical(played) && pos.legal(played) ==> #[trigger] list.contains(played),
    ensures
        listed(pos, depth, list, list.len(), n) == nodes_below(pos, depth, n),
    decreases n,
{
    if n == 0 {
        lemma_listed_none(pos, depth, list, list.len());
    } else {
        let m = (n - 1) as nat;
        let wanted = MovePly::of_bits(m as u16);
        lemma_listed_all(pos, depth, list, m);
        lemma_listed_step(pos, depth, list, list.len(), m);
        if !taken_below(list, list.len() as int, wanted) {
            if canonical(wanted) && pos.legal(wanted) {
                assert(list.contains(wanted));
                let at = choose|at: int| 0 <= at < list.len() && list[at] == wanted;
                assert(list[at] == wanted);
            }
            assert(nodes_after(pos, depth, wanted) == 0);
        }
        assert(m + 1 == n);
        assert(nodes_below(pos, depth, n) == nodes_below(pos, depth, m) + nodes_after(pos, depth, wanted));
    }
}

/// With one move to make, each legal move counts once.
pub proof fn lemma_listed_one(pos: Position, list: Seq<MovePly>, k: nat)
    requires
        k <= list.len(),
        all_legal(pos, list, 0),
    ensures
        listed(pos, 1, list, k, 65536) == k,
    decreases k,
{
    if k > 0 {
        lemma_listed_one(pos, list, (k - 1) as nat);
        assert(pos.legal(list[k - 1]) && canonical(list[k - 1]));
        assert(nodes(pos.make(list[k - 1]), 0) == 1);
    }
}

/// A list that holds each legal move of a position once and nothing else is as long as the
/// position has legal moves.
pub proof fn lemma_moves_counted(pos: Position, list: Seq<MovePly>)
    requires
        no_repeat(list, 0),
        all_legal(pos, list, 0),
        forall|played: MovePly| canonical(played) && pos.legal(played) ==> #[trigger] list.contains(played),
    ensures
        list.len() == nodes(pos, 1),
{
    lemma_listed_all(pos, 1, list, 65536);
    lemma_listed_one(pos, list, list.len());
}

/// The sum of two counts; the largest count if the sum is larger.
fn add_counts(a: u64, b: u64) -> (r: u64)
    ensures
        r == if a + b <= u64::MAX {
            (a + b) as u64
        } else {
            u64::MAX
        },
{
    match a.checked_add(b) {
        Some(sum) => sum,
        None => u64::MAX,
    }
}

/// The number of ways to make `depth` legal moves in a row from the position on `board`,
/// which is left as it was. With depth 0 this is 1. A count that the result's type cannot
/// hold is given as the largest number of that type.
pub fn perft(board: &mut Board, depth: u8, tables: &Precomputed) -> (num_nodes: u64)
    requires
        ready(old(board), tables),
    ensures
        ready(final(board), tables),
        final(board)@ == old(board)@,
        final(board).hash() == old(board).hash(),
        final(board).history() == old(board).history(),
        final(board).past() == old(board).past(),
        num_nodes == counted(nodes(old(board)@, depth as nat)),
    decreases depth,
{
    if depth == 0 {
        return 1;
    }
    let mut move_list = MoveList::default();
    MoveGenerator::<GEN_ALL>::generate(board, &mut move_list, tables);
    proof {
        lemma_listed_all(board@, depth as nat, move_list@, 65536);
    }
    if depth == 1 {
        proof {
            lemma_listed_one(board@, move_list@, move_list@.len());
        }
        return move_list.move_count() as u64;
    }
    let ghost start = *board;
    let mut num_nodes: u64 = 0;
    let mut i: usize = 0;
    while i < move_list.move_count()
        invariant
            i <= move_list@.len(),
            ready(board, tables),
            board.same_position(&start),
            all_legal(start@, move_list@, 0),
            depth > 1,
            num_nodes == counted(listed(start@, depth as nat, move_list@, i as nat, 65536)),
        decreases move_list@.len() - i,
    {
        let cur_move = move_list.move_at(i);
        assert(start@.legal(move_list@[i as int]) && canonical(move_list@[i as int]));
        let ghost before = *board;
        proof {
            if cur_move.bits() == 0 {
                cur_move.lemma_zero();
            }
        }
        board.make_move(&cur_move, &tables.zobrist);
        let ghost middle = *board;
        let below: u64 = perft(board, depth - 1, tables);
        let ghost resumed = *board;
        board.undo_move(&tables.zobrist);
        proof {
            Board::lemma_undo_after(&before, &middle, &resumed, board, cur_move);
            assert(listed(start@, depth as nat, move_list@, (i + 1) as nat, 65536) == listed(
                start@,
                depth as nat,
                move_list@,
                i as nat,
                65536,
            ) + nodes_after(start@, depth as nat, cur_move));
        }
        num_nodes = add_counts(num_nodes, below);
        i += 1;
    }
    num_nodes
}

/// For each legal move of the position on `board`, once, the move and the number of ways to
/// go on with `depth - 1` legal moves. The board is left as it was.
pub fn perft_divide(board: &mut Board, depth: u8, tables: &Precomputed) -> (r: Vec<(MovePly, u64)>)
    requires
        ready(old(board), tables),
        depth >= 1,
    ensures
        ready(final(board), tables),
        final(board)@ == old(board)@,
        final(board).hash() == old(board).hash(),
        final(board).history() == old(board).history(),
        final(board).past() == old(board).past(),
        forall|k: int|
            0 <= k < r@.len() ==> canonical((#[trigger] r@[k]).0) && old(board)@.legal(r@[k].0) && r@[k].1 == counted(
                nodes(old(board)@.make(r@[k].0), (depth - 1) as nat),
            ),
        forall|played: MovePly|
            canonical(played) && old(board)@.legal(played) ==> exists|k: int|
                0 <= k < r@.len() && (#[trigger] r@[k]).0 == played,
        forall|i: int, j: int| 0 <= i < j < r@.len() ==> (#[trigger] r@[i]).0 != (#[trigger] r@[j]).0,
{
    let mut move_list = MoveList::default();
    MoveGenerator::<GEN_ALL>::generate(board, &mut move_list, tables);
    let ghost start = *board;
    let mut r: Vec<(MovePly, u64)> = Vec::new();
    let mut i: usize = 0;
    while i < move_list.move_count()
        invariant
            i <= move_list@.len(),
            ready(board, tables),
            board.same_position(&start),
            all_legal(start@, move_list@, 0),
            r@.len() == i,
            forall|k: int|
                0 <= k < r@.len() ==> (#[trigger] r@[k]).0 == move_list@[k] && r@[k].1 == counted(
                    nodes(start@.make(r@[k].0), (depth - 1) as nat),
                ),
            depth >= 1,
        decreases move_list@.len() - i,
    {
        let cur_move = move_list.move_at(i);
        assert(start@.legal(move_list@[i as int]) && canonical(move_list@[i as int]));
        let ghost before = *board;
        proof {
            if cur_move.bits() == 0 {
                cur_move.lemma_zero();
            }
        }
        board.make_move(&cur_move, &tables.zobrist);
        let ghost middle = *board;
        let below: u64 = perft(board, depth - 1, tables);
        let ghost resumed = *board;
        board.undo_move(&tables.zobrist);
        proof {
            Board::lemma_undo_after(&before, &middle, &resumed, board, cur_move);
        }
        let ghost old_r = r@;
        r.push((cur_move, below));
        assert forall|k: int| 0 <= k < r@.len() implies (#[trigger] r@[k]).0 == move_list@[k] && r@[k].1 == counted(
            nodes(start@.make(r@[k].0), (depth - 1) as nat),
        ) by {
            if k < old_r.len() {
                assert(r@[k] == old_r[k]);
            }
        }
        i += 1;
    }
    proof {
        assert forall|played: MovePly| canonical(played) && start@.legal(played) implies exists|k: int|
            0 <= k < r@.len() && (#[trigger] r@[k]).0 == played by {
            assert(move_list@.contains(played));
            let at = choose|at: int| 0 <= at < move_list@.len() && move_list@[at] == played;
            assert(r@[at].0 == played);
        }
        assert forall|i: int, j: int| 0 <= i < j < r@.len() implies (#[trigger] r@[i]).0 != (#[trigger] r@[j]).0 by {
            assert(move_list@[i] != move_list@[j]);
        }
    }
    r
}

} // verus!
