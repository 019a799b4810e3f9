//! The moves of a position, in the order in which they were found.
//!
//! A list is made with room for 256 moves. No position of a game has that
//! many legal moves, which is a fact about chess that nothing here proves;
//! should a position that was set up have more, the list grows. So no move
//! is ever left out for want of room, and the length of a list is a matter
//! of the position alone.

use vstd::prelude::*;
use crate::chess::move_ply::MovePly;
use crate::chess::types::move_flag::MoveFlag;
use crate::chess::types::square::Square;
use crate::general::bits;
use crate::general::bits::{lemma_count_skip, member};

verus! {

/// The room that a list of moves is made with.
pub const LIST_ROOM: usize = 256;

pub struct MoveList {
    moves: Vec<MovePly>,
}

impl View for MoveList {
    type V = Seq<MovePly>;

    closed spec fn view(&self) -> Seq<MovePly> {
        self.moves@
    }
}

/// The moves from `from` with `flag` to each square of `mask` below `n`, lowest square first.
pub open spec fn moves_below(mask: u64, from: int, flag: MoveFlag, n: int) -> Seq<MovePly>
    decreases n,
{
    if n <= 0 {
        Seq::empty()
    } else if member(mask, n - 1) {
        moves_below(mask, from, flag, n - 1).push(MovePly::of(from, n - 1, flag))
    } else {
        moves_below(mask, from, flag, n - 1)
    }
}

/// The four promotions from `from` to each square of `mask` below `n`, lowest square first,
/// and for each square to knight, bishop, rook and queen in this order.
pub open spec fn promotions_below(mask: u64, from: int, n: int) -> Seq<MovePly>
    decreases n,
{
    if n <= 0 {
        Seq::empty()
    } else if member(mask, n - 1) {
        promotions_below(mask, from, n - 1).push(MovePly::of(from, n - 1, MoveFlag::PromoteToKnight)).push(
            MovePly::of(from, n - 1, MoveFlag::PromoteToBishop),
        ).push(MovePly::of(from, n - 1, MoveFlag::PromoteToRook)).push(
            MovePly::of(from, n - 1, MoveFlag::PromoteToQueen),
        )
    } else {
        promotions_below(mask, from, n - 1)
    }
}

pub proof fn lemma_moves_skip(mask: u64, from: int, flag: MoveFlag, lo: int, hi: int)
    requires
        0 <= lo <= hi,
        forall|i: int| lo <= i < hi ==> !member(mask, i),
    ensures
        moves_below(mask, from, flag, hi) == moves_below(mask, from, flag, lo),
    decreases hi - lo,
{
    if lo < hi {
        lemma_moves_skip(mask, from, flag, lo, hi - 1);
    }
}

pub proof fn lemma_promotions_skip(mask: u64, from: int, lo: int, hi: int)
    requires
        0 <= lo <= hi,
        forall|i: int| lo <= i < hi ==> !member(mask, i),
    ensures
        promotions_below(mask, from, hi) == promotions_below(mask, from, lo),
    decreases hi - lo,
{
    if lo < hi {
        lemma_promotions_skip(mask, from, lo, hi - 1);
    }
}

/// Each square of `mask` below `n` has its move among the moves.
pub proof fn lemma_moves_has(mask: u64, from: int, flag: MoveFlag, n: int, t: int)
    requires
        0 <= t < n <= 64,
        member(mask, t),
    ensures
        moves_below(mask, from, flag, n).contains(MovePly::of(from, t, flag)),
    decreases n,
{
    let all = moves_below(mask, from, flag, n);
    if t == n - 1 {
        assert(all[all.len() - 1] == MovePly::of(from, t, flag));
    } else {
        lemma_moves_has(mask, from, flag, n - 1, t);
        let fewer = moves_below(mask, from, flag, n - 1);
        let i = choose|i: int| 0 <= i < fewer.len() && fewer[i] == MovePly::of(from, t, flag);
        assert(all[i] == MovePly::of(from, t, flag));
    }
}

/// Each square of `mask` below `n` has its four promotions among the promotions.
pub proof fn lemma_promotions_has(mask: u64, from: int, n: int, t: int)
    requires
        0 <= t < n <= 64,
        member(mask, t),
    ensures
        promotions_below(mask, from, n).contains(MovePly::of(from, t, MoveFlag::PromoteToKnight)),
        promotions_below(mask, from, n).contains(MovePly::of(from, t, MoveFlag::PromoteToBishop)),
        promotions_below(mask, from, n).contains(MovePly::of(from, t, MoveFlag::PromoteToRook)),
        promotions_below(mask, from, n).contains(MovePly::of(from, t, MoveFlag::PromoteToQueen)),
    decreases n,
{
    let all = promotions_below(mask, from, n);
    if t == n - 1 {
        assert(all[all.len() - 4] == MovePly::of(from, t, MoveFlag::PromoteToKnight));
        assert(all[all.len() - 3] == MovePly::of(from, t, MoveFlag::PromoteToBishop));
        assert(all[all.len() - 2] == MovePly::of(from, t, MoveFlag::PromoteToRook));
        assert(all[all.len() - 1] == MovePly::of(from, t, MoveFlag::PromoteToQueen));
    } else {
        lemma_promotions_has(mask, from, n - 1, t);
        let fewer = promotions_below(mask, from, n - 1);
        let a = choose|i: int| 0 <= i < fewer.len() && fewer[i] == MovePly::of(from, t, MoveFlag::PromoteToKnight);
        let b = choose|i: int| 0 <= i < fewer.len() && fewer[i] == MovePly::of(from, t, MoveFlag::PromoteToBishop);
        let c = choose|i: int| 0 <= i < fewer.len() && fewer[i] == MovePly::of(from, t, MoveFlag::PromoteToRook);
        let d = choose|i: int| 0 <= i < fewer.len() && fewer[i] == MovePly::of(from, t, MoveFlag::PromoteToQueen);
        assert(all[a] == fewer[a] && all[b] == fewer[b] && all[c] == fewer[c] && all[d] == fewer[d]);
    }
}

/// The moves to the squares of a set go to ever higher squares, so that no two are the same.
pub proof fn lemma_moves_rise(mask: u64, from: int, flag: MoveFlag, n: int)
    requires
        0 <= from < 64,
        0 <= n <= 64,
    ensures
        forall|i: int, j: int|
            0 <= i < j < moves_below(mask, from, flag, n).len() ==> (#[trigger] moves_below(mask, from, flag, n)[i]).to_idx()
                < (#[trigger] moves_below(mask, from, flag, n)[j]).to_idx(),
    decreases n,
{
    if n > 0 {
        lemma_moves_rise(mask, from, flag, n - 1);
        lemma_moves_below(mask, from, flag, n - 1);
        MovePly::lemma_of(from, n - 1, flag);
    }
}

/// No two of the promotions to the squares of a set are the same.
pub proof fn lemma_promotions_differ(mask: u64, from: int, n: int)
    requires
        0 <= from < 64,
        0 <= n <= 64,
    ensures
        forall|i: int, j: int|
            0 <= i < j < promotions_below(mask, from, n).len() ==> (#[trigger] promotions_below(mask, from, n)[i]).to_idx()
                < (#[trigger] promotions_below(mask, from, n)[j]).to_idx() || (promotions_below(
                mask,
                from,
                n,
            )[i].to_idx() == promotions_below(mask, from, n)[j].to_idx() && promotions_below(mask, from, n)[i].flag_idx()
                < promotions_below(mask, from, n)[j].flag_idx()),
    decreases n,
{
    if n > 0 {
        lemma_promotions_differ(mask, from, n - 1);
        lemma_promotions_below(mask, from, n - 1);
        MovePly::lemma_of(from, n - 1, MoveFlag::PromoteToKnight);
        MovePly::lemma_of(from, n - 1, MoveFlag::PromoteToBishop);
        MovePly::lemma_of(from, n - 1, MoveFlag::PromoteToRook);
        MovePly::lemma_of(from, n - 1, MoveFlag::PromoteToQueen);
    }
}

/// What is in the second part of a list is in the list.
pub proof fn lemma_contains_tail(first: Seq<MovePly>, second: Seq<MovePly>, played: MovePly)
    requires
        second.contains(played),
    ensures
        (first + second).contains(played),
{
    let i = choose|i: int| 0 <= i < second.len() && second[i] == played;
    assert((first + second)[first.len() + i] == played);
}

/// Each of the moves leaves `from` with `flag` for a square of `mask`.
pub proof fn lemma_moves_below(mask: u64, from: int, flag: MoveFlag, n: int)
    requires
        0 <= from < 64,
        0 <= n <= 64,
    ensures
        forall|i: int|
            0 <= i < moves_below(mask, from, flag, n).len() ==> {
                let m = #[trigger] moves_below(mask, from, flag, n)[i];
                &&& m.from_idx() == from
                &&& member(mask, m.to_idx())
                &&& m.to_idx() < n
                &&& m.spec_flag() == flag
                &&& m.flag_idx() == flag.idx()
            },
    decreases n,
{
    if n > 0 {
        lemma_moves_below(mask, from, flag, n - 1);
        MovePly::lemma_of(from, n - 1, flag);
    }
}

/// Each of the promotions leaves `from` for a square of `mask` and promotes.
pub proof fn lemma_promotions_below(mask: u64, from: int, n: int)
    requires
        0 <= from < 64,
        0 <= n <= 64,
    ensures
        forall|i: int|
            0 <= i < promotions_below(mask, from, n).len() ==> {
                let m = #[trigger] promotions_below(mask, from, n)[i];
                &&& m.from_idx() == from
                &&& member(mask, m.to_idx())
                &&& m.to_idx() < n
                &&& m.spec_flag().promotion()
                &&& m.flag_idx() == m.spec_flag().idx()
            },
    decreases n,
{
    if n > 0 {
        lemma_promotions_below(mask, from, n - 1);
        MovePly::lemma_of(from, n - 1, MoveFlag::PromoteToKnight);
        MovePly::lemma_of(from, n - 1, MoveFlag::PromoteToBishop);
        MovePly::lemma_of(from, n - 1, MoveFlag::PromoteToRook);
        MovePly::lemma_of(from, n - 1, MoveFlag::PromoteToQueen);
    }
}

/// `perm` says where each move of the ordered list `after` stood in `before`: the keys of the
/// moves fall along `after`, and moves with the same key keep the order that they had.
pub open spec fn is_ordering(perm: Seq<int>, before: Seq<MovePly>, keys: Seq<i32>, after: Seq<MovePly>) -> bool {
    &&& perm.len() == before.len()
    &&& after.len() == before.len()
    &&& forall|i: int| 0 <= i < perm.len() ==> 0 <= #[trigger] perm[i] < perm.len()
    &&& forall|i: int, j: int| 0 <= i < j < perm.len() ==> #[trigger] perm[i] != #[trigger] perm[j]
    &&& forall|i: int| 0 <= i < perm.len() ==> #[trigger] after[i] == before[perm[i]]
    &&& forall|i: int, j: int|
        0 <= i < j < perm.len() ==> comes_before(keys, #[trigger] perm[i], #[trigger] perm[j])
}

/// Whether the move that stood at `a` belongs before the one that stood at `b`: its key is
/// larger, or the same and it stood first.
pub open spec fn comes_before(keys: Seq<i32>, a: int, b: int) -> bool {
    keys[a] > keys[b] || (keys[a] == keys[b] && a < b)
}

impl MoveList {
    /// Orders the moves by their keys, the largest key first; `move_values` holds the key of
    /// each move. Moves with the same key keep their order.
    pub fn order_moves(&mut self, move_values: &Vec<i32>)
        requires
            move_values@.len() == old(self)@.len(),
        ensures
            exists|perm: Seq<int>| is_ordering(perm, old(self)@, move_values@, final(self)@),
    {
        let n: usize = self.moves.len();
        let ghost keys0 = move_values@;
        let ghost moves0 = self@;
        let mut keys: Vec<i32> = Vec::new();
        let mut c: usize = 0;
        while c < n
            invariant
                c <= n,
                n == move_values@.len(),
                keys@.len() == c,
                forall|k: int| 0 <= k < c ==> keys@[k] == move_values@[k],
            decreases n - c,
        {
            keys.push(move_values[c]);
            c += 1;
        }
        let ghost mut perm: Seq<int> = Seq::new(n as nat, |k: int| k);
        let mut i: usize = 0;
        while i < n
            invariant
                i <= n,
                n == self.moves.len(),
                keys@.len() == n,
                perm.len() == n,
                moves0.len() == n,
                keys0.len() == n,
                forall|k: int| 0 <= k < n ==> 0 <= #[trigger] perm[k] < n,
                forall|a: int, b: int| 0 <= a < b < n ==> #[trigger] perm[a] != #[trigger] perm[b],
                forall|k: int| 0 <= k < n ==> #[trigger] self@[k] == moves0[perm[k]],
                forall|k: int| 0 <= k < n ==> #[trigger] keys@[k] == keys0[perm[k]],
                forall|k: int| i <= k < n ==> #[trigger] perm[k] == k,
                forall|k: int| 0 <= k < i ==> #[trigger] perm[k] < i,
                forall|a: int, b: int| 0 <= a < b < i ==> comes_before(keys0, #[trigger] perm[a], #[trigger] perm[b]),
            decreases n - i,
        {
            let mut j: usize = i;
            while j > 0 && keys[j - 1] < keys[j]
                invariant
                    j <= i < n,
                    n == self.moves.len(),
                    keys@.len() == n,
                    perm.len() == n,
                    moves0.len() == n,
                    keys0.len() == n,
                    forall|k: int| 0 <= k < n ==> 0 <= #[trigger] perm[k] < n,
                    forall|a: int, b: int| 0 <= a < b < n ==> #[trigger] perm[a] != #[trigger] perm[b],
                    forall|k: int| 0 <= k < n ==> #[trigger] self@[k] == moves0[perm[k]],
                    forall|k: int| 0 <= k < n ==> #[trigger] keys@[k] == keys0[perm[k]],
                    forall|k: int| i < k < n ==> #[trigger] perm[k] == k,
                    perm[j as int] == i,
                    forall|k: int| 0 <= k <= i && k != j ==> #[trigger] perm[k] < i,
                    forall|a: int, b: int|
                        0 <= a < b <= i && a != j && b != j ==> comes_before(
                            keys0,
                            #[trigger] perm[a],
                            #[trigger] perm[b],
                        ),
                    forall|b: int| j < b <= i ==> keys0[i as int] > keys0[#[trigger] perm[b]],
                decreases j,
            {
                let ghost moves_before = self@;
                let key: i32 = keys[j];
                let played = self.moves[j];
                let other_key: i32 = keys[j - 1];
                let other = self.moves[j - 1];
                keys[j] = other_key;
                keys[j - 1] = key;
                self.moves[j] = other;
                self.moves[j - 1] = played;
                proof {
                    let before = perm;
                    perm = perm.update(j as int, before[j - 1]).update(j - 1, before[j as int]);
                    assert(self@ =~= moves_before.update(j as int, other).update(j - 1, played));
                    assert forall|k: int| 0 <= k < n implies #[trigger] self@[k] == moves0[perm[k]] by {
                        assert(moves_before[k] == moves0[before[k]]);
                        assert(moves_before[j - 1] == moves0[before[j - 1]]);
                        assert(moves_before[j as int] == moves0[before[j as int]]);
                    }
                    assert forall|a: int, b: int| 0 <= a < b < n implies #[trigger] perm[a] != #[trigger] perm[b] by {
                        let a0 = if a == j {
                            j - 1
                        } else if a == j - 1 {
                            j as int
                        } else {
                            a
                        };
                        let b0 = if b == j {
                            j - 1
                        } else if b == j - 1 {
                            j as int
                        } else {
                            b
                        };
                        assert(perm[a] == before[a0] && perm[b] == before[b0]);
                        if a0 < b0 {
                            assert(before[a0] != before[b0]);
                        } else {
                            assert(before[b0] != before[a0]);
                        }
                    }
                    assert forall|a: int, b: int| 0 <= a < b <= i && a != j - 1 && b != j - 1 implies comes_before(
                        keys0,
                        #[trigger] perm[a],
                        #[trigger] perm[b],
                    ) by {
                        if a == j {
                            assert(perm[a] == before[j - 1]);
                            assert(comes_before(keys0, before[j - 1], before[b]));
                        } else if b == j {
                            assert(perm[b] == before[j - 1]);
                            assert(comes_before(keys0, before[a], before[j - 1]));
                        } else {
                            assert(comes_before(keys0, before[a], before[b]));
                        }
                    }
                    assert forall|b: int| j - 1 < b <= i implies keys0[i as int] > keys0[#[trigger] perm[b]] by {
                        if b > j {
                            assert(perm[b] == before[b]);
                        }
                    }
                }
                j -= 1;
            }
            proof {
                assert forall|a: int, b: int| 0 <= a < b < i + 1 implies comes_before(
                    keys0,
                    #[trigger] perm[a],
                    #[trigger] perm[b],
                ) by {
                    if a == j {
                        assert(keys0[i as int] > keys0[perm[b]]);
                    } else if b == j {
                        if a == j - 1 {
                            assert(keys@[j - 1] == keys0[perm[j - 1]]);
                            assert(keys@[j as int] == keys0[perm[j as int]]);
                            assert(perm[a] < i);
                        } else {
                            assert(comes_before(keys0, perm[a], perm[j - 1]));
                            assert(keys@[j - 1] == keys0[perm[j - 1]]);
                            assert(keys@[j as int] == keys0[perm[j as int]]);
                            assert(perm[j - 1] < i);
                            assert(perm[a] < i);
                        }
                    }
                }
                assert forall|k: int| 0 <= k < i + 1 implies #[trigger] perm[k] < i + 1 by {
                    if k != j {
                        assert(perm[k] < i);
                    }
                }
            }
            i += 1;
        }
        assert(is_ordering(perm, moves0, keys0, self@));
    }

    /// Appends a move from `from` with `move_flag` to each square of `to_mask`, lowest square first.
    pub fn add_moves(&mut self, to_mask: u64, from: Square, move_flag: MoveFlag)
        ensures
            final(self)@ == old(self)@ + moves_below(to_mask, from.idx(), move_flag, 64),
    {
        let mut rest: u64 = to_mask;
        let ghost mut lo: int = 0;
        assert(self@ =~= old(self)@ + moves_below(to_mask, from.idx(), move_flag, 0));
        while rest != 0
            invariant
                0 <= lo <= 64,
                forall|i: int| member(rest, i) == (member(to_mask, i) && i >= lo),
                self@ == old(self)@ + moves_below(to_mask, from.idx(), move_flag, lo),
            decreases bits::popcount(rest),
        {
            let lsb: u8 = bits::next(rest);
            let to = Square::from_index(lsb);
            proof {
                lemma_moves_skip(to_mask, from.idx(), move_flag, lo, lsb as int);
                assert(member(to_mask, lsb as int));
            }
            self.moves.push(MovePly::new(from, to, move_flag));
            rest = bits::pop(rest);
            proof {
                assert(self@ =~= old(self)@ + moves_below(to_mask, from.idx(), move_flag, lsb + 1));
                lo = lsb as int + 1;
            }
        }
        proof {
            assert forall|i: int| lo <= i < 64 implies !member(to_mask, i) by {
                bits::lemma_member_zero(i);
            }
            lemma_moves_skip(to_mask, from.idx(), move_flag, lo, 64);
        }
    }

    /// Appends the four promotions from `from` to each square of `to_mask`, lowest square first.
    pub fn add_promotion_moves(&mut self, to_mask: u64, from: Square)
        ensures
            final(self)@ == old(self)@ + promotions_below(to_mask, from.idx(), 64),
    {
        let mut rest: u64 = to_mask;
        let ghost mut lo: int = 0;
        assert(self@ =~= old(self)@ + promotions_below(to_mask, from.idx(), 0));
        while rest != 0
            invariant
                0 <= lo <= 64,
                forall|i: int| member(rest, i) == (member(to_mask, i) && i >= lo),
                self@ == old(self)@ + promotions_below(to_mask, from.idx(), lo),
            decreases bits::popcount(rest),
        {
            let lsb: u8 = bits::next(rest);
            let to_square = Square::from_index(lsb);
            proof {
                lemma_promotions_skip(to_mask, from.idx(), lo, lsb as int);
                assert(member(to_mask, lsb as int));
            }
            self.moves.push(MovePly::new(from, to_square, MoveFlag::PromoteToKnight));
            self.moves.push(MovePly::new(from, to_square, MoveFlag::PromoteToBishop));
            self.moves.push(MovePly::new(from, to_square, MoveFlag::PromoteToRook));
            self.moves.push(MovePly::new(from, to_square, MoveFlag::PromoteToQueen));
            rest = bits::pop(rest);
            proof {
                assert(self@ =~= old(self)@ + promotions_below(to_mask, from.idx(), lsb + 1));
                lo = lsb as int + 1;
            }
        }
        proof {
            assert forall|i: int| lo <= i < 64 implies !member(to_mask, i) by {
                bits::lemma_member_zero(i);
            }
            lemma_promotions_skip(to_mask, from.idx(), lo, 64);
        }
    }

    /// Appends one move.
    pub fn push(&mut self, played: MovePly)
        ensures
            final(self)@ == old(self)@.push(played),
    {
        self.moves.push(played);
    }

    pub fn reset(&mut self)
        ensures
            final(self)@.len() == 0,
    {
        self.moves.clear();
    }

    pub fn move_count(&self) -> (r: usize)
        ensures
            r == self@.len(),
    {
        self.moves.len()
    }

    pub fn move_at(&self, index: usize) -> (r: MovePly)
        requires
            index < self@.len(),
        ensures
            r == self@[index as int],
    {
        self.moves[index]
    }

    /// The moves in their order.
    pub fn iter(&self) -> (r: &[MovePly])
        ensures
            r@ == self@,
    {
        self.moves.as_slice()
    }

    /// Whether `played` is among the moves.
    pub fn contains_move(&self, played: MovePly) -> (r: bool)
        ensures
            r == self@.contains(played),
    {
        let mut i: usize = 0;
        while i < self.moves.len()
            invariant
                i <= self.moves.len(),
                forall|k: int| 0 <= k < i ==> self@[k] != played,
            decreases self.moves.len() - i,
        {
            if self.moves[i] == played {
                assert(self@[i as int] == played);
                return true;
            }
            i += 1;
        }
        false
    }

    /// Puts `played` in the place `index`.
    pub fn set(&mut self, index: usize, played: MovePly)
        requires
            index < old(self)@.len(),
        ensures
            final(self)@ == old(self)@.update(index as int, played),
    {
        self.moves[index] = played;
    }
}

impl Default for MoveList {
    fn default() -> (r: MoveList)
        ensures
            r@.len() == 0,
    {
        MoveList { moves: Vec::with_capacity(LIST_ROOM) }
    }
}

} // verus!
