//! The squares on which one kind of piece stands, as an unordered list with
//! a reverse index, so that adding, removing and moving a square take
//! constant time.

use vstd::prelude::*;
use crate::chess::bitboard::Bitboard;
use crate::chess::types::square::Square;
use crate::general::bits::{all_squares, member, popcount};

verus! {

pub struct PieceList {
    piece_indexes: Vec<Square>,
    map: [u8; 64],
}

impl View for PieceList {
    type V = Seq<Square>;

    closed spec fn view(&self) -> Seq<Square> {
        self.piece_indexes@
    }
}

impl PieceList {
    /// The reverse index points back at each square of the list.
    pub closed spec fn wf(&self) -> bool {
        &&& self.piece_indexes.len() <= 64
        &&& forall|k: int|
            0 <= k < self.piece_indexes.len() ==> self.map[(#[trigger] self.piece_indexes[k]).idx()]
                == k
    }

    /// Whether the square with number `sq` is in the list.
    pub closed spec fn contains(&self, sq: int) -> bool {
        &&& 0 <= sq < 64
        &&& self.map[sq] < self.piece_indexes.len()
        &&& self.piece_indexes[self.map[sq] as int].idx() == sq
    }

    /// The place in the list of the square with number `sq`, if the list holds it.
    pub closed spec fn place(&self, sq: int) -> int {
        self.map[sq] as int
    }

    /// The list holds a square exactly if it is at some place in it, and at no two places.
    pub proof fn lemma_contains(&self)
        requires
            self.wf(),
        ensures
            self@.len() <= 64,
            forall|sq: int|
                self.contains(sq) ==> 0 <= #[trigger] self.place(sq) < self@.len() && self@[self.place(sq)].idx()
                    == sq,
            forall|k: int| 0 <= k < self@.len() ==> self.contains(#[trigger] self@[k].idx()),
            forall|sq: int|
                self.contains(sq) ==> exists|k: int| 0 <= k < self@.len() && #[trigger] self@[k].idx() == sq,
            forall|j: int, k: int|
                0 <= j < self@.len() && 0 <= k < self@.len() && j != k ==> self@[j].idx() != self@[k].idx(),
    {
        assert forall|k: int| 0 <= k < self@.len() implies self.contains(#[trigger] self@[k].idx()) by {
            self@[k].lemma_idx();
        }
        assert forall|sq: int| self.contains(sq) implies exists|k: int|
            0 <= k < self@.len() && #[trigger] self@[k].idx() == sq by {
            let k = self.map[sq] as int;
            assert(self@[k].idx() == sq);
        }
    }

    /// An empty list.
    pub fn empty() -> (r: PieceList)
        ensures
            r.wf(),
            r@.len() == 0,
            forall|sq: int| !r.contains(sq),
    {
        PieceList { piece_indexes: Vec::new(), map: [0u8; 64] }
    }

    /// Fills the list with the squares of `bitboard`, lowest first.
    pub fn new(&mut self, bitboard: Bitboard)
        ensures
            final(self).wf(),
            final(self)@.len() == popcount(bitboard.0),
            forall|sq: int| 0 <= sq < 64 ==> final(self).contains(sq) == member(bitboard.0, sq),
            forall|j: int, k: int| 0 <= j < k < final(self)@.len() ==> final(self)@[j].idx() < final(self)@[k].idx(),
    {
        let squares = all_squares(bitboard.0);
        proof {
            crate::general::bits::lemma_count_bound(bitboard.0, 64);
        }
        let mut i: usize = 0;
        while i < squares.len()
            invariant
                i <= squares.len() <= 64,
                forall|j: int, k: int| 0 <= j < k < squares.len() ==> squares[j].idx() < squares[k].idx(),
                forall|k: int| 0 <= k < i ==> self.map[(#[trigger] squares[k]).idx()] == k,
            decreases squares.len() - i,
        {
            let square = squares[i];
            self.map[square.index() as usize] = i as u8;
            i += 1;
        }
        self.piece_indexes = squares;
        proof {
            assert forall|sq: int| 0 <= sq < 64 implies self.contains(sq) == member(bitboard.0, sq) by {
                if member(bitboard.0, sq) {
                    let k = choose|k: int| 0 <= k < squares.len() && #[trigger] squares[k].idx() == sq;
                    assert(self.map[squares[k].idx()] == k);
                }
            }
        }
    }

    /// Puts `square` at the end of the list.
    pub fn add_piece(&mut self, square: Square)
        requires
            old(self).wf(),
            !old(self).contains(square.idx()),
            old(self)@.len() < 64,
        ensures
            final(self).wf(),
            final(self)@ == old(self)@.push(square),
            forall|sq: int| final(self).contains(sq) == (old(self).contains(sq) || sq == square.idx()),
    {
        proof {
            square.lemma_idx();
        }
        let n: usize = self.piece_indexes.len();
        self.piece_indexes.push(square);
        self.map[square.index() as usize] = n as u8;
        proof {
            assert forall|k: int| 0 <= k < self.piece_indexes.len() implies self.map[(
            #[trigger] self.piece_indexes[k]).idx()] == k by {
                if k < n {
                    assert(old(self).piece_indexes[k] == self.piece_indexes[k]);
                    old(self).piece_indexes[k].lemma_idx();
                    if self.piece_indexes[k].idx() == square.idx() {
                        assert(old(self).contains(square.idx()));
                    }
                }
            }
            assert forall|sq: int| self.contains(sq) == (old(self).contains(sq) || sq == square.idx()) by {
                if 0 <= sq < 64 && sq != square.idx() {
                    if old(self).contains(sq) {
                        assert(self.piece_indexes[old(self).map[sq] as int] == old(self).piece_indexes[old(
                            self,
                        ).map[sq] as int]);
                    }
                    if self.contains(sq) {
                        assert(self.map[sq] == old(self).map[sq]);
                        if self.map[sq] == n {
                            assert(false);
                        }
                        assert(self.piece_indexes[old(self).map[sq] as int] == old(self).piece_indexes[old(
                            self,
                        ).map[sq] as int]);
                    }
                }
            }
        }
    }

    /// Takes `square` out of the list: the last square of the list takes its place.
    pub fn remove_piece(&mut self, square: Square)
        requires
            old(self).wf(),
            old(self).contains(square.idx()),
        ensures
            final(self).wf(),
            final(self)@.len() + 1 == old(self)@.len(),
            final(self)@ == old(self)@.update(old(self).place(square.idx()), old(self)@.last()).drop_last(),
            forall|sq: int| final(self).contains(sq) == (old(self).contains(sq) && sq != square.idx()),
    {
        proof {
            square.lemma_idx();
        }
        let piece_index: u8 = self.map[square.index() as usize];
        let n: usize = self.piece_indexes.len();
        let last = self.piece_indexes[n - 1];
        proof {
            last.lemma_idx();
            assert(old(self).map[last.idx()] == n - 1);
        }
        self.piece_indexes[piece_index as usize] = last;
        self.map[last.index() as usize] = piece_index;
        self.piece_indexes.pop();
        proof {
            let old_list = old(self).piece_indexes@;
            let old_map = old(self).map@;
            assert(self.piece_indexes@ =~= old_list.update(piece_index as int, old_list.last()).drop_last());
            assert forall|k: int| 0 <= k < self.piece_indexes.len() implies self.map[(
            #[trigger] self.piece_indexes[k]).idx()] == k by {
                if k != piece_index {
                    assert(self.piece_indexes[k] == old_list[k]);
                    old_list[k].lemma_idx();
                    assert(old_map[old_list[k].idx()] == k);
                }
            }
            assert forall|sq: int| self.contains(sq) == (old(self).contains(sq) && sq != square.idx()) by {
                if 0 <= sq < 64 {
                    if old(self).contains(sq) && sq != square.idx() {
                        let k = old_map[sq] as int;
                        assert(old_list[k].idx() == sq);
                        if k == n - 1 {
                            assert(sq == last.idx());
                            assert(self.piece_indexes[piece_index as int] == last);
                        } else {
                            assert(self.piece_indexes[k] == old_list[k]);
                        }
                    }
                    if self.contains(sq) {
                        let j = self.map[sq] as int;
                        assert(self.piece_indexes[j].idx() == sq);
                        if j == piece_index {
                            assert(old_map[last.idx()] == n - 1);
                        } else {
                            assert(self.piece_indexes[j] == old_list[j]);
                            assert(old_map[old_list[j].idx()] == j);
                        }
                    }
                }
            }
        }
    }

    /// Puts `to_square` in the place of `from_square`.
    pub fn move_piece(&mut self, from_square: Square, to_square: Square)
        requires
            old(self).wf(),
            old(self).contains(from_square.idx()),
            !old(self).contains(to_square.idx()),
        ensures
            final(self).wf(),
            final(self)@.len() == old(self)@.len(),
            final(self)@ == old(self)@.update(old(self).place(from_square.idx()), to_square),
            forall|sq: int|
                final(self).contains(sq) == (sq == to_square.idx() || (old(self).contains(sq) && sq
                    != from_square.idx())),
    {
        proof {
            from_square.lemma_idx();
            to_square.lemma_idx();
        }
        let piece_index: u8 = self.map[from_square.index() as usize];
        self.piece_indexes[piece_index as usize] = to_square;
        self.map[to_square.index() as usize] = piece_index;
        proof {
            let old_list = old(self).piece_indexes@;
            let old_map = old(self).map@;
            assert(self.piece_indexes@ =~= old_list.update(piece_index as int, to_square));
            assert forall|k: int| 0 <= k < self.piece_indexes.len() implies self.map[(
            #[trigger] self.piece_indexes[k]).idx()] == k by {
                if k != piece_index {
                    assert(self.piece_indexes[k] == old_list[k]);
                    old_list[k].lemma_idx();
                    assert(old_map[old_list[k].idx()] == k);
                    if old_list[k].idx() == to_square.idx() {
                        assert(old(self).contains(to_square.idx()));
                    }
                }
            }
            assert forall|sq: int|
                self.contains(sq) == (sq == to_square.idx() || (old(self).contains(sq) && sq
                    != from_square.idx())) by {
                if 0 <= sq < 64 && sq != to_square.idx() {
                    if old(self).contains(sq) && sq != from_square.idx() {
                        let k = old_map[sq] as int;
                        assert(old_list[k].idx() == sq);
                        assert(self.piece_indexes[k] == old_list[k]);
                    }
                    if self.contains(sq) {
                        let j = self.map[sq] as int;
                        assert(self.piece_indexes[j].idx() == sq);
                        assert(self.piece_indexes[j] == old_list[j]);
                        assert(old_map[old_list[j].idx()] == j);
                    }
                }
            }
        }
    }

    pub fn count(&self) -> (r: u8)
        requires
            self.wf(),
        ensures
            r == self@.len(),
    {
        self.piece_indexes.len() as u8
    }

    /// The squares of the list, in the order in which the list holds them.
    pub fn indexes(&self) -> (r: &[Square])
        ensures
            r@ == self@,
    {
        self.piece_indexes.as_slice()
    }
}

} // verus!
