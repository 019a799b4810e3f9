//! For each pair of squares on one line, the squares strictly between them.

use vstd::prelude::*;
use crate::chess::geometry::{between, df, dist, dr, file_of, in_dir, lemma_on_ray, lemma_ray_extend, queen_line, rank_of, ray_mask, sgn, step};
use crate::chess::types::file::File;
use crate::chess::types::rank::Rank;
use crate::chess::types::square::Square;
use crate::general::bits::{group_bits, member};

verus! {

pub struct InBetween {
    in_between: Vec<u64>,
}

impl InBetween {
    /// The squares strictly between the squares `a` and `b`, as the table has them.
    pub closed spec fn ray(&self, a: int, b: int) -> u64 {
        self.in_between[a * 64 + b]
    }

    /// The table holds, for each two squares, exactly what lies strictly between them on
    /// a file, rank or diagonal: nothing where they share none.
    pub closed spec fn wf(&self) -> bool {
        &&& self.in_between.len() == 4096
        &&& forall|a: int, b: int|
            0 <= a < 64 && 0 <= b < 64 ==> entry_ok(#[trigger] self.in_between[a * 64 + b], a, b)
    }

    pub proof fn lemma_ray(&self, a: int, b: int, u: int)
        requires
            self.wf(),
            0 <= a < 64,
            0 <= b < 64,
            0 <= u < 64,
        ensures
            member(self.ray(a, b), u) <==> between(a, u, b),
    {
        assert(entry_ok(self.in_between[a * 64 + b], a, b));
    }

    pub fn new() -> (r: InBetween)
        ensures
            r.wf(),
    {
        let mut in_between = InBetween { in_between: Vec::new() };
        in_between.create_in_between();
        in_between
    }

    fn create_in_between(&mut self)
        requires
            old(self).in_between.len() == 0,
        ensures
            final(self).wf(),
    {
        let mut i: usize = 0;
        while i < 64
            invariant
                i <= 64,
                self.in_between.len() == i * 64,
                forall|a: int, b: int|
                    0 <= a < i && 0 <= b < 64 ==> entry_ok(#[trigger] self.in_between[a * 64 + b], a, b),
            decreases 64 - i,
        {
            let from_square = Square::from_index(i as u8);
            let mut j: usize = 0;
            while j < 64
                invariant
                    i < 64,
                    j <= 64,
                    from_square.idx() == i,
                    self.in_between.len() == i * 64 + j,
                    forall|a: int, b: int|
                        0 <= a < i && 0 <= b < 64 ==> entry_ok(#[trigger] self.in_between[a * 64 + b], a, b),
                    forall|b: int| 0 <= b < j ==> entry_ok(#[trigger] self.in_between[i * 64 + b], i as int, b),
                decreases 64 - j,
            {
                let to_square = Square::from_index(j as u8);
                let mask: u64 = Self::squares_between(from_square, to_square);
                let ghost before = self.in_between@;
                self.in_between.push(mask);
                proof {
                    assert forall|a: int, b: int| 0 <= a < i && 0 <= b < 64 implies entry_ok(
                        #[trigger] self.in_between[a * 64 + b],
                        a,
                        b,
                    ) by {
                        assert(entry_ok(before[a * 64 + b], a, b));
                    }
                    assert forall|b: int| 0 <= b < j + 1 implies entry_ok(
                        #[trigger] self.in_between[i * 64 + b],
                        i as int,
                        b,
                    ) by {
                        if b < j {
                            assert(entry_ok(before[i * 64 + b], i as int, b));
                        }
                    }
                }
                j += 1;
            }
            proof {
                assert forall|a: int, b: int| 0 <= a < i + 1 && 0 <= b < 64 implies entry_ok(
                    #[trigger] self.in_between[a * 64 + b],
                    a,
                    b,
                ) by {
                    if a == i {
                        assert(entry_ok(self.in_between[i * 64 + b], i as int, b));
                    }
                }
            }
            i += 1;
        }
    }

    /// The squares strictly between two squares on one line; none for other squares.
    fn squares_between(from_square: Square, to_square: Square) -> (mask: u64)
        ensures
            entry_ok(mask, from_square.idx(), to_square.idx()),
    {
        let start_x: i16 = from_square.file().index() as i16;
        let target_x: i16 = to_square.file().index() as i16;
        let start_y: i16 = from_square.rank().index() as i16;
        let target_y: i16 = to_square.rank().index() as i16;
        let ghost a = from_square.idx();
        let ghost b = to_square.idx();
        proof {
            from_square.lemma_idx();
            to_square.lemma_idx();
            broadcast use group_bits;
        }
        let mut dir: (i16, i16) = (0, 0);
        // orthogonal
        if (start_x == target_x) && (start_y < target_y) {
            dir = (0, 1);
        }
        if (start_x == target_x) && (start_y > target_y) {
            dir = (0, -1);
        }
        if (start_y == target_y) && (start_x < target_x) {
            dir = (1, 0);
        }
        if (start_y == target_y) && (start_x > target_x) {
            dir = (-1, 0);
        }
        let dif_x: i16 = target_x - start_x;
        let dif_y: i16 = target_y - start_y;
        // on a diagonal the two differences are the same but for their sign
        let is_diagonal: bool = dif_x == dif_y || dif_x == -dif_y;
        if is_diagonal && dif_x > 0 && dif_y > 0 {
            dir = (1, 1);
        }
        if is_diagonal && dif_x < 0 && dif_y > 0 {
            dir = (-1, 1);
        }
        if is_diagonal && dif_x > 0 && dif_y < 0 {
            dir = (1, -1);
        }
        if is_diagonal && dif_x < 0 && dif_y < 0 {
            dir = (-1, -1);
        }
        let mut mask: u64 = 0;
        if dir.0 == 0 && dir.1 == 0 {
            assert(!queen_line(a, b));
            return mask;
        }
        assert(queen_line(a, b) && dir.0 == sgn(df(a, b)) && dir.1 == sgn(dr(a, b)));
        let mut cur_x: i16 = start_x + dir.0;
        let mut cur_y: i16 = start_y + dir.1;
        let ghost mut n: int = 0;
        proof {
            lemma_on_ray(a, dir.0 as int, dir.1 as int, dist(a, b), b);
        }
        while (cur_x != target_x) || (cur_y != target_y)
            invariant
                0 <= a < 64,
                0 <= b < 64,
                queen_line(a, b),
                dir.0 == sgn(df(a, b)),
                dir.1 == sgn(dr(a, b)),
                start_x == file_of(a),
                start_y == rank_of(a),
                target_x == file_of(b),
                target_y == rank_of(b),
                0 <= n < dist(a, b),
                cur_x == step(file_of(a), dir.0 as int, n + 1),
                cur_y == step(rank_of(a), dir.1 as int, n + 1),
                ray_mask(mask, 0, a, dir.0 as int, dir.1 as int, n, true),
            decreases dist(a, b) - n,
        {
            proof {
                lemma_on_ray(a, dir.0 as int, dir.1 as int, dist(a, b), b);
            }
            let file = File::from_index(cur_x as u8);
            let rank = Rank::from_index(cur_y as u8);
            let new_square = Square::from_coords(file, rank);
            let ghost prev = mask;
            mask = mask | new_square.mask();
            proof {
                broadcast use group_bits;
                new_square.lemma_idx();
                lemma_ray_extend(mask, prev, 0, a, dir.0 as int, dir.1 as int, n, new_square.idx(), true);
                n = n + 1;
            }
            cur_x = cur_x + dir.0;
            cur_y = cur_y + dir.1;
        }
        proof {
            broadcast use group_bits;
            lemma_on_ray(a, dir.0 as int, dir.1 as int, dist(a, b), b);
            assert(n + 1 == dist(a, b));
            assert forall|u: int| 0 <= u < 64 implies (#[trigger] member(mask, u) <==> between(a, u, b)) by {
                assert(member(mask, u) <==> (member(0, u) || (in_dir(a, dir.0 as int, dir.1 as int, u) && dist(
                    a,
                    u,
                ) <= n && true)));
            }
        }
        mask
    }

    /// The squares strictly between `a` and `b` if they share a file, rank or diagonal; else none.
    pub fn get(&self, a: Square, b: Square) -> (r: u64)
        requires
            self.wf(),
        ensures
            r == self.ray(a.idx(), b.idx()),
            forall|u: int| 0 <= u < 64 ==> (#[trigger] member(r, u) <==> between(a.idx(), u, b.idx())),
    {
        proof {
            a.lemma_idx();
            b.lemma_idx();
            assert(entry_ok(self.in_between[a.idx() * 64 + b.idx()], a.idx(), b.idx()));
        }
        self.in_between[a.index() as usize * 64 + b.index() as usize]
    }
}

/// `mask` holds exactly the squares strictly between `a` and `b`.
pub open spec fn entry_ok(mask: u64, a: int, b: int) -> bool {
    forall|u: int| 0 <= u < 64 ==> (#[trigger] member(mask, u) <==> between(a, u, b))
}

} // verus!
