//! Masks of the squares that lie in given directions from a square.

use vstd::prelude::*;
use crate::chess::geometry::{contains_dir, df, dr, file_of, in_dir, inner, lemma_contains_none, lemma_contains_step, lemma_ray_end, lemma_ray_end_inner, lemma_ray_extend, lemma_square, line_mask, queen_line, rank_of, ray_mask, sgn, step, unit_dirs};
use crate::chess::types::file::File;
use crate::chess::types::rank::Rank;
use crate::chess::types::square::Square;
use crate::general::bits::{bit, group_bits, member};

verus! {

pub const NO_EDGE: bool = false;

pub const INCLUDE_EDGE: bool = true;

/// The squares that lie one of `directions` away from `square`: for pieces that move by fixed
/// steps, as knight, king and pawn do.
pub fn create_static_mask(directions: &[(i8, i8)], square: Square) -> (mask: u64)
    ensures
        forall|t: int|
            0 <= t < 64 ==> (#[trigger] member(mask, t) <==> contains_dir(
                directions@,
                df(square.idx(), t),
                dr(square.idx(), t),
            )),
{
    let mut mask: u64 = 0;
    let x_cord: i16 = square.file().index() as i16;
    let y_cord: i16 = square.rank().index() as i16;
    let ghost a = square.idx();
    proof {
        square.lemma_idx();
        broadcast use group_bits;
        assert forall|t: int| 0 <= t < 64 implies (#[trigger] member(mask, t) <==> contains_dir(
            directions@.take(0),
            df(a, t),
            dr(a, t),
        )) by {
            lemma_contains_none(directions@, df(a, t), dr(a, t));
        }
    }
    let mut i: usize = 0;
    while i < directions.len()
        invariant
            i <= directions.len(),
            0 <= a < 64,
            a == square.idx(),
            x_cord == file_of(a),
            y_cord == rank_of(a),
            forall|t: int|
                0 <= t < 64 ==> (#[trigger] member(mask, t) <==> contains_dir(
                    directions@.take(i as int),
                    df(a, t),
                    dr(a, t),
                )),
        decreases directions.len() - i,
    {
        let direction = directions[i];
        let new_x: i16 = x_cord + direction.0 as i16;
        let new_y: i16 = y_cord + direction.1 as i16;
        let ghost before = mask;
        if !((new_x > 7 || new_x < 0) || (new_y > 7 || new_y < 0)) {
            let file = File::from_index(new_x as u8);
            let rank = Rank::from_index(new_y as u8);
            let new_square = Square::from_coords(file, rank);
            mask = mask | new_square.mask();
            proof {
                new_square.lemma_idx();
            }
        }
        proof {
            broadcast use group_bits;
            assert forall|t: int| 0 <= t < 64 implies (#[trigger] member(mask, t) <==> contains_dir(
                directions@.take(i + 1),
                df(a, t),
                dr(a, t),
            )) by {
                lemma_contains_step(directions@, i as int, df(a, t), dr(a, t));
                assert(member(before, t) <==> contains_dir(directions@.take(i as int), df(a, t), dr(a, t)));
                if 0 <= new_x <= 7 && 0 <= new_y <= 7 {
                    let s = new_y * 8 + new_x;
                    if file_of(t) == new_x && rank_of(t) == new_y {
                        lemma_square(t, s);
                    }
                }
            }
        }
        i += 1;
    }
    proof {
        assert(directions@.take(directions@.len() as int) =~= directions@);
    }
    mask
}

/// The squares that lie on a line from `square` in one of `directions`, up to the end of the
/// board; with `NO_EDGE`, without the last square of each line.
pub fn create_dynamic_mask<const EDGE: bool>(directions: &[(i8, i8)], square: Square) -> (mask: u64)
    requires
        unit_dirs(directions@),
    ensures
        forall|t: int|
            0 <= t < 64 ==> (#[trigger] member(mask, t) <==> (queen_line(square.idx(), t) && contains_dir(
                directions@,
                sgn(df(square.idx(), t)),
                sgn(dr(square.idx(), t)),
            ) && (EDGE || inner(square.idx(), t)))),
{
    let mut mask: u64 = 0;
    let ghost a = square.idx();
    let x_start: i16 = square.file().index() as i16;
    let y_start: i16 = square.rank().index() as i16;
    proof {
        square.lemma_idx();
        broadcast use group_bits;
        assert forall|t: int| 0 <= t < 64 implies !contains_dir(
            directions@.take(0),
            sgn(df(a, t)),
            sgn(dr(a, t)),
        ) by {
            lemma_contains_none(directions@, sgn(df(a, t)), sgn(dr(a, t)));
        }
    }
    let mut i: usize = 0;
    while i < directions.len()
        invariant
            i <= directions.len(),
            unit_dirs(directions@),
            0 <= a < 64,
            a == square.idx(),
            x_start == file_of(a),
            y_start == rank_of(a),
            forall|t: int|
                0 <= t < 64 ==> (#[trigger] member(mask, t) <==> (queen_line(a, t) && contains_dir(
                    directions@.take(i as int),
                    sgn(df(a, t)),
                    sgn(dr(a, t)),
                ) && (EDGE || inner(a, t)))),
        decreases directions.len() - i,
    {
        let direction = directions[i];
        let x_dir: i16 = direction.0 as i16;
        let y_dir: i16 = direction.1 as i16;
        let mut x_cord: i16 = x_start;
        let mut y_cord: i16 = y_start;
        let ghost before = mask;
        proof {
            assert(ray_mask(mask, before, a, x_dir as int, y_dir as int, 0, EDGE));
        }
        let ghost mut n: int = 0;
        let ghost mut done: bool = false;
        loop
            invariant_except_break
                !done,
                ray_mask(mask, before, a, x_dir as int, y_dir as int, n, EDGE),
            invariant
                0 <= a < 64,
                -1 <= x_dir <= 1,
                -1 <= y_dir <= 1,
                x_dir != 0 || y_dir != 0,
                0 <= n <= 7,
                0 <= x_cord <= 7,
                0 <= y_cord <= 7,
                x_cord == step(file_of(a), x_dir as int, n),
                y_cord == step(rank_of(a), y_dir as int, n),
            ensures
                done,
                line_mask(mask, before, a, x_dir as int, y_dir as int, EDGE),
            decreases 8 - n,
        {
            let new_x: i16 = x_cord + x_dir;
            let new_y: i16 = y_cord + y_dir;
            if (new_x > 7 || new_x < 0) || (new_y > 7 || new_y < 0) {
                proof {
                    done = true;
                    lemma_ray_end(mask, before, a, x_dir as int, y_dir as int, n, EDGE);
                }
                break ;
            }
            if (EDGE == NO_EDGE) && ((x_dir != 0 && (new_x > 6 || new_x < 1)) || (y_dir != 0 && (new_y > 6
                || new_y < 1))) {
                proof {
                    done = true;
                    lemma_ray_end_inner(mask, before, a, x_dir as int, y_dir as int, n);
                }
                break ;
            }
            let file = File::from_index(new_x as u8);
            let rank = Rank::from_index(new_y as u8);
            let new_square = Square::from_coords(file, rank);
            let ghost prev = mask;
            mask = mask | new_square.mask();
            proof {
                broadcast use group_bits;
                new_square.lemma_idx();
                lemma_ray_extend(mask, prev, before, a, x_dir as int, y_dir as int, n, new_square.idx(), EDGE);
                n = n + 1;
            }
            x_cord = new_x;
            y_cord = new_y;
        }
        proof {
            assert forall|t: int| 0 <= t < 64 implies (#[trigger] member(mask, t) <==> (queen_line(a, t)
                && contains_dir(directions@.take(i + 1), sgn(df(a, t)), sgn(dr(a, t))) && (EDGE || inner(a, t))))
            by {
                lemma_contains_step(directions@, i as int, sgn(df(a, t)), sgn(dr(a, t)));
                assert(member(mask, t) <==> (member(before, t) || (in_dir(a, x_dir as int, y_dir as int, t) && (
                EDGE || inner(a, t)))));
                assert(member(before, t) <==> (queen_line(a, t) && contains_dir(
                    directions@.take(i as int),
                    sgn(df(a, t)),
                    sgn(dr(a, t)),
                ) && (EDGE || inner(a, t))));
            }
        }
        i += 1;
    }
    proof {
        assert(directions@.take(directions@.len() as int) =~= directions@);
    }
    mask
}

} // verus!
