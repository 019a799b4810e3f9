//! The geometry of the board: lines, directions, and how each kind of piece
//! reaches a square.
//!
//! Squares are numbers from 0 to 63 here; a square's file is its number
//! modulo 8 and its rank the number divided by 8.

use vstd::prelude::*;
use crate::chess::types::color::Color;
use crate::general::bits::member;

verus! {

pub open spec fn file_of(sq: int) -> int {
    sq % 8
}

pub open spec fn rank_of(sq: int) -> int {
    sq / 8
}

pub open spec fn abs(x: int) -> int {
    if x < 0 {
        -x
    } else {
        x
    }
}

pub open spec fn sgn(x: int) -> int {
    if x < 0 {
        -1
    } else if x > 0 {
        1
    } else {
        0
    }
}

/// Files from `a` to `b`, negative towards the a-file.
pub open spec fn df(a: int, b: int) -> int {
    file_of(b) - file_of(a)
}

/// Ranks from `a` to `b`, negative towards the first rank.
pub open spec fn dr(a: int, b: int) -> int {
    rank_of(b) - rank_of(a)
}

/// The number of king steps from `a` to `b`.
pub open spec fn dist(a: int, b: int) -> int {
    if abs(df(a, b)) > abs(dr(a, b)) {
        abs(df(a, b))
    } else {
        abs(dr(a, b))
    }
}

/// `a` and `b` differ and lie on one file or rank.
pub open spec fn rook_line(a: int, b: int) -> bool {
    a != b && (df(a, b) == 0 || dr(a, b) == 0)
}

/// `a` and `b` differ and lie on one diagonal.
pub open spec fn bishop_line(a: int, b: int) -> bool {
    a != b && abs(df(a, b)) == abs(dr(a, b))
}

pub open spec fn queen_line(a: int, b: int) -> bool {
    rook_line(a, b) || bishop_line(a, b)
}

/// The square `u` lies on the line from `a` to `b`, strictly between the two.
pub open spec fn between(a: int, u: int, b: int) -> bool {
    &&& queen_line(a, b)
    &&& queen_line(a, u)
    &&& sgn(df(a, u)) == sgn(df(a, b))
    &&& sgn(dr(a, u)) == sgn(dr(a, b))
    &&& dist(a, u) < dist(a, b)
}

/// No square of `occ` lies strictly between `a` and `b`.
pub open spec fn clear_between(occ: u64, a: int, b: int) -> bool {
    forall|u: int| 0 <= u < 64 && #[trigger] between(a, u, b) ==> !member(occ, u)
}

/// Seen from `a`, the square `b` is not the last one of the board in a direction in which it lies.
pub open spec fn inner(a: int, b: int) -> bool {
    &&& df(a, b) != 0 ==> 1 <= file_of(b) <= 6
    &&& dr(a, b) != 0 ==> 1 <= rank_of(b) <= 6
}

pub open spec fn knight_step(a: int, b: int) -> bool {
    (abs(df(a, b)) == 1 && abs(dr(a, b)) == 2) || (abs(df(a, b)) == 2 && abs(dr(a, b)) == 1)
}

pub open spec fn king_step(a: int, b: int) -> bool {
    a != b && abs(df(a, b)) <= 1 && abs(dr(a, b)) <= 1
}

/// The direction in which the pawns of `color` move: 1 up the board, -1 down.
pub open spec fn forward(color: Color) -> int {
    match color {
        Color::White => 1,
        Color::Black => -1,
    }
}

/// A pawn of `color` on `a` attacks `b`.
pub open spec fn pawn_attack(color: Color, a: int, b: int) -> bool {
    abs(df(a, b)) == 1 && dr(a, b) == forward(color)
}

/// A pawn of `color` on `a` steps to `b`.
pub open spec fn pawn_push(color: Color, a: int, b: int) -> bool {
    df(a, b) == 0 && dr(a, b) == forward(color)
}

/// A pawn of `color` on `a`, on the rank where it started, jumps to `b`.
pub open spec fn pawn_jump(color: Color, a: int, b: int) -> bool {
    &&& df(a, b) == 0
    &&& dr(a, b) == 2 * forward(color)
    &&& rank_of(a) == (match color {
        Color::White => 1int,
        Color::Black => 6int,
    })
}

/// A rook on `a` reaches `b` over the occupancy `occ`: the first piece in its way included.
pub open spec fn rook_hits(occ: u64, a: int, b: int) -> bool {
    rook_line(a, b) && clear_between(occ, a, b)
}

pub open spec fn bishop_hits(occ: u64, a: int, b: int) -> bool {
    bishop_line(a, b) && clear_between(occ, a, b)
}

pub open spec fn queen_hits(occ: u64, a: int, b: int) -> bool {
    queen_line(a, b) && clear_between(occ, a, b)
}

/// Whether a piece of the kind with number `kind` and of `color`, on `a`, attacks `b` over `occ`.
pub open spec fn hits(kind: int, color: Color, occ: u64, a: int, b: int) -> bool {
    if kind == 0 {
        pawn_attack(color, a, b)
    } else if kind == 1 {
        knight_step(a, b)
    } else if kind == 2 {
        bishop_hits(occ, a, b)
    } else if kind == 3 {
        rook_hits(occ, a, b)
    } else if kind == 4 {
        queen_hits(occ, a, b)
    } else {
        king_step(a, b)
    }
}

/// Whether `(dx, dy)` is one of `dirs`.
pub open spec fn contains_dir(dirs: Seq<(i8, i8)>, dx: int, dy: int) -> bool {
    exists|k: int| 0 <= k < dirs.len() && (#[trigger] dirs[k]).0 == dx && dirs[k].1 == dy
}

/// Each of `dirs` is one king step.
pub open spec fn unit_dirs(dirs: Seq<(i8, i8)>) -> bool {
    forall|k: int|
        0 <= k < dirs.len() ==> -1 <= (#[trigger] dirs[k]).0 <= 1 && -1 <= dirs[k].1 <= 1 && (dirs[k].0 != 0
            || dirs[k].1 != 0)
}

pub proof fn lemma_contains_none(dirs: Seq<(i8, i8)>, dx: int, dy: int)
    ensures
        !contains_dir(dirs.take(0), dx, dy),
{
}

pub proof fn lemma_contains_step(dirs: Seq<(i8, i8)>, n: int, dx: int, dy: int)
    requires
        0 <= n < dirs.len(),
    ensures
        contains_dir(dirs.take(n + 1), dx, dy) == (contains_dir(dirs.take(n), dx, dy) || (dirs[n].0 == dx
            && dirs[n].1 == dy)),
{
    let a = dirs.take(n);
    let b = dirs.take(n + 1);
    if contains_dir(a, dx, dy) {
        let k = choose|k: int| 0 <= k < a.len() && (#[trigger] a[k]).0 == dx && a[k].1 == dy;
        assert(b[k].0 == dx && b[k].1 == dy);
    }
    if dirs[n].0 == dx && dirs[n].1 == dy {
        assert(b[n].0 == dx && b[n].1 == dy);
    }
    if contains_dir(b, dx, dy) {
        let k = choose|k: int| 0 <= k < b.len() && (#[trigger] b[k]).0 == dx && b[k].1 == dy;
        if k < n {
            assert(a[k].0 == dx && a[k].1 == dy);
        }
    }
}

/// The coordinate `c` after `n` steps in the direction `d`, which is -1, 0 or 1.
pub open spec fn step(c: int, d: int, n: int) -> int {
    if d == 0 {
        c
    } else if d > 0 {
        c + n
    } else {
        c - n
    }
}

/// The square `t` lies `n` steps from `a` in the direction `(dx, dy)`.
pub open spec fn on_ray(a: int, dx: int, dy: int, n: int, t: int) -> bool {
    file_of(t) == step(file_of(a), dx, n) && rank_of(t) == step(rank_of(a), dy, n)
}

/// The `n`-th square from `a` in a direction is the square on a line with `a`, in that
/// direction and at that distance.
pub proof fn lemma_on_ray(a: int, dx: int, dy: int, n: int, t: int)
    requires
        0 <= a < 64,
        0 <= t < 64,
        -1 <= dx <= 1,
        -1 <= dy <= 1,
        dx != 0 || dy != 0,
        n >= 1,
    ensures
        on_ray(a, dx, dy, n, t) <==> (queen_line(a, t) && sgn(df(a, t)) == dx && sgn(dr(a, t)) == dy && dist(a, t)
            == n),
{
}

/// The square `t` lies on a line from `a` in the direction `(dx, dy)`.
pub open spec fn in_dir(a: int, dx: int, dy: int, t: int) -> bool {
    queen_line(a, t) && sgn(df(a, t)) == dx && sgn(dr(a, t)) == dy
}

/// `mask` holds what `before` holds and, of the line from `a` in the direction `(dx, dy)`, the
/// squares up to `n` steps away; without the last square of the board unless `edge`.
pub open spec fn ray_mask(mask: u64, before: u64, a: int, dx: int, dy: int, n: int, edge: bool) -> bool {
    forall|t: int|
        0 <= t < 64 ==> (#[trigger] member(mask, t) <==> (member(before, t) || (in_dir(a, dx, dy, t) && dist(
            a,
            t,
        ) <= n && (edge || inner(a, t)))))
}

/// As `ray_mask`, for the whole line.
pub open spec fn line_mask(mask: u64, before: u64, a: int, dx: int, dy: int, edge: bool) -> bool {
    forall|t: int|
        0 <= t < 64 ==> (#[trigger] member(mask, t) <==> (member(before, t) || (in_dir(a, dx, dy, t) && (edge
            || inner(a, t)))))
}

pub open spec fn unit_dir(dx: int, dy: int) -> bool {
    -1 <= dx <= 1 && -1 <= dy <= 1 && (dx != 0 || dy != 0)
}

/// One more square of the line joins the mask.
pub proof fn lemma_ray_extend(
    mask: u64,
    prev: u64,
    before: u64,
    a: int,
    dx: int,
    dy: int,
    n: int,
    s: int,
    edge: bool,
)
    requires
        0 <= a < 64,
        0 <= s < 64,
        unit_dir(dx, dy),
        n >= 0,
        ray_mask(prev, before, a, dx, dy, n, edge),
        on_ray(a, dx, dy, n + 1, s),
        edge || inner(a, s),
        forall|t: int| 0 <= t < 64 ==> #[trigger] member(mask, t) == (member(prev, t) || t == s),
    ensures
        ray_mask(mask, before, a, dx, dy, n + 1, edge),
{
    lemma_on_ray(a, dx, dy, n + 1, s);
    assert forall|t: int| 0 <= t < 64 implies (#[trigger] member(mask, t) <==> (member(before, t) || (in_dir(
        a,
        dx,
        dy,
        t,
    ) && dist(a, t) <= n + 1 && (edge || inner(a, t))))) by {
        assert(member(prev, t) <==> (member(before, t) || (in_dir(a, dx, dy, t) && dist(a, t) <= n && (edge
            || inner(a, t)))));
        lemma_on_ray(a, dx, dy, n + 1, t);
        if on_ray(a, dx, dy, n + 1, t) {
            lemma_square(t, s);
        }
    }
}

/// A line ends where its next square would be off the board.
pub proof fn lemma_ray_end(mask: u64, before: u64, a: int, dx: int, dy: int, n: int, edge: bool)
    requires
        0 <= a < 64,
        unit_dir(dx, dy),
        n >= 0,
        ray_mask(mask, before, a, dx, dy, n, edge),
        !(0 <= step(file_of(a), dx, n + 1) <= 7 && 0 <= step(rank_of(a), dy, n + 1) <= 7),
    ensures
        line_mask(mask, before, a, dx, dy, edge),
{
    assert forall|t: int| 0 <= t < 64 implies (#[trigger] member(mask, t) <==> (member(before, t) || (in_dir(
        a,
        dx,
        dy,
        t,
    ) && (edge || inner(a, t))))) by {
        assert(member(mask, t) <==> (member(before, t) || (in_dir(a, dx, dy, t) && dist(a, t) <= n && (edge
            || inner(a, t)))));
        if in_dir(a, dx, dy, t) {
            lemma_on_ray(a, dx, dy, dist(a, t), t);
        }
    }
}

/// Without the last square, a line ends before the square that is at the end of the board.
pub proof fn lemma_ray_end_inner(mask: u64, before: u64, a: int, dx: int, dy: int, n: int)
    requires
        0 <= a < 64,
        unit_dir(dx, dy),
        n >= 0,
        ray_mask(mask, before, a, dx, dy, n, false),
        0 <= step(file_of(a), dx, n + 1) <= 7,
        0 <= step(rank_of(a), dy, n + 1) <= 7,
        (dx != 0 && !(1 <= step(file_of(a), dx, n + 1) <= 6)) || (dy != 0 && !(1 <= step(rank_of(a), dy, n + 1)
            <= 6)),
    ensures
        line_mask(mask, before, a, dx, dy, false),
{
    assert forall|t: int| 0 <= t < 64 implies (#[trigger] member(mask, t) <==> (member(before, t) || (in_dir(
        a,
        dx,
        dy,
        t,
    ) && inner(a, t)))) by {
        assert(member(mask, t) <==> (member(before, t) || (in_dir(a, dx, dy, t) && dist(a, t) <= n && inner(
            a,
            t,
        ))));
        if in_dir(a, dx, dy, t) {
            lemma_on_ray(a, dx, dy, dist(a, t), t);
        }
    }
}

/// No square of `blockers` lies on the line from `a` in the direction `(dx, dy)` within `n` steps.
pub open spec fn clear_upto(blockers: u64, a: int, dx: int, dy: int, n: int) -> bool {
    forall|u: int| 0 <= u < 64 && #[trigger] in_dir(a, dx, dy, u) && dist(a, u) <= n ==> !member(blockers, u)
}

/// `mask` holds what `before` holds and, of the line from `a` in the direction `(dx, dy)`, the
/// squares up to the first of `blockers`, that one included.
pub open spec fn slide_mask(mask: u64, before: u64, a: int, dx: int, dy: int, blockers: u64) -> bool {
    forall|t: int|
        0 <= t < 64 ==> (#[trigger] member(mask, t) <==> (member(before, t) || (in_dir(a, dx, dy, t)
            && clear_between(blockers, a, t))))
}

pub proof fn lemma_clear_extend(blockers: u64, a: int, dx: int, dy: int, n: int, s: int)
    requires
        0 <= a < 64,
        0 <= s < 64,
        unit_dir(dx, dy),
        n >= 0,
        clear_upto(blockers, a, dx, dy, n),
        on_ray(a, dx, dy, n + 1, s),
        !member(blockers, s),
    ensures
        clear_upto(blockers, a, dx, dy, n + 1),
{
    assert forall|u: int| 0 <= u < 64 && #[trigger] in_dir(a, dx, dy, u) && dist(a, u) <= n + 1 implies !member(
        blockers,
        u,
    ) by {
        if dist(a, u) == n + 1 {
            lemma_on_ray(a, dx, dy, n + 1, u);
            lemma_square(u, s);
        }
    }
}

/// A slide that meets no blocker ends at the end of the board.
pub proof fn lemma_slide_end_board(mask: u64, before: u64, a: int, dx: int, dy: int, n: int, blockers: u64)
    requires
        0 <= a < 64,
        unit_dir(dx, dy),
        n >= 0,
        ray_mask(mask, before, a, dx, dy, n, true),
        clear_upto(blockers, a, dx, dy, n),
        !(0 <= step(file_of(a), dx, n + 1) <= 7 && 0 <= step(rank_of(a), dy, n + 1) <= 7),
    ensures
        slide_mask(mask, before, a, dx, dy, blockers),
{
    assert forall|t: int| 0 <= t < 64 implies (#[trigger] member(mask, t) <==> (member(before, t) || (in_dir(
        a,
        dx,
        dy,
        t,
    ) && clear_between(blockers, a, t)))) by {
        assert(member(mask, t) <==> (member(before, t) || (in_dir(a, dx, dy, t) && dist(a, t) <= n && true)));
        if in_dir(a, dx, dy, t) {
            lemma_on_ray(a, dx, dy, dist(a, t), t);
            assert forall|u: int| 0 <= u < 64 && #[trigger] between(a, u, t) implies !member(blockers, u) by {
                assert(in_dir(a, dx, dy, u));
            }
        }
    }
}

/// A slide ends on the first blocker.
pub proof fn lemma_slide_end_block(
    mask: u64,
    before: u64,
    a: int,
    dx: int,
    dy: int,
    n: int,
    blockers: u64,
    s: int,
)
    requires
        0 <= a < 64,
        0 <= s < 64,
        unit_dir(dx, dy),
        n >= 0,
        ray_mask(mask, before, a, dx, dy, n + 1, true),
        clear_upto(blockers, a, dx, dy, n),
        on_ray(a, dx, dy, n + 1, s),
        member(blockers, s),
    ensures
        slide_mask(mask, before, a, dx, dy, blockers),
{
    lemma_on_ray(a, dx, dy, n + 1, s);
    assert forall|t: int| 0 <= t < 64 implies (#[trigger] member(mask, t) <==> (member(before, t) || (in_dir(
        a,
        dx,
        dy,
        t,
    ) && clear_between(blockers, a, t)))) by {
        assert(member(mask, t) <==> (member(before, t) || (in_dir(a, dx, dy, t) && dist(a, t) <= n + 1
            && true)));
        if in_dir(a, dx, dy, t) {
            if dist(a, t) <= n + 1 {
                assert forall|u: int| 0 <= u < 64 && #[trigger] between(a, u, t) implies !member(
                    blockers,
                    u,
                ) by {
                    assert(in_dir(a, dx, dy, u));
                }
            } else {
                assert(between(a, s, t));
            }
        }
    }
}

/// A square is known by its file and rank.
pub proof fn lemma_square(a: int, b: int)
    requires
        0 <= a < 64,
        0 <= b < 64,
        file_of(a) == file_of(b),
        rank_of(a) == rank_of(b),
    ensures
        a == b,
{
}

/// What lies strictly between two squares is not at the end of the board, seen from either.
pub proof fn lemma_between_inner(a: int, u: int, b: int)
    requires
        0 <= a < 64,
        0 <= u < 64,
        0 <= b < 64,
        between(a, u, b),
    ensures
        inner(a, u),
        queen_line(a, u),
        rook_line(a, b) ==> rook_line(a, u),
        bishop_line(a, b) ==> bishop_line(a, u),
{
}

/// Between `a` and `b` lies what lies between `b` and `a`.
pub proof fn lemma_between_sym(a: int, u: int, b: int)
    requires
        0 <= a < 64,
        0 <= u < 64,
        0 <= b < 64,
    ensures
        between(a, u, b) == between(b, u, a),
{
}

/// A line is clear from either end.
pub proof fn lemma_clear_sym(occ: u64, a: int, b: int)
    requires
        0 <= a < 64,
        0 <= b < 64,
    ensures
        clear_between(occ, a, b) == clear_between(occ, b, a),
{
    assert forall|u: int| 0 <= u < 64 implies between(a, u, b) == between(b, u, a) by {
        lemma_between_sym(a, u, b);
    }
}

} // verus!
