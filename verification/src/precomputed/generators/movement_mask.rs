//! For each square, the squares that each kind of piece reaches from it on an empty board.

use vstd::prelude::*;
use crate::chess::consts::{BISHOP_DIRECTIONS, BLACK_PAWN_ATTACKS_DIRECTIONS, KING_DIRECTIONS, KNIGHT_DIRECTIONS, QUEEN_DIRECTIONS, ROOK_DIRECTIONS, WHITE_PAWN_ATTACKS_DIRECTIONS};
use crate::chess::geometry::{abs, bishop_line, contains_dir, df, dr, king_step, knight_step, pawn_attack, pawn_jump, pawn_push, queen_line, rook_line, sgn, unit_dir, unit_dirs};
use crate::chess::types::color::Color;
use crate::chess::types::square::Square;
use crate::general::bits::{group_bits, member};
use crate::precomputed::generators::helpers::{create_dynamic_mask, create_static_mask, INCLUDE_EDGE};

verus! {

pub struct MovementMasks {
    pub knight: [u64; 64],
    pub bishop: [u64; 64],
    pub rook: [u64; 64],
    pub queen: [u64; 64],
    pub king: [u64; 64],
    pub white_pawn_move: [u64; 64],
    pub black_pawn_move: [u64; 64],
    pub white_pawn_attacks: [u64; 64],
    pub black_pawn_attacks: [u64; 64],
    pub white_double_jump: [u64; 64],
    pub black_double_jump: [u64; 64],
}

pub proof fn lemma_knight_dirs(dx: int, dy: int)
    ensures
        contains_dir(KNIGHT_DIRECTIONS@, dx, dy) <==> ((abs(dx) == 1 && abs(dy) == 2) || (abs(dx) == 2 && abs(dy)
            == 1)),
{
    let d = KNIGHT_DIRECTIONS@;
    assert(d[0] == (-2i8, 1i8) && d[1] == (-1i8, 2i8) && d[2] == (1i8, 2i8) && d[3] == (2i8, 1i8));
    assert(d[4] == (2i8, -1i8) && d[5] == (1i8, -2i8) && d[6] == (-1i8, -2i8) && d[7] == (-2i8, -1i8));
    if contains_dir(d, dx, dy) {
        let k = choose|k: int| 0 <= k < d.len() && (#[trigger] d[k]).0 == dx && d[k].1 == dy;
        assert(k == 0 || k == 1 || k == 2 || k == 3 || k == 4 || k == 5 || k == 6 || k == 7);
    }
}

pub proof fn lemma_king_dirs(dx: int, dy: int)
    ensures
        contains_dir(KING_DIRECTIONS@, dx, dy) <==> unit_dir(dx, dy),
        unit_dirs(KING_DIRECTIONS@),
{
    let d = KING_DIRECTIONS@;
    assert(d[0] == (-1i8, 1i8) && d[1] == (0i8, 1i8) && d[2] == (1i8, 1i8) && d[3] == (1i8, 0i8));
    assert(d[4] == (1i8, -1i8) && d[5] == (0i8, -1i8) && d[6] == (-1i8, -1i8) && d[7] == (-1i8, 0i8));
    if contains_dir(d, dx, dy) {
        let k = choose|k: int| 0 <= k < d.len() && (#[trigger] d[k]).0 == dx && d[k].1 == dy;
        assert(k == 0 || k == 1 || k == 2 || k == 3 || k == 4 || k == 5 || k == 6 || k == 7);
    }
    assert forall|k: int| 0 <= k < d.len() implies -1 <= (#[trigger] d[k]).0 <= 1 && -1 <= d[k].1 <= 1 && (
    d[k].0 != 0 || d[k].1 != 0) by {
        assert(k == 0 || k == 1 || k == 2 || k == 3 || k == 4 || k == 5 || k == 6 || k == 7);
    }
}

pub proof fn lemma_queen_dirs(dx: int, dy: int)
    ensures
        contains_dir(QUEEN_DIRECTIONS@, dx, dy) <==> unit_dir(dx, dy),
        unit_dirs(QUEEN_DIRECTIONS@),
{
    let d = QUEEN_DIRECTIONS@;
    assert(d[0] == (1i8, 1i8) && d[1] == (-1i8, 1i8) && d[2] == (-1i8, -1i8) && d[3] == (1i8, -1i8));
    assert(d[4] == (1i8, 0i8) && d[5] == (-1i8, 0i8) && d[6] == (0i8, 1i8) && d[7] == (0i8, -1i8));
    if contains_dir(d, dx, dy) {
        let k = choose|k: int| 0 <= k < d.len() && (#[trigger] d[k]).0 == dx && d[k].1 == dy;
        assert(k == 0 || k == 1 || k == 2 || k == 3 || k == 4 || k == 5 || k == 6 || k == 7);
    }
    assert forall|k: int| 0 <= k < d.len() implies -1 <= (#[trigger] d[k]).0 <= 1 && -1 <= d[k].1 <= 1 && (
    d[k].0 != 0 || d[k].1 != 0) by {
        assert(k == 0 || k == 1 || k == 2 || k == 3 || k == 4 || k == 5 || k == 6 || k == 7);
    }
}

pub proof fn lemma_rook_dirs(dx: int, dy: int)
    ensures
        contains_dir(ROOK_DIRECTIONS@, dx, dy) <==> (unit_dir(dx, dy) && (dx == 0 || dy == 0)),
        unit_dirs(ROOK_DIRECTIONS@),
{
    let d = ROOK_DIRECTIONS@;
    assert(d[0] == (1i8, 0i8) && d[1] == (-1i8, 0i8) && d[2] == (0i8, 1i8) && d[3] == (0i8, -1i8));
    if contains_dir(d, dx, dy) {
        let k = choose|k: int| 0 <= k < d.len() && (#[trigger] d[k]).0 == dx && d[k].1 == dy;
        assert(k == 0 || k == 1 || k == 2 || k == 3);
    }
    assert forall|k: int| 0 <= k < d.len() implies -1 <= (#[trigger] d[k]).0 <= 1 && -1 <= d[k].1 <= 1 && (
    d[k].0 != 0 || d[k].1 != 0) by {
        assert(k == 0 || k == 1 || k == 2 || k == 3);
    }
}

pub proof fn lemma_bishop_dirs(dx: int, dy: int)
    ensures
        contains_dir(BISHOP_DIRECTIONS@, dx, dy) <==> (unit_dir(dx, dy) && dx != 0 && dy != 0),
        unit_dirs(BISHOP_DIRECTIONS@),
{
    let d = BISHOP_DIRECTIONS@;
    assert(d[0] == (1i8, 1i8) && d[1] == (-1i8, 1i8) && d[2] == (-1i8, -1i8) && d[3] == (1i8, -1i8));
    if contains_dir(d, dx, dy) {
        let k = choose|k: int| 0 <= k < d.len() && (#[trigger] d[k]).0 == dx && d[k].1 == dy;
        assert(k == 0 || k == 1 || k == 2 || k == 3);
    }
    assert forall|k: int| 0 <= k < d.len() implies -1 <= (#[trigger] d[k]).0 <= 1 && -1 <= d[k].1 <= 1 && (
    d[k].0 != 0 || d[k].1 != 0) by {
        assert(k == 0 || k == 1 || k == 2 || k == 3);
    }
}

proof fn lemma_pawn_dirs(dx: int, dy: int)
    ensures
        contains_dir(WHITE_PAWN_ATTACKS_DIRECTIONS@, dx, dy) <==> (abs(dx) == 1 && dy == 1),
        contains_dir(BLACK_PAWN_ATTACKS_DIRECTIONS@, dx, dy) <==> (abs(dx) == 1 && dy == -1),
{
    let w = WHITE_PAWN_ATTACKS_DIRECTIONS@;
    let b = BLACK_PAWN_ATTACKS_DIRECTIONS@;
    assert(w[0] == (1i8, 1i8) && w[1] == (-1i8, 1i8));
    assert(b[0] == (1i8, -1i8) && b[1] == (-1i8, -1i8));
    if contains_dir(w, dx, dy) {
        let k = choose|k: int| 0 <= k < w.len() && (#[trigger] w[k]).0 == dx && w[k].1 == dy;
        assert(k == 0 || k == 1);
    }
    if contains_dir(b, dx, dy) {
        let k = choose|k: int| 0 <= k < b.len() && (#[trigger] b[k]).0 == dx && b[k].1 == dy;
        assert(k == 0 || k == 1);
    }
}

/// `mask` holds exactly the squares that stand in the relation `rel` to `a`.
pub open spec fn reaches(mask: u64, a: int, rel: spec_fn(int, int) -> bool) -> bool {
    forall|t: int| 0 <= t < 64 ==> (#[trigger] member(mask, t) <==> rel(a, t))
}

/// The masks of the square `a` are what the geometry of the board says.
pub open spec fn row_ok(masks: &MovementMasks, a: int) -> bool {
    &&& reaches(masks.knight[a], a, |x: int, y: int| knight_step(x, y))
    &&& reaches(masks.king[a], a, |x: int, y: int| king_step(x, y))
    &&& reaches(masks.rook[a], a, |x: int, y: int| rook_line(x, y))
    &&& reaches(masks.bishop[a], a, |x: int, y: int| bishop_line(x, y))
    &&& reaches(masks.queen[a], a, |x: int, y: int| queen_line(x, y))
    &&& reaches(masks.white_pawn_attacks[a], a, |x: int, y: int| pawn_attack(Color::White, x, y))
    &&& reaches(masks.black_pawn_attacks[a], a, |x: int, y: int| pawn_attack(Color::Black, x, y))
    &&& reaches(masks.white_pawn_move[a], a, |x: int, y: int| pawn_push(Color::White, x, y))
    &&& reaches(masks.black_pawn_move[a], a, |x: int, y: int| pawn_push(Color::Black, x, y))
    &&& reaches(masks.white_double_jump[a], a, |x: int, y: int| pawn_jump(Color::White, x, y))
    &&& reaches(masks.black_double_jump[a], a, |x: int, y: int| pawn_jump(Color::Black, x, y))
}

impl MovementMasks {
    /// The squares that the pawns of `color` attack, by the square of the pawn.
    pub open spec fn attacks_of(&self, color: Color) -> Seq<u64> {
        match color {
            Color::White => self.white_pawn_attacks@,
            Color::Black => self.black_pawn_attacks@,
        }
    }

    /// The square to which a pawn of `color` steps, by the square of the pawn.
    pub open spec fn moves_of(&self, color: Color) -> Seq<u64> {
        match color {
            Color::White => self.white_pawn_move@,
            Color::Black => self.black_pawn_move@,
        }
    }

    /// The square to which a pawn of `color` jumps from its first rank, by the square of the pawn.
    pub open spec fn jumps_of(&self, color: Color) -> Seq<u64> {
        match color {
            Color::White => self.white_double_jump@,
            Color::Black => self.black_double_jump@,
        }
    }

    /// Every mask is what the geometry of the board says.
    pub open spec fn wf(&self) -> bool {
        forall|a: int| 0 <= a < 64 ==> #[trigger] row_ok(self, a)
    }

    pub fn new() -> (masks: MovementMasks)
        ensures
            masks.wf(),
    {
        let mut masks = MovementMasks {
            knight: [0; 64],
            bishop: [0; 64],
            rook: [0; 64],
            queen: [0; 64],
            king: [0; 64],
            white_pawn_move: [0; 64],
            black_pawn_move: [0; 64],
            white_pawn_attacks: [0; 64],
            black_pawn_attacks: [0; 64],
            white_double_jump: [0; 64],
            black_double_jump: [0; 64],
        };
        proof {
            lemma_rook_dirs(0, 0);
            lemma_bishop_dirs(0, 0);
            lemma_queen_dirs(0, 0);
        }
        let mut i: usize = 0;
        while i < 64
            invariant
                i <= 64,
                unit_dirs(ROOK_DIRECTIONS@),
                unit_dirs(BISHOP_DIRECTIONS@),
                unit_dirs(QUEEN_DIRECTIONS@),
                forall|a: int| 0 <= a < i ==> #[trigger] row_ok(&masks, a),
            decreases 64 - i,
        {
            let square = Square::from_index(i as u8);
            let rank = square.rank();
            let ghost before = masks;
            let mut white_jump: u64 = 0;
            let mut black_jump: u64 = 0;
            let mut white_move: u64 = 0;
            let mut black_move: u64 = 0;
            if rank.is_pawn_start(Color::White) {
                white_jump = 1u64 << ((i + 16) as u64);
            }
            if rank.is_pawn_start(Color::Black) {
                black_jump = 1u64 << ((i - 16) as u64);
            }
            if !rank.is_pawn_promotion(Color::White) {
                white_move = 1u64 << ((i + 8) as u64);
            }
            if !rank.is_pawn_promotion(Color::Black) {
                black_move = 1u64 << ((i - 8) as u64);
            }
            masks.white_double_jump[i] = white_jump;
            masks.black_double_jump[i] = black_jump;
            masks.white_pawn_move[i] = white_move;
            masks.black_pawn_move[i] = black_move;
            masks.white_pawn_attacks[i] = create_static_mask(&WHITE_PAWN_ATTACKS_DIRECTIONS, square);
            masks.black_pawn_attacks[i] = create_static_mask(&BLACK_PAWN_ATTACKS_DIRECTIONS, square);
            masks.knight[i] = create_static_mask(&KNIGHT_DIRECTIONS, square);
            masks.king[i] = create_static_mask(&KING_DIRECTIONS, square);
            masks.bishop[i] = create_dynamic_mask::<INCLUDE_EDGE>(&BISHOP_DIRECTIONS, square);
            masks.rook[i] = create_dynamic_mask::<INCLUDE_EDGE>(&ROOK_DIRECTIONS, square);
            masks.queen[i] = create_dynamic_mask::<INCLUDE_EDGE>(&QUEEN_DIRECTIONS, square);
            proof {
                broadcast use group_bits;
                let a = i as int;
                assert forall|t: int| 0 <= t < 64 implies (#[trigger] member(masks.knight[a], t) <==> knight_step(a, t)) by {
                    lemma_knight_dirs(df(a, t), dr(a, t));
                }
                assert forall|t: int| 0 <= t < 64 implies (#[trigger] member(masks.king[a], t) <==> king_step(a, t)) by {
                    lemma_king_dirs(df(a, t), dr(a, t));
                }
                assert forall|t: int| 0 <= t < 64 implies (#[trigger] member(masks.rook[a], t) <==> rook_line(a, t)) by {
                    lemma_rook_dirs(sgn(df(a, t)), sgn(dr(a, t)));
                }
                assert forall|t: int| 0 <= t < 64 implies (#[trigger] member(masks.bishop[a], t) <==> bishop_line(a, t)) by {
                    lemma_bishop_dirs(sgn(df(a, t)), sgn(dr(a, t)));
                }
                assert forall|t: int| 0 <= t < 64 implies (#[trigger] member(masks.queen[a], t) <==> queen_line(a, t)) by {
                    lemma_queen_dirs(sgn(df(a, t)), sgn(dr(a, t)));
                }
                assert forall|t: int| 0 <= t < 64 implies (#[trigger] member(masks.white_pawn_attacks[a], t) <==> pawn_attack(Color::White, a, t)) by {
                    lemma_pawn_dirs(df(a, t), dr(a, t));
                }
                assert forall|t: int| 0 <= t < 64 implies (#[trigger] member(masks.black_pawn_attacks[a], t) <==> pawn_attack(Color::Black, a, t)) by {
                    lemma_pawn_dirs(df(a, t), dr(a, t));
                }
                assert forall|t: int| 0 <= t < 64 implies (#[trigger] member(masks.white_pawn_move[a], t) <==> pawn_push(Color::White, a, t)) by {
                    assert(white_move == 0 || white_move == crate::general::bits::bit(a + 8));
                }
                assert forall|t: int| 0 <= t < 64 implies (#[trigger] member(masks.black_pawn_move[a], t) <==> pawn_push(Color::Black, a, t)) by {
                    assert(black_move == 0 || black_move == crate::general::bits::bit(a - 8));
                }
                assert forall|t: int| 0 <= t < 64 implies (#[trigger] member(masks.white_double_jump[a], t) <==> pawn_jump(Color::White, a, t)) by {
                    assert(white_jump == 0 || white_jump == crate::general::bits::bit(a + 16));
                }
                assert forall|t: int| 0 <= t < 64 implies (#[trigger] member(masks.black_double_jump[a], t) <==> pawn_jump(Color::Black, a, t)) by {
                    assert(black_jump == 0 || black_jump == crate::general::bits::bit(a - 16));
                }
                assert(row_ok(&masks, a));
                assert forall|b: int| 0 <= b < i implies #[trigger] row_ok(&masks, b) by {
                    assert(row_ok(&before, b));
                    assert(masks.knight[b] == before.knight[b]);
                    assert(masks.king[b] == before.king[b]);
                    assert(masks.rook[b] == before.rook[b]);
                    assert(masks.bishop[b] == before.bishop[b]);
                    assert(masks.queen[b] == before.queen[b]);
                    assert(masks.white_pawn_attacks[b] == before.white_pawn_attacks[b]);
                    assert(masks.black_pawn_attacks[b] == before.black_pawn_attacks[b]);
                    assert(masks.white_pawn_move[b] == before.white_pawn_move[b]);
                    assert(masks.black_pawn_move[b] == before.black_pawn_move[b]);
                    assert(masks.white_double_jump[b] == before.white_double_jump[b]);
                    assert(masks.black_double_jump[b] == before.black_double_jump[b]);
                }
            }
            i += 1;
        }
        masks
    }

    /// The squares that a pawn of `color` on `square` attacks.
    pub fn pawn_attacks(&self, color: Color, square: Square) -> (r: u64)
        ensures
            r == self.attacks_of(color)[square.idx()],
    {
        match color {
            Color::White => self.white_pawn_attacks[square.index() as usize],
            Color::Black => self.black_pawn_attacks[square.index() as usize],
        }
    }

    /// The square to which a pawn of `color` on `square` steps, as a set.
    pub fn pawn_move(&self, color: Color, square: Square) -> (r: u64)
        ensures
            r == self.moves_of(color)[square.idx()],
    {
        match color {
            Color::White => self.white_pawn_move[square.index() as usize],
            Color::Black => self.black_pawn_move[square.index() as usize],
        }
    }

    /// The square to which a pawn of `color` on `square` jumps, as a set; empty off its first rank.
    pub fn pawn_jump(&self, color: Color, square: Square) -> (r: u64)
        ensures
            r == self.jumps_of(color)[square.idx()],
    {
        match color {
            Color::White => self.white_double_jump[square.index() as usize],
            Color::Black => self.black_double_jump[square.index() as usize],
        }
    }
}

} // verus!
