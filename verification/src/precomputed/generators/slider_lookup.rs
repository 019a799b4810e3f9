//! The squares that a rook or a bishop reaches, looked up by its square and
//! by the pieces that stand in its way.
//!
//! For each square the table holds one entry for each set of blockers on the
//! lines through the square, the last square of each line left out: whether
//! that one is occupied makes no difference. The entry is found by gathering
//! the bits of the occupancy on those lines into a number.

use vstd::prelude::*;
use std::collections::HashSet;
use crate::chess::consts::{BISHOP_DIRECTIONS, NUM_DIAGONAL_ENTRIES, NUM_ORTHOGONAL_ENTRIES, ROOK_DIRECTIONS};
use crate::chess::geometry::{between, bishop_line, clear_between, clear_upto, contains_dir, df, dr, file_of, in_dir, inner, lemma_between_inner, lemma_clear_extend, lemma_contains_none, lemma_contains_step, lemma_ray_extend, lemma_slide_end_block, lemma_slide_end_board, queen_line, rank_of, ray_mask, rook_line, sgn, slide_mask, step, unit_dirs};
use crate::chess::types::file::File;
use crate::chess::types::rank::Rank;
use crate::chess::types::square::Square;
use crate::general::bits::{all_squares, bit, group_bits, lemma_count_missing, lemma_small, lemma_test_bit, member};
use crate::precomputed::generators::helpers::{create_dynamic_mask, NO_EDGE};
use crate::precomputed::generators::movement_mask::{lemma_bishop_dirs, lemma_rook_dirs};
use crate::precomputed::generators::zobrist::{random_u64, thread_generator};

verus! {

#[derive(Clone, Copy, PartialEq, Eq, Structural, Debug)]
pub enum SliderType {
    Orthogonal,
    Diagonal,
}

/// `a` and `t` lie on a line along which a slider of `kind` moves.
pub open spec fn line_of(kind: SliderType, a: int, t: int) -> bool {
    match kind {
        SliderType::Orthogonal => rook_line(a, t),
        SliderType::Diagonal => bishop_line(a, t),
    }
}

/// A slider of `kind` on `a` reaches `t` over the occupancy `occ`: the first piece in its way included.
pub open spec fn slides(kind: SliderType, occ: u64, a: int, t: int) -> bool {
    line_of(kind, a, t) && clear_between(occ, a, t)
}

/// `mask` holds exactly the squares that a slider of `kind` on `a` reaches over `occ`.
pub open spec fn attack_set(mask: u64, kind: SliderType, occ: u64, a: int) -> bool {
    forall|t: int| 0 <= t < 64 ==> (#[trigger] member(mask, t) <==> slides(kind, occ, a, t))
}

/// `mask` holds the lines of a slider of `kind` through `a` without the last square of each.
pub open spec fn mask_ok(mask: u64, kind: SliderType, a: int) -> bool {
    forall|t: int| 0 <= t < 64 ==> (#[trigger] member(mask, t) <==> (line_of(kind, a, t) && inner(a, t)))
}

/// `list` holds the squares of `mask`, lowest first, and they are fewer than 64.
pub open spec fn list_ok(list: Seq<Square>, mask: u64) -> bool {
    &&& list.len() < 64
    &&& forall|j: int| 0 <= j < list.len() ==> member(mask, (#[trigger] list[j]).idx())
    &&& forall|j: int, k: int| 0 <= j < k < list.len() ==> (#[trigger] list[j]).idx() < (#[trigger] list[k]).idx()
    &&& forall|t: int| member(mask, t) ==> exists|j: int| 0 <= j < list.len() && #[trigger] list[j].idx() == t
}

/// The set that holds the `j`-th square of `list` for each `j` below `n` that is in `p`.
pub open spec fn deposit(list: Seq<Square>, p: u64, n: int) -> u64
    decreases n,
{
    if n <= 0 {
        0
    } else {
        deposit(list, p, n - 1) | if member(p, n - 1) {
            bit(list[n - 1].idx())
        } else {
            0
        }
    }
}

/// The number that holds `j` for each `j` below `n` whose square of `list` is in `x`.
pub open spec fn extract(list: Seq<Square>, x: u64, n: int) -> u64
    decreases n,
{
    if n <= 0 {
        0
    } else {
        extract(list, x, n - 1) | if member(x, list[n - 1].idx()) {
            bit(n - 1)
        } else {
            0
        }
    }
}

pub proof fn lemma_deposit(list: Seq<Square>, p: u64, n: int, t: int)
    requires
        0 <= n <= list.len(),
        0 <= t < 64,
    ensures
        member(deposit(list, p, n), t) <==> exists|j: int|
            0 <= j < n && #[trigger] list[j].idx() == t && member(p, j),
    decreases n,
{
    broadcast use group_bits;
    if n > 0 {
        lemma_deposit(list, p, n - 1, t);
        list[n - 1].lemma_idx();
        let x: u64 = if member(p, n - 1) {
            bit(list[n - 1].idx())
        } else {
            0
        };
        assert(member(deposit(list, p, n), t) == (member(deposit(list, p, n - 1), t) || member(x, t)));
        if member(deposit(list, p, n - 1), t) {
            let j = choose|j: int| 0 <= j < n - 1 && #[trigger] list[j].idx() == t && member(p, j);
            assert(0 <= j < n && list[j].idx() == t && member(p, j));
        }
        if member(x, t) {
            assert(list[n - 1].idx() == t && member(p, n - 1));
        }
        if exists|j: int| 0 <= j < n && #[trigger] list[j].idx() == t && member(p, j) {
            let j = choose|j: int| 0 <= j < n && #[trigger] list[j].idx() == t && member(p, j);
            if j < n - 1 {
                assert(0 <= j < n - 1 && list[j].idx() == t && member(p, j));
            }
        }
    }
}

pub proof fn lemma_extract(list: Seq<Square>, x: u64, n: int, j: int)
    requires
        0 <= n <= list.len(),
        n <= 64,
    ensures
        member(extract(list, x, n), j) <==> (0 <= j < n && member(x, list[j].idx())),
    decreases n,
{
    broadcast use group_bits;
    if n > 0 {
        lemma_extract(list, x, n - 1, j);
    }
}

/// Gathering what was deposited gives the number back, and depositing what was gathered gives
/// the part of the set that lies on the squares of the list.
pub proof fn lemma_deposit_extract(list: Seq<Square>, mask: u64, x: u64, u: int)
    requires
        list_ok(list, mask),
        0 <= u < 64,
        member(mask, u),
    ensures
        member(deposit(list, extract(list, x, list.len() as int), list.len() as int), u) == member(x, u),
{
    let n = list.len() as int;
    let idx = extract(list, x, n);
    lemma_deposit(list, idx, n, u);
    let j0 = choose|j: int| 0 <= j < list.len() && #[trigger] list[j].idx() == u;
    lemma_extract(list, x, n, j0);
    if member(deposit(list, idx, n), u) {
        let j = choose|j: int| 0 <= j < n && #[trigger] list[j].idx() == u && member(idx, j);
        if j < j0 {
            assert(list[j].idx() < list[j0].idx());
        }
        if j0 < j {
            assert(list[j0].idx() < list[j].idx());
        }
    }
    if member(x, u) {
        assert(0 <= j0 < n && list[j0].idx() == u && member(idx, j0));
    }
}

/// The entry of `table` at `off + p`.
pub open spec fn entry(table: Seq<u64>, off: int, p: int) -> u64 {
    table[off + p]
}

/// From `off` on, `table` holds one entry for each set of blockers on the squares of `list`:
/// the squares that a slider of `kind` on `a` reaches over that set.
pub open spec fn block_ok(table: Seq<u64>, off: int, list: Seq<Square>, a: int, kind: SliderType) -> bool {
    &&& 0 <= off
    &&& off + (1u64 << (list.len() as u64)) <= table.len()
    &&& forall|p: int|
        0 <= p < (1u64 << (list.len() as u64)) ==> attack_set(
            #[trigger] entry(table, off, p),
            kind,
            deposit(list, p as u64, list.len() as int),
            a,
        )
}

/// Every set of blockers on the squares of `list`: the set with number `p` holds the `j`-th
/// square for each `j` in `p`.
pub open spec fn patterns(list: Seq<Square>) -> Seq<u64> {
    Seq::new((1u64 << (list.len() as u64)) as nat, |p: int| deposit(list, p as u64, list.len() as int))
}

/// The key of a set of blockers under a magic number: their product, cut off to 64 bits, shifted
/// down by `shift`.
pub open spec fn magic_key(blocker: u64, magic: u64, shift: u8) -> u64 {
    blocker.wrapping_mul(magic) >> (shift as u64)
}

/// No two of the sets of blockers have the same key.
pub open spec fn keys_differ(blockers: Seq<u64>, magic: u64, shift: u8) -> bool {
    forall|i: int, j: int|
        0 <= i < j < blockers.len() ==> magic_key(#[trigger] blockers[i], magic, shift) != magic_key(
            #[trigger] blockers[j],
            magic,
            shift,
        )
}

/// Whether `magic` with `shift` gives each of `blockers` a key of its own, so that the keys can
/// index a table.
pub fn is_magic(blockers: &Vec<u64>, magic: u64, shift: u8) -> (r: bool)
    requires
        shift < 64,
    ensures
        r == keys_differ(blockers@, magic, shift),
{
    broadcast use vstd::std_specs::hash::group_hash_axioms;

    let mut all_keys: HashSet<u64> = HashSet::new();
    let mut i: usize = 0;
    while i < blockers.len()
        invariant
            i <= blockers.len(),
            shift < 64,
            forall|k: u64|
                all_keys@.contains(k) <==> exists|j: int|
                    0 <= j < i && magic_key(#[trigger] blockers@[j], magic, shift) == k,
            forall|a: int, b: int|
                0 <= a < b < i ==> magic_key(#[trigger] blockers@[a], magic, shift) != magic_key(
                    #[trigger] blockers@[b],
                    magic,
                    shift,
                ),
        decreases blockers.len() - i,
    {
        let new_key: u64 = blockers[i].wrapping_mul(magic) >> (shift as u64);
        let ghost before = all_keys@;
        let fresh: bool = all_keys.insert(new_key);
        if !fresh {
            proof {
                let j = choose|j: int| 0 <= j < i && magic_key(#[trigger] blockers@[j], magic, shift) == new_key;
                assert(magic_key(blockers@[j], magic, shift) == magic_key(blockers@[i as int], magic, shift));
            }
            return false;
        }
        proof {
            assert forall|k: u64| all_keys@.contains(k) <==> exists|j: int|
                0 <= j < i + 1 && magic_key(#[trigger] blockers@[j], magic, shift) == k by {
                if before.contains(k) {
                    let j = choose|j: int| 0 <= j < i && magic_key(#[trigger] blockers@[j], magic, shift) == k;
                    assert(0 <= j < i + 1 && magic_key(blockers@[j], magic, shift) == k);
                }
                if k == new_key {
                    assert(magic_key(blockers@[i as int], magic, shift) == k);
                }
                if exists|j: int| 0 <= j < i + 1 && magic_key(#[trigger] blockers@[j], magic, shift) == k {
                    let j = choose|j: int| 0 <= j < i + 1 && magic_key(#[trigger] blockers@[j], magic, shift) == k;
                    if j < i {
                        assert(before.contains(k));
                    }
                }
            }
            assert forall|a: int, b: int| 0 <= a < b < i + 1 implies magic_key(
                #[trigger] blockers@[a],
                magic,
                shift,
            ) != magic_key(#[trigger] blockers@[b], magic, shift) by {
                if b == i {
                    if magic_key(blockers@[a], magic, shift) == new_key {
                        assert(before.contains(new_key));
                    }
                }
            }
        }
        i += 1;
    }
    true
}

pub struct SliderLookup<const NUM_ENTRIES: usize> {
    pub flat_table: Vec<u64>,
    pub offsets: [usize; 64],
    pub no_edge_masks: [u64; 64],
    pub squares: Vec<Vec<Square>>,
}

impl<const NUM_ENTRIES: usize> SliderLookup<NUM_ENTRIES> {
    /// The kind of slider that the table is for.
    pub open spec fn kind() -> SliderType {
        if NUM_ENTRIES == NUM_DIAGONAL_ENTRIES {
            SliderType::Diagonal
        } else {
            SliderType::Orthogonal
        }
    }

    pub open spec fn masks_ok(&self) -> bool {
        forall|a: int| 0 <= a < 64 ==> mask_ok(#[trigger] self.no_edge_masks[a], Self::kind(), a)
    }

    pub open spec fn lists_ok(&self) -> bool {
        &&& self.squares.len() == 64
        &&& forall|a: int| 0 <= a < 64 ==> list_ok((#[trigger] self.squares[a])@, self.no_edge_masks[a])
    }

    pub open spec fn table_ok(&self) -> bool {
        forall|a: int|
            0 <= a < 64 ==> block_ok(
                self.flat_table@,
                #[trigger] self.offsets[a] as int,
                self.squares[a]@,
                a,
                Self::kind(),
            )
    }

    pub open spec fn wf(&self) -> bool {
        &&& self.masks_ok()
        &&& self.lists_ok()
        &&& self.table_ok()
    }

    pub fn new() -> (lookup: Self)
        requires
            NUM_ENTRIES == NUM_DIAGONAL_ENTRIES || NUM_ENTRIES == NUM_ORTHOGONAL_ENTRIES,
        ensures
            lookup.wf(),
    {
        let mut lookup = SliderLookup {
            flat_table: Vec::new(),
            offsets: [0; 64],
            no_edge_masks: [0; 64],
            squares: Vec::new(),
        };
        let slider_type = if NUM_ENTRIES == NUM_DIAGONAL_ENTRIES {
            SliderType::Diagonal
        } else {
            SliderType::Orthogonal
        };
        proof {
            lemma_rook_dirs(0, 0);
            lemma_bishop_dirs(0, 0);
        }
        let mut i: usize = 0;
        while i < 64
            invariant
                i <= 64,
                slider_type == Self::kind(),
                unit_dirs(ROOK_DIRECTIONS@),
                unit_dirs(BISHOP_DIRECTIONS@),
                lookup.flat_table.len() == 0,
                lookup.squares.len() == i,
                forall|a: int| 0 <= a < i ==> mask_ok(#[trigger] lookup.no_edge_masks[a], Self::kind(), a),
                forall|a: int|
                    0 <= a < i ==> list_ok((#[trigger] lookup.squares[a])@, lookup.no_edge_masks[a]),
            decreases 64 - i,
        {
            let square = Square::from_index(i as u8);
            let mask: u64 = match slider_type {
                SliderType::Diagonal => create_dynamic_mask::<NO_EDGE>(&BISHOP_DIRECTIONS, square),
                SliderType::Orthogonal => create_dynamic_mask::<NO_EDGE>(&ROOK_DIRECTIONS, square),
            };
            let list = all_squares(mask);
            proof {
                let a = i as int;
                assert forall|t: int| 0 <= t < 64 implies (#[trigger] member(mask, t) <==> (line_of(
                    slider_type,
                    a,
                    t,
                ) && inner(a, t))) by {
                    lemma_rook_dirs(sgn(df(a, t)), sgn(dr(a, t)));
                    lemma_bishop_dirs(sgn(df(a, t)), sgn(dr(a, t)));
                }
                assert(!member(mask, a));
                lemma_count_missing(mask, a);
                assert forall|t: int| member(mask, t) implies exists|j: int|
                    0 <= j < list.len() && #[trigger] list[j].idx() == t by {}
            }
            let ghost before = lookup;
            lookup.no_edge_masks[i] = mask;
            lookup.squares.push(list);
            proof {
                assert forall|a: int| 0 <= a < i + 1 implies list_ok(
                    (#[trigger] lookup.squares[a])@,
                    lookup.no_edge_masks[a],
                ) by {
                    if a < i {
                        assert(list_ok(before.squares[a]@, before.no_edge_masks[a]));
                        assert(lookup.squares[a] == before.squares[a]);
                    }
                }
            }
            i += 1;
        }
        lookup.generate_move_lookup(slider_type);
        lookup
    }

    fn generate_move_lookup(&mut self, slider_type: SliderType)
        requires
            old(self).masks_ok(),
            old(self).lists_ok(),
            old(self).flat_table.len() == 0,
            slider_type == Self::kind(),
        ensures
            final(self).wf(),
    {
        let mut piece_index: usize = 0;
        while piece_index < 64
            invariant
                piece_index <= 64,
                slider_type == Self::kind(),
                self.squares == old(self).squares,
                self.no_edge_masks == old(self).no_edge_masks,
                self.masks_ok(),
                self.lists_ok(),
                forall|a: int|
                    0 <= a < piece_index ==> block_ok(
                        self.flat_table@,
                        #[trigger] self.offsets[a] as int,
                        self.squares[a]@,
                        a,
                        Self::kind(),
                    ),
            decreases 64 - piece_index,
        {
            let square = Square::from_index(piece_index as u8);
            let blockers = self.generate_blockers(square);
            let last_offset: usize = self.flat_table.len();
            let ghost list = self.squares[piece_index as int]@;
            let ghost outer = *self;
            let mut q: usize = 0;
            while q < blockers.len()
                invariant
                    piece_index < 64,
                    q <= blockers.len(),
                    square.idx() == piece_index,
                    slider_type == Self::kind(),
                    self.squares == old(self).squares,
                    self.no_edge_masks == old(self).no_edge_masks,
                    self.offsets == outer.offsets,
                    list == self.squares[piece_index as int]@,
                    blockers.len() == (1u64 << (list.len() as u64)),
                    forall|p: int| 0 <= p < blockers.len() ==> blockers[p] == deposit(list, p as u64, list.len() as int),
                    self.flat_table.len() == last_offset + q,
                    forall|k: int| 0 <= k < last_offset ==> self.flat_table[k] == outer.flat_table[k],
                    forall|p: int|
                        0 <= p < q ==> attack_set(
                            #[trigger] entry(self.flat_table@, last_offset as int, p),
                            Self::kind(),
                            deposit(list, p as u64, list.len() as int),
                            piece_index as int,
                        ),
                decreases blockers.len() - q,
            {
                let blocker: u64 = blockers[q];
                let valid_moves: u64 = self.get_moves_from_blockers(square, &slider_type, blocker);
                let ghost before = self.flat_table@;
                self.flat_table.push(valid_moves);
                proof {
                    assert forall|p: int| 0 <= p < q + 1 implies attack_set(
                        #[trigger] entry(self.flat_table@, last_offset as int, p),
                        Self::kind(),
                        deposit(list, p as u64, list.len() as int),
                        piece_index as int,
                    ) by {
                        if p < q {
                            assert(entry(self.flat_table@, last_offset as int, p) == entry(
                                before,
                                last_offset as int,
                                p,
                            ));
                        }
                    }
                }
                q += 1;
            }
            self.offsets[piece_index] = last_offset;
            proof {
                assert forall|a: int| 0 <= a < piece_index + 1 implies block_ok(
                    self.flat_table@,
                    #[trigger] self.offsets[a] as int,
                    self.squares[a]@,
                    a,
                    Self::kind(),
                ) by {
                    if a < piece_index {
                        let off = outer.offsets[a] as int;
                        assert(block_ok(outer.flat_table@, off, outer.squares[a]@, a, Self::kind()));
                        assert forall|p: int| 0 <= p < (1u64 << (self.squares[a]@.len() as u64)) implies attack_set(
                            #[trigger] entry(self.flat_table@, off, p),
                            Self::kind(),
                            deposit(self.squares[a]@, p as u64, self.squares[a]@.len() as int),
                            a,
                        ) by {
                            assert(entry(self.flat_table@, off, p) == entry(outer.flat_table@, off, p));
                        }
                    }
                }
            }
            piece_index += 1;
        }
    }

    /// The squares that a slider on `square` reaches when `blockers` stand in its way.
    pub fn get_moves_from_blockers(&self, square: Square, slider_type: &SliderType, blockers: u64) -> (r: u64)
        ensures
            attack_set(r, *slider_type, blockers, square.idx()),
    {
        let ghost a = square.idx();
        let x_start: i16 = square.file().index() as i16;
        let y_start: i16 = square.rank().index() as i16;
        let mut new_movement_mask: u64 = 0;
        proof {
            square.lemma_idx();
            lemma_rook_dirs(0, 0);
            lemma_bishop_dirs(0, 0);
            broadcast use group_bits;
            assert forall|t: int| 0 <= t < 64 implies !contains_dir(
                Self::directions(*slider_type).take(0),
                sgn(df(a, t)),
                sgn(dr(a, t)),
            ) by {
                lemma_contains_none(Self::directions(*slider_type), sgn(df(a, t)), sgn(dr(a, t)));
            }
        }
        let mut i: usize = 0;
        while i < 4
            invariant
                i <= 4,
                0 <= a < 64,
                a == square.idx(),
                x_start == file_of(a),
                y_start == rank_of(a),
                unit_dirs(ROOK_DIRECTIONS@),
                unit_dirs(BISHOP_DIRECTIONS@),
                forall|t: int|
                    0 <= t < 64 ==> (#[trigger] member(new_movement_mask, t) <==> (queen_line(a, t)
                        && contains_dir(Self::directions(*slider_type).take(i as int), sgn(df(a, t)), sgn(dr(a, t)))
                        && clear_between(blockers, a, t))),
            decreases 4 - i,
        {
            let direction = match slider_type {
                SliderType::Diagonal => BISHOP_DIRECTIONS[i],
                SliderType::Orthogonal => ROOK_DIRECTIONS[i],
            };
            assert(direction == Self::directions(*slider_type)[i as int]);
            let x_dir: i16 = direction.0 as i16;
            let y_dir: i16 = direction.1 as i16;
            let mut x_pos: i16 = x_start;
            let mut y_pos: i16 = y_start;
            let ghost before = new_movement_mask;
            let ghost mut n: int = 0;
            let ghost mut done: bool = false;
            proof {
                assert(ray_mask(new_movement_mask, before, a, x_dir as int, y_dir as int, 0, true));
                assert(clear_upto(blockers, a, x_dir as int, y_dir as int, 0));
            }
            loop
                invariant_except_break
                    !done,
                    ray_mask(new_movement_mask, before, a, x_dir as int, y_dir as int, n, true),
                    clear_upto(blockers, a, x_dir as int, y_dir as int, n),
                invariant
                    0 <= a < 64,
                    -1 <= x_dir <= 1,
                    -1 <= y_dir <= 1,
                    x_dir != 0 || y_dir != 0,
                    0 <= n <= 7,
                    0 <= x_pos <= 7,
                    0 <= y_pos <= 7,
                    x_pos == step(file_of(a), x_dir as int, n),
                    y_pos == step(rank_of(a), y_dir as int, n),
                ensures
                    done,
                    slide_mask(new_movement_mask, before, a, x_dir as int, y_dir as int, blockers),
                decreases 8 - n,
            {
                let new_x: i16 = x_pos + x_dir;
                let new_y: i16 = y_pos + y_dir;
                if (new_x > 7 || new_x < 0) || (new_y > 7 || new_y < 0) {
                    proof {
                        done = true;
                        lemma_slide_end_board(
                            new_movement_mask,
                            before,
                            a,
                            x_dir as int,
                            y_dir as int,
                            n,
                            blockers,
                        );
                    }
                    break ;
                }
                let file = File::from_index(new_x as u8);
                let rank = Rank::from_index(new_y as u8);
                let new_square = Square::from_coords(file, rank);
                let ghost prev = new_movement_mask;
                new_movement_mask = new_movement_mask | new_square.mask();
                proof {
                    broadcast use group_bits;
                    new_square.lemma_idx();
                    lemma_ray_extend(
                        new_movement_mask,
                        prev,
                        before,
                        a,
                        x_dir as int,
                        y_dir as int,
                        n,
                        new_square.idx(),
                        true,
                    );
                    lemma_test_bit(blockers, new_square.idx());
                }
                if blockers & new_square.mask() != 0 {
                    proof {
                        done = true;
                        lemma_slide_end_block(
                            new_movement_mask,
                            before,
                            a,
                            x_dir as int,
                            y_dir as int,
                            n,
                            blockers,
                            new_square.idx(),
                        );
                    }
                    break ;
                }
                proof {
                    lemma_clear_extend(blockers, a, x_dir as int, y_dir as int, n, new_square.idx());
                    n = n + 1;
                }
                x_pos = new_x;
                y_pos = new_y;
            }
            proof {
                assert forall|t: int| 0 <= t < 64 implies (#[trigger] member(new_movement_mask, t) <==> (queen_line(
                    a,
                    t,
                ) && contains_dir(Self::directions(*slider_type).take(i + 1), sgn(df(a, t)), sgn(dr(a, t)))
                    && clear_between(blockers, a, t))) by {
                    lemma_contains_step(Self::directions(*slider_type), i as int, sgn(df(a, t)), sgn(dr(a, t)));
                    assert(member(new_movement_mask, t) <==> (member(before, t) || (in_dir(
                        a,
                        x_dir as int,
                        y_dir as int,
                        t,
                    ) && clear_between(blockers, a, t))));
                    assert(member(before, t) <==> (queen_line(a, t) && contains_dir(
                        Self::directions(*slider_type).take(i as int),
                        sgn(df(a, t)),
                        sgn(dr(a, t)),
                    ) && clear_between(blockers, a, t)));
                }
            }
            i += 1;
        }
        proof {
            let d = Self::directions(*slider_type);
            assert(d.take(4) =~= d);
            assert forall|t: int| 0 <= t < 64 implies (#[trigger] member(new_movement_mask, t) <==> slides(
                *slider_type,
                blockers,
                a,
                t,
            )) by {
                lemma_rook_dirs(sgn(df(a, t)), sgn(dr(a, t)));
                lemma_bishop_dirs(sgn(df(a, t)), sgn(dr(a, t)));
            }
        }
        new_movement_mask
    }

    /// The directions in which a slider of `kind` moves.
    pub open spec fn directions(kind: SliderType) -> Seq<(i8, i8)> {
        match kind {
            SliderType::Diagonal => BISHOP_DIRECTIONS@,
            SliderType::Orthogonal => ROOK_DIRECTIONS@,
        }
    }

    /// Every set of blockers on the lines through `square`, the last square of each line left
    /// out: the set with number `p` holds the `j`-th of those squares for each `j` in `p`.
    pub fn generate_blockers(&self, square: Square) -> (r: Vec<u64>)
        requires
            self.lists_ok(),
        ensures
            r.len() == (1u64 << (self.squares[square.idx()]@.len() as u64)),
            forall|p: int|
                0 <= p < r.len() ==> #[trigger] r[p] == deposit(
                    self.squares[square.idx()]@,
                    p as u64,
                    self.squares[square.idx()]@.len() as int,
                ),
    {
        proof {
            square.lemma_idx();
        }
        let squares = &self.squares[square.index() as usize];
        assert(list_ok(squares@, self.no_edge_masks[square.idx()]));
        let count: usize = squares.len();
        let total_blocker_patters: u64 = 1u64 << (count as u64);
        let mut all_blocker_patters: Vec<u64> = Vec::new();
        let mut pattern_index: u64 = 0;
        while pattern_index < total_blocker_patters
            invariant
                count == squares.len(),
                count < 64,
                pattern_index <= total_blocker_patters,
                all_blocker_patters.len() == pattern_index,
                forall|p: int|
                    0 <= p < all_blocker_patters.len() ==> #[trigger] all_blocker_patters[p] == deposit(
                        squares@,
                        p as u64,
                        count as int,
                    ),
            decreases total_blocker_patters - pattern_index,
        {
            let mut pattern: u64 = 0;
            let mut square_index: usize = 0;
            while square_index < count
                invariant
                    count == squares.len(),
                    count < 64,
                    square_index <= count,
                    pattern == deposit(squares@, pattern_index, square_index as int),
                decreases count - square_index,
            {
                if (pattern_index >> (square_index as u64)) & 1 == 1 {
                    pattern = pattern | squares[square_index].mask();
                } else {
                    proof {
                        assert(pattern | 0 == pattern) by (bit_vector);
                    }
                }
                square_index += 1;
            }
            all_blocker_patters.push(pattern);
            pattern_index += 1;
        }
        all_blocker_patters
    }

    /// Looks for a magic number for `square` among at most `tries` numbers drawn at random, each
    /// the bits that three draws share: a number that gives each set of blockers on the lines
    /// through the square a key of its own, with as many bits as the lines have squares. What
    /// comes back is the number and the shift that cuts the keys to those bits; `None` if no draw
    /// was a magic number or the lines have no squares.
    pub fn find_magic_and_shift(&self, square: Square, tries: u32) -> (r: Option<(u64, u8)>)
        requires
            self.lists_ok(),
        ensures
            r matches Some((magic, shift)) ==> {
                &&& shift == 64 - self.squares[square.idx()]@.len()
                &&& keys_differ(patterns(self.squares[square.idx()]@), magic, shift)
            },
            tries == 0 || self.squares[square.idx()]@.len() == 0 ==> r.is_none(),
    {
        proof {
            square.lemma_idx();
            assert(list_ok(self.squares[square.idx()]@, self.no_edge_masks[square.idx()]));
        }
        let num_blockers: usize = self.squares[square.index() as usize].len();
        if num_blockers == 0 {
            return None;
        }
        let shift: u8 = (64 - num_blockers) as u8;
        let blockers = self.generate_blockers(square);
        let mut generator = thread_generator();
        let mut left: u32 = tries;
        while left > 0
            invariant
                left <= tries,
                0 < shift < 64,
                0 <= square.idx() < 64,
                self.squares.len() == 64,
                shift == 64 - self.squares[square.idx()]@.len(),
                blockers.len() == (1u64 << (self.squares[square.idx()]@.len() as u64)),
                forall|p: int|
                    0 <= p < blockers.len() ==> #[trigger] blockers[p] == deposit(
                        self.squares[square.idx()]@,
                        p as u64,
                        self.squares[square.idx()]@.len() as int,
                    ),
            decreases left,
        {
            let magic: u64 = random_u64(&mut generator) & random_u64(&mut generator) & random_u64(&mut generator);
            if is_magic(&blockers, magic, shift) {
                assert(blockers@ =~= patterns(self.squares[square.idx()]@));
                return Some((magic, shift));
            }
            left -= 1;
        }
        None
    }

    /// The number that gathers the bits of `occupied` on the squares of `list`.
    fn gather(list: &Vec<Square>, occupied: u64) -> (r: u64)
        requires
            list.len() < 64,
        ensures
            r == extract(list@, occupied, list.len() as int),
    {
        let mut r: u64 = 0;
        let mut j: usize = 0;
        while j < list.len()
            invariant
                j <= list.len() < 64,
                r == extract(list@, occupied, j as int),
            decreases list.len() - j,
        {
            proof {
                list[j as int].lemma_idx();
                lemma_test_bit(occupied, list[j as int].idx());
            }
            if occupied & list[j].mask() != 0 {
                r = r | (1u64 << (j as u64));
            } else {
                proof {
                    assert(r | 0 == r) by (bit_vector);
                }
            }
            j += 1;
        }
        r
    }

    /// The squares that the slider on `square` reaches over the occupancy `occupied`.
    pub fn lookup(&self, square: Square, occupied: u64) -> (r: u64)
        requires
            self.wf(),
        ensures
            attack_set(r, Self::kind(), occupied, square.idx()),
    {
        proof {
            square.lemma_idx();
        }
        let a: usize = square.index() as usize;
        let list = &self.squares[a];
        let idx: u64 = Self::gather(list, occupied);
        let ghost n = list@.len() as int;
        let ghost off = self.offsets[a as int] as int;
        proof {
            assert(list_ok(list@, self.no_edge_masks[a as int]));
            assert(block_ok(self.flat_table@, off, list@, a as int, Self::kind()));
            assert forall|i: int| n <= i < 64 implies !member(idx, i) by {
                lemma_extract(list@, occupied, n, i);
            }
            lemma_small(idx, n);
            assert(idx < (1u64 << (n as u64)));
            assert(n == list@.len());
            assert(off + (1u64 << (list@.len() as u64)) <= self.flat_table@.len());
            assert(attack_set(entry(self.flat_table@, off, idx as int), Self::kind(), deposit(list@, idx, n), a as int));
        }
        let table_len: usize = self.flat_table.len();
        assert(idx < table_len);
        let r: u64 = self.flat_table[self.offsets[a] + idx as usize];
        proof {
            let mask = self.no_edge_masks[a as int];
            let dep = deposit(list@, idx, n);
            assert(mask_ok(mask, Self::kind(), a as int));
            assert forall|t: int| 0 <= t < 64 implies (#[trigger] member(r, t) <==> slides(
                Self::kind(),
                occupied,
                a as int,
                t,
            )) by {
                assert(member(r, t) <==> slides(Self::kind(), dep, a as int, t));
                if line_of(Self::kind(), a as int, t) {
                    assert forall|u: int| 0 <= u < 64 && #[trigger] between(a as int, u, t) implies member(dep, u)
                        == member(occupied, u) by {
                        lemma_between_inner(a as int, u, t);
                        assert(member(mask, u));
                        lemma_deposit_extract(list@, mask, occupied, u);
                    }
                }
            }
        }
        r
    }
}

} // verus!
