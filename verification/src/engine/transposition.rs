//! The transposition table: what earlier searches found out about positions,
//! one packed entry of 128 bits for each of a power of two of cells.
//!
//! From the top bit down an entry holds the hash of its position in 64 bits,
//! its replacement score in 16, the best move in 16, the evaluation in 16,
//! the depth in 8 and the kind of bound in 2; the lowest 6 bits are unused.

use vstd::prelude::*;
use crate::chess::move_ply::MovePly;
use crate::engine::types::tt_flag::TTFlag;

verus! {

const ZOBRIST_SHIFT: u128 = 64;

const SCORE_SHIFT: u128 = 48;

const MOVE_SHIFT: u128 = 32;

const EVAL_SHIFT: u128 = 16;

const DEPTH_SHIFT: u128 = 8;

const FLAG_SHIFT: u128 = 6;

const EXACT_BONUS: i32 = 8;

const DEPTH_MULTIPLIER: i32 = 4;

#[derive(Clone, Copy, PartialEq, Eq, Structural, Debug)]
pub struct TTEntry {
    pub zobrist: u64,
    pub score: i16,
    pub cur_move: MovePly,
    pub eval: i16,
    pub depth: u8,
    pub tt_flag: TTFlag,
}

/// The 16 bits that stand for a signed number.
pub open spec fn to_bits(x: i16) -> u16 {
    if x >= 0 {
        x as u16
    } else {
        (x + 65536) as u16
    }
}

/// The signed number that 16 bits stand for.
pub open spec fn of_bits(u: u16) -> i16 {
    if u < 32768 {
        u as i16
    } else {
        (u - 65536) as i16
    }
}

pub fn signed_to_bits(x: i16) -> (r: u16)
    ensures
        r == to_bits(x),
        of_bits(r) == x,
{
    if x >= 0 {
        x as u16
    } else {
        ((x + 32767 + 1) as u16) + 32768
    }
}

pub fn bits_to_signed(u: u16) -> (r: i16)
    ensures
        r == of_bits(u),
        to_bits(r) == u,
{
    if u < 32768 {
        u as i16
    } else {
        ((u - 32768) as i16) - 32767 - 1
    }
}

/// The six fields packed into one word.
pub open spec fn pack(zobrist: u64, score: u16, cur_move: u16, eval: u16, depth: u8, flag: u8) -> u128 {
    ((zobrist as u128) << 64) | ((score as u128) << 48) | ((cur_move as u128) << 32) | ((eval as u128) << 16)
        | ((depth as u128) << 8) | ((flag as u128) << 6)
}

pub open spec fn zobrist_of(p: u128) -> u64 {
    (p >> 64) as u64
}

pub open spec fn score_of(p: u128) -> u16 {
    ((p >> 48) & 0xFFFF) as u16
}

pub open spec fn move_of(p: u128) -> u16 {
    ((p >> 32) & 0xFFFF) as u16
}

pub open spec fn eval_of(p: u128) -> u16 {
    ((p >> 16) & 0xFFFF) as u16
}

pub open spec fn depth_of(p: u128) -> u8 {
    ((p >> 8) & 0xFF) as u8
}

pub open spec fn flag_of(p: u128) -> u8 {
    ((p >> 6) & 0b11) as u8
}

/// What is packed comes out again.
pub proof fn lemma_pack(zobrist: u64, score: u16, cur_move: u16, eval: u16, depth: u8, flag: u8)
    requires
        flag < 4,
    ensures
        zobrist_of(pack(zobrist, score, cur_move, eval, depth, flag)) == zobrist,
        score_of(pack(zobrist, score, cur_move, eval, depth, flag)) == score,
        move_of(pack(zobrist, score, cur_move, eval, depth, flag)) == cur_move,
        eval_of(pack(zobrist, score, cur_move, eval, depth, flag)) == eval,
        depth_of(pack(zobrist, score, cur_move, eval, depth, flag)) == depth,
        flag_of(pack(zobrist, score, cur_move, eval, depth, flag)) == flag,
{
    let p = pack(zobrist, score, cur_move, eval, depth, flag);
    assert({
        &&& (p >> 64) == zobrist as u128
        &&& ((p >> 48) & 0xFFFF) == score as u128
        &&& ((p >> 32) & 0xFFFF) == cur_move as u128
        &&& ((p >> 16) & 0xFFFF) == eval as u128
        &&& ((p >> 8) & 0xFF) == depth as u128
        &&& ((p >> 6) & 0b11) == flag as u128
    }) by (bit_vector)
        requires
            flag < 4,
            p == ((zobrist as u128) << 64) | ((score as u128) << 48) | ((cur_move as u128) << 32) | ((
            eval as u128) << 16) | ((depth as u128) << 8) | ((flag as u128) << 6),
    ;
}

proof fn lemma_fields_fit(p: u128)
    ensures
        (p >> 64) <= u64::MAX,
        ((p >> 48) & 0xFFFF) <= u16::MAX,
        ((p >> 32) & 0xFFFF) <= u16::MAX,
        ((p >> 16) & 0xFFFF) <= u16::MAX,
        ((p >> 8) & 0xFF) <= u8::MAX,
        ((p >> 6) & 0b11) < 4,
{
    assert({
        &&& (p >> 64) <= 0xFFFF_FFFF_FFFF_FFFF
        &&& ((p >> 48) & 0xFFFF) <= 0xFFFF
        &&& ((p >> 32) & 0xFFFF) <= 0xFFFF
        &&& ((p >> 16) & 0xFFFF) <= 0xFFFF
        &&& ((p >> 8) & 0xFF) <= 0xFF
        &&& ((p >> 6) & 0b11) < 4
    }) by (bit_vector);
}

/// The replacement score of an entry: four for each ply of depth, eight more for an exact
/// score, one less for each generation. It is kept within 16 bits.
pub open spec fn replacement_score(depth: u8, tt_flag: TTFlag, generation: u16) -> i16 {
    let raw = depth * 4 + (if tt_flag == TTFlag::Exact {
        8int
    } else {
        0int
    }) - generation;
    if raw < i16::MIN {
        i16::MIN
    } else {
        raw as i16
    }
}

impl TTEntry {
    /// The entry that the word `packed_data` holds.
    pub open spec fn of(packed_data: u128) -> TTEntry {
        TTEntry {
            zobrist: zobrist_of(packed_data),
            score: of_bits(score_of(packed_data)),
            cur_move: MovePly::of_bits(move_of(packed_data)),
            eval: of_bits(eval_of(packed_data)),
            depth: depth_of(packed_data),
            tt_flag: TTFlag::of(flag_of(packed_data) as int),
        }
    }

    /// The word that holds this entry.
    pub open spec fn packed(self) -> u128 {
        pack(
            self.zobrist,
            to_bits(self.score),
            self.cur_move.bits(),
            to_bits(self.eval),
            self.depth,
            self.tt_flag.idx() as u8,
        )
    }

    /// An entry packed and unpacked is the same entry.
    pub proof fn lemma_round_trip(self)
        ensures
            TTEntry::of(self.packed()) == self,
    {
        lemma_pack(
            self.zobrist,
            to_bits(self.score),
            self.cur_move.bits(),
            to_bits(self.eval),
            self.depth,
            self.tt_flag.idx() as u8,
        );
        MovePly::lemma_of_bits(self.cur_move.bits());
        MovePly::lemma_bits_known(MovePly::of_bits(self.cur_move.bits()), self.cur_move);
    }

    pub fn from_packed(packed_data: u128) -> (r: TTEntry)
        ensures
            r == TTEntry::of(packed_data),
    {
        proof {
            lemma_fields_fit(packed_data);
            MovePly::lemma_of_bits(move_of(packed_data));
        }
        let r = Self {
            zobrist: (packed_data >> ZOBRIST_SHIFT) as u64,
            score: bits_to_signed(((packed_data >> SCORE_SHIFT) & 0xFFFF) as u16),
            cur_move: MovePly::from_packed(((packed_data >> MOVE_SHIFT) & 0xFFFF) as u16),
            eval: bits_to_signed(((packed_data >> EVAL_SHIFT) & 0xFFFF) as u16),
            depth: ((packed_data >> DEPTH_SHIFT) & 0xFF) as u8,
            tt_flag: TTFlag::from_index(((packed_data >> FLAG_SHIFT) & 0b11) as u8),
        };
        proof {
            MovePly::lemma_bits_known(r.cur_move, MovePly::of_bits(move_of(packed_data)));
        }
        r
    }

    pub fn to_packed(&self) -> (r: u128)
        ensures
            r == self.packed(),
    {
        ((self.zobrist as u128) << ZOBRIST_SHIFT) | ((signed_to_bits(self.score) as u128) << SCORE_SHIFT) | ((
        self.cur_move.packed_data() as u128) << MOVE_SHIFT) | ((signed_to_bits(self.eval) as u128)
            << EVAL_SHIFT) | ((self.depth as u128) << DEPTH_SHIFT) | ((self.tt_flag.index() as u128)
            << FLAG_SHIFT)
    }
}

pub struct Transposition {
    entries: Vec<u128>,
    generation: u16,
    best_move: u16,
    best_move_score: i16,
}

/// Whether `n` is a power of two.
pub open spec fn power_of_two(n: u64) -> bool {
    n != 0 && n & ((n - 1) as u64) == 0
}

impl Transposition {
    /// The cells of the table.
    pub closed spec fn cells(&self) -> Seq<u128> {
        self.entries@
    }

    /// How often a new search has begun.
    pub closed spec fn age(&self) -> u16 {
        self.generation
    }

    /// The best move of the root that the last search that finished published, as 16 bits.
    pub closed spec fn root_move(&self) -> u16 {
        self.best_move
    }

    /// The score that goes with `root_move`.
    pub closed spec fn root_score(&self) -> i16 {
        self.best_move_score
    }

    pub open spec fn wf(&self) -> bool {
        1 <= self.cells().len() <= u64::MAX
    }

    /// The cell that the hash `zobrist` falls into.
    pub open spec fn index_of(&self, zobrist: u64) -> int {
        (zobrist & ((self.cells().len() - 1) as u64)) as int
    }

    /// What a probe for `zobrist` finds: the entry of its cell, unless the cell is empty or
    /// holds another position.
    pub open spec fn found(&self, zobrist: u64) -> Option<TTEntry> {
        let cell = self.cells()[self.index_of(zobrist)];
        if cell == 0 || zobrist_of(cell) != zobrist {
            None
        } else {
            Some(TTEntry::of(cell))
        }
    }

    /// Whether an entry with the replacement score `score` for `zobrist` takes the place of
    /// what is in its cell: it does if the cell is empty, holds the same position or a
    /// smaller replacement score.
    pub open spec fn replaces(&self, zobrist: u64, score: i16) -> bool {
        let cell = self.cells()[self.index_of(zobrist)];
        cell == 0 || zobrist_of(cell) == zobrist || score > of_bits(score_of(cell))
    }

    /// A table of the largest power of two of cells that fits into `mb_size` megabytes, all empty.
    pub fn new(mb_size: u16) -> (r: Transposition)
        requires
            mb_size >= 1,
        ensures
            r.wf(),
            power_of_two(r.cells().len() as u64),
            r.cells().len() * 16 <= mb_size * 1024 * 1024 < 2 * r.cells().len() * 16,
            forall|i: int| 0 <= i < r.cells().len() ==> r.cells()[i] == 0,
            r.age() == 0,
            r.root_move() == 0,
            r.root_score() == 0,
    {
        let mut blocks: u32 = 1;
        proof {
            assert(power_of_two(65536u64)) by (bit_vector);
        }
        while blocks * 2 <= mb_size as u32
            invariant
                1 <= blocks <= mb_size,
                power_of_two((blocks * 65536) as u64),
            decreases mb_size - blocks,
        {
            proof {
                let b = (blocks * 65536) as u64;
                assert(b != 0 && b & ((b - 1) as u64) == 0 && b < 0x1_0000_0000 ==> (b * 2) != 0 && (b * 2) as u64
                    & (((b * 2) as u64 - 1) as u64) == 0) by (bit_vector);
            }
            blocks = blocks * 2;
        }
        let num_entries: usize = (blocks as usize) * 65536;
        let entries: Vec<u128> = vec![0u128; num_entries];
        Self { entries, generation: 0, best_move: 0, best_move_score: 0 }
    }

    fn index(&self, zobrist: u64) -> (r: usize)
        requires
            self.wf(),
        ensures
            r == self.index_of(zobrist),
            r < self.cells().len(),
    {
        let mask: u64 = (self.entries.len() - 1) as u64;
        proof {
            assert(zobrist & mask <= mask) by (bit_vector);
        }
        (zobrist & mask) as usize
    }

    pub fn probe(&self, zobrist: u64) -> (r: Option<TTEntry>)
        requires
            self.wf(),
        ensures
            r == self.found(zobrist),
    {
        let index: usize = self.index(zobrist);
        let packed_data: u128 = self.entries[index];
        proof {
            lemma_fields_fit(packed_data);
        }
        let unpacked_zobrist: u64 = (packed_data >> ZOBRIST_SHIFT) as u64;
        if packed_data == 0 || unpacked_zobrist != zobrist {
            return None;
        }
        Some(TTEntry::from_packed(packed_data))
    }

    /// Stores what a search found out about the position with the hash `zobrist`, unless the
    /// cell holds another position with a replacement score that is at least as large.
    pub fn update(&mut self, zobrist: u64, cur_move: MovePly, eval: i16, depth: u8, tt_flag: TTFlag)
        requires
            old(self).wf(),
        ensures
            final(self).wf(),
            final(self).age() == old(self).age(),
            final(self).root_move() == old(self).root_move(),
            final(self).root_score() == old(self).root_score(),
            final(self).cells() == if old(self).replaces(
                zobrist,
                replacement_score(depth, tt_flag, old(self).age()),
            ) {
                old(self).cells().update(
                    old(self).index_of(zobrist),
                    (TTEntry {
                        zobrist,
                        score: replacement_score(depth, tt_flag, old(self).age()),
                        cur_move,
                        eval,
                        depth,
                        tt_flag,
                    }).packed(),
                )
            } else {
                old(self).cells()
            },
    {
        let mut raw: i32 = depth as i32 * DEPTH_MULTIPLIER - self.generation as i32;
        match tt_flag {
            TTFlag::Exact => raw += EXACT_BONUS,
            _ => {},
        }
        let score: i16 = if raw < -32768 {
            -32768
        } else {
            raw as i16
        };
        let index: usize = self.index(zobrist);
        let existing: u128 = self.entries[index];
        proof {
            lemma_fields_fit(existing);
        }
        if existing != 0 && (existing >> ZOBRIST_SHIFT) as u64 != zobrist {
            let stored: i16 = bits_to_signed(((existing >> SCORE_SHIFT) & 0xFFFF) as u16);
            if stored >= score {
                return ;
            }
        }
        let entry = TTEntry { zobrist, score, cur_move, eval, depth, tt_flag };
        self.entries[index] = entry.to_packed();
    }

    /// Marks the beginning of a new search: entries of earlier searches give way more easily.
    pub fn new_search(&mut self)
        requires
            old(self).wf(),
        ensures
            final(self).wf(),
            final(self).cells() == old(self).cells(),
            final(self).root_move() == old(self).root_move(),
            final(self).root_score() == old(self).root_score(),
            final(self).age() == if old(self).age() < u16::MAX {
                (old(self).age() + 1) as u16
            } else {
                u16::MAX
            },
    {
        if self.generation < u16::MAX {
            self.generation += 1;
        }
    }

    /// Publishes the best move of the root and its score.
    pub fn set_best(&mut self, best_move: MovePly, score: i16)
        ensures
            final(self).cells() == old(self).cells(),
            final(self).age() == old(self).age(),
            final(self).root_move() == best_move.bits(),
            final(self).root_score() == score,
    {
        self.best_move = best_move.packed_data();
        self.best_move_score = score;
    }

    pub fn best_move(&self) -> (r: MovePly)
        ensures
            r.bits() == self.root_move(),
    {
        MovePly::from_packed(self.best_move)
    }

    pub fn best_move_score(&self) -> (r: i16)
        ensures
            r == self.root_score(),
    {
        self.best_move_score
    }
}

} // verus!
