//! Zobrist keys, and the hash of a position that they define.
//!
//! The hash is the exclusive or of one key for each piece on its square, one
//! for each castling right that is left, one for the file of a pawn that can
//! be taken en passant, and one more when Black is to move.

use vstd::prelude::*;
use rand::rngs::ThreadRng;
use rand::Rng;
use crate::chess::board::Board;
use crate::chess::position::Position;
use crate::chess::types::color::Color;
use crate::chess::types::file::File;
use crate::chess::types::piece::Piece;
use crate::chess::types::square::Square;

verus! {

pub const WHITE_SHORT_CASTLE: usize = 0;

pub const WHITE_LONG_CASTLE: usize = 1;

pub const BLACK_SHORT_CASTLE: usize = 2;

pub const BLACK_LONG_CASTLE: usize = 3;

const NUM_CASTLE: usize = 4;

/// The handle of the random generator of a thread, `rand::rngs::ThreadRng`.
#[verifier::external_type_specification]
#[verifier::external_body]
pub struct ExThreadRng(ThreadRng);

/// The random generator of the calling thread, `rand::thread_rng()`. Nothing is claimed of it.
/// It is seeded by the system, and the call ends the program where the system gives no seed.
#[verifier::external_body]
pub(crate) fn thread_generator() -> ThreadRng {
    rand::thread_rng()
}

/// The next number of the generator, `Rng::gen::<u64>()`. Nothing is claimed of it: it may be
/// any number. The generator reseeds itself from time to time, and the call ends the program
/// where the system gives no seed then.
#[verifier::external_body]
pub(crate) fn random_u64(generator: &mut ThreadRng) -> u64 {
    generator.gen::<u64>()
}

pub struct Zobrist {
    squares: Vec<u64>,
    double_jump: [u64; 8],
    castling_rights: [u64; 4],
    side_to_move: u64,
}

/// Facts about exclusive or that the hash proofs use.
pub proof fn lemma_xor(a: u64, b: u64, c: u64)
    by (bit_vector)
    ensures
        a ^ 0 == a,
        0 ^ a == a,
        a ^ a == 0,
        a ^ b == b ^ a,
        (a ^ b) ^ b == a,
        (a ^ b) ^ c == (a ^ c) ^ b,
        (a ^ b) ^ c == a ^ (b ^ c),
{
}

/// Replacing one of the four parts of a hash changes the hash by the old part and the new one.
pub proof fn lemma_xor_part(p: u64, c: u64, e: u64, s: u64, x: u64)
    by (bit_vector)
    ensures
        ((x ^ c) ^ e) ^ s == ((((p ^ c) ^ e) ^ s) ^ p) ^ x,
        ((p ^ x) ^ e) ^ s == ((((p ^ c) ^ e) ^ s) ^ c) ^ x,
        ((p ^ c) ^ x) ^ s == ((((p ^ c) ^ e) ^ s) ^ e) ^ x,
        ((p ^ c) ^ e) ^ x == ((((p ^ c) ^ e) ^ s) ^ s) ^ x,
{
}

proof fn lemma_xor_four(z: u64, a0: u64, a1: u64, a2: u64, a3: u64, b0: u64, b1: u64, b2: u64, b3: u64)
    by (bit_vector)
    ensures
        ((((z ^ (a0 ^ b0)) ^ (a1 ^ b1)) ^ (a2 ^ b2)) ^ (a3 ^ b3)) == (z ^ (((a0 ^ a1) ^ a2) ^ a3)) ^ (((b0
            ^ b1) ^ b2) ^ b3),
{
}

/// Whether the castling right with number `i` is among `rights`.
pub open spec fn right(rights: u8, i: int) -> bool {
    rights & (1u8 << (i as u8)) != 0
}

/// A right that is left after masking was there before.
pub proof fn lemma_right_masked(rights: u8, mask: u8, i: int)
    requires
        0 <= i < 4,
    ensures
        right(rights & mask, i) ==> right(rights, i),
        rights & mask <= rights,
{
    let s = i as u8;
    assert(((rights & mask) & (1u8 << s) != 0 ==> rights & (1u8 << s) != 0) && rights & mask <= rights)
        by (bit_vector);
}

/// The four rights are the four lowest bits.
pub proof fn lemma_right_bits(rights: u8)
    ensures
        right(rights, 0) == (rights & 1 != 0),
        right(rights, 1) == (rights & 2 != 0),
        right(rights, 2) == (rights & 4 != 0),
        right(rights, 3) == (rights & 8 != 0),
{
    assert(1u8 << 0u8 == 1 && 1u8 << 1u8 == 2 && 1u8 << 2u8 == 4 && 1u8 << 3u8 == 8) by (bit_vector);
}

impl Zobrist {
    pub closed spec fn wf(&self) -> bool {
        self.squares.len() == 768
    }

    /// The key of the piece with number `piece` on the square with number `sq`.
    pub closed spec fn key(&self, piece: int, sq: int) -> u64 {
        self.squares[piece * 64 + sq]
    }

    /// The key of the castling right with number `i`.
    pub closed spec fn castle_key(&self, i: int) -> u64 {
        self.castling_rights[i]
    }

    /// The key of the file with number `f`.
    pub closed spec fn file_key(&self, f: int) -> u64 {
        self.double_jump[f]
    }

    /// The key that is part of the hash while Black is to move.
    pub closed spec fn side_key(&self) -> u64 {
        self.side_to_move
    }

    /// What `p` on `sq` adds to the hash: nothing for an empty square.
    pub open spec fn piece_key(&self, p: Piece, sq: int) -> u64 {
        if p.occupied() {
            self.key(p.idx(), sq)
        } else {
            0
        }
    }

    /// The exclusive or of the keys of the pieces on the squares below `n`.
    pub open spec fn pieces_hash(&self, pieces: Seq<Piece>, n: int) -> u64
        decreases n,
    {
        if n <= 0 {
            0
        } else {
            self.pieces_hash(pieces, n - 1) ^ self.piece_key(pieces[n - 1], n - 1)
        }
    }

    pub open spec fn right_key(&self, rights: u8, i: int) -> u64 {
        if right(rights, i) {
            self.castle_key(i)
        } else {
            0
        }
    }

    pub open spec fn castle_hash(&self, rights: u8) -> u64 {
        ((self.right_key(rights, 0) ^ self.right_key(rights, 1)) ^ self.right_key(rights, 2))
            ^ self.right_key(rights, 3)
    }

    pub open spec fn ep_hash(&self, valid: bool, file: File) -> u64 {
        if valid {
            self.file_key(file.idx())
        } else {
            0
        }
    }

    pub open spec fn side_hash(&self, side: Color) -> u64 {
        if side == Color::Black {
            self.side_key()
        } else {
            0
        }
    }

    /// The hash of a position, computed from nothing but the position.
    pub open spec fn hash(&self, pos: Position) -> u64 {
        ((self.pieces_hash(pos.pieces, 64) ^ self.castle_hash(pos.castling)) ^ self.ep_hash(
            pos.ep_valid,
            pos.ep_file,
        )) ^ self.side_hash(pos.side)
    }

    proof fn lemma_pieces_update(&self, pieces: Seq<Piece>, sq: int, np: Piece, n: int)
        requires
            0 <= sq < 64,
            pieces.len() == 64,
            0 <= n <= 64,
        ensures
            self.pieces_hash(pieces.update(sq, np), n) == if sq < n {
                (self.pieces_hash(pieces, n) ^ self.piece_key(pieces[sq], sq)) ^ self.piece_key(np, sq)
            } else {
                self.pieces_hash(pieces, n)
            },
        decreases n,
    {
        if n > 0 {
            self.lemma_pieces_update(pieces, sq, np, n - 1);
            let a = self.pieces_hash(pieces, n - 1);
            let ko = self.piece_key(pieces[sq], sq);
            let kn = self.piece_key(np, sq);
            if sq == n - 1 {
                lemma_xor(a, ko, kn);
            } else if sq < n - 1 {
                let k = self.piece_key(pieces[n - 1], n - 1);
                lemma_xor(a ^ ko, kn, k);
                lemma_xor(a, ko, k);
            }
        }
    }

    /// Putting `np` on `sq` changes the hash by the key of what stood there and the key of `np`.
    pub proof fn lemma_hash_set_piece(&self, pos: Position, sq: int, np: Piece)
        requires
            0 <= sq < 64,
            pos.pieces.len() == 64,
        ensures
            self.hash(Position { pieces: pos.pieces.update(sq, np), ..pos }) == (self.hash(pos)
                ^ self.piece_key(pos.pieces[sq], sq)) ^ self.piece_key(np, sq),
    {
        self.lemma_pieces_update(pos.pieces, sq, np, 64);
        let p = self.pieces_hash(pos.pieces, 64);
        let ko = self.piece_key(pos.pieces[sq], sq);
        let kn = self.piece_key(np, sq);
        let c = self.castle_hash(pos.castling);
        let e = self.ep_hash(pos.ep_valid, pos.ep_file);
        let s = self.side_hash(pos.side);
        lemma_xor_part(p, c, e, s, (p ^ ko) ^ kn);
        lemma_xor_assoc_cancel(((p ^ c) ^ e) ^ s, p, ko, kn);
    }

    /// Another en-passant state changes the hash by the old file key and the new one.
    pub proof fn lemma_hash_set_ep(&self, pos: Position, valid: bool, file: File)
        ensures
            self.hash(Position { ep_valid: valid, ep_file: file, ..pos }) == (self.hash(pos) ^ self.ep_hash(
                pos.ep_valid,
                pos.ep_file,
            )) ^ self.ep_hash(valid, file),
    {
        let p = self.pieces_hash(pos.pieces, 64);
        let c = self.castle_hash(pos.castling);
        let e = self.ep_hash(pos.ep_valid, pos.ep_file);
        let s = self.side_hash(pos.side);
        lemma_xor_part(p, c, e, s, self.ep_hash(valid, file));
    }

    /// The other side to move changes the hash by the side key.
    pub proof fn lemma_hash_flip(&self, pos: Position)
        ensures
            self.hash(Position { side: pos.side.flip(), ..pos }) == self.hash(pos) ^ self.side_key(),
    {
        let p = self.pieces_hash(pos.pieces, 64);
        let c = self.castle_hash(pos.castling);
        let e = self.ep_hash(pos.ep_valid, pos.ep_file);
        let s = self.side_hash(pos.side);
        let x = self.side_hash(pos.side.flip());
        lemma_xor_part(p, c, e, s, x);
        let h = ((p ^ c) ^ e) ^ s;
        lemma_xor(h, s, x);
        lemma_xor(h, self.side_key(), 0);
        lemma_xor(self.side_key(), 0, 0);
    }

    /// Fewer castling rights change the hash by the keys of the rights that went.
    pub proof fn lemma_hash_set_castling(&self, pos: Position, rights: u8)
        requires
            forall|i: int| 0 <= i < 4 ==> (right(rights, i) ==> right(pos.castling, i)),
        ensures
            self.hash(Position { castling: rights, ..pos }) == (((self.hash(pos) ^ self.dropped_key(
                pos.castling,
                rights,
                0,
            )) ^ self.dropped_key(pos.castling, rights, 1)) ^ self.dropped_key(pos.castling, rights, 2))
                ^ self.dropped_key(pos.castling, rights, 3),
    {
        let p = self.pieces_hash(pos.pieces, 64);
        let c = self.castle_hash(pos.castling);
        let e = self.ep_hash(pos.ep_valid, pos.ep_file);
        let s = self.side_hash(pos.side);
        let x = self.castle_hash(rights);
        lemma_xor_part(p, c, e, s, x);
        let h = ((p ^ c) ^ e) ^ s;
        let a0 = self.right_key(pos.castling, 0);
        let a1 = self.right_key(pos.castling, 1);
        let a2 = self.right_key(pos.castling, 2);
        let a3 = self.right_key(pos.castling, 3);
        let b0 = self.right_key(rights, 0);
        let b1 = self.right_key(rights, 1);
        let b2 = self.right_key(rights, 2);
        let b3 = self.right_key(rights, 3);
        lemma_xor_four(h, a0, a1, a2, a3, b0, b1, b2, b3);
        lemma_xor(a0, a0, 0);
        lemma_xor(a1, a1, 0);
        lemma_xor(a2, a2, 0);
        lemma_xor(a3, a3, 0);
        assert(a0 ^ b0 == self.dropped_key(pos.castling, rights, 0));
        assert(a1 ^ b1 == self.dropped_key(pos.castling, rights, 1));
        assert(a2 ^ b2 == self.dropped_key(pos.castling, rights, 2));
        assert(a3 ^ b3 == self.dropped_key(pos.castling, rights, 3));
    }

    /// The key of right `i` if it is among `before` and not among `after`.
    pub open spec fn dropped_key(&self, before: u8, after: u8, i: int) -> u64 {
        if right(before, i) && !right(after, i) {
            self.castle_key(i)
        } else {
            0
        }
    }

    /// Fresh keys, each drawn at random.
    pub fn new() -> (r: Zobrist)
        ensures
            r.wf(),
    {
        let mut squares: Vec<u64> = Vec::new();
        let mut i: usize = 0;
        while i < 768
            invariant
                i <= 768,
                squares.len() == i,
            decreases 768 - i,
        {
            squares.push(Self::gen_rand());
            i += 1;
        }
        let mut double_jump: [u64; 8] = [0; 8];
        let mut j: usize = 0;
        while j < 8
            invariant
                j <= 8,
            decreases 8 - j,
        {
            double_jump[j] = Self::gen_rand();
            j += 1;
        }
        let mut castling_rights: [u64; 4] = [0; 4];
        let mut k: usize = 0;
        while k < NUM_CASTLE
            invariant
                k <= 4,
            decreases 4 - k,
        {
            castling_rights[k] = Self::gen_rand();
            k += 1;
        }
        Zobrist { squares, double_jump, castling_rights, side_to_move: Self::gen_rand() }
    }

    /// The hash of the position on `board`, computed from nothing but the position.
    pub fn hash_from_board(&self, board: &Board) -> (final_zobrist: u64)
        requires
            self.wf(),
        ensures
            final_zobrist == self.hash(board@),
    {
        let mut pieces: u64 = 0;
        let mut i: u8 = 0;
        while i < 64
            invariant
                i <= 64,
                self.wf(),
                pieces == self.pieces_hash(board@.pieces, i as int),
            decreases 64 - i,
        {
            let square = Square::from_index(i);
            let piece = board.piece_at(square);
            if piece.is_piece() {
                pieces = pieces ^ self.square_zobrist(piece, square);
            } else {
                proof {
                    lemma_xor(pieces, 0, 0);
                }
            }
            i += 1;
        }
        let k0: u64 = if board.has_short_castle_rights(Color::White) {
            self.castling_rights[WHITE_SHORT_CASTLE]
        } else {
            0
        };
        let k1: u64 = if board.has_long_castle_rights(Color::White) {
            self.castling_rights[WHITE_LONG_CASTLE]
        } else {
            0
        };
        let k2: u64 = if board.has_short_castle_rights(Color::Black) {
            self.castling_rights[BLACK_SHORT_CASTLE]
        } else {
            0
        };
        let k3: u64 = if board.has_long_castle_rights(Color::Black) {
            self.castling_rights[BLACK_LONG_CASTLE]
        } else {
            0
        };
        let castling: u64 = ((k0 ^ k1) ^ k2) ^ k3;
        let en_passant: u64 = match board.en_passant_file() {
            Some(en_passant_file) => self.double_jump[en_passant_file.index() as usize],
            None => 0,
        };
        let side: u64 = match board.side_to_move() {
            Color::Black => self.side_to_move,
            Color::White => 0,
        };
        ((pieces ^ castling) ^ en_passant) ^ side
    }

    /// A number drawn at random.
    fn gen_rand() -> u64 {
        let mut generator = thread_generator();
        random_u64(&mut generator)
    }

    pub fn square_zobrist(&self, piece: Piece, square: Square) -> (r: u64)
        requires
            self.wf(),
            piece.occupied(),
        ensures
            r == self.key(piece.idx(), square.idx()),
            r == self.piece_key(piece, square.idx()),
    {
        let p: usize = piece.index() as usize;
        let s: usize = square.index() as usize;
        self.squares[p * 64 + s]
    }

    /// The key of the right of `color` to castle with the king's rook.
    pub fn short_castle(&self, color: Color) -> (r: u64)
        ensures
            r == self.castle_key(2 * color.idx()),
    {
        match color {
            Color::White => self.castling_rights[WHITE_SHORT_CASTLE],
            Color::Black => self.castling_rights[BLACK_SHORT_CASTLE],
        }
    }

    /// The key of the right of `color` to castle with the queen's rook.
    pub fn long_castle(&self, color: Color) -> (r: u64)
        ensures
            r == self.castle_key(2 * color.idx() + 1),
    {
        match color {
            Color::White => self.castling_rights[WHITE_LONG_CASTLE],
            Color::Black => self.castling_rights[BLACK_LONG_CASTLE],
        }
    }

    /// The key of the castling right with number `i`.
    pub fn castle_right(&self, i: usize) -> (r: u64)
        requires
            i < 4,
        ensures
            r == self.castle_key(i as int),
    {
        self.castling_rights[i]
    }

    pub fn pawn_jump(&self, file: File) -> (r: u64)
        ensures
            r == self.file_key(file.idx()),
    {
        self.double_jump[file.index() as usize]
    }

    pub fn side_to_move(&self) -> (r: u64)
        ensures
            r == self.side_key(),
    {
        self.side_to_move
    }
}

proof fn lemma_xor_assoc_cancel(h: u64, p: u64, ko: u64, kn: u64)
    by (bit_vector)
    ensures
        (h ^ p) ^ ((p ^ ko) ^ kn) == (h ^ ko) ^ kn,
{
}

} // verus!
