//! The position as the engine holds it: one bitboard and one square list for
//! each piece, a piece for each square, the occupancy of each side, and the
//! stack of what the moves made so far have destroyed.
//!
//! All of it is redundant on purpose. `wf` says how the parts agree, and every
//! move made or taken back keeps it.

use vstd::prelude::*;
use vstd::string::StringSliceAdditionalSpecFns;
use crate::chess::bitboard::Bitboard;
use crate::chess::board_state::BoardState;
use crate::chess::move_ply::MovePly;
use crate::chess::piece_list::PieceList;
use crate::chess::position::{castle_mask, castle_squares, clock_after, ep_target, ep_victim, lemma_occ_bits, Position};
use crate::chess::fen::{count_piece, empty_board, fen_position, parse_fen, Setup};
use crate::chess::types::color::Color;
use crate::chess::types::file::File;
use crate::chess::types::move_flag::MoveFlag;
use crate::chess::types::piece::{BasePiece, Piece};
use crate::chess::types::square::Square;
use crate::general::bits::{group_bits, lemma_count_gain, lemma_count_missing, lemma_empty, lemma_ext, member, popcount};
use crate::precomputed::generators::zobrist::{lemma_right_bits, lemma_right_masked, lemma_xor, right, Zobrist};

verus! {

const INCREMENT_ZOBRIST: bool = true;

const IGNORE_ZOBRIST: bool = false;

pub struct Board {
    bitboards: [Bitboard; 12],
    piece_lists: [PieceList; 12],
    piece_squares: [Piece; 64],
    side_to_move: Color,
    white_occupancy: u64,
    black_occupancy: u64,
    occupancy: u64,
    en_passant_file: File,
    can_en_passant: bool,
    castling_rights: u8,
    half_move_clock: u8,
    zobrist: u64,
    in_check: bool,
    board_states: Vec<BoardState>,
    past: Ghost<Seq<Position>>,
}

impl View for Board {
    type V = Position;

    closed spec fn view(&self) -> Position {
        Position {
            pieces: self.piece_squares@,
            side: self.side_to_move,
            castling: self.castling_rights,
            ep_file: self.en_passant_file,
            ep_valid: self.can_en_passant,
            half_move: self.half_move_clock,
        }
    }
}

/// The castling rights that survive a move from or to `square`.
fn square_moved_castling(square: Square) -> (r: u8)
    ensures
        r == castle_mask(square.idx()),
{
    match square {
        Square::A1 => 13,
        Square::E1 => 12,
        Square::H1 => 14,
        Square::A8 => 7,
        Square::E8 => 3,
        Square::H8 => 11,
        _ => 15,
    }
}

/// How one entry of the history joins the position before a move to the position after it.
pub open spec fn step_ok(prev: Position, entry: BoardState, next: Position, zobrist: &Zobrist) -> bool {
    &&& prev.ok()
    &&& entry.half_move_clock == prev.half_move
    &&& entry.castling_rights == prev.castling
    &&& entry.en_passant_file == prev.ep_file
    &&& entry.can_en_passant == prev.ep_valid
    &&& entry.zobrist == zobrist.hash(prev)
    &&& if entry.played.bits() == 0 {
        next == prev.pass()
    } else {
        &&& prev.applicable(entry.played)
        &&& next == prev.make(entry.played)
        &&& entry.captured == prev.pieces[entry.played.to_idx()]
    }
}

/// Bitboards and square lists agree with the pieces on the squares: a square is in the
/// bitboard and in the list of the piece that stands on it and in no other, and each list is as
/// long as its bitboard has squares.
pub open spec fn agree(bbs: Seq<Bitboard>, lists: Seq<PieceList>, pieces: Seq<Piece>) -> bool {
    &&& bbs.len() == 12
    &&& lists.len() == 12
    &&& pieces.len() == 64
    &&& forall|p: int, sq: int|
        0 <= p < 12 && 0 <= sq < 64 ==> (#[trigger] member(bbs[p].0, sq) <==> pieces[sq].idx() == p)
    &&& forall|p: int| 0 <= p < 12 ==> (#[trigger] lists[p]).wf()
    &&& forall|p: int, sq: int|
        0 <= p < 12 && 0 <= sq < 64 ==> (#[trigger] lists[p].contains(sq) <==> pieces[sq].idx() == p)
    &&& forall|p: int| 0 <= p < 12 ==> (#[trigger] lists[p])@.len() == popcount(bbs[p].0)
}

/// The occupancies are those of the pieces.
pub open spec fn occ_agree(white: u64, black: u64, all: u64, pieces: Seq<Piece>) -> bool {
    &&& forall|sq: int| 0 <= sq < 64 ==> (#[trigger] member(white, sq) <==> pieces[sq].idx() < 6)
    &&& forall|sq: int| 0 <= sq < 64 ==> (#[trigger] member(black, sq) <==> 6 <= pieces[sq].idx() < 12)
    &&& all == white | black
    &&& white & black == 0
}

/// Each entry of the history leads from the position before its move to the next one, the
/// last entry to the current position.
pub open spec fn hist_agree(
    past: Seq<Position>,
    history: Seq<BoardState>,
    current: Position,
    zobrist: &Zobrist,
) -> bool {
    &&& past.len() == history.len()
    &&& forall|k: int|
        0 <= k < history.len() ==> step_ok(
            #[trigger] past[k],
            history[k],
            if k + 1 < history.len() {
                past[k + 1]
            } else {
                current
            },
            zobrist,
        )
}

/// After a change on the square `s` alone, of the piece with number `p` alone, the parts
/// still agree if they agree on `s`.
proof fn lemma_agree_change(
    bbs: Seq<Bitboard>,
    lists: Seq<PieceList>,
    pieces: Seq<Piece>,
    bbs2: Seq<Bitboard>,
    lists2: Seq<PieceList>,
    pieces2: Seq<Piece>,
    s: int,
    p: int,
)
    requires
        agree(bbs, lists, pieces),
        0 <= s < 64,
        0 <= p < 12,
        bbs2 =~= bbs.update(p, bbs2[p]),
        lists2 =~= lists.update(p, lists2[p]),
        pieces2 =~= pieces.update(s, pieces2[s]),
        pieces[s].idx() == p || pieces[s].idx() == 12,
        pieces2[s].idx() == p || pieces2[s].idx() == 12,
        forall|sq: int| 0 <= sq < 64 && sq != s ==> member(bbs2[p].0, sq) == member(bbs[p].0, sq),
        member(bbs2[p].0, s) <==> pieces2[s].idx() == p,
        lists2[p].wf(),
        forall|sq: int| 0 <= sq < 64 && sq != s ==> lists2[p].contains(sq) == lists[p].contains(sq),
        lists2[p].contains(s) <==> pieces2[s].idx() == p,
        lists2[p]@.len() == popcount(bbs2[p].0),
    ensures
        agree(bbs2, lists2, pieces2),
{
    assert forall|q: int, sq: int| 0 <= q < 12 && 0 <= sq < 64 implies (#[trigger] member(bbs2[q].0, sq)
        <==> pieces2[sq].idx() == q) by {
        assert(member(bbs[q].0, sq) <==> pieces[sq].idx() == q);
    }
    assert forall|q: int| 0 <= q < 12 implies (#[trigger] lists2[q]).wf() by {
        assert(lists[q].wf());
    }
    assert forall|q: int, sq: int| 0 <= q < 12 && 0 <= sq < 64 implies (#[trigger] lists2[q].contains(sq)
        <==> pieces2[sq].idx() == q) by {
        assert(lists[q].contains(sq) <==> pieces[sq].idx() == q);
    }
    assert forall|q: int| 0 <= q < 12 implies (#[trigger] lists2[q])@.len() == popcount(bbs2[q].0) by {
        assert(lists[q]@.len() == popcount(bbs[q].0));
    }
}

impl Default for Board {
    /// The empty board: no piece, White to move, nothing made.
    fn default() -> (board: Board)
        ensures
            board.wf_pieces(),
            board.occ_ok(),
            board@.pieces == empty_board(),
            board@.side == Color::White,
            board@.castling == 0,
            !board@.ep_valid,
            board@.ep_file == File::A,
            board@.half_move == 0,
            board.kings() == (0nat, 0nat),
            board.hash() == 0,
            board.history().len() == 0,
            board.past().len() == 0,
            !board.check_flag(),
    {
        let board = Board {
            bitboards: [Bitboard(0); 12],
            piece_lists: [
                PieceList::empty(),
                PieceList::empty(),
                PieceList::empty(),
                PieceList::empty(),
                PieceList::empty(),
                PieceList::empty(),
                PieceList::empty(),
                PieceList::empty(),
                PieceList::empty(),
                PieceList::empty(),
                PieceList::empty(),
                PieceList::empty(),
            ],
            piece_squares: [Piece::NoPiece; 64],
            side_to_move: Color::White,
            white_occupancy: 0,
            black_occupancy: 0,
            occupancy: 0,
            en_passant_file: File::A,
            can_en_passant: false,
            castling_rights: 0,
            half_move_clock: 0,
            zobrist: 0,
            in_check: false,
            board_states: Vec::new(),
            past: Ghost(Seq::empty()),
        };
        proof {
            broadcast use group_bits;
            crate::general::bits::lemma_count_zero(0);
            assert(board@.pieces =~= empty_board());
            assert(0u64 | 0u64 == 0 && 0u64 & 0u64 == 0) by (bit_vector);
            assert forall|p: int| 0 <= p < 12 implies (#[trigger] board.lists()[p])@.len() == popcount(
                board.bbs()[p].0,
            ) by {}
        }
        board
    }
}

impl Board {
    /// Sets the board up as the position text `fen` says: the placement of the pieces and, as
    /// far as the text goes on, the side to move, the castling rights, the en-passant square and
    /// the half-move clock. A text that does not describe a position with one king for each
    /// side leaves the board as it is.
    pub fn new(&mut self, fen: &str, zobrist: &Zobrist) -> (r: bool)
        requires
            zobrist.wf(),
        ensures
            r == fen_position(fen.spec_bytes()).is_some(),
            r ==> final(self).wf(zobrist) && final(self)@ == fen_position(fen.spec_bytes()).unwrap()
                && final(self).history().len() == 0 && final(self).past().len() == 0,
            !r ==> *final(self) == *old(self),
    {
        match parse_fen(fen.as_bytes()) {
            Some(setup) => {
                *self = Board::from_setup(&setup, zobrist);
                true
            },
            None => false,
        }
    }

    /// The board that holds the position `setup`.
    pub fn from_setup(setup: &Setup, zobrist: &Zobrist) -> (board: Board)
        requires
            zobrist.wf(),
            setup@.ok(),
            count_piece(setup@.pieces, Piece::WhiteKing, 64) == 1,
            count_piece(setup@.pieces, Piece::BlackKing, 64) == 1,
        ensures
            board.wf(zobrist),
            board@ == setup@,
            board.history().len() == 0,
            board.past().len() == 0,
    {
        let mut board = Board::default();
        let mut i: u8 = 0;
        while i < 64
            invariant
                i <= 64,
                zobrist.wf(),
                board.wf_pieces(),
                board@.pieces.len() == 64,
                setup@.pieces.len() == 64,
                forall|k: int| 0 <= k < i ==> board@.pieces[k] == setup@.pieces[k],
                forall|k: int| i <= k < 64 ==> board@.pieces[k] == Piece::NoPiece,
                board.kings() == (
                    count_piece(setup@.pieces, Piece::WhiteKing, i as int),
                    count_piece(setup@.pieces, Piece::BlackKing, i as int),
                ),
                board@.side == Color::White,
                board@.castling == 0,
                !board@.ep_valid,
                board.history().len() == 0,
                board.past().len() == 0,
            decreases 64 - i,
        {
            let square = Square::from_index(i);
            let piece = setup.pieces[i as usize];
            let ghost before = board;
            if piece.is_piece() {
                board.add_piece::<IGNORE_ZOBRIST>(piece, square, zobrist);
                proof {
                    before.lemma_aux(&board);
                    assert(board.lists()[5]@.len() == before.lists()[5]@.len() + if 5 == piece.idx() {
                        1int
                    } else {
                        0int
                    });
                    assert(board.lists()[11]@.len() == before.lists()[11]@.len() + if 11 == piece.idx() {
                        1int
                    } else {
                        0int
                    });
                }
            }
            i += 1;
        }
        board.side_to_move = setup.side;
        board.castling_rights = setup.castling;
        board.en_passant_file = setup.ep_file;
        board.can_en_passant = setup.ep_valid;
        board.half_move_clock = setup.half_move;
        board.update_occupancy();
        board.zobrist = zobrist.hash_from_board(&board);
        proof {
            assert(board@.pieces =~= setup@.pieces);
            assert(board.past() =~= Seq::<Position>::empty());
        }
        board
    }

    /// The twelve bitboards, by the number of their piece.
    pub closed spec fn bbs(&self) -> Seq<Bitboard> {
        self.bitboards@
    }

    /// The twelve square lists, by the number of their piece.
    pub closed spec fn lists(&self) -> Seq<PieceList> {
        self.piece_lists@
    }

    /// The bitboard of the piece with number `p`.
    #[verifier::inline]
    pub open spec fn bb(&self, p: int) -> u64 {
        self.bbs()[p].0
    }

    /// The square list of the piece with number `p`.
    #[verifier::inline]
    pub open spec fn list(&self, p: int) -> PieceList {
        self.lists()[p]
    }

    pub closed spec fn occ_white(&self) -> u64 {
        self.white_occupancy
    }

    pub closed spec fn occ_black(&self) -> u64 {
        self.black_occupancy
    }

    pub closed spec fn occ_all(&self) -> u64 {
        self.occupancy
    }

    /// The occupancy of `color`.
    pub open spec fn occ_of(&self, color: Color) -> u64 {
        match color {
            Color::White => self.occ_white(),
            Color::Black => self.occ_black(),
        }
    }

    /// The running hash.
    pub closed spec fn hash(&self) -> u64 {
        self.zobrist
    }

    /// The entries that the moves made so far have left, oldest first.
    pub closed spec fn history(&self) -> Seq<BoardState> {
        self.board_states@
    }

    /// The positions before each of the moves made so far, oldest first.
    pub closed spec fn past(&self) -> Seq<Position> {
        self.past@
    }

    /// What the move generator last recorded of the side to move being in check.
    pub closed spec fn check_flag(&self) -> bool {
        self.in_check
    }

    /// Bitboards and square lists agree with the pieces on the squares.
    pub open spec fn wf_pieces(&self) -> bool {
        agree(self.bbs(), self.lists(), self@.pieces)
    }

    /// The occupancies are those of the pieces: each side's own, both together, and no square in both.
    pub open spec fn occ_ok(&self) -> bool {
        occ_agree(self.occ_white(), self.occ_black(), self.occ_all(), self@.pieces)
    }

    /// How many kings each side has.
    pub open spec fn kings(&self) -> (nat, nat) {
        (self.list(5)@.len(), self.list(11)@.len())
    }

    /// Each side has exactly one king.
    pub open spec fn kings_ok(&self) -> bool {
        self.kings() == (1nat, 1nat)
    }

    /// The running hash is the hash of the position.
    pub open spec fn hash_ok(&self, zobrist: &Zobrist) -> bool {
        self.hash() == zobrist.hash(self@)
    }

    /// Each entry of the history leads from the position before its move to the next one.
    pub open spec fn history_ok(&self, zobrist: &Zobrist) -> bool {
        hist_agree(self.past(), self.history(), self@, zobrist)
    }

    /// The invariant of a board in use.
    pub open spec fn wf(&self, zobrist: &Zobrist) -> bool {
        &&& self.wf_pieces()
        &&& self.occ_ok()
        &&& self.kings_ok()
        &&& self@.ok()
        &&& self.hash_ok(zobrist)
        &&& self.history_ok(zobrist)
    }

    /// The same position, with the same bitboards and square lists.
    pub open spec fn same_pieces(&self, other: &Board) -> bool {
        &&& self@ == other@
        &&& self.bbs() == other.bbs()
        &&& self.lists() == other.lists()
    }

    /// The same position with the same hash and history.
    pub open spec fn same_position(&self, other: &Board) -> bool {
        &&& self@ == other@
        &&& self.hash() == other.hash()
        &&& self.history() == other.history()
        &&& self.past() == other.past()
    }

    /// The same position with the same hash, history and check flag.
    pub open spec fn same_state(&self, other: &Board) -> bool {
        &&& self@ == other@
        &&& self.hash() == other.hash()
        &&& self.history() == other.history()
        &&& self.past() == other.past()
        &&& self.check_flag() == other.check_flag()
    }

    /// What the helpers that move pieces leave alone.
    pub closed spec fn aux(&self) -> (Seq<BoardState>, Seq<Position>, bool, u64, u64, u64) {
        (
            self.board_states@,
            self.past@,
            self.in_check,
            self.white_occupancy,
            self.black_occupancy,
            self.occupancy,
        )
    }

    pub proof fn lemma_aux(&self, other: &Board)
        requires
            self.aux() == other.aux(),
        ensures
            self.history() == other.history(),
            self.past() == other.past(),
            self.check_flag() == other.check_flag(),
            self.occ_white() == other.occ_white(),
            self.occ_black() == other.occ_black(),
            self.occ_all() == other.occ_all(),
    {
    }

    /// `self` is what `make_move` leaves of `before` after `played`.
    pub open spec fn made(&self, before: &Board, played: MovePly) -> bool {
        &&& self@ == before@.make(played)
        &&& self.past() == before.past().push(before@)
        &&& self.history() == before.history().push(
            BoardState {
                played,
                captured: before@.pieces[played.to_idx()],
                half_move_clock: before@.half_move,
                castling_rights: before@.castling,
                en_passant_file: before@.ep_file,
                can_en_passant: before@.ep_valid,
                zobrist: before.hash(),
            },
        )
        &&& self.check_flag() == before.check_flag()
    }

    /// `self` is what `undo_move` leaves of `before`.
    pub open spec fn undone(&self, before: &Board) -> bool {
        &&& before.history().len() > 0
        &&& self@ == before.past().last()
        &&& self.past() == before.past().drop_last()
        &&& self.history() == before.history().drop_last()
        &&& self.hash() == before.history().last().zobrist
        &&& self.check_flag() == before.check_flag()
    }

    /// A move made and taken back leaves the position, its hash and its history as they were.
    pub proof fn lemma_make_undo(before: &Board, middle: &Board, after: &Board, played: MovePly)
        requires
            middle.made(before, played),
            after.undone(middle),
        ensures
            after@ == before@,
            after.hash() == before.hash(),
            after.history() == before.history(),
            after.past() == before.past(),
            after.check_flag() == before.check_flag(),
    {
        assert(before.past().push(before@).drop_last() =~= before.past());
        assert(middle.history().drop_last() =~= before.history());
    }

    /// A move made and taken back, with whatever was made and taken back in between, leaves
    /// the position, its hash and its history as they were.
    pub proof fn lemma_undo_after(before: &Board, middle: &Board, resumed: &Board, after: &Board, played: MovePly)
        requires
            middle.made(before, played),
            resumed.same_position(middle),
            after.undone(resumed),
        ensures
            after.same_position(before),
    {
        assert(before.past().push(before@).drop_last() =~= before.past());
        assert(middle.history().drop_last() =~= before.history());
    }

    /// Two boards in use with the same pieces on the squares have the same bitboards and the
    /// same occupancies, and their square lists hold the same squares. The order of the squares
    /// in a list is not a matter of the position: it tells in which order pieces came and went.
    pub proof fn lemma_same_pieces(&self, other: &Board)
        requires
            self.wf_pieces(),
            self.occ_ok(),
            other.wf_pieces(),
            other.occ_ok(),
            self@.pieces == other@.pieces,
        ensures
            self.bbs() == other.bbs(),
            self.occ_white() == other.occ_white(),
            self.occ_black() == other.occ_black(),
            self.occ_all() == other.occ_all(),
            forall|p: int| 0 <= p < 12 ==> (#[trigger] self.lists()[p])@.len() == other.lists()[p]@.len(),
            forall|p: int, sq: int|
                0 <= p < 12 && 0 <= sq < 64 ==> (#[trigger] self.lists()[p].contains(sq) <==> other.lists()[p].contains(
                    sq,
                )),
    {
        assert forall|p: int| 0 <= p < 12 implies #[trigger] self.bbs()[p] == other.bbs()[p] by {
            assert forall|sq: int| 0 <= sq < 64 implies member(self.bbs()[p].0, sq) == member(
                other.bbs()[p].0,
                sq,
            ) by {
                assert(member(self.bbs()[p].0, sq) <==> self@.pieces[sq].idx() == p);
                assert(member(other.bbs()[p].0, sq) <==> other@.pieces[sq].idx() == p);
            }
            lemma_ext(self.bbs()[p].0, other.bbs()[p].0);
        }
        assert(self.bbs() =~= other.bbs());
        assert forall|sq: int| 0 <= sq < 64 implies member(self.occ_white(), sq) == member(
            other.occ_white(),
            sq,
        ) by {
            assert(member(self.occ_white(), sq) <==> self@.pieces[sq].idx() < 6);
            assert(member(other.occ_white(), sq) <==> other@.pieces[sq].idx() < 6);
        }
        lemma_ext(self.occ_white(), other.occ_white());
        assert forall|sq: int| 0 <= sq < 64 implies member(self.occ_black(), sq) == member(
            other.occ_black(),
            sq,
        ) by {
            assert(member(self.occ_black(), sq) <==> 6 <= self@.pieces[sq].idx() < 12);
            assert(member(other.occ_black(), sq) <==> 6 <= other@.pieces[sq].idx() < 12);
        }
        lemma_ext(self.occ_black(), other.occ_black());
        assert forall|p: int| 0 <= p < 12 implies (#[trigger] self.lists()[p])@.len() == other.lists()[p]@.len() by {
            assert(self.lists()[p]@.len() == popcount(self.bbs()[p].0));
            assert(other.lists()[p]@.len() == popcount(other.bbs()[p].0));
        }
        assert forall|p: int, sq: int| 0 <= p < 12 && 0 <= sq < 64 implies (#[trigger] self.lists()[p].contains(sq)
            <==> other.lists()[p].contains(sq)) by {
            assert(self.lists()[p].contains(sq) <==> self@.pieces[sq].idx() == p);
            assert(other.lists()[p].contains(sq) <==> other@.pieces[sq].idx() == p);
        }
    }

    /// A move made and taken back on a board in use leaves the whole board as it was: the
    /// position, the hash, the history, the check flag, the bitboards, the occupancies and the
    /// squares that each list holds.
    pub proof fn lemma_make_undo_board(before: &Board, middle: &Board, after: &Board, played: MovePly, zobrist: &Zobrist)
        requires
            before.wf(zobrist),
            middle.made(before, played),
            after.undone(middle),
            after.wf(zobrist),
        ensures
            after.same_state(before),
            after.bbs() == before.bbs(),
            after.occ_white() == before.occ_white(),
            after.occ_black() == before.occ_black(),
            after.occ_all() == before.occ_all(),
            forall|p: int| 0 <= p < 12 ==> (#[trigger] after.lists()[p])@.len() == before.lists()[p]@.len(),
            forall|p: int, sq: int|
                0 <= p < 12 && 0 <= sq < 64 ==> (#[trigger] after.lists()[p].contains(sq) <==> before.lists()[p].contains(
                    sq,
                )),
    {
        Board::lemma_make_undo(before, middle, after, played);
        after.lemma_same_pieces(before);
    }

    /// The running hash of a board in use is the hash computed from the position alone.
    pub proof fn lemma_hash_recomputed(&self, zobrist: &Zobrist)
        requires
            self.wf(zobrist),
        ensures
            self.hash() == zobrist.hash(self@),
    {
    }

    /// On a board in use the two occupancies share no square and make up the whole, a square
    /// holds a piece exactly if it is in that piece's bitboard, and each square list is as long
    /// as its bitboard has squares and holds exactly those.
    pub proof fn lemma_consistent(&self, zobrist: &Zobrist)
        requires
            self.wf(zobrist),
        ensures
            self.occ_white() & self.occ_black() == 0,
            self.occ_all() == self.occ_white() | self.occ_black(),
            forall|p: int, sq: int|
                0 <= p < 12 && 0 <= sq < 64 ==> (self@.pieces[sq] == Piece::of(p) <==> member(self.bb(p), sq)),
            forall|p: int| 0 <= p < 12 ==> self.list(p)@.len() == popcount(self.bb(p)),
            forall|p: int, k: int|
                0 <= p < 12 && 0 <= k < self.list(p)@.len() ==> member(self.bb(p), #[trigger] self.list(p)@[k].idx()),
            forall|p: int, sq: int|
                0 <= p < 12 && member(self.bb(p), sq) ==> exists|k: int|
                    0 <= k < self.list(p)@.len() && #[trigger] self.list(p)@[k].idx() == sq,
    {
        assert forall|p: int, sq: int| 0 <= p < 12 && 0 <= sq < 64 implies (self@.pieces[sq] == Piece::of(p)
            <==> member(self.bb(p), sq)) by {
            self@.pieces[sq].lemma_idx();
            Piece::lemma_of(p);
            assert(member(self.bb(p), sq) <==> self@.pieces[sq].idx() == p);
        }
        assert forall|p: int, k: int| 0 <= p < 12 && 0 <= k < self.list(p)@.len() implies member(
            self.bb(p),
            #[trigger] self.list(p)@[k].idx(),
        ) by {
            self.list(p).lemma_contains();
            let sq = self.list(p)@[k].idx();
            assert(self.list(p).contains(sq));
            assert(member(self.bb(p), sq) <==> self@.pieces[sq].idx() == p);
        }
        assert forall|p: int, sq: int| 0 <= p < 12 && member(self.bb(p), sq) implies exists|k: int|
            0 <= k < self.list(p)@.len() && #[trigger] self.list(p)@[k].idx() == sq by {
            self.list(p).lemma_contains();
            assert(self.list(p).contains(sq));
        }
    }

    /// What the parts of the board say of the square `sq`.
    pub proof fn lemma_square(&self, sq: int)
        requires
            self.wf_pieces(),
            self.occ_ok(),
            0 <= sq < 64,
        ensures
            0 <= self@.pieces[sq].idx() <= 12,
            member(self.occ_white(), sq) <==> self@.pieces[sq].idx() < 6,
            member(self.occ_black(), sq) <==> 6 <= self@.pieces[sq].idx() < 12,
            member(self.occ_all(), sq) <==> self@.pieces[sq].occupied(),
            member(self.occ_of(self@.side), sq) <==> self@.pieces[sq].of_side(self@.side),
            member(self.occ_of(self@.side.flip()), sq) <==> self@.pieces[sq].of_side(self@.side.flip()),
            forall|p: int| 0 <= p < 12 ==> (member(#[trigger] self.bbs()[p].0, sq) <==> self@.pieces[sq].idx() == p),
    {
        broadcast use group_bits;
        self@.pieces[sq].lemma_idx();
        assert forall|p: int| 0 <= p < 12 implies (member(#[trigger] self.bbs()[p].0, sq)
            <==> self@.pieces[sq].idx() == p) by {
            assert(member(self.bbs()[p].0, sq) <==> self@.pieces[sq].idx() == p);
        }
    }

    /// The occupancy of a board in use is the set of the occupied squares of its position.
    pub proof fn lemma_occ(&self)
        requires
            self.wf_pieces(),
            self.occ_ok(),
        ensures
            self.occ_all() == self@.occ(),
    {
        assert forall|u: int| 0 <= u < 64 implies member(self.occ_all(), u) == member(self@.occ(), u) by {
            self.lemma_square(u);
            lemma_occ_bits(self@.pieces, 64, u);
        }
        lemma_ext(self.occ_all(), self@.occ());
    }

    /// The `k`-th square of the list of the piece with number `p` holds that piece.
    pub proof fn lemma_list_member(&self, p: int, k: int)
        requires
            self.wf_pieces(),
            0 <= p < 12,
            0 <= k < self.list(p)@.len(),
        ensures
            0 <= self.list(p)@[k].idx() < 64,
            self@.pieces[self.list(p)@[k].idx()] == Piece::of(p),
    {
        let sq = self.list(p)@[k].idx();
        self.list(p)@[k].lemma_idx();
        assert(self.lists()[p].wf());
        self.lists()[p].lemma_contains();
        assert(self.lists()[p].contains(sq));
        assert(self.lists()[p].contains(sq) <==> self@.pieces[sq].idx() == p);
        self@.pieces[sq].lemma_idx();
    }

    /// The king of `color` stands on one square only.
    pub proof fn lemma_king_unique(&self, color: Color, k: int)
        requires
            self.wf_pieces(),
            self.kings_ok(),
            0 <= k < 64,
            self@.pieces[k] == Piece::make(5, color),
        ensures
            k == self.list(5 + 6 * color.idx())@[0].idx(),
    {
        let p = 5 + 6 * color.idx();
        assert(self.lists()[p].wf());
        self.lists()[p].lemma_contains();
        assert(self.lists()[p].contains(k) <==> self@.pieces[k].idx() == p);
    }

    pub fn orthogonal_bitboard_them(&self) -> (r: u64)
        ensures
            r == self.bb(3 + 6 * self@.side.flip().idx()) | self.bb(4 + 6 * self@.side.flip().idx()),
    {
        match self.side_to_move {
            Color::Black => self.bitboards[3].0 | self.bitboards[4].0,
            Color::White => self.bitboards[9].0 | self.bitboards[10].0,
        }
    }

    pub fn diagonal_bitboard_them(&self) -> (r: u64)
        ensures
            r == self.bb(2 + 6 * self@.side.flip().idx()) | self.bb(4 + 6 * self@.side.flip().idx()),
    {
        match self.side_to_move {
            Color::White => self.bitboards[8].0 | self.bitboards[10].0,
            Color::Black => self.bitboards[2].0 | self.bitboards[4].0,
        }
    }

    /// The bitboard of the pieces of kind `base_piece` and of `color`.
    pub fn bitboard(&self, base_piece: BasePiece, color: Color) -> (r: u64)
        ensures
            r == self.bb(base_piece.idx() + 6 * color.idx()),
    {
        let piece = Piece::from_base(base_piece, color);
        self.bitboards[piece.index() as usize].0
    }

    pub fn bitboard_them(&self, base_piece: BasePiece) -> (r: u64)
        ensures
            r == self.bb(base_piece.idx() + 6 * self@.side.flip().idx()),
    {
        self.bitboard(base_piece, self.side_to_move.not())
    }

    pub fn bitboard_combined(&self, piece: BasePiece) -> (r: u64)
        ensures
            r == self.bb(piece.idx()) | self.bb(piece.idx() + 6),
    {
        let i: usize = piece.index() as usize;
        self.bitboards[i].0 | self.bitboards[i + 6].0
    }

    pub fn piece_list(&self, piece: Piece) -> (r: &[Square])
        requires
            piece.occupied(),
        ensures
            r@ == self.list(piece.idx())@,
    {
        self.piece_lists[piece.index() as usize].indexes()
    }

    pub fn piece_list_us(&self, base_piece: BasePiece) -> (r: &[Square])
        ensures
            r@ == self.list(base_piece.idx() + 6 * self@.side.idx())@,
    {
        let piece = Piece::from_base(base_piece, self.side_to_move);
        self.piece_lists[piece.index() as usize].indexes()
    }

    pub fn piece_list_them(&self, base_piece: BasePiece) -> (r: &[Square])
        ensures
            r@ == self.list(base_piece.idx() + 6 * self@.side.flip().idx())@,
    {
        let piece = Piece::from_base(base_piece, self.side_to_move.not());
        self.piece_lists[piece.index() as usize].indexes()
    }

    pub fn piece_at(&self, square: Square) -> (r: Piece)
        ensures
            r == self@.pieces[square.idx()],
    {
        self.piece_squares[square.index() as usize]
    }

    pub fn king_square(&self, color: Color) -> (r: Square)
        requires
            self.wf_pieces(),
            self.kings_ok(),
        ensures
            self@.pieces[r.idx()] == Piece::make(5, color),
            member(self.bb(5 + 6 * color.idx()), r.idx()),
            r == self.list(5 + 6 * color.idx())@[0],
    {
        let p: usize = match color {
            Color::White => 5,
            Color::Black => 11,
        };
        let squares = self.piece_lists[p].indexes();
        let r = squares[0];
        proof {
            assert(self.list(p as int).wf());
            self.list(p as int).lemma_contains();
            r.lemma_idx();
            assert(self.list(p as int).contains(r.idx()));
            assert(member(self.bb(p as int), r.idx()) <==> self@.pieces[r.idx()].idx() == p);
            self@.pieces[r.idx()].lemma_idx();
        }
        r
    }

    pub fn occupancy_us(&self) -> (r: u64)
        ensures
            r == self.occ_of(self@.side),
    {
        match self.side_to_move {
            Color::White => self.white_occupancy,
            Color::Black => self.black_occupancy,
        }
    }

    pub fn occupancy_them(&self) -> (r: u64)
        ensures
            r == self.occ_of(self@.side.flip()),
    {
        match self.side_to_move {
            Color::White => self.black_occupancy,
            Color::Black => self.white_occupancy,
        }
    }

    pub fn occupancy(&self) -> (r: u64)
        ensures
            r == self.occ_all(),
    {
        self.occupancy
    }

    pub fn side_to_move(&self) -> (r: Color)
        ensures
            r == self@.side,
    {
        self.side_to_move
    }

    pub fn en_passant_file(&self) -> (r: Option<File>)
        ensures
            r == if self@.ep_valid {
                Some(self@.ep_file)
            } else {
                None
            },
    {
        match self.can_en_passant {
            true => Some(self.en_passant_file),
            false => None,
        }
    }

    pub fn has_short_castle_rights(&self, color: Color) -> (r: bool)
        ensures
            r == right(self@.castling, 2 * color.idx()),
    {
        proof {
            lemma_right_bits(self.castling_rights);
        }
        match color {
            Color::White => self.castling_rights & 0b0001 != 0,
            Color::Black => self.castling_rights & 0b0100 != 0,
        }
    }

    pub fn has_long_castle_rights(&self, color: Color) -> (r: bool)
        ensures
            r == right(self@.castling, 2 * color.idx() + 1),
    {
        proof {
            lemma_right_bits(self.castling_rights);
        }
        match color {
            Color::White => self.castling_rights & 0b0010 != 0,
            Color::Black => self.castling_rights & 0b1000 != 0,
        }
    }

    pub fn zobrist(&self) -> (r: u64)
        ensures
            r == self.hash(),
    {
        self.zobrist
    }

    /// The entries of the moves made so far, oldest first; `None` when no move was made.
    pub fn past_board_states(&self) -> (r: Option<&[BoardState]>)
        ensures
            self.history().len() == 0 ==> r.is_none(),
            self.history().len() > 0 ==> r.is_some() && r.unwrap()@ == self.history(),
    {
        if self.board_states.len() > 0 {
            return Some(self.board_states.as_slice());
        }
        None
    }

    /// The move made last, if any move was made and it was not a pass.
    pub fn last_move(&self) -> (r: Option<MovePly>)
        ensures
            r == if self.history().len() > 0 && self.history().last().played.bits() != 0 {
                Some(self.history().last().played)
            } else {
                None
            },
    {
        let n: usize = self.board_states.len();
        if n > 0 && !self.board_states[n - 1].played.is_default() {
            return Some(self.board_states[n - 1].played);
        }
        None
    }

    pub fn half_move_clock(&self) -> (r: u8)
        ensures
            r == self@.half_move,
    {
        self.half_move_clock
    }

    pub fn in_check(&self) -> (r: bool)
        ensures
            r == self.check_flag(),
    {
        self.in_check
    }

    pub fn set_in_check(&mut self, in_check: bool)
        ensures
            final(self).check_flag() == in_check,
            final(self).same_pieces(old(self)),
            final(self).hash() == old(self).hash(),
            final(self).history() == old(self).history(),
            final(self).past() == old(self).past(),
            final(self).occ_white() == old(self).occ_white(),
            final(self).occ_black() == old(self).occ_black(),
            final(self).occ_all() == old(self).occ_all(),
    {
        self.in_check = in_check;
    }

    /// Recomputes the three occupancies from the bitboards.
    pub fn update_occupancy(&mut self)
        requires
            old(self).wf_pieces(),
        ensures
            final(self).occ_ok(),
            final(self).same_pieces(old(self)),
            final(self).hash() == old(self).hash(),
            final(self).history() == old(self).history(),
            final(self).past() == old(self).past(),
            final(self).check_flag() == old(self).check_flag(),
    {
        let mut white: u64 = 0;
        let mut black: u64 = 0;
        proof {
            broadcast use group_bits;
        }
        let mut p: usize = 0;
        while p < 6
            invariant
                p <= 6,
                self.wf_pieces(),
                *self == *old(self),
                forall|sq: int| 0 <= sq < 64 ==> (member(white, sq) <==> self@.pieces[sq].idx() < p),
                forall|sq: int|
                    0 <= sq < 64 ==> (member(black, sq) <==> 6 <= self@.pieces[sq].idx() < 6 + p),
            decreases 6 - p,
        {
            let w: u64 = self.bitboards[p].0;
            let b: u64 = self.bitboards[p + 6].0;
            proof {
                broadcast use group_bits;
                assert forall|sq: int| 0 <= sq < 64 implies (member(white | w, sq) <==> self@.pieces[sq].idx() < p
                    + 1) by {
                    self@.pieces[sq].lemma_idx();
                    assert(member(self.bb(p as int), sq) <==> self@.pieces[sq].idx() == p);
                }
                assert forall|sq: int| 0 <= sq < 64 implies (member(black | b, sq) <==> 6
                    <= self@.pieces[sq].idx() < 6 + p + 1) by {
                    self@.pieces[sq].lemma_idx();
                    assert(member(self.bb(p as int + 6), sq) <==> self@.pieces[sq].idx() == p + 6);
                }
            }
            white = white | w;
            black = black | b;
            p += 1;
        }
        self.white_occupancy = white;
        self.black_occupancy = black;
        self.occupancy = white | black;
        proof {
            broadcast use group_bits;
            assert forall|sq: int| 0 <= sq < 64 implies !member(white & black, sq) by {}
            lemma_empty(white & black);
        }
    }

    fn push_board_state(&mut self, played: MovePly, captured: Piece)
        ensures
            final(self).same_pieces(old(self)),
            final(self).hash() == old(self).hash(),
            final(self).check_flag() == old(self).check_flag(),
            final(self).occ_white() == old(self).occ_white(),
            final(self).occ_black() == old(self).occ_black(),
            final(self).occ_all() == old(self).occ_all(),
            final(self).past() == old(self).past().push(old(self)@),
            final(self).history() == old(self).history().push(
                BoardState {
                    played,
                    captured,
                    half_move_clock: old(self)@.half_move,
                    castling_rights: old(self)@.castling,
                    en_passant_file: old(self)@.ep_file,
                    can_en_passant: old(self)@.ep_valid,
                    zobrist: old(self).hash(),
                },
            ),
    {
        self.board_states.push(
            BoardState {
                played,
                captured,
                half_move_clock: self.half_move_clock,
                castling_rights: self.castling_rights,
                en_passant_file: self.en_passant_file,
                can_en_passant: self.can_en_passant,
                zobrist: self.zobrist,
            },
        );
        self.past = Ghost(self.past@.push(old(self)@));
    }

    /// Puts `piece` on the empty `square`.
    fn add_piece<const ZOBRIST_OPTION: bool>(&mut self, piece: Piece, square: Square, zobrist: &Zobrist)
        requires
            old(self).wf_pieces(),
            zobrist.wf(),
            piece.occupied(),
            old(self)@.pieces[square.idx()] == Piece::NoPiece,
        ensures
            final(self).wf_pieces(),
            final(self)@ == (Position { pieces: old(self)@.pieces.update(square.idx(), piece), ..old(self)@ }),
            final(self).aux() == old(self).aux(),
            !piece.king() ==> final(self).kings() == old(self).kings(),
            forall|q: int|
                0 <= q < 12 ==> (#[trigger] final(self).lists()[q])@.len() == old(self).lists()[q]@.len() + if q
                    == piece.idx() {
                    1int
                } else {
                    0int
                },
            ZOBRIST_OPTION && old(self).hash_ok(zobrist) ==> final(self).hash_ok(zobrist),
            !ZOBRIST_OPTION ==> final(self).hash() == old(self).hash(),
    {
        let p: usize = piece.index() as usize;
        let s: usize = square.index() as usize;
        proof {
            square.lemma_idx();
            assert(member(self.bbs()[p as int].0, s as int) <==> self@.pieces[s as int].idx() == p);
            lemma_count_missing(self.bbs()[p as int].0, s as int);
            assert(self.lists()[p as int].wf());
            assert(self.lists()[p as int].contains(s as int) <==> self@.pieces[s as int].idx() == p);
        }
        let mut bitboard = self.bitboards[p];
        bitboard.add_piece(square);
        self.bitboards[p] = bitboard;
        self.piece_lists[p].add_piece(square);
        self.piece_squares[s] = piece;
        if ZOBRIST_OPTION == INCREMENT_ZOBRIST {
            self.zobrist = self.zobrist ^ zobrist.square_zobrist(piece, square);
        }
        proof {
            assert(self@.pieces =~= old(self)@.pieces.update(square.idx(), piece));
            assert(self.bbs() =~= old(self).bbs().update(p as int, bitboard));
            assert(self.lists() =~= old(self).lists().update(p as int, self.piece_lists[p as int]));
            lemma_count_gain(old(self).bbs()[p as int].0, bitboard.0, s as int, 64);
            lemma_agree_change(
                old(self).bbs(),
                old(self).lists(),
                old(self)@.pieces,
                self.bbs(),
                self.lists(),
                self@.pieces,
                s as int,
                p as int,
            );
            if ZOBRIST_OPTION && old(self).hash_ok(zobrist) {
                zobrist.lemma_hash_set_piece(old(self)@, s as int, piece);
                lemma_xor(old(self).zobrist, 0, 0);
            }
        }
    }

    /// Takes `piece` from `square`, where it stands.
    fn remove_piece<const ZOBRIST_OPTION: bool>(&mut self, piece: Piece, square: Square, zobrist: &Zobrist)
        requires
            old(self).wf_pieces(),
            zobrist.wf(),
            piece.occupied(),
            old(self)@.pieces[square.idx()] == piece,
        ensures
            final(self).wf_pieces(),
            final(self)@ == (Position {
                pieces: old(self)@.pieces.update(square.idx(), Piece::NoPiece),
                ..old(self)@
            }),
            final(self).aux() == old(self).aux(),
            !piece.king() ==> final(self).kings() == old(self).kings(),
            forall|q: int|
                0 <= q < 12 ==> (#[trigger] final(self).lists()[q])@.len() == old(self).lists()[q]@.len() - if q
                    == piece.idx() {
                    1int
                } else {
                    0int
                },
            ZOBRIST_OPTION && old(self).hash_ok(zobrist) ==> final(self).hash_ok(zobrist),
            !ZOBRIST_OPTION ==> final(self).hash() == old(self).hash(),
    {
        let p: usize = piece.index() as usize;
        let s: usize = square.index() as usize;
        proof {
            square.lemma_idx();
            assert(member(self.bbs()[p as int].0, s as int) <==> self@.pieces[s as int].idx() == p);
            assert(self.lists()[p as int].wf());
            assert(self.lists()[p as int].contains(s as int) <==> self@.pieces[s as int].idx() == p);
        }
        let mut bitboard = self.bitboards[p];
        bitboard.remove_piece(square);
        self.bitboards[p] = bitboard;
        self.piece_lists[p].remove_piece(square);
        self.piece_squares[s] = Piece::NoPiece;
        if ZOBRIST_OPTION == INCREMENT_ZOBRIST {
            self.zobrist = self.zobrist ^ zobrist.square_zobrist(piece, square);
        }
        proof {
            assert(self@.pieces =~= old(self)@.pieces.update(square.idx(), Piece::NoPiece));
            assert(self.bbs() =~= old(self).bbs().update(p as int, bitboard));
            assert(self.lists() =~= old(self).lists().update(p as int, self.piece_lists[p as int]));
            lemma_count_gain(bitboard.0, old(self).bbs()[p as int].0, s as int, 64);
            lemma_agree_change(
                old(self).bbs(),
                old(self).lists(),
                old(self)@.pieces,
                self.bbs(),
                self.lists(),
                self@.pieces,
                s as int,
                p as int,
            );
            if ZOBRIST_OPTION && old(self).hash_ok(zobrist) {
                zobrist.lemma_hash_set_piece(old(self)@, s as int, Piece::NoPiece);
                lemma_xor(old(self).zobrist ^ zobrist.piece_key(piece, s as int), 0, 0);
            }
        }
    }

    /// Moves `piece` from `from`, where it stands, to the empty square `to`.
    fn move_piece<const ZOBRIST_OPTION: bool>(
        &mut self,
        piece: Piece,
        from: Square,
        to: Square,
        zobrist: &Zobrist,
    )
        requires
            old(self).wf_pieces(),
            zobrist.wf(),
            piece.occupied(),
            from.idx() != to.idx(),
            old(self)@.pieces[from.idx()] == piece,
            old(self)@.pieces[to.idx()] == Piece::NoPiece,
        ensures
            final(self).wf_pieces(),
            final(self)@ == (Position {
                pieces: old(self)@.pieces.update(from.idx(), Piece::NoPiece).update(to.idx(), piece),
                ..old(self)@
            }),
            final(self).aux() == old(self).aux(),
            final(self).kings() == old(self).kings(),
            ZOBRIST_OPTION && old(self).hash_ok(zobrist) ==> final(self).hash_ok(zobrist),
            !ZOBRIST_OPTION ==> final(self).hash() == old(self).hash(),
    {
        proof {
            from.lemma_idx();
            to.lemma_idx();
        }
        self.remove_piece::<ZOBRIST_OPTION>(piece, from, zobrist);
        self.add_piece::<ZOBRIST_OPTION>(piece, to, zobrist);
    }

    /// The key of the castling right `i` if it is among `before` and not among `after`.
    fn dropped(before: u8, after: u8, i: u8, zobrist: &Zobrist) -> (r: u64)
        requires
            i < 4,
        ensures
            r == zobrist.dropped_key(before, after, i as int),
    {
        if before & (1u8 << i) != 0 && after & (1u8 << i) == 0 {
            zobrist.castle_right(i as usize)
        } else {
            0
        }
    }

    /// Forgets the en-passant right.
    fn clear_en_passant(&mut self, zobrist: &Zobrist)
        ensures
            final(self)@ == (Position { ep_valid: false, ..old(self)@ }),
            final(self).bbs() == old(self).bbs(),
            final(self).lists() == old(self).lists(),
            final(self).aux() == old(self).aux(),
            old(self).hash_ok(zobrist) ==> final(self).hash_ok(zobrist),
    {
        if self.can_en_passant {
            self.zobrist = self.zobrist ^ zobrist.pawn_jump(self.en_passant_file);
        }
        self.can_en_passant = false;
        proof {
            zobrist.lemma_hash_set_ep(old(self)@, false, old(self)@.ep_file);
            lemma_xor(self.zobrist, 0, 0);
            lemma_xor(old(self).zobrist, 0, 0);
        }
    }

    /// Takes away the castling rights that a move from `from` to `to` ends.
    fn strip_castling(&mut self, from: Square, to: Square, zobrist: &Zobrist)
        ensures
            final(self)@ == (Position {
                castling: old(self)@.castling & castle_mask(from.idx()) & castle_mask(to.idx()),
                ..old(self)@
            }),
            final(self)@.castling <= old(self)@.castling,
            final(self).bbs() == old(self).bbs(),
            final(self).lists() == old(self).lists(),
            final(self).aux() == old(self).aux(),
            old(self).hash_ok(zobrist) ==> final(self).hash_ok(zobrist),
    {
        let before: u8 = self.castling_rights;
        let first: u8 = before & square_moved_castling(from);
        let after: u8 = first & square_moved_castling(to);
        let d0: u64 = Self::dropped(before, after, 0, zobrist);
        let d1: u64 = Self::dropped(before, after, 1, zobrist);
        let d2: u64 = Self::dropped(before, after, 2, zobrist);
        let d3: u64 = Self::dropped(before, after, 3, zobrist);
        self.castling_rights = after;
        self.zobrist = (((self.zobrist ^ d0) ^ d1) ^ d2) ^ d3;
        proof {
            assert forall|i: int| 0 <= i < 4 && right(after, i) implies right(before, i) by {
                lemma_right_masked(before, castle_mask(from.idx()), i);
                lemma_right_masked(first, castle_mask(to.idx()), i);
            }
            lemma_right_masked(before, castle_mask(from.idx()), 0);
            lemma_right_masked(first, castle_mask(to.idx()), 0);
            zobrist.lemma_hash_set_castling(old(self)@, after);
        }
    }

    fn apply_quiet(&mut self, played: &MovePly, zobrist: &Zobrist)
        requires
            old(self).wf_pieces(),
            zobrist.wf(),
            played.from_idx() != played.to_idx(),
            old(self)@.pieces[played.from_idx()].occupied(),
            old(self)@.pieces[played.to_idx()] == Piece::NoPiece,
        ensures
            final(self).wf_pieces(),
            final(self)@ == (Position {
                pieces: old(self)@.pieces.update(played.from_idx(), Piece::NoPiece).update(
                    played.to_idx(),
                    old(self)@.pieces[played.from_idx()],
                ),
                ..old(self)@
            }),
            final(self).aux() == old(self).aux(),
            final(self).kings() == old(self).kings(),
            old(self).hash_ok(zobrist) ==> final(self).hash_ok(zobrist),
    {
        let from = played.from();
        self.move_piece::<INCREMENT_ZOBRIST>(self.piece_at(from), from, played.to(), zobrist)
    }

    fn apply_double_jump(&mut self, played: &MovePly, zobrist: &Zobrist)
        requires
            old(self).wf_pieces(),
            zobrist.wf(),
            played.from_idx() != played.to_idx(),
            old(self)@.pieces[played.from_idx()].occupied(),
            old(self)@.pieces[played.to_idx()] == Piece::NoPiece,
            !old(self)@.ep_valid,
        ensures
            final(self).wf_pieces(),
            final(self)@ == (Position {
                pieces: old(self)@.pieces.update(played.from_idx(), Piece::NoPiece).update(
                    played.to_idx(),
                    old(self)@.pieces[played.from_idx()],
                ),
                ep_file: File::of(played.from_idx() % 8),
                ep_valid: true,
                ..old(self)@
            }),
            final(self).aux() == old(self).aux(),
            final(self).kings() == old(self).kings(),
            old(self).hash_ok(zobrist) ==> final(self).hash_ok(zobrist),
    {
        self.en_passant_file = played.from().file();
        self.can_en_passant = true;
        self.zobrist = self.zobrist ^ zobrist.pawn_jump(self.en_passant_file);
        proof {
            self.en_passant_file.lemma_idx();
            zobrist.lemma_hash_set_ep(old(self)@, true, self.en_passant_file);
            lemma_xor(old(self).zobrist, 0, 0);
        }
        self.apply_quiet(played, zobrist);
    }

    fn apply_short_castle(&mut self, zobrist: &Zobrist)
        requires
            old(self).wf_pieces(),
            zobrist.wf(),
            old(self)@.castle_ready(true),
        ensures
            final(self).wf_pieces(),
            final(self)@ == (Position {
                pieces: old(self)@.pieces_after_castle(true),
                ..old(self)@
            }),
            final(self).aux() == old(self).aux(),
            final(self).kings() == old(self).kings(),
            old(self).hash_ok(zobrist) ==> final(self).hash_ok(zobrist),
    {
        match self.side_to_move {
            Color::White => {
                self.move_piece::<INCREMENT_ZOBRIST>(Piece::WhiteKing, Square::E1, Square::G1, zobrist);
                self.move_piece::<INCREMENT_ZOBRIST>(Piece::WhiteRook, Square::H1, Square::F1, zobrist);
            },
            Color::Black => {
                self.move_piece::<INCREMENT_ZOBRIST>(Piece::BlackKing, Square::E8, Square::G8, zobrist);
                self.move_piece::<INCREMENT_ZOBRIST>(Piece::BlackRook, Square::H8, Square::F8, zobrist);
            },
        }
    }

    fn apply_long_castle(&mut self, zobrist: &Zobrist)
        requires
            old(self).wf_pieces(),
            zobrist.wf(),
            old(self)@.castle_ready(false),
        ensures
            final(self).wf_pieces(),
            final(self)@ == (Position {
                pieces: old(self)@.pieces_after_castle(false),
                ..old(self)@
            }),
            final(self).aux() == old(self).aux(),
            final(self).kings() == old(self).kings(),
            old(self).hash_ok(zobrist) ==> final(self).hash_ok(zobrist),
    {
        match self.side_to_move {
            Color::White => {
                self.move_piece::<INCREMENT_ZOBRIST>(Piece::WhiteKing, Square::E1, Square::C1, zobrist);
                self.move_piece::<INCREMENT_ZOBRIST>(Piece::WhiteRook, Square::A1, Square::D1, zobrist);
            },
            Color::Black => {
                self.move_piece::<INCREMENT_ZOBRIST>(Piece::BlackKing, Square::E8, Square::C8, zobrist);
                self.move_piece::<INCREMENT_ZOBRIST>(Piece::BlackRook, Square::A8, Square::D8, zobrist);
            },
        }
    }

    fn apply_promotion(&mut self, played: &MovePly, zobrist: &Zobrist)
        requires
            old(self).wf_pieces(),
            zobrist.wf(),
            played.from_idx() != played.to_idx(),
            played.spec_flag().promotion(),
            old(self)@.pieces[played.from_idx()].pawn(),
            old(self)@.pieces[played.to_idx()] == Piece::NoPiece,
        ensures
            final(self).wf_pieces(),
            final(self)@ == (Position {
                pieces: old(self)@.pieces.update(played.from_idx(), Piece::NoPiece).update(
                    played.to_idx(),
                    Piece::make(played.spec_flag().idx(), old(self)@.side),
                ),
                ..old(self)@
            }),
            final(self).aux() == old(self).aux(),
            final(self).kings() == old(self).kings(),
            old(self).hash_ok(zobrist) ==> final(self).hash_ok(zobrist),
    {
        proof {
            played.lemma_ranges();
        }
        self.remove_piece::<INCREMENT_ZOBRIST>(self.piece_at(played.from()), played.from(), zobrist);
        self.add_piece::<INCREMENT_ZOBRIST>(
            played.flag().promotion_piece(self.side_to_move),
            played.to(),
            zobrist,
        );
    }

    fn apply_en_passant(&mut self, played: &MovePly, zobrist: &Zobrist)
        requires
            old(self).wf_pieces(),
            zobrist.wf(),
            played.from_idx() != played.to_idx(),
            old(self)@.pieces[played.from_idx()].occupied(),
            old(self)@.pieces[played.to_idx()] == Piece::NoPiece,
            old(self)@.pieces[ep_victim(old(self)@.side, old(self)@.ep_file)] == Piece::make(
                0,
                old(self)@.side.flip(),
            ),
            ep_victim(old(self)@.side, old(self)@.ep_file) != played.from_idx(),
        ensures
            final(self).wf_pieces(),
            final(self)@ == (Position {
                pieces: old(self)@.pieces.update(played.from_idx(), Piece::NoPiece).update(
                    played.to_idx(),
                    old(self)@.pieces[played.from_idx()],
                ).update(ep_victim(old(self)@.side, old(self)@.ep_file), Piece::NoPiece),
                ..old(self)@
            }),
            final(self).aux() == old(self).aux(),
            final(self).kings() == old(self).kings(),
            old(self).hash_ok(zobrist) ==> final(self).hash_ok(zobrist),
    {
        proof {
            played.lemma_ranges();
            self.en_passant_file.lemma_idx();
        }
        self.apply_quiet(played, zobrist);
        match self.side_to_move {
            Color::White => self.remove_piece::<INCREMENT_ZOBRIST>(
                Piece::BlackPawn,
                Square::from_index(self.en_passant_file.index() + 32),
                zobrist,
            ),
            Color::Black => self.remove_piece::<INCREMENT_ZOBRIST>(
                Piece::WhitePawn,
                Square::from_index(self.en_passant_file.index() + 24),
                zobrist,
            ),
        }
    }

    fn reverse_quiet(&mut self, played: MovePly, zobrist: &Zobrist)
        requires
            old(self).wf_pieces(),
            zobrist.wf(),
            played.from_idx() != played.to_idx(),
            old(self)@.pieces[played.to_idx()].occupied(),
            old(self)@.pieces[played.from_idx()] == Piece::NoPiece,
        ensures
            final(self).wf_pieces(),
            final(self)@ == (Position {
                pieces: old(self)@.pieces.update(played.to_idx(), Piece::NoPiece).update(
                    played.from_idx(),
                    old(self)@.pieces[played.to_idx()],
                ),
                ..old(self)@
            }),
            final(self).aux() == old(self).aux(),
            final(self).kings() == old(self).kings(),
            final(self).hash() == old(self).hash(),
    {
        let to = played.to();
        self.move_piece::<IGNORE_ZOBRIST>(self.piece_at(to), to, played.from(), zobrist)
    }

    fn reverse_short_castle(&mut self, zobrist: &Zobrist)
        requires
            old(self).wf_pieces(),
            zobrist.wf(),
            old(self)@.castle_done(true),
        ensures
            final(self).wf_pieces(),
            final(self)@ == (Position {
                pieces: old(self)@.pieces_before_castle(true),
                ..old(self)@
            }),
            final(self).aux() == old(self).aux(),
            final(self).kings() == old(self).kings(),
            final(self).hash() == old(self).hash(),
    {
        match self.side_to_move {
            Color::White => {
                self.move_piece::<IGNORE_ZOBRIST>(Piece::WhiteKing, Square::G1, Square::E1, zobrist);
                self.move_piece::<IGNORE_ZOBRIST>(Piece::WhiteRook, Square::F1, Square::H1, zobrist);
            },
            Color::Black => {
                self.move_piece::<IGNORE_ZOBRIST>(Piece::BlackKing, Square::G8, Square::E8, zobrist);
                self.move_piece::<IGNORE_ZOBRIST>(Piece::BlackRook, Square::F8, Square::H8, zobrist);
            },
        }
    }

    fn reverse_long_castle(&mut self, zobrist: &Zobrist)
        requires
            old(self).wf_pieces(),
            zobrist.wf(),
            old(self)@.castle_done(false),
        ensures
            final(self).wf_pieces(),
            final(self)@ == (Position {
                pieces: old(self)@.pieces_before_castle(false),
                ..old(self)@
            }),
            final(self).aux() == old(self).aux(),
            final(self).kings() == old(self).kings(),
            final(self).hash() == old(self).hash(),
    {
        match self.side_to_move {
            Color::White => {
                self.move_piece::<IGNORE_ZOBRIST>(Piece::WhiteKing, Square::C1, Square::E1, zobrist);
                self.move_piece::<IGNORE_ZOBRIST>(Piece::WhiteRook, Square::D1, Square::A1, zobrist);
            },
            Color::Black => {
                self.move_piece::<IGNORE_ZOBRIST>(Piece::BlackKing, Square::C8, Square::E8, zobrist);
                self.move_piece::<IGNORE_ZOBRIST>(Piece::BlackRook, Square::D8, Square::A8, zobrist);
            },
        }
    }

    fn reverse_promotion(&mut self, played: MovePly, zobrist: &Zobrist)
        requires
            old(self).wf_pieces(),
            zobrist.wf(),
            played.from_idx() != played.to_idx(),
            old(self)@.pieces[played.to_idx()].occupied(),
            !old(self)@.pieces[played.to_idx()].king(),
            old(self)@.pieces[played.from_idx()] == Piece::NoPiece,
        ensures
            final(self).wf_pieces(),
            final(self)@ == (Position {
                pieces: old(self)@.pieces.update(played.to_idx(), Piece::NoPiece).update(
                    played.from_idx(),
                    Piece::make(0, old(self)@.side),
                ),
                ..old(self)@
            }),
            final(self).aux() == old(self).aux(),
            final(self).kings() == old(self).kings(),
            final(self).hash() == old(self).hash(),
    {
        proof {
            played.lemma_ranges();
        }
        self.remove_piece::<IGNORE_ZOBRIST>(self.piece_at(played.to()), played.to(), zobrist);
        let pawn = match self.side_to_move {
            Color::White => Piece::WhitePawn,
            Color::Black => Piece::BlackPawn,
        };
        self.add_piece::<IGNORE_ZOBRIST>(pawn, played.from(), zobrist);
    }

    fn reverse_en_passant(&mut self, played: MovePly, zobrist: &Zobrist)
        requires
            old(self).wf_pieces(),
            zobrist.wf(),
            played.from_idx() != played.to_idx(),
            old(self)@.pieces[played.to_idx()].occupied(),
            old(self)@.pieces[played.from_idx()] == Piece::NoPiece,
            old(self)@.pieces[ep_victim(old(self)@.side, old(self)@.ep_file)] == Piece::NoPiece,
            ep_victim(old(self)@.side, old(self)@.ep_file) != played.from_idx(),
            ep_victim(old(self)@.side, old(self)@.ep_file) != played.to_idx(),
        ensures
            final(self).wf_pieces(),
            final(self)@ == (Position {
                pieces: old(self)@.pieces.update(played.to_idx(), Piece::NoPiece).update(
                    played.from_idx(),
                    old(self)@.pieces[played.to_idx()],
                ).update(
                    ep_victim(old(self)@.side, old(self)@.ep_file),
                    Piece::make(0, old(self)@.side.flip()),
                ),
                ..old(self)@
            }),
            final(self).aux() == old(self).aux(),
            final(self).kings() == old(self).kings(),
            final(self).hash() == old(self).hash(),
    {
        proof {
            played.lemma_ranges();
            self.en_passant_file.lemma_idx();
        }
        self.reverse_quiet(played, zobrist);
        match self.side_to_move {
            Color::White => self.add_piece::<IGNORE_ZOBRIST>(
                Piece::BlackPawn,
                Square::from_index(self.en_passant_file.index() + 32),
                zobrist,
            ),
            Color::Black => self.add_piece::<IGNORE_ZOBRIST>(
                Piece::WhitePawn,
                Square::from_index(self.en_passant_file.index() + 24),
                zobrist,
            ),
        }
    }

    /// Makes `played`, which must fit the position.
    pub fn make_move(&mut self, played: &MovePly, zobrist: &Zobrist)
        requires
            old(self).wf(zobrist),
            zobrist.wf(),
            old(self)@.applicable(*played),
        ensures
            final(self).wf(zobrist),
            final(self).made(old(self), *played),
    {
        let from = played.from();
        let to = played.to();
        let capture = self.piece_at(to);
        let moving_piece = self.piece_at(from);
        let flag = played.flag();
        let ghost start = self@;
        proof {
            played.lemma_ranges();
            from.lemma_idx();
            to.lemma_idx();
            start.ep_file.lemma_idx();
            if played.bits() == 0 {
                played.lemma_zero();
            }
        }
        self.push_board_state(*played, capture);
        if capture.is_piece() {
            self.remove_piece::<INCREMENT_ZOBRIST>(capture, to, zobrist);
        }
        assert(self@.pieces =~= start.pieces.update(to.idx(), Piece::NoPiece));
        if moving_piece.is_pawn() || capture.is_piece() {
            self.half_move_clock = 0;
        } else if self.half_move_clock < u8::MAX {
            self.half_move_clock += 1;
        }
        self.clear_en_passant(zobrist);
        self.strip_castling(from, to, zobrist);
        assert(self.wf_pieces());
        assert(self.hash_ok(zobrist));
        assert(self.kings() == old(self).kings());
        match flag {
            MoveFlag::Quiet => self.apply_quiet(played, zobrist),
            MoveFlag::DoubleJump => self.apply_double_jump(played, zobrist),
            MoveFlag::CastleKingSide => self.apply_short_castle(zobrist),
            MoveFlag::CastleQueenSide => self.apply_long_castle(zobrist),
            MoveFlag::EnPassantCapture => self.apply_en_passant(played, zobrist),
            _ => self.apply_promotion(played, zobrist),
        }
        assert(self@.pieces =~= start.pieces_after(*played));
        let ghost before_flip = self@;
        self.side_to_move = self.side_to_move.not();
        self.zobrist = self.zobrist ^ zobrist.side_to_move();
        proof {
            zobrist.lemma_hash_flip(before_flip);
        }
        self.update_occupancy();
        proof {
            assert(self@ == start.make(*played));
            lemma_hist_push(
                old(self).past(),
                old(self).history(),
                start,
                self.history().last(),
                self@,
                zobrist,
            );
        }
    }

    /// Takes back the move made last.
    pub fn undo_move(&mut self, zobrist: &Zobrist)
        requires
            old(self).wf(zobrist),
            zobrist.wf(),
            old(self).history().len() > 0,
            old(self).history().last().played.bits() != 0,
        ensures
            final(self).wf(zobrist),
            final(self).undone(old(self)),
    {
        let n: usize = self.board_states.len();
        let last_board_state = self.board_states[n - 1];
        let last_played = last_board_state.played;
        let ghost prev = self.past@[n - 1];
        let ghost cur = self@;
        proof {
            assert(step_ok(self.past()[n - 1], self.history()[n - 1], self@, zobrist));
            last_played.lemma_ranges();
            prev.ep_file.lemma_idx();
        }
        self.castling_rights = last_board_state.castling_rights;
        self.en_passant_file = last_board_state.en_passant_file;
        self.can_en_passant = last_board_state.can_en_passant;
        self.half_move_clock = last_board_state.half_move_clock;
        self.side_to_move = self.side_to_move.not();
        assert(self@.pieces == prev.pieces_after(last_played));
        match last_played.flag() {
            MoveFlag::Quiet => self.reverse_quiet(last_played, zobrist),
            MoveFlag::DoubleJump => self.reverse_quiet(last_played, zobrist),
            MoveFlag::CastleKingSide => self.reverse_short_castle(zobrist),
            MoveFlag::CastleQueenSide => self.reverse_long_castle(zobrist),
            MoveFlag::EnPassantCapture => self.reverse_en_passant(last_played, zobrist),
            _ => self.reverse_promotion(last_played, zobrist),
        }
        if last_board_state.captured.is_piece() && !last_played.flag().is_en_passant_capture() {
            self.add_piece::<IGNORE_ZOBRIST>(last_board_state.captured, last_played.to(), zobrist);
        }
        assert(self@.pieces =~= prev.pieces);
        self.zobrist = last_board_state.zobrist;
        self.board_states.pop();
        self.past = Ghost(self.past@.drop_last());
        self.update_occupancy();
        proof {
            assert(self@ == prev);
            lemma_hist_pop(old(self).past(), old(self).history(), cur, zobrist);
        }
    }

    /// Passes the move to the other side.
    pub fn make_null_move(&mut self, zobrist: &Zobrist)
        requires
            old(self).wf(zobrist),
            zobrist.wf(),
        ensures
            final(self).wf(zobrist),
            final(self)@ == old(self)@.pass(),
            final(self).past() == old(self).past().push(old(self)@),
            final(self).history().len() == old(self).history().len() + 1,
            final(self).history().last().played.bits() == 0,
            final(self).history().last().zobrist == old(self).hash(),
            final(self).history().drop_last() == old(self).history(),
            final(self).check_flag() == old(self).check_flag(),
    {
        let ghost start = self@;
        self.push_board_state(MovePly::default(), Piece::NoPiece);
        self.clear_en_passant(zobrist);
        let ghost before_flip = self@;
        self.side_to_move = self.side_to_move.not();
        self.zobrist = self.zobrist ^ zobrist.side_to_move();
        proof {
            zobrist.lemma_hash_flip(before_flip);
            assert(self@ == start.pass());
            lemma_hist_push(
                old(self).past(),
                old(self).history(),
                start,
                self.history().last(),
                self@,
                zobrist,
            );
            assert(self.history().drop_last() =~= old(self).history());
            assert(occ_agree(self.occ_white(), self.occ_black(), self.occ_all(), self@.pieces));
        }
    }

    /// Takes back a pass.
    pub fn undo_null_move(&mut self, zobrist: &Zobrist)
        requires
            old(self).wf(zobrist),
            zobrist.wf(),
            old(self).history().len() > 0,
            old(self).history().last().played.bits() == 0,
        ensures
            final(self).wf(zobrist),
            final(self).undone(old(self)),
    {
        let n: usize = self.board_states.len();
        let last_board_state = self.board_states[n - 1];
        let ghost prev = self.past@[n - 1];
        let ghost cur = self@;
        proof {
            assert(step_ok(self.past()[n - 1], self.history()[n - 1], self@, zobrist));
        }
        self.castling_rights = last_board_state.castling_rights;
        self.en_passant_file = last_board_state.en_passant_file;
        self.can_en_passant = last_board_state.can_en_passant;
        self.half_move_clock = last_board_state.half_move_clock;
        self.side_to_move = self.side_to_move.not();
        self.zobrist = last_board_state.zobrist;
        self.board_states.pop();
        self.past = Ghost(self.past@.drop_last());
        proof {
            assert(self@ == prev);
            lemma_hist_pop(old(self).past(), old(self).history(), cur, zobrist);
            assert(occ_agree(self.occ_white(), self.occ_black(), self.occ_all(), self@.pieces));
        }
    }
}

/// One more move joins the history.
proof fn lemma_hist_push(
    past: Seq<Position>,
    history: Seq<BoardState>,
    current: Position,
    entry: BoardState,
    next: Position,
    zobrist: &Zobrist,
)
    requires
        hist_agree(past, history, current, zobrist),
        step_ok(current, entry, next, zobrist),
    ensures
        hist_agree(past.push(current), history.push(entry), next, zobrist),
{
    let past2 = past.push(current);
    let history2 = history.push(entry);
    assert forall|k: int| 0 <= k < history2.len() implies step_ok(
        #[trigger] past2[k],
        history2[k],
        if k + 1 < history2.len() {
            past2[k + 1]
        } else {
            next
        },
        zobrist,
    ) by {
        if k < history.len() {
            assert(step_ok(
                past[k],
                history[k],
                if k + 1 < history.len() {
                    past[k + 1]
                } else {
                    current
                },
                zobrist,
            ));
        }
    }
}

/// The last move leaves the history.
proof fn lemma_hist_pop(past: Seq<Position>, history: Seq<BoardState>, current: Position, zobrist: &Zobrist)
    requires
        hist_agree(past, history, current, zobrist),
        history.len() > 0,
    ensures
        hist_agree(past.drop_last(), history.drop_last(), past.last(), zobrist),
{
    let past2 = past.drop_last();
    let history2 = history.drop_last();
    assert forall|k: int| 0 <= k < history2.len() implies step_ok(
        #[trigger] past2[k],
        history2[k],
        if k + 1 < history2.len() {
            past2[k + 1]
        } else {
            past.last()
        },
        zobrist,
    ) by {
        assert(step_ok(
            past[k],
            history[k],
            if k + 1 < history.len() {
                past[k + 1]
            } else {
                current
            },
            zobrist,
        ));
    }
}

} // verus!
