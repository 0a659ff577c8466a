//! The position: a grid of pieces mirrored by per-piece and per-side sets.
use vstd::prelude::*;
use crate::bitboards::{Bitboard, lemma_set_ops, sq};
use crate::chess::types::{Piece, PieceType, ChessSide, PIECE_COUNT, SIDE_COUNT};

verus! {

/// A square by file and rank, each below 8.
#[derive(Clone, Copy, Debug, PartialEq, Eq, Structural)]
pub struct Square(u8, u8);

impl Square {
    #[verifier::type_invariant]
    spec fn on_board(self) -> bool {
        self.0 < 8 && self.1 < 8
    }

    /// The file (0 = a).
    pub closed spec fn file_spec(self) -> int {
        self.0 as int
    }

    /// The rank (0 = first).
    pub closed spec fn rank_spec(self) -> int {
        self.1 as int
    }

    /// The square's index, `file + 8 * rank`.
    pub open spec fn index_spec(self) -> int {
        self.file_spec() + 8 * self.rank_spec()
    }

    /// The square on `file` and `rank`, when both are below 8.
    pub fn new(file: u8, rank: u8) -> (r: Option<Square>)
        ensures
            r is Some <==> file < 8 && rank < 8,
            r matches Some(q) ==> q.file_spec() == file && q.rank_spec() == rank,
    {
        if file < 8 && rank < 8 {
            Some(Square(file, rank))
        } else {
            None
        }
    }

    /// The square's index, `file + 8 * rank`.
    pub fn index(&self) -> (r: u8)
        ensures
            r == self.index_spec(),
            r < 64,
    {
        proof {
            use_type_invariant(self);
        }
        self.0 + 8 * self.1
    }

    /// The square of index `idx` (taken modulo 64).
    pub fn from_index(idx: u8) -> (r: Square)
        ensures
            r.file_spec() == idx % 8,
            r.rank_spec() == (idx / 8) % 8,
    {
        proof {
            assert(idx & 7 == idx % 8 && (idx >> 3) & 7 == (idx / 8) % 8 && idx & 7 < 8 && (idx
                >> 3) & 7 < 8) by (bit_vector);
        }
        Square(idx & 0b111, (idx >> 3) & 0b111)
    }

    /// The rank (0 = first).
    pub fn rank(&self) -> (r: u8)
        ensures
            r == self.rank_spec(),
            r < 8,
    {
        proof {
            use_type_invariant(self);
        }
        self.1
    }
}

/// One of the four castling rights.
#[derive(Clone, Copy, Debug, PartialEq, Eq, Structural)]
pub enum CastlingRight {
    WhiteKing,
    WhiteQueen,
    BlackKing,
    BlackQueen,
}

/// The bit that holds `right`.
pub open spec fn right_bit(right: CastlingRight) -> u8 {
    match right {
        CastlingRight::WhiteKing => 0,
        CastlingRight::WhiteQueen => 1,
        CastlingRight::BlackKing => 2,
        CastlingRight::BlackQueen => 3,
    }
}

/// Which castling rights are held, one bit each.
#[derive(Clone, Copy, Debug, PartialEq, Eq, Structural)]
pub struct CastlingRights(u8);

impl View for CastlingRights {
    type V = Set<CastlingRight>;

    closed spec fn view(&self) -> Set<CastlingRight> {
        Set::new(|r: CastlingRight| (self.0 >> right_bit(r)) & 1u8 == 1u8)
    }
}

proof fn lemma_right_bits(x: u8, b: u8, c: u8)
    by (bit_vector)
    requires
        b < 4,
        c < 4,
    ensures
        ((x | (1u8 << b)) >> c) & 1u8 == 1u8 <==> c == b || (x >> c) & 1u8 == 1u8,
        ((x & !(1u8 << b)) >> c) & 1u8 == 1u8 <==> c != b && (x >> c) & 1u8 == 1u8,
        (x & (1u8 << b) != 0) <==> (x >> b) & 1u8 == 1u8,
        (0u8 >> c) & 1u8 != 1u8,
{
}

impl Default for CastlingRights {
    fn default() -> (r: CastlingRights)
        ensures
            r@ == Set::<CastlingRight>::empty(),
    {
        let r = CastlingRights(0);
        proof {
            assert forall|x: CastlingRight| !r@.contains(x) by {
                lemma_right_bits(0, 0, right_bit(x));
            }
            assert(r@ =~= Set::<CastlingRight>::empty());
        }
        r
    }
}

impl CastlingRights {
    fn shift_of(right: CastlingRight) -> (r: u8)
        ensures
            r == right_bit(right),
    {
        match right {
            CastlingRight::WhiteKing => 0,
            CastlingRight::WhiteQueen => 1,
            CastlingRight::BlackKing => 2,
            CastlingRight::BlackQueen => 3,
        }
    }

    /// Grants `right`.
    pub fn set_right(&mut self, right: CastlingRight)
        ensures
            final(self)@ == old(self)@.insert(right),
    {
        let b = Self::shift_of(right);
        let x = self.0;
        self.0 = x | (1u8 << b);
        proof {
            assert forall|c: CastlingRight| #[trigger] final(self)@.contains(c) == old(self)@.insert(right).contains(c) by {
                lemma_right_bits(x, b, right_bit(c));
            }
            assert(final(self)@ =~= old(self)@.insert(right));
        }
    }

    /// Withdraws `right`.
    pub fn unset_right(&mut self, right: CastlingRight)
        ensures
            final(self)@ == old(self)@.remove(right),
    {
        let b = Self::shift_of(right);
        let x = self.0;
        self.0 = x & !(1u8 << b);
        proof {
            assert forall|c: CastlingRight| #[trigger] final(self)@.contains(c) == old(self)@.remove(right).contains(c) by {
                lemma_right_bits(x, b, right_bit(c));
            }
            assert(final(self)@ =~= old(self)@.remove(right));
        }
    }

    /// Whether `right` is held.
    pub fn has_right(&self, right: CastlingRight) -> (r: bool)
        ensures
            r == self@.contains(right),
    {
        let b = Self::shift_of(right);
        proof {
            lemma_right_bits(self.0, b, b);
        }
        self.0 & (1u8 << b) != 0
    }
}

/// A position: where each piece stands, whose turn it is, the castling rights
/// and the en-passant target.
pub struct ChessBoard {
    /// The piece on each square, `Piece::Empty` where there is none.
    pub grid: [Piece; 64],
    /// The squares of each live piece, in slot `kind * 2 + side`.
    pub piece_bb: [Bitboard; PIECE_COUNT],
    /// The squares of each side's pieces, in slot `side`.
    pub side_bb: [Bitboard; SIDE_COUNT],
    /// The side to move.
    pub turn: ChessSide,
    /// The castling rights still held.
    pub castling_rights: CastlingRights,
    /// The square a pawn capturing en passant would land on, right after a double push.
    pub en_passant: Option<Square>,
}

impl ChessBoard {
    /// The grid and the sets agree: square `s` is in the set of piece `p`
    /// exactly when the grid holds `p` there, and in the set of a side exactly
    /// when the grid holds a piece of that side there. So the piece sets are
    /// pairwise disjoint and each side's set is the union of its six.
    pub open spec fn wf(&self) -> bool {
        &&& forall|s: int, i: int|
            0 <= i < 12 ==> (#[trigger] self.piece_bb[i]@.contains(s) <==> 0 <= s < 64
                && self.grid[s].number() == i)
        &&& self.piece_bb[12]@.is_empty()
        &&& self.piece_bb[13]@.is_empty()
        &&& forall|s: int, c: int|
            0 <= c < 2 ==> (#[trigger] self.side_bb[c]@.contains(s) <==> 0 <= s < 64
                && self.grid[s] != Piece::Empty && self.grid[s].side_of().number() == c)
    }

    /// The sets agree with the grid on the squares below `n` and hold no square from `n` up.
    pub open spec fn consistent_below(&self, n: int) -> bool {
        &&& forall|s: int, i: int|
            0 <= i < 12 ==> (#[trigger] self.piece_bb[i]@.contains(s) <==> 0 <= s < n
                && self.grid[s].number() == i)
        &&& self.piece_bb[12]@.is_empty()
        &&& self.piece_bb[13]@.is_empty()
        &&& forall|s: int, c: int|
            0 <= c < 2 ==> (#[trigger] self.side_bb[c]@.contains(s) <==> 0 <= s < n
                && self.grid[s] != Piece::Empty && self.grid[s].side_of().number() == c)
    }

    /// Puts `piece` on the empty square of rank `row` and file `file`, the
    /// next square after those already placed, in the grid and in the sets.
    pub(crate) fn place_piece(&mut self, piece: Piece, row: u8, file: u8)
        requires
            row < 8,
            file < 8,
            piece != Piece::Empty,
            old(self).consistent_below(8 * row + file),
        ensures
            final(self).consistent_below(8 * row + file + 1),
            final(self).grid@ == old(self).grid@.update(8 * row + file, piece),
            final(self).turn == old(self).turn,
            final(self).castling_rights == old(self).castling_rights,
            final(self).en_passant == old(self).en_passant,
    {
        let s = sq(row, file);
        self.grid[s as usize] = piece;
        let i = match piece.index() {
            Some(i) => i,
            None => 12,
        };
        let c = match piece.side() {
            Some(c) => c.index(),
            None => 0,
        };
        let mut pb = self.piece_bb[i];
        pb.set_sq(row, file);
        self.piece_bb[i] = pb;
        let mut sb = self.side_bb[c];
        sb.set_sq(row, file);
        self.side_bb[c] = sb;
        proof {
            assert forall|t: int, j: int| 0 <= j < 12 implies (#[trigger] self.piece_bb[j]@.contains(t) <==> 0 <= t < s + 1
                && self.grid[t].number() == j) by {
                if j != i {
                    assert(self.piece_bb[j] == old(self).piece_bb[j]);
                }
            }
            assert forall|t: int, k: int| 0 <= k < 2 implies (#[trigger] self.side_bb[k]@.contains(t) <==> 0 <= t < s + 1
                && self.grid[t] != Piece::Empty && self.grid[t].side_of().number() == k) by {
                if k != c {
                    assert(self.side_bb[k] == old(self).side_bb[k]);
                }
            }
        }
    }

    /// The squares of the pieces of `kind` for `side`.
    pub open spec fn pieces_of(&self, kind: PieceType, side: ChessSide) -> Set<int> {
        self.piece_bb[Piece::of(kind, side).number()]@
    }

    /// The squares of `side`'s pieces.
    pub open spec fn side_of(&self, side: ChessSide) -> Set<int> {
        self.side_bb[side.number()]@
    }

    /// The occupied squares.
    pub open spec fn occupied(&self) -> Set<int> {
        self.side_bb[0]@.union(self.side_bb[1]@)
    }

    /// The squares of the pieces of `kind` for `side`.
    pub fn pieces(&self, kind: PieceType, side: ChessSide) -> (r: Bitboard)
        ensures
            r@ == self.pieces_of(kind, side),
    {
        let p = Piece::from((kind, side));
        let i = match p.index() {
            Some(i) => i,
            None => 12,
        };
        self.piece_bb[i]
    }

    /// The squares of `side`'s pieces.
    pub fn side(&self, side: ChessSide) -> (r: Bitboard)
        ensures
            r@ == self.side_of(side),
    {
        self.side_bb[side.index()]
    }

    /// The squares that hold a piece of either side.
    pub fn occ(&self) -> (r: Bitboard)
        ensures
            r@ == self.occupied(),
    {
        proof {
            lemma_set_ops(self.side_bb[0].0, self.side_bb[1].0);
        }
        Bitboard(self.side_bb[0].0 | self.side_bb[1].0)
    }
}

} // verus!
