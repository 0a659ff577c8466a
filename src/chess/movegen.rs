//! Moves, and the pseudo-legal move generator.
use vstd::prelude::*;
use crate::bitboards::{
    Bitboard, bit, squares_of, lemma_set_ops, lemma_squares_finite, shifted, can_step,
    rank_of, lemma_step_lands,
};
use crate::chess::attacks::{
    get_knight_attacks, get_king_attacks, get_bishop_attacks, get_rook_attacks,
    get_queen_attacks, knight_targets, king_targets, bishop_targets, rook_targets, queen_targets,
};
use crate::chess::board::{ChessBoard, CastlingRight};
use crate::chess::types::{PieceType, ChessSide, Piece};
use crate::types::MoveGen;

verus! {

/// The four fields of a move.
pub struct MoveFields {
    pub from: int,
    pub to: int,
    pub promotion: int,
    pub en_passant: int,
}

/// A move packed into 16 bits: origin (bits 0-5), destination (bits 6-11),
/// promotion choice (bits 12-14: 0 none, 1 knight, 2 bishop, 3 rook, 4 queen)
/// and the en-passant flag (bit 15).
#[derive(Clone, Copy, Debug, PartialEq, Eq, Structural)]
pub struct ChessMove(u16);

/// The word that packs the four fields.
pub open spec fn pack_move(from: u16, to: u16, promotion: u16, en_pas: u16) -> u16 {
    from | to << 6u16 | promotion << 12u16 | en_pas << 15u16
}

/// The four fields read back from a packed word.
pub open spec fn unpack_move(x: u16) -> MoveFields {
    MoveFields {
        from: (x & 63u16) as int,
        to: ((x >> 6u16) & 63u16) as int,
        promotion: ((x >> 12u16) & 7u16) as int,
        en_passant: ((x >> 15u16) & 1u16) as int,
    }
}

proof fn lemma_pack_bits(from: u16, to: u16, promotion: u16, en_pas: u16)
    by (bit_vector)
    requires
        from < 64,
        to < 64,
        promotion < 8,
        en_pas < 2,
    ensures
        (from | to << 6u16 | promotion << 12u16 | en_pas << 15u16) & 63u16 == from,
        ((from | to << 6u16 | promotion << 12u16 | en_pas << 15u16) >> 6u16) & 63u16 == to,
        ((from | to << 6u16 | promotion << 12u16 | en_pas << 15u16) >> 12u16) & 7u16 == promotion,
        ((from | to << 6u16 | promotion << 12u16 | en_pas << 15u16) >> 15u16) & 1u16 == en_pas,
{
}

proof fn lemma_unpack_bits(x: u16, y: u16)
    by (bit_vector)
    requires
        x & 63u16 == y & 63u16,
        (x >> 6u16) & 63u16 == (y >> 6u16) & 63u16,
        (x >> 12u16) & 7u16 == (y >> 12u16) & 7u16,
        (x >> 15u16) & 1u16 == (y >> 15u16) & 1u16,
    ensures
        x == y,
{
}

/// Packing four fields that fit their widths and reading them back gives the
/// same four values.
pub proof fn lemma_move_round_trip(from: u16, to: u16, promotion: u16, en_pas: u16)
    requires
        from < 64,
        to < 64,
        promotion < 8,
        en_pas < 2,
    ensures
        unpack_move(pack_move(from, to, promotion, en_pas)) == (MoveFields {
            from: from as int,
            to: to as int,
            promotion: promotion as int,
            en_passant: en_pas as int,
        }),
{
    lemma_pack_bits(from, to, promotion, en_pas);
}

/// Two moves are equal exactly when their four fields are.
pub proof fn lemma_move_fields_determine(a: ChessMove, b: ChessMove)
    ensures
        a@ == b@ <==> a == b,
{
    if a@ == b@ {
        lemma_unpack_bits(a.0, b.0);
    }
}

impl View for ChessMove {
    type V = MoveFields;

    closed spec fn view(&self) -> MoveFields {
        unpack_move(self.0)
    }
}

impl ChessMove {
    /// Packs a move; each field must fit its width (6, 6, 3 and 1 bits).
    pub fn new(from: u16, to: u16, promotion: u16, en_pas: u16) -> (r: ChessMove)
        requires
            from < 64,
            to < 64,
            promotion < 8,
            en_pas < 2,
        ensures
            r@ == (MoveFields {
                from: from as int,
                to: to as int,
                promotion: promotion as int,
                en_passant: en_pas as int,
            }),
    {
        proof {
            lemma_move_round_trip(from, to, promotion, en_pas);
        }
        ChessMove(from | to << 6u16 | promotion << 12u16 | en_pas << 15u16)
    }

    /// The origin square.
    pub fn from_sq(&self) -> (r: u16)
        ensures
            r == self@.from,
    {
        self.0 & 63
    }

    /// The destination square.
    pub fn to_sq(&self) -> (r: u16)
        ensures
            r == self@.to,
    {
        (self.0 >> 6u16) & 63
    }

    /// The promotion choice: 0 none, 1 knight, 2 bishop, 3 rook, 4 queen.
    pub fn promotion(&self) -> (r: u16)
        ensures
            r == self@.promotion,
    {
        (self.0 >> 12u16) & 7
    }

    /// 1 for an en-passant capture, else 0.
    pub fn en_passant(&self) -> (r: u16)
        ensures
            r == self@.en_passant,
    {
        (self.0 >> 15u16) & 1
    }
}

/// `s` holds the moves of `e`, each once.
pub open spec fn lists(s: Seq<ChessMove>, e: Set<MoveFields>) -> bool {
    &&& forall|i: int, j: int| 0 <= i < j < s.len() ==> #[trigger] s[i]@ != #[trigger] s[j]@
    &&& forall|i: int| 0 <= i < s.len() ==> e.contains(#[trigger] s[i]@)
    &&& forall|m: MoveFields| #[trigger] e.contains(m) ==> exists|i: int| 0 <= i < s.len() && #[trigger] s[i]@ == m
}

/// `after` is `before` followed by the moves of `e`, each once.
pub open spec fn appends(before: Seq<ChessMove>, after: Seq<ChessMove>, e: Set<MoveFields>) -> bool {
    &&& before.len() <= after.len()
    &&& after.subrange(0, before.len() as int) == before
    &&& lists(after.subrange(before.len() as int, after.len() as int), e)
}

proof fn lemma_appends_none(a: Seq<ChessMove>)
    ensures
        appends(a, a, Set::empty()),
{
    assert(a.subrange(0, a.len() as int) =~= a);
}

proof fn lemma_appends_chain(a: Seq<ChessMove>, b: Seq<ChessMove>, c: Seq<ChessMove>, e1: Set<MoveFields>, e2: Set<MoveFields>)
    requires
        appends(a, b, e1),
        appends(b, c, e2),
        e1.disjoint(e2),
    ensures
        appends(a, c, e1.union(e2)),
{
    let s1 = b.subrange(a.len() as int, b.len() as int);
    let s2 = c.subrange(b.len() as int, c.len() as int);
    let s = c.subrange(a.len() as int, c.len() as int);
    assert(s =~= s1 + s2);
    assert(c.subrange(0, a.len() as int) =~= b.subrange(0, a.len() as int));
    let n1 = s1.len() as int;
    assert forall|i: int, j: int| 0 <= i < j < s.len() implies #[trigger] s[i]@ != #[trigger] s[j]@ by {
        if j < n1 {
            assert(s[i] == s1[i] && s[j] == s1[j]);
        } else if i >= n1 {
            assert(s[i] == s2[i - n1] && s[j] == s2[j - n1]);
        } else {
            assert(s[i] == s1[i] && s[j] == s2[j - n1]);
            assert(e1.contains(s1[i]@) && e2.contains(s2[j - n1]@));
        }
    }
    assert forall|i: int| 0 <= i < s.len() implies e1.union(e2).contains(#[trigger] s[i]@) by {
        if i < n1 {
            assert(s[i] == s1[i]);
        } else {
            assert(s[i] == s2[i - n1]);
        }
    }
    assert forall|m: MoveFields| #[trigger] e1.union(e2).contains(m) implies exists|i: int| 0 <= i < s.len() && #[trigger] s[i]@ == m by {
        if e1.contains(m) {
            let i = choose|i: int| 0 <= i < s1.len() && #[trigger] s1[i]@ == m;
            assert(s[i] == s1[i]);
        } else {
            let i = choose|i: int| 0 <= i < s2.len() && #[trigger] s2[i]@ == m;
            assert(s[i + n1] == s2[i]);
        }
    }
}

proof fn lemma_appends_one(a: Seq<ChessMove>, m: ChessMove)
    ensures
        appends(a, a.push(m), set![m@]),
{
    let b = a.push(m);
    assert(b.subrange(0, a.len() as int) =~= a);
    let s = b.subrange(a.len() as int, b.len() as int);
    assert(s =~= seq![m]);
    assert forall|x: MoveFields| #[trigger] set![m@].contains(x) implies exists|i: int| 0 <= i < s.len() && #[trigger] s[i]@ == x by {
        assert(s[0]@ == x);
    }
}

/// Plain moves (no promotion, no en passant) from `from` to each square of `targets`.
pub open spec fn moves_to(from: int, targets: Set<int>) -> Set<MoveFields> {
    Set::new(
        |m: MoveFields| m.from == from && targets.contains(m.to) && m.promotion == 0 && m.en_passant == 0,
    )
}

/// Appends one plain move from `from` to each member of `targets`, lowest first.
fn push_targets(from: u8, targets: Bitboard, mv_list: &mut Vec<ChessMove>)
    requires
        from < 64,
    ensures
        appends(old(mv_list)@, final(mv_list)@, moves_to(from as int, targets@)),
{
    let ghost start = mv_list@;
    let mut rest = targets;
    proof {
        lemma_appends_none(start);
        assert(moves_to(from as int, targets@.difference(rest@)) =~= Set::empty());
    }
    while !rest.is_empty()
        invariant
            from < 64,
            rest@.subset_of(targets@),
            appends(start, mv_list@, moves_to(from as int, targets@.difference(rest@))),
        decreases rest@.len(),
    {
        let ghost before = mv_list@;
        let ghost rest0 = rest@;
        proof {
            lemma_squares_finite(rest.0);
        }
        let to = rest.poplsb();
        let mv = ChessMove::new(from as u16, to as u16, 0, 0);
        mv_list.push(mv);
        proof {
            lemma_appends_one(before, mv);
            lemma_appends_chain(start, before, mv_list@, moves_to(from as int, targets@.difference(rest0)), set![mv@]);
            assert(moves_to(from as int, targets@.difference(rest0)).union(set![mv@]) =~= moves_to(from as int, targets@.difference(rest@)));
        }
    }
    proof {
        assert(targets@.difference(rest@) =~= targets@);
    }
}

/// The squares a piece of `kind` (other than a pawn) on `s` attacks, where
/// `occ` holds the occupied squares.
pub open spec fn attacks_of(kind: PieceType, s: int, occ: Set<int>) -> Set<int> {
    match kind {
        PieceType::Knight => knight_targets(s),
        PieceType::King => king_targets(s),
        PieceType::Bishop => bishop_targets(s, occ),
        PieceType::Rook => rook_targets(s, occ),
        PieceType::Queen => queen_targets(s, occ),
        PieceType::Pawn => Set::empty(),
    }
}

/// Plain moves of pieces of `kind` standing on `origins` to each attacked square in `mask`.
pub open spec fn piece_moves(origins: Set<int>, kind: PieceType, occ: Set<int>, mask: Set<int>) -> Set<MoveFields> {
    Set::new(
        |m: MoveFields|
            origins.contains(m.from) && attacks_of(kind, m.from, occ).contains(m.to) && mask.contains(m.to)
                && m.promotion == 0 && m.en_passant == 0,
    )
}

/// Appends the moves of the pieces of `kind` on `origins` to the squares of
/// `mask` they attack, origins lowest first.
fn push_piece_moves(origins: Bitboard, kind: PieceType, occ: Bitboard, mask: Bitboard, mv_list: &mut Vec<ChessMove>)
    requires
        kind != PieceType::Pawn,
    ensures
        appends(old(mv_list)@, final(mv_list)@, piece_moves(origins@, kind, occ@, mask@)),
{
    let ghost start = mv_list@;
    let mut rest = origins;
    proof {
        lemma_appends_none(start);
        assert(piece_moves(origins@.difference(rest@), kind, occ@, mask@) =~= Set::empty());
    }
    while !rest.is_empty()
        invariant
            kind != PieceType::Pawn,
            rest@.subset_of(origins@),
            appends(start, mv_list@, piece_moves(origins@.difference(rest@), kind, occ@, mask@)),
        decreases rest@.len(),
    {
        let ghost before = mv_list@;
        let ghost rest0 = rest@;
        proof {
            lemma_squares_finite(rest.0);
        }
        let from = rest.poplsb() as u8;
        let attacks = match kind {
            PieceType::Knight => get_knight_attacks(from),
            PieceType::King => get_king_attacks(from),
            PieceType::Bishop => get_bishop_attacks(from, occ),
            PieceType::Rook => get_rook_attacks(from, occ),
            _ => get_queen_attacks(from, occ),
        };
        let targets = Bitboard(attacks.0 & mask.0);
        proof {
            lemma_set_ops(attacks.0, mask.0);
            assert(attacks@ == attacks_of(kind, from as int, occ@));
        }
        push_targets(from, targets, mv_list);
        proof {
            lemma_appends_chain(start, before, mv_list@, piece_moves(origins@.difference(rest0), kind, occ@, mask@), moves_to(from as int, targets@));
            assert(piece_moves(origins@.difference(rest0), kind, occ@, mask@).union(moves_to(from as int, targets@)) =~= piece_moves(origins@.difference(rest@), kind, occ@, mask@));
        }
    }
    proof {
        assert(origins@.difference(rest@) =~= origins@);
    }
}

/// A pawn move to `to` is a promotion: `to` is on the first or last rank.
pub open spec fn promotes(to: int) -> bool {
    rank_of(to) == 0 || rank_of(to) == 7
}

/// The moves of a pawn from `from` to `to`: one per promotion choice (1 to 4)
/// on the first or last rank, else the one plain move.
pub open spec fn pawn_move_set(from: int, to: int) -> Set<MoveFields> {
    Set::new(
        |m: MoveFields|
            m.from == from && m.to == to && m.en_passant == 0 && if promotes(to) {
                1 <= m.promotion <= 4
            } else {
                m.promotion == 0
            },
    )
}

/// Appends the moves of a pawn from `from` to `to`: four promotions (knight,
/// bishop, rook, queen) when `to` is on the first or last rank, else one move.
pub fn make_pawn_move(from: u16, to: u16, mv_list: &mut Vec<ChessMove>)
    requires
        from < 64,
        to < 64,
    ensures
        appends(old(mv_list)@, final(mv_list)@, pawn_move_set(from as int, to as int)),
        final(mv_list)@.len() == old(mv_list)@.len() + if promotes(to as int) {
            4int
        } else {
            1int
        },
{
    let ghost start = mv_list@;
    let to_rank = crate::chess::board::Square::from_index(to as u8).rank();
    if to_rank == 0 || to_rank == 7 {
        let ghost s0 = mv_list@;
        let m1 = ChessMove::new(from, to, 1, 0);
        mv_list.push(m1);
        let ghost s1 = mv_list@;
        let m2 = ChessMove::new(from, to, 2, 0);
        mv_list.push(m2);
        let ghost s2 = mv_list@;
        let m3 = ChessMove::new(from, to, 3, 0);
        mv_list.push(m3);
        let ghost s3 = mv_list@;
        let m4 = ChessMove::new(from, to, 4, 0);
        mv_list.push(m4);
        proof {
            lemma_appends_one(s0, m1);
            lemma_appends_one(s1, m2);
            lemma_appends_one(s2, m3);
            lemma_appends_one(s3, m4);
            lemma_appends_chain(s0, s1, s2, set![m1@], set![m2@]);
            assert(set![m1@].union(set![m2@]) =~= set![m1@, m2@]);
            lemma_appends_chain(s0, s2, s3, set![m1@, m2@], set![m3@]);
            assert(set![m1@, m2@].union(set![m3@]) =~= set![m1@, m2@, m3@]);
            lemma_appends_chain(s0, s3, mv_list@, set![m1@, m2@, m3@], set![m4@]);
            assert(set![m1@, m2@, m3@].union(set![m4@]) =~= set![m1@, m2@, m3@, m4@]);
            assert(set![m1@, m2@, m3@, m4@] =~= pawn_move_set(from as int, to as int));
        }
    } else {
        let m = ChessMove::new(from, to, 0, 0);
        mv_list.push(m);
        proof {
            lemma_appends_one(start, m);
            assert(set![m@] =~= pawn_move_set(from as int, to as int));
        }
    }
}

/// The pawn moves that reach each square of `dests` from `d` squares back.
pub open spec fn pawn_moves_to(dests: Set<int>, d: int) -> Set<MoveFields> {
    Set::new(
        |m: MoveFields| dests.contains(m.to) && pawn_move_set(m.to - d, m.to).contains(m),
    )
}

/// Appends the pawn moves to each square of `dests` from `d` squares back, lowest destination first.
fn push_pawn_moves(dests: Bitboard, d: i8, mv_list: &mut Vec<ChessMove>)
    requires
        forall|t: int| #[trigger] dests@.contains(t) ==> 0 <= t - d < 64,
    ensures
        appends(old(mv_list)@, final(mv_list)@, pawn_moves_to(dests@, d as int)),
{
    let ghost start = mv_list@;
    let mut rest = dests;
    proof {
        lemma_appends_none(start);
        assert(pawn_moves_to(dests@.difference(rest@), d as int) =~= Set::empty());
    }
    while !rest.is_empty()
        invariant
            forall|t: int| #[trigger] dests@.contains(t) ==> 0 <= t - d < 64,
            rest@.subset_of(dests@),
            appends(start, mv_list@, pawn_moves_to(dests@.difference(rest@), d as int)),
        decreases rest@.len(),
    {
        let ghost before = mv_list@;
        let ghost rest0 = rest@;
        proof {
            lemma_squares_finite(rest.0);
        }
        let to = rest.poplsb();
        assert(dests@.contains(to as int));
        let from = (to as i8 - d) as u16;
        make_pawn_move(from, to as u16, mv_list);
        proof {
            lemma_appends_chain(start, before, mv_list@, pawn_moves_to(dests@.difference(rest0), d as int), pawn_move_set(from as int, to as int));
            assert(pawn_moves_to(dests@.difference(rest0), d as int).union(pawn_move_set(from as int, to as int)) =~= pawn_moves_to(dests@.difference(rest@), d as int));
        }
    }
    proof {
        assert(dests@.difference(rest@) =~= dests@);
    }
}

/// Which moves to generate: quiet moves go to empty squares (castling
/// included), noisy moves capture.
#[derive(Clone, Copy, Debug, PartialEq, Eq, Structural)]
pub enum GenType {
    Quiet,
    Noisy,
}

/// The squares of the rank on which a pawn of `side` lands after one push from its start.
pub open spec fn third_rank(side: ChessSide) -> Set<int> {
    Set::new(|t: int| 0 <= t < 64 && rank_of(t) == if side == ChessSide::White { 2int } else { 5int })
}

proof fn lemma_rank_mask_bits(t: u64)
    by (bit_vector)
    requires
        t < 64,
    ensures
        bit(0xFF0000u64, t) == (t / 8 == 2),
        bit(0xFF0000000000u64, t) == (t / 8 == 5),
{
}

impl ChessBoard {
    /// The empty squares.
    pub open spec fn empty_squares(&self) -> Set<int> {
        Set::new(|t: int| 0 <= t < 64 && !self.occupied().contains(t))
    }

    /// Where non-pawn pieces may go: empty squares for quiet moves, squares of
    /// the side not to move for captures.
    pub open spec fn target_mask(&self, gen_type: GenType) -> Set<int> {
        match gen_type {
            GenType::Quiet => self.empty_squares(),
            GenType::Noisy => self.side_of(self.turn.other()),
        }
    }

    /// The step forward of a pawn of the side to move.
    pub open spec fn push_dir(&self) -> int {
        if self.turn == ChessSide::White { 8 } else { -8 }
    }

    /// The two diagonal steps forward of a pawn of the side to move.
    pub open spec fn capture_dirs(&self) -> (int, int) {
        if self.turn == ChessSide::White { (7, 9) } else { (-7, -9) }
    }

    /// The destinations of single pawn pushes: one step forward onto an empty square.
    pub open spec fn single_push_dests(&self) -> Set<int> {
        shifted(self.pieces_of(PieceType::Pawn, self.turn), self.push_dir()).intersect(self.empty_squares())
    }

    /// The destinations of double pawn pushes: one more empty step from a
    /// single push that landed on the side's third rank.
    pub open spec fn double_push_dests(&self) -> Set<int> {
        shifted(self.single_push_dests().intersect(third_rank(self.turn)), self.push_dir()).intersect(
            self.empty_squares(),
        )
    }

    /// The destinations of diagonal pawn captures in direction `d`: squares of the other side.
    pub open spec fn capture_dests(&self, d: int) -> Set<int> {
        shifted(self.pieces_of(PieceType::Pawn, self.turn), d).intersect(self.side_of(self.turn.other()))
    }

    /// The en-passant captures: onto the en-passant target, from each square
    /// diagonally behind it that holds a pawn of the side to move.
    pub open spec fn en_passant_moves(&self) -> Set<MoveFields> {
        match self.en_passant {
            None => Set::empty(),
            Some(e) => {
                let t = e.index_spec();
                let (c1, c2) = self.capture_dirs();
                Set::new(
                    |m: MoveFields|
                        m.to == t && m.promotion == 0 && m.en_passant == 1 && (m.from == t - c1
                            && can_step(t, -c1) || m.from == t - c2 && can_step(t, -c2))
                            && self.pieces_of(PieceType::Pawn, self.turn).contains(m.from),
                )
            },
        }
    }

    /// The pawn moves: pushes when quiet; en-passant and diagonal captures when noisy.
    pub open spec fn pawn_moves(&self, gen_type: GenType) -> Set<MoveFields> {
        let (c1, c2) = self.capture_dirs();
        match gen_type {
            GenType::Quiet => pawn_moves_to(self.single_push_dests(), self.push_dir()).union(
                pawn_moves_to(self.double_push_dests(), 2 * self.push_dir()),
            ),
            GenType::Noisy => self.en_passant_moves().union(pawn_moves_to(self.capture_dests(c1), c1)).union(
                pawn_moves_to(self.capture_dests(c2), c2),
            ),
        }
    }

    /// Moves of the side to move's pieces of `kind` (not pawns) of the given type.
    pub open spec fn kind_moves(&self, kind: PieceType, gen_type: GenType) -> Set<MoveFields> {
        piece_moves(self.pieces_of(kind, self.turn), kind, self.occupied(), self.target_mask(gen_type))
    }

    /// Bishop, rook and queen moves.
    pub open spec fn slider_moves(&self, gen_type: GenType) -> Set<MoveFields> {
        self.kind_moves(PieceType::Bishop, gen_type).union(self.kind_moves(PieceType::Rook, gen_type)).union(
            self.kind_moves(PieceType::Queen, gen_type),
        )
    }

    /// Castling moves, as king moves two files along the back rank: quiet
    /// only, when the right is held and the squares between king and rook are
    /// empty. Whether the king is or would pass through check is not looked at.
    pub open spec fn castle_moves(&self, gen_type: GenType) -> Set<MoveFields> {
        let base: int = if self.turn == ChessSide::White { 0 } else { 56 };
        let (king_side, queen_side) = if self.turn == ChessSide::White {
            (CastlingRight::WhiteKing, CastlingRight::WhiteQueen)
        } else {
            (CastlingRight::BlackKing, CastlingRight::BlackQueen)
        };
        let occ = self.occupied();
        Set::new(
            |m: MoveFields|
                gen_type == GenType::Quiet && m.from == base + 4 && m.promotion == 0 && m.en_passant == 0 && (
                m.to == base + 6 && self.castling_rights@.contains(king_side) && !occ.contains(base + 5)
                    && !occ.contains(base + 6) || m.to == base + 2 && self.castling_rights@.contains(queen_side)
                    && !occ.contains(base + 1) && !occ.contains(base + 2) && !occ.contains(base + 3)),
        )
    }

    fn target_squares(&self, gen_type: GenType) -> (r: Bitboard)
        ensures
            r@ == self.target_mask(gen_type),
    {
        match gen_type {
            GenType::Quiet => {
                let occ = self.occ();
                proof {
                    lemma_set_ops(occ.0, 0);
                    assert(squares_of(!occ.0) =~= self.empty_squares());
                }
                Bitboard(!occ.0)
            },
            GenType::Noisy => self.side(std::ops::Not::not(self.turn)),
        }
    }

    /// Appends the knight moves of the side to move.
    pub fn gen_knight_moves(&self, mv_list: &mut Vec<ChessMove>, gen_type: GenType)
        ensures
            appends(old(mv_list)@, final(mv_list)@, self.kind_moves(PieceType::Knight, gen_type)),
    {
        let target_squares = self.target_squares(gen_type);
        let knights = self.pieces(PieceType::Knight, self.turn);
        push_piece_moves(knights, PieceType::Knight, self.occ(), target_squares, mv_list);
    }

    /// Appends the king moves of the side to move (castling apart).
    pub fn gen_king_moves(&self, mv_list: &mut Vec<ChessMove>, gen_type: GenType)
        ensures
            appends(old(mv_list)@, final(mv_list)@, self.kind_moves(PieceType::King, gen_type)),
    {
        let target_squares = self.target_squares(gen_type);
        let kings = self.pieces(PieceType::King, self.turn);
        push_piece_moves(kings, PieceType::King, self.occ(), target_squares, mv_list);
    }

    /// Appends the bishop, rook and queen moves of the side to move, each kind
    /// in turn. A ray stops at the first occupied square: a capture there when
    /// it holds a piece of the other side, nothing further.
    pub fn gen_slider_moves(&self, mv_list: &mut Vec<ChessMove>, gen_type: GenType)
        requires
            self.wf(),
        ensures
            appends(old(mv_list)@, final(mv_list)@, self.slider_moves(gen_type)),
    {
        let ghost s0 = mv_list@;
        let target_squares = self.target_squares(gen_type);
        let occupied_squares = self.occ();
        let bishops = self.pieces(PieceType::Bishop, self.turn);
        push_piece_moves(bishops, PieceType::Bishop, occupied_squares, target_squares, mv_list);
        let ghost s1 = mv_list@;
        let rooks = self.pieces(PieceType::Rook, self.turn);
        push_piece_moves(rooks, PieceType::Rook, occupied_squares, target_squares, mv_list);
        let ghost s2 = mv_list@;
        let queens = self.pieces(PieceType::Queen, self.turn);
        push_piece_moves(queens, PieceType::Queen, occupied_squares, target_squares, mv_list);
        proof {
            let b = self.kind_moves(PieceType::Bishop, gen_type);
            let r = self.kind_moves(PieceType::Rook, gen_type);
            let q = self.kind_moves(PieceType::Queen, gen_type);
            let c = self.turn.number();
            assert(b.disjoint(r)) by {
                assert forall|m: MoveFields| b.contains(m) implies !r.contains(m) by {
                    assert(self.piece_bb[4 + c]@.contains(m.from));
                }
            }
            lemma_appends_chain(s0, s1, s2, b, r);
            assert(b.union(r).disjoint(q)) by {
                assert forall|m: MoveFields| b.union(r).contains(m) implies !q.contains(m) by {
                    assert(self.piece_bb[8 + c]@.contains(m.from) ==> self.grid[m.from].number() == 8 + c);
                }
            }
            lemma_appends_chain(s0, s2, mv_list@, b.union(r), q);
        }
    }

    /// Appends the pawn moves of the side to move. Quiet: single pushes, then
    /// double pushes. Noisy: en-passant captures, then the diagonal captures
    /// in each direction. A move onto the first or last rank comes as four
    /// promotions; an en-passant capture never promotes.
    pub fn gen_pawn_moves(&self, mv_list: &mut Vec<ChessMove>, gen_type: GenType)
        ensures
            appends(old(mv_list)@, final(mv_list)@, self.pawn_moves(gen_type)),
    {
        match gen_type {
            GenType::Quiet => self.gen_pawn_pushes(mv_list),
            GenType::Noisy => {
                let ghost s0 = mv_list@;
                self.gen_en_passant(mv_list);
                let ghost s1 = mv_list@;
                self.gen_pawn_captures(mv_list);
                proof {
                    let (c1, c2) = self.capture_dirs();
                    let a = pawn_moves_to(self.capture_dests(c1), c1);
                    let b = pawn_moves_to(self.capture_dests(c2), c2);
                    lemma_appends_chain(s0, s1, mv_list@, self.en_passant_moves(), a.union(b));
                    assert(self.en_passant_moves().union(a.union(b)) =~= self.pawn_moves(gen_type));
                }
            },
        }
    }

    fn gen_pawn_pushes(&self, mv_list: &mut Vec<ChessMove>)
        ensures
            appends(old(mv_list)@, final(mv_list)@, self.pawn_moves(GenType::Quiet)),
    {
        let ghost s0 = mv_list@;
        let our_pawns = self.pieces(PieceType::Pawn, self.turn);
        let push_shift: i8 = match self.turn {
            ChessSide::White => 8,
            ChessSide::Black => -8,
        };
        let empty = self.target_squares(GenType::Quiet);
        let pushed = our_pawns.shift1(push_shift);
        let single_pushes = Bitboard(pushed.0 & empty.0);
        proof {
            lemma_set_ops(pushed.0, empty.0);
            assert(single_pushes@ == self.single_push_dests());
            assert forall|t: int| #[trigger] single_pushes@.contains(t) implies 0 <= t - push_shift < 64 by {
                lemma_step_lands(t - push_shift, push_shift as int);
            }
        }
        push_pawn_moves(single_pushes, push_shift, mv_list);
        let ghost s1 = mv_list@;
        let third_mask: u64 = match self.turn {
            ChessSide::White => 0xFF0000,
            ChessSide::Black => 0xFF0000000000,
        };
        let on_third = Bitboard(single_pushes.0 & third_mask);
        proof {
            lemma_set_ops(single_pushes.0, third_mask);
            assert forall|t: int| 0 <= t < 64 implies #[trigger] squares_of(third_mask).contains(t) == third_rank(self.turn).contains(t) by {
                lemma_rank_mask_bits(t as u64);
            }
            assert(squares_of(third_mask) =~= third_rank(self.turn));
        }
        let pushed2 = on_third.shift1(push_shift);
        let double_pushes = Bitboard(pushed2.0 & empty.0);
        proof {
            lemma_set_ops(pushed2.0, empty.0);
            assert(double_pushes@ == self.double_push_dests());
            assert forall|t: int| #[trigger] double_pushes@.contains(t) implies 0 <= t - 2 * push_shift < 64 by {
                lemma_step_lands(t - push_shift, push_shift as int);
                lemma_step_lands(t - 2 * push_shift, push_shift as int);
            }
        }
        push_pawn_moves(double_pushes, 2 * push_shift, mv_list);
        proof {
            let a = pawn_moves_to(self.single_push_dests(), self.push_dir());
            let b = pawn_moves_to(self.double_push_dests(), 2 * self.push_dir());
            lemma_appends_chain(s0, s1, mv_list@, a, b);
        }
    }

    fn gen_en_passant(&self, mv_list: &mut Vec<ChessMove>)
        ensures
            appends(old(mv_list)@, final(mv_list)@, self.en_passant_moves()),
    {
        let ghost s0 = mv_list@;
        let our_pawns = self.pieces(PieceType::Pawn, self.turn);
        let (c1, c2): (i8, i8) = match self.turn {
            ChessSide::White => (7, 9),
            ChessSide::Black => (-7, -9),
        };
        let ghost ep_set: Set<MoveFields> = Set::empty();
        proof {
            lemma_appends_none(s0);
        }
        match self.en_passant {
            Some(ep) => {
                let e = ep.index();
                let ghost t = e as int;
                let from1 = Bitboard::square(e).shift1(-c1);
                let hit1 = Bitboard(from1.0 & our_pawns.0);
                proof {
                    lemma_set_ops(from1.0, our_pawns.0);
                    if can_step(t, -c1 as int) {
                        lemma_step_lands(t, -c1 as int);
                        assert(from1@ =~= set![t - c1]);
                    } else {
                        assert(from1@ =~= Set::<int>::empty());
                    }
                }
                let ghost e1: Set<MoveFields> = Set::empty();
                proof {
                    if can_step(t, -c1 as int) && our_pawns@.contains(t - c1) {
                        assert(hit1@.contains(t - c1));
                    } else {
                        assert(hit1@ =~= Set::<int>::empty());
                    }
                }
                let found1 = !hit1.is_empty();
                assert(found1 <==> can_step(t, -c1 as int) && our_pawns@.contains(t - c1));
                if found1 {
                    assert(hit1@.contains(t - c1));
                    let m = ChessMove::new((e as i8 - c1) as u16, e as u16, 0, 1);
                    mv_list.push(m);
                    proof {
                        lemma_appends_one(s0, m);
                        e1 = set![m@];
                    }
                }
                let ghost s1 = mv_list@;
                proof {
                    lemma_appends_none(s1);
                }
                let from2 = Bitboard::square(e).shift1(-c2);
                let hit2 = Bitboard(from2.0 & our_pawns.0);
                proof {
                    lemma_set_ops(from2.0, our_pawns.0);
                    if can_step(t, -c2 as int) {
                        lemma_step_lands(t, -c2 as int);
                        assert(from2@ =~= set![t - c2]);
                    } else {
                        assert(from2@ =~= Set::<int>::empty());
                    }
                }
                let ghost e2: Set<MoveFields> = Set::empty();
                proof {
                    if can_step(t, -c2 as int) && our_pawns@.contains(t - c2) {
                        assert(hit2@.contains(t - c2));
                    } else {
                        assert(hit2@ =~= Set::<int>::empty());
                    }
                }
                let found2 = !hit2.is_empty();
                assert(found2 <==> can_step(t, -c2 as int) && our_pawns@.contains(t - c2));
                if found2 {
                    assert(hit2@.contains(t - c2));
                    let m = ChessMove::new((e as i8 - c2) as u16, e as u16, 0, 1);
                    mv_list.push(m);
                    proof {
                        lemma_appends_one(s1, m);
                        e2 = set![m@];
                    }
                }
                proof {
                    lemma_appends_chain(s0, s1, mv_list@, e1, e2);
                    ep_set = e1.union(e2);
                    let pawns = self.pieces_of(PieceType::Pawn, self.turn);
                    assert(self.capture_dirs() == (c1 as int, c2 as int));
                    assert(e1 == if found1 { set![MoveFields { from: t - c1, to: t, promotion: 0, en_passant: 1 }] } else { Set::empty() });
                    assert(e2 == if found2 { set![MoveFields { from: t - c2, to: t, promotion: 0, en_passant: 1 }] } else { Set::empty() });
                    assert(ep_set =~= self.en_passant_moves());
                }
            },
            None => {
                proof {
                    assert(ep_set =~= self.en_passant_moves());
                }
            },
        }
    }

    fn gen_pawn_captures(&self, mv_list: &mut Vec<ChessMove>)
        ensures
            appends(old(mv_list)@, final(mv_list)@, {
                let (c1, c2) = self.capture_dirs();
                pawn_moves_to(self.capture_dests(c1), c1).union(pawn_moves_to(self.capture_dests(c2), c2))
            }),
    {
        let our_pawns = self.pieces(PieceType::Pawn, self.turn);
        let enemy = self.target_squares(GenType::Noisy);
        let (c1, c2): (i8, i8) = match self.turn {
            ChessSide::White => (7, 9),
            ChessSide::Black => (-7, -9),
        };
        let ghost s2 = mv_list@;
        let caps1 = our_pawns.shift1(c1);
        let dests1 = Bitboard(caps1.0 & enemy.0);
        proof {
            lemma_set_ops(caps1.0, enemy.0);
            assert forall|t: int| #[trigger] dests1@.contains(t) implies 0 <= t - c1 < 64 by {
                lemma_step_lands(t - c1, c1 as int);
            }
        }
        push_pawn_moves(dests1, c1, mv_list);
        let ghost s3 = mv_list@;
        let caps2 = our_pawns.shift1(c2);
        let dests2 = Bitboard(caps2.0 & enemy.0);
        proof {
            lemma_set_ops(caps2.0, enemy.0);
            assert forall|t: int| #[trigger] dests2@.contains(t) implies 0 <= t - c2 < 64 by {
                lemma_step_lands(t - c2, c2 as int);
            }
        }
        push_pawn_moves(dests2, c2, mv_list);
        proof {
            let a = pawn_moves_to(self.capture_dests(c1 as int), c1 as int);
            let b = pawn_moves_to(self.capture_dests(c2 as int), c2 as int);
            lemma_appends_chain(s2, s3, mv_list@, a, b);
        }
    }

    /// Appends the castling moves of the side to move (quiet generation only):
    /// king side first, then queen side.
    pub fn gen_castle_moves(&self, mv_list: &mut Vec<ChessMove>, gen_type: GenType)
        ensures
            appends(old(mv_list)@, final(mv_list)@, self.castle_moves(gen_type)),
    {
        let ghost s0 = mv_list@;
        proof {
            lemma_appends_none(s0);
        }
        if gen_type == GenType::Noisy {
            proof {
                assert(self.castle_moves(gen_type) =~= Set::empty());
            }
            return;
        }
        let occ = self.occ();
        let (king_side, queen_side, base) = match self.turn {
            ChessSide::White => (CastlingRight::WhiteKing, CastlingRight::WhiteQueen, 0u16),
            ChessSide::Black => (CastlingRight::BlackKing, CastlingRight::BlackQueen, 56u16),
        };
        let b8 = base as u8;
        let ghost ks_set: Set<MoveFields> = Set::empty();
        if self.castling_rights.has_right(king_side) && !occ.is_set(b8 + 5) && !occ.is_set(b8 + 6) {
            let m = ChessMove::new(base + 4, base + 6, 0, 0);
            mv_list.push(m);
            proof {
                lemma_appends_one(s0, m);
                ks_set = set![m@];
            }
        }
        let ghost s1 = mv_list@;
        let ghost qs_set: Set<MoveFields> = Set::empty();
        proof {
            lemma_appends_none(s1);
        }
        if self.castling_rights.has_right(queen_side) && !occ.is_set(b8 + 1) && !occ.is_set(b8 + 2)
            && !occ.is_set(b8 + 3) {
            let m = ChessMove::new(base + 4, base + 2, 0, 0);
            mv_list.push(m);
            proof {
                lemma_appends_one(s1, m);
                qs_set = set![m@];
            }
        }
        proof {
            lemma_appends_chain(s0, s1, mv_list@, ks_set, qs_set);
            assert(ks_set.union(qs_set) =~= self.castle_moves(gen_type));
        }
    }
}

impl ChessBoard {
    /// The pawn, knight, king and slider moves of the given type.
    pub open spec fn piece_moves_of(&self, gen_type: GenType) -> Set<MoveFields> {
        self.pawn_moves(gen_type).union(self.kind_moves(PieceType::Knight, gen_type)).union(
            self.kind_moves(PieceType::King, gen_type),
        ).union(self.slider_moves(gen_type))
    }

    /// Every pseudo-legal move of the given type for the side to move.
    pub open spec fn generated(&self, gen_type: GenType) -> Set<MoveFields> {
        self.piece_moves_of(gen_type).union(self.castle_moves(gen_type))
    }

    proof fn lemma_origins(&self, gen_type: GenType)
        requires
            self.wf(),
        ensures
            forall|m: MoveFields| #[trigger] self.pawn_moves(gen_type).contains(m) ==> self.grid[m.from] == Piece::of(PieceType::Pawn, self.turn),
            forall|m: MoveFields| #[trigger] self.kind_moves(PieceType::Knight, gen_type).contains(m) ==> self.grid[m.from] == Piece::of(PieceType::Knight, self.turn),
            forall|m: MoveFields| #[trigger] self.kind_moves(PieceType::King, gen_type).contains(m) ==> self.grid[m.from] == Piece::of(PieceType::King, self.turn),
            forall|m: MoveFields| #[trigger] self.slider_moves(gen_type).contains(m) ==> self.grid[m.from] == Piece::of(PieceType::Bishop, self.turn)
                || self.grid[m.from] == Piece::of(PieceType::Rook, self.turn) || self.grid[m.from] == Piece::of(PieceType::Queen, self.turn),
    {
        let c = self.turn.number();
        assert forall|s: int, k: PieceType| #[trigger] self.pieces_of(k, self.turn).contains(s) implies self.grid[s] == Piece::of(k, self.turn) by {
            crate::chess::types::lemma_piece_numbering(k, self.turn);
            assert(self.piece_bb[Piece::of(k, self.turn).number()]@.contains(s));
            assert(self.grid[s].number() == Piece::of(k, self.turn).number());
        }
        let pawns = self.pieces_of(PieceType::Pawn, self.turn);
        assert forall|m: MoveFields| #[trigger] self.pawn_moves(gen_type).contains(m) implies self.grid[m.from] == Piece::of(PieceType::Pawn, self.turn) by {
            if gen_type == GenType::Quiet && pawn_moves_to(self.double_push_dests(), 2 * self.push_dir()).contains(m) {
                assert(pawns.contains(m.to - 2 * self.push_dir()));
            } else {
                assert(pawns.contains(m.from));
            }
        }
    }

    fn gen_all(&self, gen_type: GenType) -> (r: Vec<ChessMove>)
        requires
            self.wf(),
        ensures
            forall|m: MoveFields| self.generated(gen_type).contains(m) <==> exists|i: int| 0 <= i < r@.len() && #[trigger] r@[i]@ == m,
            exists|k: int| 0 <= k <= r@.len() && lists(#[trigger] r@.subrange(0, k), self.piece_moves_of(gen_type))
                && lists(r@.subrange(k, r@.len() as int), self.castle_moves(gen_type)),
    {
        let mut mv_list: Vec<ChessMove> = Vec::new();
        let ghost s0 = mv_list@;
        self.gen_pawn_moves(&mut mv_list, gen_type);
        let ghost s1 = mv_list@;
        self.gen_knight_moves(&mut mv_list, gen_type);
        let ghost s2 = mv_list@;
        self.gen_king_moves(&mut mv_list, gen_type);
        let ghost s3 = mv_list@;
        self.gen_slider_moves(&mut mv_list, gen_type);
        let ghost s4 = mv_list@;
        self.gen_castle_moves(&mut mv_list, gen_type);
        proof {
            let r = mv_list@;
            assert(s0.len() == 0);
            self.lemma_origins(gen_type);
            let pw = self.pawn_moves(gen_type);
            let kn = self.kind_moves(PieceType::Knight, gen_type);
            let kg = self.kind_moves(PieceType::King, gen_type);
            let sl = self.slider_moves(gen_type);
            lemma_appends_chain(s0, s1, s2, pw, kn);
            lemma_appends_chain(s0, s2, s3, pw.union(kn), kg);
            lemma_appends_chain(s0, s3, s4, pw.union(kn).union(kg), sl);
            assert(s4.subrange(0, s4.len() as int) =~= s4);
            assert(r.subrange(0, s4.len() as int) == s4);
            assert(lists(r.subrange(0, s4.len() as int), self.piece_moves_of(gen_type)));
            assert(r.subrange(0, r.len() as int) =~= r);
            assert forall|m: MoveFields| self.generated(gen_type).contains(m) implies exists|i: int| 0 <= i < r.len() && #[trigger] r[i]@ == m by {
                if self.pawn_moves(gen_type).contains(m) {
                    let k = choose|i: int| 0 <= i < s1.len() && #[trigger] s1[i]@ == m;
                    assert(r[k] == s1[k]);
                } else if self.kind_moves(PieceType::Knight, gen_type).contains(m) {
                    let p = s2.subrange(s1.len() as int, s2.len() as int);
                    let k = choose|i: int| 0 <= i < p.len() && #[trigger] p[i]@ == m;
                    assert(r[k + s1.len()] == p[k]);
                } else if self.kind_moves(PieceType::King, gen_type).contains(m) {
                    let p = s3.subrange(s2.len() as int, s3.len() as int);
                    let k = choose|i: int| 0 <= i < p.len() && #[trigger] p[i]@ == m;
                    assert(r[k + s2.len()] == p[k]);
                } else if self.slider_moves(gen_type).contains(m) {
                    let p = s4.subrange(s3.len() as int, s4.len() as int);
                    let k = choose|i: int| 0 <= i < p.len() && #[trigger] p[i]@ == m;
                    assert(r[k + s3.len()] == p[k]);
                } else {
                    let p = r.subrange(s4.len() as int, r.len() as int);
                    let k = choose|i: int| 0 <= i < p.len() && #[trigger] p[i]@ == m;
                    assert(r[k + s4.len()] == p[k]);
                }
            }
            assert forall|i: int| 0 <= i < r.len() implies self.generated(gen_type).contains(#[trigger] r[i]@) by {
                if i < s1.len() {
                    assert(r[i] == s1[i]);
                    assert(s1.subrange(0, s1.len() as int)[i] == s1[i]);
                } else if i < s2.len() {
                    let p = s2.subrange(s1.len() as int, s2.len() as int);
                    assert(r[i] == p[i - s1.len()]);
                } else if i < s3.len() {
                    let p = s3.subrange(s2.len() as int, s3.len() as int);
                    assert(r[i] == p[i - s2.len()]);
                } else if i < s4.len() {
                    let p = s4.subrange(s3.len() as int, s4.len() as int);
                    assert(r[i] == p[i - s3.len()]);
                } else {
                    let p = r.subrange(s4.len() as int, r.len() as int);
                    assert(r[i] == p[i - s4.len()]);
                }
            }
        }
        mv_list
    }
}

impl MoveGen for ChessBoard {
    type Move = ChessMove;

    open spec fn valid(&self) -> bool {
        self.wf()
    }

    /// Pawn pushes, knight, king and slider moves to empty squares, each once;
    /// then castling.
    fn gen_quiet(&self) -> (r: Vec<ChessMove>)
        ensures
            forall|m: MoveFields| self.generated(GenType::Quiet).contains(m) <==> exists|i: int| 0 <= i < r@.len() && #[trigger] r@[i]@ == m,
            exists|k: int| 0 <= k <= r@.len() && lists(#[trigger] r@.subrange(0, k), self.piece_moves_of(GenType::Quiet))
                && lists(r@.subrange(k, r@.len() as int), self.castle_moves(GenType::Quiet)),
    {
        self.gen_all(GenType::Quiet)
    }

    /// En-passant and pawn captures, then knight, king and slider captures, each once.
    fn gen_noisy(&self) -> (r: Vec<ChessMove>)
        ensures
            lists(r@, self.generated(GenType::Noisy)),
    {
        let r = self.gen_all(GenType::Noisy);
        proof {
            let k = choose|k: int| 0 <= k <= r@.len() && lists(#[trigger] r@.subrange(0, k), self.piece_moves_of(GenType::Noisy))
                && lists(r@.subrange(k, r@.len() as int), self.castle_moves(GenType::Noisy));
            assert(self.castle_moves(GenType::Noisy) =~= Set::empty());
            if k < r@.len() {
                assert(self.castle_moves(GenType::Noisy).contains(r@.subrange(k, r@.len() as int)[0]@));
            }
            assert(r@.subrange(0, k) =~= r@);
            assert(self.generated(GenType::Noisy) =~= self.piece_moves_of(GenType::Noisy));
        }
        r
    }
}

} // verus!
