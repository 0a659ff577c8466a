//! Reading a position from Forsyth-Edwards Notation.
//!
//! Four space-separated fields are read: piece placement (eight ranks from the
//! eighth down, separated by `/`, each of exactly eight squares written as
//! piece letters and digits 1 to 8 for runs of empty squares), side to move
//! (`w` or `b`), castling rights (`-` or letters among `KQkq`) and the
//! en-passant target (`-` or a file `a`-`h` and a rank `1`-`8`). Any further
//! fields (the move counters) are accepted and ignored.
use vstd::prelude::*;
use crate::bitboards::Bitboard;
use crate::chess::movegen::ChessMove;
use crate::chess::board::{ChessBoard, CastlingRight, CastlingRights, Square};
use crate::chess::types::{Piece, ChessSide, PIECE_COUNT, SIDE_COUNT};
use crate::bitboards::lemma_set_ops;
use crate::types::Board;

verus! {

/// Which field of a position string was refused.
#[derive(Clone, Copy, Debug, PartialEq, Eq, Structural)]
pub enum FenError {
    /// Fewer than four fields.
    MissingFields,
    /// The placement is not eight ranks of eight squares of known letters and digits.
    InvalidPlacement,
    /// The side to move is neither `w` nor `b`.
    InvalidSide,
    /// The castling field is neither `-` nor made of `K`, `Q`, `k`, `q`.
    InvalidCastling,
    /// The en-passant field is neither `-` nor a square such as `e3`.
    InvalidEnPassant,
}

/// The pieces of `s` between the separators `sep`; always at least one (maybe empty) piece.
pub open spec fn split_on(s: Seq<u8>, sep: u8) -> Seq<Seq<u8>>
    decreases s.len(),
{
    if s.len() == 0 {
        seq![Seq::<u8>::empty()]
    } else {
        let rest = split_on(s.drop_last(), sep);
        if s.last() == sep {
            rest.push(Seq::<u8>::empty())
        } else {
            rest.update(rest.len() - 1, rest.last().push(s.last()))
        }
    }
}

proof fn lemma_split_nonempty(s: Seq<u8>, sep: u8)
    ensures
        split_on(s, sep).len() >= 1,
    decreases s.len(),
{
    if s.len() > 0 {
        lemma_split_nonempty(s.drop_last(), sep);
    }
}

/// The piece a placement letter stands for.
pub open spec fn piece_of_letter(c: u8) -> Option<Piece> {
    if c == 80 { Some(Piece::WPawn) }
    else if c == 112 { Some(Piece::BPawn) }
    else if c == 78 { Some(Piece::WKnight) }
    else if c == 110 { Some(Piece::BKnight) }
    else if c == 66 { Some(Piece::WBishop) }
    else if c == 98 { Some(Piece::BBishop) }
    else if c == 82 { Some(Piece::WRook) }
    else if c == 114 { Some(Piece::BRook) }
    else if c == 81 { Some(Piece::WQueen) }
    else if c == 113 { Some(Piece::BQueen) }
    else if c == 75 { Some(Piece::WKing) }
    else if c == 107 { Some(Piece::BKing) }
    else { None }
}

/// The squares a rank's text stands for, from file a on: a digit `1`-`8` for
/// that many empty squares, a letter for a piece. `None` at any other byte.
pub open spec fn expand_rank(r: Seq<u8>) -> Option<Seq<Piece>>
    decreases r.len(),
{
    if r.len() == 0 {
        Some(Seq::empty())
    } else {
        match expand_rank(r.drop_last()) {
            None => None,
            Some(prev) => {
                let c = r.last();
                if 49 <= c <= 56 {
                    Some(prev + Seq::new((c - 48) as nat, |i: int| Piece::Empty))
                } else {
                    match piece_of_letter(c) {
                        Some(p) => Some(prev.push(p)),
                        None => None,
                    }
                }
            },
        }
    }
}

/// A rank's text stands for exactly eight squares.
pub open spec fn rank_ok(r: Seq<u8>) -> bool {
    expand_rank(r) matches Some(q) && q.len() == 8
}

/// The placement field is eight ranks of exactly eight squares each.
pub open spec fn placement_ok(p: Seq<u8>) -> bool {
    let ranks = split_on(p, 47);
    &&& ranks.len() == 8
    &&& forall|i: int| 0 <= i < 8 ==> #[trigger] rank_ok(ranks[i])
}

/// The piece on each square that a valid placement field gives; the first
/// rank of the text is the eighth of the board.
pub open spec fn placement_grid(p: Seq<u8>) -> Seq<Piece> {
    let ranks = split_on(p, 47);
    Seq::new(64, |s: int| expand_rank(ranks[7 - s / 8])->Some_0[s % 8])
}

/// The letter that grants `right` in the castling field.
pub open spec fn right_letter(right: CastlingRight) -> u8 {
    match right {
        CastlingRight::WhiteKing => 75,
        CastlingRight::WhiteQueen => 81,
        CastlingRight::BlackKing => 107,
        CastlingRight::BlackQueen => 113,
    }
}

/// The castling field is `-` or made of the letters `K`, `Q`, `k`, `q` only.
pub open spec fn castling_ok(f: Seq<u8>) -> bool {
    f == seq![45u8] || forall|i: int| 0 <= i < f.len() ==> (#[trigger] f[i] == 75 || f[i] == 81 || f[i] == 107 || f[i] == 113)
}

/// The rights that a valid castling field grants.
pub open spec fn castling_of(f: Seq<u8>) -> Set<CastlingRight> {
    Set::new(|r: CastlingRight| exists|i: int| 0 <= i < f.len() && #[trigger] f[i] == right_letter(r))
}

/// The en-passant field is `-` or a file letter `a`-`h` then a rank digit `1`-`8`.
pub open spec fn en_passant_ok(f: Seq<u8>) -> bool {
    f == seq![45u8] || f.len() == 2 && 97 <= f[0] <= 104 && 49 <= f[1] <= 56
}

/// The error of a position string's bytes, by the first field that is wrong; `None` when it is valid.
pub open spec fn fen_error(b: Seq<u8>) -> Option<FenError> {
    let fields = split_on(b, 32);
    if fields.len() < 4 {
        Some(FenError::MissingFields)
    } else if !placement_ok(fields[0]) {
        Some(FenError::InvalidPlacement)
    } else if fields[1] != seq![119u8] && fields[1] != seq![98u8] {
        Some(FenError::InvalidSide)
    } else if !castling_ok(fields[2]) {
        Some(FenError::InvalidCastling)
    } else if !en_passant_ok(fields[3]) {
        Some(FenError::InvalidEnPassant)
    } else {
        None
    }
}

/// `board` is the position that the valid position string `b` describes.
pub open spec fn describes(b: Seq<u8>, board: ChessBoard) -> bool {
    let fields = split_on(b, 32);
    &&& board.wf()
    &&& board.grid@ == placement_grid(fields[0])
    &&& board.turn == if fields[1] == seq![119u8] { ChessSide::White } else { ChessSide::Black }
    &&& board.castling_rights@ == castling_of(fields[2])
    &&& if fields[3] == seq![45u8] {
        board.en_passant is None
    } else {
        (board.en_passant matches Some(q) && q.file_spec() == fields[3][0] - 97 && q.rank_spec() == fields[3][1] - 49)
    }
}

/// Splits `s` at each `sep`.
fn split_bytes(s: &[u8], sep: u8) -> (r: Vec<Vec<u8>>)
    ensures
        r@.len() == split_on(s@, sep).len(),
        forall|i: int| 0 <= i < r@.len() ==> #[trigger] r@[i]@ == split_on(s@, sep)[i],
{
    let mut fields: Vec<Vec<u8>> = Vec::new();
    let mut current: Vec<u8> = Vec::new();
    let mut i: usize = 0;
    proof {
        assert(s@.subrange(0, 0) =~= Seq::<u8>::empty());
    }
    while i < s.len()
        invariant
            i <= s@.len(),
            fields@.len() + 1 == split_on(s@.subrange(0, i as int), sep).len(),
            forall|j: int| 0 <= j < fields@.len() ==> #[trigger] fields@[j]@ == split_on(s@.subrange(0, i as int), sep)[j],
            current@ == split_on(s@.subrange(0, i as int), sep).last(),
        decreases s@.len() - i,
    {
        proof {
            assert(s@.subrange(0, i + 1).drop_last() =~= s@.subrange(0, i as int));
            lemma_split_nonempty(s@.subrange(0, i as int), sep);
        }
        let c = s[i];
        if c == sep {
            fields.push(current);
            current = Vec::new();
        } else {
            current.push(c);
        }
        i += 1;
    }
    fields.push(current);
    proof {
        assert(s@.subrange(0, s@.len() as int) =~= s@);
    }
    fields
}

/// The piece a placement letter stands for.
fn letter_piece(c: u8) -> (r: Option<Piece>)
    ensures
        r == piece_of_letter(c),
{
    match c {
        80 => Some(Piece::WPawn),
        112 => Some(Piece::BPawn),
        78 => Some(Piece::WKnight),
        110 => Some(Piece::BKnight),
        66 => Some(Piece::WBishop),
        98 => Some(Piece::BBishop),
        82 => Some(Piece::WRook),
        114 => Some(Piece::BRook),
        81 => Some(Piece::WQueen),
        113 => Some(Piece::BQueen),
        75 => Some(Piece::WKing),
        107 => Some(Piece::BKing),
        _ => None,
    }
}

/// The placement letter of a piece (`.` for an empty square): the inverse of
/// reading a letter.
pub fn piece_letter(p: Piece) -> (r: u8)
    ensures
        p == Piece::Empty ==> r == 46,
        p != Piece::Empty ==> piece_of_letter(r) == Some(p),
{
    match p {
        Piece::WPawn => 80,
        Piece::BPawn => 112,
        Piece::WKnight => 78,
        Piece::BKnight => 110,
        Piece::WBishop => 66,
        Piece::BBishop => 98,
        Piece::WRook => 82,
        Piece::BRook => 114,
        Piece::WQueen => 81,
        Piece::BQueen => 113,
        Piece::WKing => 75,
        Piece::BKing => 107,
        Piece::Empty => 46,
    }
}

/// The eight squares of a rank's text, or `None` when it does not stand for exactly eight.
fn parse_rank(r: &[u8]) -> (res: Option<Vec<Piece>>)
    ensures
        res is Some <==> rank_ok(r@),
        res matches Some(v) ==> expand_rank(r@) == Some(v@) && v@.len() == 8,
{
    let mut out: Vec<Piece> = Vec::new();
    let mut i: usize = 0;
    proof {
        assert(r@.subrange(0, 0) =~= Seq::<u8>::empty());
    }
    while i < r.len()
        invariant
            i <= r@.len(),
            expand_rank(r@.subrange(0, i as int)) == Some(out@),
        decreases r@.len() - i,
    {
        let c = r[i];
        proof {
            assert(r@.subrange(0, i + 1).drop_last() =~= r@.subrange(0, i as int));
            assert(r@.subrange(0, i + 1).last() == c);
        }
        if 49 <= c && c <= 56 {
            let ghost prev = out@;
            let n = c - 48;
            let mut k: u8 = 0;
            while k < n
                invariant
                    k <= n,
                    out@ == prev + Seq::new(k as nat, |j: int| Piece::Empty),
                decreases n - k,
            {
                out.push(Piece::Empty);
                k += 1;
                proof {
                    assert(out@ =~= prev + Seq::new(k as nat, |j: int| Piece::Empty));
                }
            }
        } else {
            match letter_piece(c) {
                Some(p) => out.push(p),
                None => {
                    proof {
                        lemma_expand_none_extends(r@, i as int + 1);
                    }
                    return None;
                },
            }
        }
        i += 1;
    }
    proof {
        assert(r@.subrange(0, r@.len() as int) =~= r@);
    }
    if out.len() == 8 {
        Some(out)
    } else {
        None
    }
}

proof fn lemma_expand_none_extends(r: Seq<u8>, k: int)
    requires
        0 <= k <= r.len(),
        expand_rank(r.subrange(0, k)) is None,
    ensures
        expand_rank(r) is None,
    decreases r.len() - k,
{
    if k < r.len() {
        assert(r.subrange(0, k + 1).drop_last() =~= r.subrange(0, k));
        lemma_expand_none_extends(r, k + 1);
    } else {
        assert(r.subrange(0, k) =~= r);
    }
}

/// The rights of a castling field, or `None` when it is not valid.
fn parse_castling(f: &[u8]) -> (res: Option<CastlingRights>)
    ensures
        res is Some <==> castling_ok(f@),
        res matches Some(c) ==> c@ == castling_of(f@),
{
    let mut rights = CastlingRights::default();
    if f.len() == 1 && f[0] == 45 {
        proof {
            assert(f@ =~= seq![45u8]);
            assert(castling_of(f@) =~= Set::<CastlingRight>::empty());
        }
        return Some(rights);
    }
    let mut i: usize = 0;
    while i < f.len()
        invariant
            i <= f@.len(),
            f@ != seq![45u8],
            forall|j: int| 0 <= j < i ==> (#[trigger] f@[j] == 75 || f@[j] == 81 || f@[j] == 107 || f@[j] == 113),
            rights@ == Set::new(|r: CastlingRight| exists|j: int| 0 <= j < i && #[trigger] f@[j] == right_letter(r)),
        decreases f@.len() - i,
    {
        let c = f[i];
        let ghost before = rights@;
        if c == 75 {
            rights.set_right(CastlingRight::WhiteKing);
        } else if c == 81 {
            rights.set_right(CastlingRight::WhiteQueen);
        } else if c == 107 {
            rights.set_right(CastlingRight::BlackKing);
        } else if c == 113 {
            rights.set_right(CastlingRight::BlackQueen);
        } else {
            proof {
                assert(!(f@[i as int] == 75 || f@[i as int] == 81 || f@[i as int] == 107 || f@[i as int] == 113));
            }
            return None;
        }
        proof {
            assert forall|r: CastlingRight| #[trigger] rights@.contains(r) == exists|j: int| 0 <= j < i + 1 && #[trigger] f@[j] == right_letter(r) by {
                if f@[i as int] == right_letter(r) {
                    assert(0 <= i < i + 1 && f@[i as int] == right_letter(r));
                }
                if exists|j: int| 0 <= j < i + 1 && #[trigger] f@[j] == right_letter(r) {
                    let j = choose|j: int| 0 <= j < i + 1 && #[trigger] f@[j] == right_letter(r);
                    if j < i {
                        assert(before.contains(r));
                    }
                }
            }
            assert(rights@ =~= Set::new(|r: CastlingRight| exists|j: int| 0 <= j < i + 1 && #[trigger] f@[j] == right_letter(r)));
        }
        i += 1;
    }
    proof {
        assert(rights@ =~= castling_of(f@));
    }
    Some(rights)
}

/// The en-passant target of a field: `Some(None)` for `-`, `Some(Some(q))`
/// for a square, `None` when the field is not valid.
fn parse_en_passant(f: &[u8]) -> (res: Option<Option<Square>>)
    ensures
        res is Some <==> en_passant_ok(f@),
        res matches Some(e) ==> if f@ == seq![45u8] {
            e is None
        } else {
            (e matches Some(q) && q.file_spec() == f@[0] - 97 && q.rank_spec() == f@[1] - 49)
        },
{
    if f.len() == 1 && f[0] == 45 {
        proof {
            assert(f@ =~= seq![45u8]);
        }
        return Some(None);
    }
    if f.len() == 2 && 97 <= f[0] && f[0] <= 104 && 49 <= f[1] && f[1] <= 56 {
        match Square::new(f[0] - 97, f[1] - 49) {
            Some(q) => Some(Some(q)),
            None => None,
        }
    } else {
        None
    }
}

/// The position with no piece, white to move, no rights and no en-passant target.
fn empty_board() -> (r: ChessBoard)
    ensures
        r.consistent_below(0),
        forall|s: int| 0 <= s < 64 ==> r.grid@[s] == Piece::Empty,
        r.turn == ChessSide::White,
        r.castling_rights@ == Set::<CastlingRight>::empty(),
        r.en_passant is None,
{
    proof {
        lemma_set_ops(0, 0);
    }
    let mut grid = [Piece::Empty; 64];
    let mut k: usize = 0;
    while k < 64
        invariant
            k <= 64,
            forall|j: int| 0 <= j < k ==> grid@[j] == Piece::Empty,
        decreases 64 - k,
    {
        grid[k] = Piece::Empty;
        k += 1;
    }
    ChessBoard {
        grid,
        piece_bb: [Bitboard(0); PIECE_COUNT],
        side_bb: [Bitboard(0); SIDE_COUNT],
        turn: ChessSide::White,
        castling_rights: CastlingRights::default(),
        en_passant: None,
    }
}

impl Board for ChessBoard {
    type Move = ChessMove;

    type Error = FenError;

    /// Reads a position; an error names the first field found wrong.
    fn from_fen(fen: String) -> (r: Result<ChessBoard, FenError>)
        ensures
            match r {
                Ok(board) => fen_error(vstd::utf8::encode_utf8(fen@)) is None && describes(
                    vstd::utf8::encode_utf8(fen@),
                    board,
                ),
                Err(e) => fen_error(vstd::utf8::encode_utf8(fen@)) == Some(e),
            },
    {
        let bytes = fen.as_str().as_bytes();
        let ghost b = vstd::utf8::encode_utf8(fen@);
        assert(bytes@ == b);
        let fields = split_bytes(bytes, 32);
        let ghost fs = split_on(b, 32);
        if fields.len() < 4 {
            return Err(FenError::MissingFields);
        }
        let f0 = fields[0].as_slice();
        assert(f0@ == fs[0]);
        let ranks = split_bytes(f0, 47);
        let ghost rs = split_on(fs[0], 47);
        if ranks.len() != 8 {
            return Err(FenError::InvalidPlacement);
        }
        let mut rows: Vec<Vec<Piece>> = Vec::new();
        let mut i: usize = 0;
        while i < 8
            invariant
                i <= 8,
                b == vstd::utf8::encode_utf8(fen@),
                fs == split_on(b, 32),
                fs.len() >= 4,
                rs == split_on(fs[0], 47),
                ranks@.len() == 8,
                rs.len() == 8,
                forall|j: int| 0 <= j < 8 ==> #[trigger] ranks@[j]@ == rs[j],
                rows@.len() == i,
                forall|j: int| 0 <= j < i ==> expand_rank(rs[j]) == Some(#[trigger] rows@[j]@) && rows@[j]@.len() == 8,
            decreases 8 - i,
        {
            let rk = ranks[i].as_slice();
            assert(rk@ == rs[i as int]);
            match parse_rank(rk) {
                Some(v) => {
                    let ghost vv = v@;
                    assert(rank_ok(rs[i as int]));
                    assert(expand_rank(rs[i as int]) == Some(vv));
                    let ghost old_rows = rows@;
                    rows.push(v);
                    assert(rows@[i as int]@ == vv);
                    assert forall|j: int| 0 <= j < i + 1 implies expand_rank(rs[j]) == Some(#[trigger] rows@[j]@) && rows@[j]@.len() == 8 by {
                        if j < i {
                            assert(rows@[j] == old_rows[j]);
                            assert(expand_rank(rs[j]) == Some(old_rows[j]@));
                        } else {
                            assert(j == i);
                            assert(rows@[j]@ == vv);
                        }
                    }
                },
                None => {
                    return Err(FenError::InvalidPlacement);
                },
            }
            i += 1;
        }
        assert forall|j: int| 0 <= j < 8 implies #[trigger] rank_ok(rs[j]) by {
            assert(expand_rank(rs[j]) == Some(rows@[j]@));
        }
        assert(placement_ok(fs[0]));
        let turn = if fields[1].len() == 1 && fields[1][0] == 119 {
            assert(fs[1] =~= seq![119u8]);
            ChessSide::White
        } else if fields[1].len() == 1 && fields[1][0] == 98 {
            assert(fs[1] =~= seq![98u8]);
            ChessSide::Black
        } else {
            assert(fs[1] != seq![119u8] && fs[1] != seq![98u8]) by {
                if fs[1] == seq![119u8] || fs[1] == seq![98u8] {
                    assert(fs[1].len() == 1);
                }
            }
            return Err(FenError::InvalidSide);
        };
        let castling_rights = match parse_castling(fields[2].as_slice()) {
            Some(c) => c,
            None => {
                return Err(FenError::InvalidCastling);
            },
        };
        let en_passant = match parse_en_passant(fields[3].as_slice()) {
            Some(e) => e,
            None => {
                return Err(FenError::InvalidEnPassant);
            },
        };
        let mut board = empty_board();
        let mut s: usize = 0;
        while s < 64
            invariant
                s <= 64,
                rows@.len() == 8,
                forall|j: int| 0 <= j < 8 ==> (#[trigger] rows@[j]@).len() == 8,
                board.consistent_below(s as int),
                forall|t: int| 0 <= t < s ==> board.grid@[t] == #[trigger] rows@[7 - t / 8]@[t % 8],
                forall|t: int| s <= t < 64 ==> #[trigger] board.grid@[t] == Piece::Empty,
            decreases 64 - s,
        {
            let row = s / 8;
            let file = s % 8;
            let p = rows[7 - row][file];
            if p != Piece::Empty {
                board.place_piece(p, row as u8, file as u8);
            } else {
                proof {
                    assert forall|t: int, k: int| 0 <= k < 12 implies (#[trigger] board.piece_bb[k]@.contains(t) <==> 0 <= t < s + 1
                        && board.grid[t].number() == k) by {
                        if t == s {
                            assert(board.grid[t] == Piece::Empty);
                        }
                    }
                }
            }
            s += 1;
        }
        board.turn = turn;
        board.castling_rights = castling_rights;
        board.en_passant = en_passant;
        proof {
            assert forall|t: int| 0 <= t < 64 implies board.grid@[t] == #[trigger] placement_grid(fs[0])[t] by {
                assert(expand_rank(rs[7 - t / 8]) == Some(rows@[7 - t / 8]@));
            }
            assert(board.grid@ =~= placement_grid(fs[0]));
        }
        Ok(board)
    }
}

} // verus!
