//! Piece kinds, sides, and the dense numbering that addresses per-piece sets.
use vstd::prelude::*;

verus! {

/// A kind of piece, regardless of side.
#[derive(Clone, Copy, Debug, PartialEq, Eq, Structural)]
pub enum PieceType {
    Pawn,
    Knight,
    Bishop,
    Rook,
    Queen,
    King,
}

/// A piece of one side, or `Empty` for an empty square.
#[derive(Clone, Copy, Debug, PartialEq, Eq, Structural)]
pub enum Piece {
    WPawn,
    BPawn,
    WKnight,
    BKnight,
    WBishop,
    BBishop,
    WRook,
    BRook,
    WQueen,
    BQueen,
    WKing,
    BKing,
    Empty,
}

/// Slots in a per-piece array of sets; slots 12 and 13 are never used.
pub const PIECE_COUNT: usize = 14;

/// A side of the board.
#[derive(Clone, Copy, Debug, PartialEq, Eq, Structural)]
pub enum ChessSide {
    White,
    Black,
}

/// Slots in a per-side array of sets.
pub const SIDE_COUNT: usize = 2;

impl PieceType {
    /// The kind's number: pawn 0, knight 1, bishop 2, rook 3, queen 4, king 5.
    pub open spec fn number(self) -> int {
        match self {
            PieceType::Pawn => 0,
            PieceType::Knight => 1,
            PieceType::Bishop => 2,
            PieceType::Rook => 3,
            PieceType::Queen => 4,
            PieceType::King => 5,
        }
    }

    /// The kind with number `n`, if `n` is below 6.
    pub fn from_number(n: u8) -> (r: Option<PieceType>)
        ensures
            r is Some <==> n < 6,
            r matches Some(k) ==> k.number() == n,
    {
        match n {
            0 => Some(PieceType::Pawn),
            1 => Some(PieceType::Knight),
            2 => Some(PieceType::Bishop),
            3 => Some(PieceType::Rook),
            4 => Some(PieceType::Queen),
            5 => Some(PieceType::King),
            _ => None,
        }
    }
}

impl ChessSide {
    /// The side's number: white 0, black 1.
    pub open spec fn number(self) -> int {
        match self {
            ChessSide::White => 0,
            ChessSide::Black => 1,
        }
    }

    /// The other side.
    pub open spec fn other(self) -> ChessSide {
        match self {
            ChessSide::White => ChessSide::Black,
            ChessSide::Black => ChessSide::White,
        }
    }

    /// The side with number `n`, if `n` is 0 or 1.
    pub fn from_number(n: u8) -> (r: Option<ChessSide>)
        ensures
            r is Some <==> n < 2,
            r matches Some(s) ==> s.number() == n,
    {
        match n {
            0 => Some(ChessSide::White),
            1 => Some(ChessSide::Black),
            _ => None,
        }
    }

    /// The slot of this side in a per-side array.
    pub fn index(self) -> (r: usize)
        ensures
            r == self.number(),
    {
        match self {
            ChessSide::White => 0,
            ChessSide::Black => 1,
        }
    }
}

impl Piece {
    /// The piece of `kind` for `side`.
    pub open spec fn of(kind: PieceType, side: ChessSide) -> Piece {
        match (kind, side) {
            (PieceType::Pawn, ChessSide::White) => Piece::WPawn,
            (PieceType::Pawn, ChessSide::Black) => Piece::BPawn,
            (PieceType::Knight, ChessSide::White) => Piece::WKnight,
            (PieceType::Knight, ChessSide::Black) => Piece::BKnight,
            (PieceType::Bishop, ChessSide::White) => Piece::WBishop,
            (PieceType::Bishop, ChessSide::Black) => Piece::BBishop,
            (PieceType::Rook, ChessSide::White) => Piece::WRook,
            (PieceType::Rook, ChessSide::Black) => Piece::BRook,
            (PieceType::Queen, ChessSide::White) => Piece::WQueen,
            (PieceType::Queen, ChessSide::Black) => Piece::BQueen,
            (PieceType::King, ChessSide::White) => Piece::WKing,
            (PieceType::King, ChessSide::Black) => Piece::BKing,
        }
    }

    /// The piece's slot: `kind * 2 + side` for a live piece, 12 for `Empty`.
    pub open spec fn number(self) -> int {
        match self {
            Piece::WPawn => 0,
            Piece::BPawn => 1,
            Piece::WKnight => 2,
            Piece::BKnight => 3,
            Piece::WBishop => 4,
            Piece::BBishop => 5,
            Piece::WRook => 6,
            Piece::BRook => 7,
            Piece::WQueen => 8,
            Piece::BQueen => 9,
            Piece::WKing => 10,
            Piece::BKing => 11,
            Piece::Empty => 12,
        }
    }

    /// The kind of a live piece.
    pub open spec fn kind_of(self) -> PieceType
        recommends
            self != Piece::Empty,
    {
        match self {
            Piece::WPawn | Piece::BPawn => PieceType::Pawn,
            Piece::WKnight | Piece::BKnight => PieceType::Knight,
            Piece::WBishop | Piece::BBishop => PieceType::Bishop,
            Piece::WRook | Piece::BRook => PieceType::Rook,
            Piece::WQueen | Piece::BQueen => PieceType::Queen,
            _ => PieceType::King,
        }
    }

    /// The side of a live piece.
    pub open spec fn side_of(self) -> ChessSide
        recommends
            self != Piece::Empty,
    {
        match self {
            Piece::WPawn | Piece::WKnight | Piece::WBishop | Piece::WRook | Piece::WQueen
            | Piece::WKing => ChessSide::White,
            _ => ChessSide::Black,
        }
    }

    /// The slot of a live piece in a per-piece array; `Empty` has no slot.
    pub fn index(self) -> (r: Option<usize>)
        ensures
            self == Piece::Empty ==> r is None,
            self != Piece::Empty ==> r == Some(self.number() as usize),
    {
        match self {
            Piece::WPawn => Some(0),
            Piece::BPawn => Some(1),
            Piece::WKnight => Some(2),
            Piece::BKnight => Some(3),
            Piece::WBishop => Some(4),
            Piece::BBishop => Some(5),
            Piece::WRook => Some(6),
            Piece::BRook => Some(7),
            Piece::WQueen => Some(8),
            Piece::BQueen => Some(9),
            Piece::WKing => Some(10),
            Piece::BKing => Some(11),
            Piece::Empty => None,
        }
    }

    /// The live piece numbered `n` (`kind * 2 + side`), if `n` is below 12.
    pub fn from_number(n: u8) -> (r: Option<Piece>)
        ensures
            r is Some <==> n < 12,
            r matches Some(p) ==> p.number() == n && p != Piece::Empty,
    {
        match n {
            0 => Some(Piece::WPawn),
            1 => Some(Piece::BPawn),
            2 => Some(Piece::WKnight),
            3 => Some(Piece::BKnight),
            4 => Some(Piece::WBishop),
            5 => Some(Piece::BBishop),
            6 => Some(Piece::WRook),
            7 => Some(Piece::BRook),
            8 => Some(Piece::WQueen),
            9 => Some(Piece::BQueen),
            10 => Some(Piece::WKing),
            11 => Some(Piece::BKing),
            _ => None,
        }
    }

    /// The kind of a live piece; `Empty` has no kind.
    pub fn kind(self) -> (r: Option<PieceType>)
        ensures
            self == Piece::Empty ==> r is None,
            self != Piece::Empty ==> r == Some(self.kind_of()),
    {
        match self {
            Piece::WPawn | Piece::BPawn => Some(PieceType::Pawn),
            Piece::WKnight | Piece::BKnight => Some(PieceType::Knight),
            Piece::WBishop | Piece::BBishop => Some(PieceType::Bishop),
            Piece::WRook | Piece::BRook => Some(PieceType::Rook),
            Piece::WQueen | Piece::BQueen => Some(PieceType::Queen),
            Piece::WKing | Piece::BKing => Some(PieceType::King),
            Piece::Empty => None,
        }
    }

    /// The side of a live piece; `Empty` has no side.
    pub fn side(self) -> (r: Option<ChessSide>)
        ensures
            self == Piece::Empty ==> r is None,
            self != Piece::Empty ==> r == Some(self.side_of()),
    {
        match self {
            Piece::WPawn | Piece::WKnight | Piece::WBishop | Piece::WRook | Piece::WQueen
            | Piece::WKing => Some(ChessSide::White),
            Piece::BPawn | Piece::BKnight | Piece::BBishop | Piece::BRook | Piece::BQueen
            | Piece::BKing => Some(ChessSide::Black),
            Piece::Empty => None,
        }
    }
}

/// The numbering of live pieces is `kind * 2 + side`, and a live piece is
/// recovered from its kind and side.
pub proof fn lemma_piece_numbering(kind: PieceType, side: ChessSide)
    ensures
        Piece::of(kind, side).number() == kind.number() * 2 + side.number(),
        Piece::of(kind, side) != Piece::Empty,
        Piece::of(kind, side).kind_of() == kind,
        Piece::of(kind, side).side_of() == side,
{
}

/// The live piece of a kind and a side.
impl From<(PieceType, ChessSide)> for Piece {
    fn from(p: (PieceType, ChessSide)) -> (r: Piece) {
        match p {
            (PieceType::Pawn, ChessSide::White) => Piece::WPawn,
            (PieceType::Pawn, ChessSide::Black) => Piece::BPawn,
            (PieceType::Knight, ChessSide::White) => Piece::WKnight,
            (PieceType::Knight, ChessSide::Black) => Piece::BKnight,
            (PieceType::Bishop, ChessSide::White) => Piece::WBishop,
            (PieceType::Bishop, ChessSide::Black) => Piece::BBishop,
            (PieceType::Rook, ChessSide::White) => Piece::WRook,
            (PieceType::Rook, ChessSide::Black) => Piece::BRook,
            (PieceType::Queen, ChessSide::White) => Piece::WQueen,
            (PieceType::Queen, ChessSide::Black) => Piece::BQueen,
            (PieceType::King, ChessSide::White) => Piece::WKing,
            (PieceType::King, ChessSide::Black) => Piece::BKing,
        }
    }
}

impl vstd::std_specs::convert::FromSpecImpl<(PieceType, ChessSide)> for Piece {
    open spec fn obeys_from_spec() -> bool {
        true
    }

    open spec fn from_spec(p: (PieceType, ChessSide)) -> Piece {
        Piece::of(p.0, p.1)
    }
}

/// The kind's number.
impl From<PieceType> for usize {
    fn from(p: PieceType) -> (r: usize) {
        match p {
            PieceType::Pawn => 0,
            PieceType::Knight => 1,
            PieceType::Bishop => 2,
            PieceType::Rook => 3,
            PieceType::Queen => 4,
            PieceType::King => 5,
        }
    }
}

impl vstd::std_specs::convert::FromSpecImpl<PieceType> for usize {
    open spec fn obeys_from_spec() -> bool {
        true
    }

    open spec fn from_spec(p: PieceType) -> usize {
        p.number() as usize
    }
}

/// The side's number.
impl From<ChessSide> for usize {
    fn from(s: ChessSide) -> (r: usize) {
        match s {
            ChessSide::White => 0,
            ChessSide::Black => 1,
        }
    }
}

impl vstd::std_specs::convert::FromSpecImpl<ChessSide> for usize {
    open spec fn obeys_from_spec() -> bool {
        true
    }

    open spec fn from_spec(s: ChessSide) -> usize {
        s.number() as usize
    }
}

/// The other side.
impl std::ops::Not for ChessSide {
    type Output = ChessSide;

    fn not(self) -> (r: ChessSide) {
        match self {
            ChessSide::White => ChessSide::Black,
            ChessSide::Black => ChessSide::White,
        }
    }
}

impl vstd::std_specs::ops::NotSpecImpl for ChessSide {
    open spec fn obeys_not_spec() -> bool {
        true
    }

    open spec fn not_req(self) -> bool {
        true
    }

    open spec fn not_spec(self) -> ChessSide {
        self.other()
    }
}

} // verus!
