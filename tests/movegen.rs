use chess_core::chess::board::{CastlingRight, CastlingRights, ChessBoard, Square};
use chess_core::chess::fen::{piece_letter, FenError};
use chess_core::chess::movegen::{make_pawn_move, ChessMove, GenType};
use chess_core::chess::types::{ChessSide, Piece, PieceType};
use chess_core::{Board, MoveGen};

const START: &str = "rnbqkbnr/pppppppp/8/8/8/8/PPPPPPPP/RNBQKBNR w KQkq - 0 1";

fn board(fen: &str) -> ChessBoard {
    ChessBoard::from_fen(fen.to_string()).unwrap()
}

fn has(moves: &[ChessMove], from: u16, to: u16, promotion: u16, en_pas: u16) -> bool {
    moves.contains(&ChessMove::new(from, to, promotion, en_pas))
}

#[test]
fn knight_moves() {
    let board = ChessBoard::from_fen(
        "rnbqkbnr/pppppppp/8/8/8/8/PPPPPPPP/RNBQKBNR w KQkq - 0 1".to_string(),
    )
    .unwrap();

    let mut move_list = Vec::new();
    board.gen_knight_moves(&mut move_list, GenType::Quiet);
    println!("{:?}", move_list);

    assert_eq!(move_list.len(), 4);
}

#[test]
fn king_moves() {
    let board = ChessBoard::from_fen(
        "rnbqkbnr/pppppppp/8/8/8/8/PPPPPPPP/RNBQKBNR w KQkq - 0 1".to_string(),
    )
    .unwrap();

    let mut move_list = Vec::new();
    board.gen_king_moves(&mut move_list, GenType::Quiet);
    println!("{:?}", move_list);

    assert_eq!(move_list.len(), 0);
}

#[test]
fn start_position_counts() {
    let b = board(START);
    let mut pawns = Vec::new();
    b.gen_pawn_moves(&mut pawns, GenType::Quiet);
    assert_eq!(pawns.len(), 16);
    assert!(has(&pawns, 12, 20, 0, 0));
    assert!(has(&pawns, 12, 28, 0, 0));
    let mut castles = Vec::new();
    b.gen_castle_moves(&mut castles, GenType::Quiet);
    assert_eq!(castles.len(), 0);
    let mut sliders = Vec::new();
    b.gen_slider_moves(&mut sliders, GenType::Quiet);
    assert_eq!(sliders.len(), 0);
    assert_eq!(b.gen_quiet().len(), 20);
    assert_eq!(b.gen_noisy().len(), 0);
}

#[test]
fn black_start_position_counts() {
    let b = board("rnbqkbnr/pppppppp/8/8/8/8/PPPPPPPP/RNBQKBNR b KQkq - 0 1");
    let quiet = b.gen_quiet();
    assert_eq!(quiet.len(), 20);
    assert!(has(&quiet, 52, 36, 0, 0));
    assert!(has(&quiet, 62, 45, 0, 0));
    assert_eq!(b.gen_noisy().len(), 0);
}

#[test]
fn en_passant_captures() {
    // white pawns on d5 and f5, black just played e7-e5
    let b = board("4k3/8/8/3PpPp1/8/8/8/4K3 w - e6 0 1");
    let noisy = b.gen_noisy();
    let ep: Vec<&ChessMove> = noisy.iter().filter(|m| m.en_passant() == 1).collect();
    assert_eq!(ep.len(), 2);
    assert!(has(&noisy, 35, 44, 0, 1));
    assert!(has(&noisy, 37, 44, 0, 1));
    // no pawn next to the target: nothing
    let b = board("4k3/8/8/4p3/8/8/8/4K3 w - e6 0 1");
    let mut list = Vec::new();
    b.gen_pawn_moves(&mut list, GenType::Noisy);
    assert_eq!(list.len(), 0);
    // black capturing en passant on d3 from e4
    let b = board("4k3/8/8/8/3Pp3/8/8/4K3 b - d3 0 1");
    let noisy = b.gen_noisy();
    assert!(has(&noisy, 28, 19, 0, 1));
}

#[test]
fn promotion_expands_to_four() {
    let b = board("k6K/8/8/8/8/8/1p6/8 b - - 0 1");
    let mut list = Vec::new();
    b.gen_pawn_moves(&mut list, GenType::Quiet);
    assert_eq!(list.len(), 4);
    for p in 1..=4 {
        assert!(has(&list, 9, 1, p, 0));
    }
    assert!(!has(&list, 9, 1, 0, 0));
    let mut direct = Vec::new();
    make_pawn_move(10, 18, &mut direct);
    assert_eq!(direct, vec![ChessMove::new(10, 18, 0, 0)]);
    let mut promo = Vec::new();
    make_pawn_move(14, 7, &mut promo);
    assert_eq!(promo.len(), 4);
}

#[test]
fn promotion_by_capture() {
    let b = board("k6K/8/8/8/8/8/1p6/R7 b - - 0 1");
    let mut list = Vec::new();
    b.gen_pawn_moves(&mut list, GenType::Noisy);
    assert_eq!(list.len(), 4);
    assert!(has(&list, 9, 0, 4, 0));
}

#[test]
fn move_round_trip() {
    for from in [0u16, 1, 35, 63] {
        for to in [0u16, 17, 62, 63] {
            for p in 0..8u16 {
                for e in 0..2u16 {
                    let m = ChessMove::new(from, to, p, e);
                    assert_eq!(m.from_sq(), from);
                    assert_eq!(m.to_sq(), to);
                    assert_eq!(m.promotion(), p);
                    assert_eq!(m.en_passant(), e);
                }
            }
        }
    }
}

#[test]
fn castling_needs_right_and_empty_squares() {
    // squares empty, rights held
    let b = board("r3k2r/8/8/8/8/8/8/R3K2R w KQkq - 0 1");
    let mut list = Vec::new();
    b.gen_castle_moves(&mut list, GenType::Quiet);
    assert_eq!(list, vec![ChessMove::new(4, 6, 0, 0), ChessMove::new(4, 2, 0, 0)]);
    // no castling among captures
    let mut none = Vec::new();
    b.gen_castle_moves(&mut none, GenType::Noisy);
    assert!(none.is_empty());
    // rights unset although the squares are empty
    let b = board("r3k2r/8/8/8/8/8/8/R3K2R w kq - 0 1");
    let mut list = Vec::new();
    b.gen_castle_moves(&mut list, GenType::Quiet);
    assert!(list.is_empty());
    // rights held but squares occupied
    let b = board("r3k2r/8/8/8/8/8/8/RN2K1NR w KQkq - 0 1");
    let mut list = Vec::new();
    b.gen_castle_moves(&mut list, GenType::Quiet);
    assert!(list.is_empty());
    // black, queen side only
    let b = board("r3k2r/8/8/8/8/8/8/R3K2R b q - 0 1");
    let mut list = Vec::new();
    b.gen_castle_moves(&mut list, GenType::Quiet);
    assert_eq!(list, vec![ChessMove::new(60, 58, 0, 0)]);
}

#[test]
fn captures_and_quiet_moves_split() {
    // white rook on a1, black knight on a5, black king h8, white king h1
    let b = board("7k/8/8/n7/8/8/8/R6K w - - 0 1");
    let noisy = b.gen_noisy();
    assert_eq!(noisy, vec![ChessMove::new(0, 32, 0, 0)]);
    let quiet = b.gen_quiet();
    assert!(has(&quiet, 0, 24, 0, 0));
    assert!(!has(&quiet, 0, 32, 0, 0));
    assert!(!has(&quiet, 0, 40, 0, 0));
}

#[test]
fn fen_errors() {
    let e = |s: &str| ChessBoard::from_fen(s.to_string()).err();
    assert_eq!(e("8/8/8/8 w"), Some(FenError::MissingFields));
    assert_eq!(e("8/8/8/8/8/8/8/7X w - - 0 1"), Some(FenError::InvalidPlacement));
    assert_eq!(e("8/8/8/8/8/8/8 w - - 0 1"), Some(FenError::InvalidPlacement));
    assert_eq!(e("9/8/8/8/8/8/8/8 w - - 0 1"), Some(FenError::InvalidPlacement));
    assert_eq!(e("8/8/8/8/8/8/8/8 x - - 0 1"), Some(FenError::InvalidSide));
    assert_eq!(e("8/8/8/8/8/8/8/8 w KX - 0 1"), Some(FenError::InvalidCastling));
    assert_eq!(e("8/8/8/8/8/8/8/8 w - e9 0 1"), Some(FenError::InvalidEnPassant));
    assert_eq!(e("8/8/8/8/8/8/8/8 w - e 0 1"), Some(FenError::InvalidEnPassant));
    assert!(e("8/8/8/8/8/8/8/8 w - -").is_none());
}

#[test]
fn fen_fields_are_read() {
    let b = board("r3k2r/8/8/8/4Pp2/8/8/R3K2R b Kq e3 0 1");
    assert!(matches!(b.turn, ChessSide::Black));
    assert!(b.castling_rights.has_right(CastlingRight::WhiteKing));
    assert!(!b.castling_rights.has_right(CastlingRight::WhiteQueen));
    assert!(!b.castling_rights.has_right(CastlingRight::BlackKing));
    assert!(b.castling_rights.has_right(CastlingRight::BlackQueen));
    assert_eq!(b.en_passant.map(|s| s.index()), Some(20));
    assert_eq!(b.grid[28], Piece::WPawn);
    assert_eq!(b.grid[29], Piece::BPawn);
    assert_eq!(b.grid[0], Piece::WRook);
    assert_eq!(b.grid[63], Piece::BRook);
    assert_eq!(b.grid[30], Piece::Empty);
    assert!(b.pieces(PieceType::Pawn, ChessSide::White).is_set(28));
    assert!(b.side(ChessSide::Black).is_set(60));
    assert_eq!(b.occ().0.count_ones(), 8);
}

#[test]
fn piece_numbering() {
    assert_eq!(Piece::from((PieceType::Queen, ChessSide::Black)), Piece::BQueen);
    assert_eq!(Piece::BQueen.index(), Some(9));
    assert_eq!(Piece::Empty.index(), None);
    assert_eq!(Piece::from_number(11), Some(Piece::BKing));
    assert_eq!(Piece::from_number(12), None);
    assert_eq!(PieceType::from_number(3), Some(PieceType::Rook));
    assert_eq!(PieceType::from_number(6), None);
    assert_eq!(ChessSide::from_number(1), Some(ChessSide::Black));
    assert_eq!(ChessSide::from_number(2), None);
    assert_eq!(usize::from(PieceType::King), 5);
    assert_eq!(usize::from(ChessSide::Black), 1);
    assert_eq!(!ChessSide::White, ChessSide::Black);
    assert_eq!(Piece::WKnight.kind(), Some(PieceType::Knight));
    assert_eq!(Piece::WKnight.side(), Some(ChessSide::White));
    assert_eq!(Piece::Empty.kind(), None);
    assert_eq!(Piece::Empty.side(), None);
}

#[test]
fn squares_and_rights() {
    let s = Square::from_index(44);
    assert_eq!(s.index(), 44);
    assert_eq!(s.rank(), 5);
    assert_eq!(Square::new(8, 0), None);
    let mut r = CastlingRights::default();
    assert!(!r.has_right(CastlingRight::BlackKing));
    r.set_right(CastlingRight::BlackKing);
    assert!(r.has_right(CastlingRight::BlackKing));
    r.unset_right(CastlingRight::BlackKing);
    assert!(!r.has_right(CastlingRight::BlackKing));
}

#[test]
fn letters_round_trip_through_placement() {
    assert_eq!(piece_letter(Piece::WKnight), b'N');
    assert_eq!(piece_letter(Piece::BKing), b'k');
    assert_eq!(piece_letter(Piece::Empty), b'.');
    let b = board(START);
    let mut text = String::new();
    for s in 56..64 {
        text.push(piece_letter(b.grid[s]) as char);
    }
    assert_eq!(text, "rnbqkbnr");
}
