use chess_core::bitboards::Bitboard;
use chess_core::chess::attacks::{
    gen_king_attack_table, gen_knight_attack_table, get_bishop_attacks, get_king_attacks,
    get_knight_attacks, get_queen_attacks, get_rook_attacks,
};

fn count(b: Bitboard) -> u32 {
    b.0.count_ones()
}

#[test]
fn bishop_attacks() {
    let q = get_queen_attacks(20, Bitboard::empty());
    assert_eq!(count(q), 25);
}

#[test]
fn corner_and_centre_attack_counts() {
    assert_eq!(count(get_knight_attacks(0)), 2);
    assert_eq!(count(get_king_attacks(0)), 3);
    assert_eq!(count(get_knight_attacks(28)), 8);
    assert_eq!(count(get_king_attacks(28)), 8);
    assert_eq!(get_knight_attacks(0), Bitboard((1 << 10) | (1 << 17)));
    assert_eq!(get_king_attacks(0), Bitboard((1 << 1) | (1 << 8) | (1 << 9)));
}

#[test]
fn tables_match_lookups() {
    let kn = gen_knight_attack_table();
    let kg = gen_king_attack_table();
    for s in 0..64u8 {
        assert_eq!(Bitboard(kn[s as usize]), get_knight_attacks(s));
        assert_eq!(Bitboard(kg[s as usize]), get_king_attacks(s));
    }
    assert_eq!(count(Bitboard(kn[63])), 2);
    assert_eq!(count(Bitboard(kg[7])), 3);
}

#[test]
fn rays_stop_at_the_first_blocker() {
    // rook on a1, pieces on a4 and d1
    let occ = Bitboard((1 << 24) | (1 << 3));
    let r = get_rook_attacks(0, occ);
    assert_eq!(r, Bitboard((1 << 8) | (1 << 16) | (1 << 24) | (1 << 1) | (1 << 2) | (1 << 3)));
    // an unobstructed ray would also reach a5..a8 and e1..h1
    assert!(!r.is_set(32));
    assert!(!r.is_set(4));
    // bishop on c1 with a piece on e3
    let b = get_bishop_attacks(2, Bitboard(1 << 20));
    assert_eq!(b, Bitboard((1 << 9) | (1 << 16) | (1 << 11) | (1 << 20)));
    assert_eq!(count(get_rook_attacks(27, Bitboard::empty())), 14);
    assert_eq!(count(get_bishop_attacks(0, Bitboard::empty())), 7);
}
