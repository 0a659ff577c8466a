use chess_core::bitboards::{sq, Bitboard};

#[test]
fn test_bit_bounds() {
    assert_eq!(Bitboard(0).is_set(68), false);
}

#[test]
fn bit_and() {
    assert_eq!(Bitboard(13) & Bitboard(7), Bitboard(5));
}

#[test]
fn set_then_test_then_clear() {
    for s in 0u8..64 {
        let mut b = Bitboard::empty();
        b.set_bit(s);
        assert!(b.is_set(s));
        b.clear_bit(s);
        assert!(!b.is_set(s));
        assert!(b.is_empty());
    }
}

#[test]
fn poplsb_takes_smallest_and_shrinks() {
    let mut b = Bitboard((1 << 5) | (1 << 17) | (1 << 63));
    assert_eq!(b.lsb(), 5);
    assert_eq!(b.poplsb(), 5);
    assert_eq!(b, Bitboard((1 << 17) | (1 << 63)));
    assert_eq!(b.poplsb(), 17);
    assert_eq!(b.poplsb(), 63);
    assert!(b.is_empty());
}

#[test]
fn lsb_of_empty_is_64() {
    assert_eq!(Bitboard::empty().lsb(), 64);
}

#[test]
fn blsi_isolates_lowest() {
    let b = Bitboard(0b1011000);
    assert_eq!(b.blsi(), Bitboard(0b1000));
    let mut c = b;
    assert_eq!(c.popblsi(), Bitboard(0b1000));
    assert_eq!(c, Bitboard(0b1010000));
    assert_eq!(Bitboard::empty().blsi(), Bitboard::empty());
}

#[test]
fn east_shift_does_not_wrap() {
    let h_file = Bitboard(0x8080808080808080);
    assert!(h_file.shift1(1).is_empty());
    assert!(h_file.shift1(9).is_empty());
    assert!(h_file.shift1(-7).is_empty());
    let full = Bitboard(!0);
    let shifted = full.shift1(1);
    for rank in 0..8u8 {
        assert!(!shifted.is_set(sq(rank, 0)));
        assert!(shifted.is_set(sq(rank, 1)));
    }
}

#[test]
fn shifts_in_each_direction() {
    let e4 = Bitboard::square(28);
    assert_eq!(e4.shift1(8), Bitboard::square(36));
    assert_eq!(e4.shift1(-8), Bitboard::square(20));
    assert_eq!(e4.shift1(1), Bitboard::square(29));
    assert_eq!(e4.shift1(-1), Bitboard::square(27));
    assert_eq!(e4.shift1(9), Bitboard::square(37));
    assert_eq!(e4.shift1(7), Bitboard::square(35));
    assert_eq!(e4.shift1(-7), Bitboard::square(21));
    assert_eq!(e4.shift1(-9), Bitboard::square(19));
    assert!(Bitboard::square(0).shift1(-1).is_empty());
    assert!(Bitboard::square(0).shift1(-8).is_empty());
    assert!(Bitboard::square(63).shift1(8).is_empty());
}

#[test]
fn lsb_iter_ascends() {
    let mut it = Bitboard((1 << 40) | (1 << 2) | (1 << 9)).lsb_iter();
    assert_eq!(it.next(), Some(2));
    assert_eq!(it.next(), Some(9));
    assert_eq!(it.next(), Some(40));
    assert_eq!(it.next(), None);
    assert_eq!(it.next(), None);
}

#[test]
fn set_operators() {
    let a = Bitboard(0b1100);
    let b = Bitboard(0b1010);
    assert_eq!(a | b, Bitboard(0b1110));
    assert_eq!(a ^ b, Bitboard(0b0110));
    assert_eq!(!Bitboard(0), Bitboard(u64::MAX));
    assert_eq!(a << 2u64, Bitboard(0b110000));
    assert_eq!(a >> Bitboard(2), Bitboard(0b11));
    assert_eq!(Bitboard::from(9u64), Bitboard(9));
    let mut c = Bitboard::empty();
    c.set_sq(7, 7);
    assert_eq!(c, Bitboard::square(63));
    assert_eq!(sq(3, 4), 28);
}
