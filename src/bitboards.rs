//! Sets of board squares held in one 64-bit word.
use vstd::prelude::*;

verus! {

use vstd::std_specs::bits::{u64_trailing_zeros, axiom_u64_trailing_zeros};

/// Whether bit `i` of `x` is set.
pub open spec fn bit(x: u64, i: u64) -> bool {
    (x >> i) & 1u64 == 1u64
}

/// Whether square `i` is a member of the set held in `x`.
pub open spec fn is_member(x: u64, i: int) -> bool {
    0 <= i < 64 && bit(x, i as u64)
}

/// The squares (0 to 63) whose bits are set in `x`.
pub open spec fn squares_of(x: u64) -> Set<int> {
    Set::new(|i: int| is_member(x, i))
}

/// Every square.
pub const ALL_SQUARES: u64 = 0xffffffffffffffff;

/// Every square but those of the a-file.
pub const NOT_A_FILE: u64 = 0xfefefefefefefefe;

/// Every square but those of the h-file.
pub const NOT_H_FILE: u64 = 0x7f7f7f7f7f7f7f7f;

/// A set of squares: bit `i` is set when square `i` is a member.
#[derive(Clone, Copy, Debug, PartialEq, Eq, Structural)]
pub struct Bitboard(pub u64);

impl View for Bitboard {
    type V = Set<int>;

    open spec fn view(&self) -> Set<int> {
        squares_of(self.0)
    }
}

proof fn lemma_bits(a: u64, b: u64, i: u64)
    by (bit_vector)
    requires
        i < 64,
    ensures
        bit(a & b, i) == (bit(a, i) && bit(b, i)),
        bit(a | b, i) == (bit(a, i) || bit(b, i)),
        bit(a ^ b, i) == (bit(a, i) != bit(b, i)),
        bit(!a, i) == !bit(a, i),
        !bit(0u64, i),
        bit(1u64 << i, i),
        forall|j: u64| j < 64 && j != i ==> !bit(#[trigger] (1u64 << i), j),
{
}

/// The set operations that the bitwise operators on words carry out.
pub proof fn lemma_set_ops(a: u64, b: u64)
    ensures
        squares_of(a & b) == squares_of(a).intersect(squares_of(b)),
        squares_of(a | b) == squares_of(a).union(squares_of(b)),
        squares_of(a ^ b) == squares_of(a).difference(squares_of(b)).union(
            squares_of(b).difference(squares_of(a)),
        ),
        squares_of(!a) == Set::new(|i: int| 0 <= i < 64).difference(squares_of(a)),
        squares_of(0u64) == Set::<int>::empty(),
{
    assert forall|i: int| 0 <= i < 64 implies (is_member(a & b, i) == (is_member(a, i) && is_member(b, i))
        && is_member(a | b, i) == (is_member(a, i) || is_member(b, i))
        && is_member(a ^ b, i) == (is_member(a, i) != is_member(b, i))
        && is_member(!a, i) == !is_member(a, i)
        && !is_member(0u64, i)) by {
        lemma_bits(a, b, i as u64);
    }
    assert(squares_of(a & b) =~= squares_of(a).intersect(squares_of(b)));
    assert(squares_of(a | b) =~= squares_of(a).union(squares_of(b)));
    assert(squares_of(a ^ b) =~= squares_of(a).difference(squares_of(b)).union(
        squares_of(b).difference(squares_of(a)),
    ));
    assert(squares_of(!a) =~= Set::new(|i: int| 0 <= i < 64).difference(squares_of(a)));
    assert(squares_of(0u64) =~= Set::<int>::empty());
}

/// The one-square set `1 << s`.
pub proof fn lemma_single(s: u64)
    requires
        s < 64,
    ensures
        squares_of(1u64 << s) == set![s as int],
{
    assert forall|i: int| 0 <= i < 64 implies is_member(1u64 << s, i) == (i == s) by {
        lemma_bits(0, 0, s);
        if i != s {
            assert(!bit(1u64 << s, i as u64));
        }
    }
    assert(squares_of(1u64 << s) =~= set![s as int]);
}

/// `i` is the smallest member of `s`.
pub open spec fn is_lowest(s: Set<int>, i: int) -> bool {
    &&& s.contains(i)
    &&& forall|j: int| s.contains(j) ==> i <= j
}

proof fn lemma_lowest_bits(x: u64, t: u64, i: u64)
    by (bit_vector)
    requires
        t < 64,
        i < 64,
        (x >> t) & 1u64 == 1u64,
        x << ((64 - t) as u64) == 0,
    ensures
        bit(x, i) ==> t <= i,
        bit(x & ((x - 1) as u64), i) == (bit(x, i) && i != t),
        bit(x & !((x - 1) as u64), i) == (i == t),
{
}

/// What the lowest set bit of a non-empty word is, and what clearing it leaves.
pub proof fn lemma_lowest(x: u64)
    requires
        x != 0,
    ensures
        u64_trailing_zeros(x) < 64,
        is_lowest(squares_of(x), u64_trailing_zeros(x) as int),
        squares_of(x & ((x - 1) as u64)) == squares_of(x).remove(u64_trailing_zeros(x) as int),
        squares_of(x & !((x - 1) as u64)) == set![u64_trailing_zeros(x) as int],
{
    axiom_u64_trailing_zeros(x);
    let t = u64_trailing_zeros(x) as u64;
    assert forall|i: int| 0 <= i < 64 && #[trigger] is_member(x, i) implies t <= i by {
        lemma_lowest_bits(x, t, i as u64);
    }
    assert forall|i: int| 0 <= i < 64 implies #[trigger] is_member(x & ((x - 1) as u64), i) == (
    is_member(x, i) && i != t) by {
        lemma_lowest_bits(x, t, i as u64);
    }
    assert forall|i: int| 0 <= i < 64 implies #[trigger] is_member(x & !((x - 1) as u64), i) == (i
        == t) by {
        lemma_lowest_bits(x, t, i as u64);
    }
    assert(squares_of(x & ((x - 1) as u64)) =~= squares_of(x).remove(t as int));
    assert(is_member(x & !((x - 1) as u64), t as int));
    assert(squares_of(x & !((x - 1) as u64)) =~= set![t as int]);
}

/// A word is zero exactly when its set of squares is empty.
pub proof fn lemma_empty(x: u64)
    ensures
        squares_of(x).is_empty() <==> x == 0,
{
    lemma_set_ops(0, 0);
    if x != 0 {
        lemma_lowest(x);
    }
}

/// Every set of squares is finite, with at most 64 members.
pub proof fn lemma_squares_finite(x: u64)
    ensures
        squares_of(x).finite(),
        squares_of(x).len() <= 64,
{
    vstd::set_lib::lemma_int_range(0, 64);
    vstd::set_lib::lemma_len_subset(squares_of(x), vstd::set_lib::set_int_range(0, 64));
}

/// The file (column, 0 = a) of square `s`.
pub open spec fn file_of(s: int) -> int {
    s % 8
}

/// The rank (row, 0 = first) of square `s`.
pub open spec fn rank_of(s: int) -> int {
    s / 8
}

/// The eight compass steps, as the change of square index: east 1, west -1,
/// north 8, south -8, north-east 9, north-west 7, south-east -7, south-west -9.
pub open spec fn is_direction(d: int) -> bool {
    d == 1 || d == -1 || d == 8 || d == -8 || d == 9 || d == 7 || d == -7 || d == -9
}

/// The change of file made by one step in direction `d`.
pub open spec fn file_delta(d: int) -> int {
    if d == 1 || d == 9 || d == -7 {
        1
    } else if d == -1 || d == -9 || d == 7 {
        -1
    } else {
        0
    }
}

/// The change of rank made by one step in direction `d`.
pub open spec fn rank_delta(d: int) -> int {
    if d >= 7 {
        1
    } else if d <= -7 {
        -1
    } else {
        0
    }
}

/// One step from square `s` in direction `d` lands on the board, on square `s + d`.
pub open spec fn can_step(s: int, d: int) -> bool {
    &&& 0 <= s < 64
    &&& 0 <= file_of(s) + file_delta(d) < 8
    &&& 0 <= rank_of(s) + rank_delta(d) < 8
}

/// Each member of `a` moved one step in direction `d`; members that would
/// leave the board (or wrap round to the other edge) are dropped.
pub open spec fn shifted(a: Set<int>, d: int) -> Set<int> {
    Set::new(|t: int| a.contains(t - d) && can_step(t - d, d))
}

proof fn lemma_shift_bits(x: u64, t: u64)
    by (bit_vector)
    requires
        t < 64,
    ensures
        bit((x & 0x7f7f7f7f7f7f7f7f) << 1u64, t) == (t >= 1 && bit(x, (t - 1) as u64) && (t - 1)
            % 8 != 7),
        bit((x & 0x7f7f7f7f7f7f7f7f) << 9u64, t) == (t >= 9 && bit(x, (t - 9) as u64) && (t - 9)
            % 8 != 7),
        bit((x & 0xfefefefefefefefe) << 7u64, t) == (t >= 7 && bit(x, (t - 7) as u64) && (t - 7)
            % 8 != 0),
        bit((x & 0xffffffffffffffff) << 8u64, t) == (t >= 8 && bit(x, (t - 8) as u64)),
        bit((x & 0xfefefefefefefefe) >> 1u64, t) == (t + 1 < 64 && bit(x, (t + 1) as u64) && (t
            + 1) % 8 != 0),
        bit((x & 0xfefefefefefefefe) >> 9u64, t) == (t + 9 < 64 && bit(x, (t + 9) as u64) && (t
            + 9) % 8 != 0),
        bit((x & 0x7f7f7f7f7f7f7f7f) >> 7u64, t) == (t + 7 < 64 && bit(x, (t + 7) as u64) && (t
            + 7) % 8 != 7),
        bit((x & 0xffffffffffffffff) >> 8u64, t) == (t + 8 < 64 && bit(x, (t + 8) as u64)),
{
}

/// A step never wraps round an edge: the square reached lies on the file next
/// to (or, for a north or south step, on) the file it came from, and on the
/// rank that the direction names.
pub proof fn lemma_step_lands(s: int, d: int)
    requires
        is_direction(d),
        can_step(s, d),
    ensures
        0 <= s + d < 64,
        file_of(s + d) == file_of(s) + file_delta(d),
        rank_of(s + d) == rank_of(s) + rank_delta(d),
{
}

/// An eastward shift never puts a member on the a-file, whatever the set.
pub proof fn lemma_east_shift_misses_a_file(a: Set<int>)
    ensures
        forall|t: int| #[trigger] shifted(a, 1).contains(t) ==> file_of(t) != 0 && 0 <= t < 64,
{
    assert forall|t: int| #[trigger] shifted(a, 1).contains(t) implies file_of(t) != 0 && 0 <= t
        < 64 by {
        lemma_step_lands(t - 1, 1);
    }
}

/// Membership after adding a square, and after removing it again.
pub proof fn lemma_set_then_clear(b: Bitboard, s: u8)
    requires
        s <= 63,
    ensures
        b@.insert(s as int).contains(s as int),
        !b@.insert(s as int).remove(s as int).contains(s as int),
{
}

impl Bitboard {
    pub fn empty() -> (r: Bitboard)
        ensures
            r@ == Set::<int>::empty(),
    {
        proof {
            lemma_set_ops(0, 0);
        }
        Bitboard(0)
    }

    /// The set that holds `sq` alone.
    pub fn square(sq: u8) -> (r: Bitboard)
        requires
            sq <= 63,
        ensures
            r@ == set![sq as int],
    {
        proof {
            lemma_single(sq as u64);
        }
        Bitboard(1u64 << sq)
    }

    /// Adds square `bit` to the set.
    pub fn set_bit(&mut self, bit: u8)
        requires
            bit <= 63,
        ensures
            final(self)@ == old(self)@.insert(bit as int),
    {
        proof {
            lemma_single(bit as u64);
            lemma_set_ops(self.0, 1u64 << bit);
            assert(old(self)@.insert(bit as int) =~= old(self)@.union(set![bit as int]));
        }
        self.0 = self.0 | (1u64 << bit);
    }

    /// Removes square `bit` from the set.
    pub fn clear_bit(&mut self, bit: u8)
        requires
            bit <= 63,
        ensures
            final(self)@ == old(self)@.remove(bit as int),
    {
        proof {
            lemma_single(bit as u64);
            lemma_set_ops(self.0, !(1u64 << bit));
            lemma_set_ops(1u64 << bit, 0);
            assert(old(self)@.remove(bit as int) =~= old(self)@.intersect(
                Set::new(|i: int| 0 <= i < 64).difference(set![bit as int]),
            ));
        }
        self.0 = self.0 & !(1u64 << bit);
    }

    /// Whether square `bit` is a member; false for any `bit` past 63.
    pub fn is_set(&self, bit: u8) -> (r: bool)
        ensures
            r == self@.contains(bit as int),
    {
        if bit <= 63 {
            proof {
                lemma_single(bit as u64);
                lemma_set_ops(self.0, 1u64 << bit);
                lemma_empty(self.0 & (1u64 << bit));
                assert(self@.contains(bit as int) ==> squares_of(self.0 & (1u64 << bit)).contains(
                    bit as int,
                ));
            }
            self.0 & (1u64 << bit) != 0
        } else {
            false
        }
    }

    /// The set that holds the lowest member alone (empty for the empty set).
    pub fn blsi(&self) -> (r: Bitboard)
        ensures
            self@.is_empty() ==> r@.is_empty(),
            !self@.is_empty() ==> exists|i: int| is_lowest(self@, i) && r@ == set![i],
    {
        if self.0 == 0 {
            proof {
                lemma_set_ops(0, 0);
            }
            Bitboard(0)
        } else {
            proof {
                lemma_lowest(self.0);
            }
            Bitboard(self.0 & !(self.0 - 1))
        }
    }

    /// Returns the set of the lowest member alone, and removes that member.
    pub fn popblsi(&mut self) -> (r: Bitboard)
        requires
            !old(self)@.is_empty(),
        ensures
            exists|i: int| is_lowest(old(self)@, i) && r@ == set![i] && final(self)@ == old(self)@.remove(i),
    {
        proof {
            lemma_set_ops(0, 0);
            lemma_lowest(self.0);
        }
        let blsi = self.blsi();
        self.0 = self.0 & (self.0 - 1);
        blsi
    }

    /// The index of the lowest member, or 64 when the set is empty.
    pub fn lsb(&self) -> (r: u32)
        ensures
            self@.is_empty() ==> r == 64,
            !self@.is_empty() ==> is_lowest(self@, r as int),
    {
        proof {
            lemma_set_ops(0, 0);
            axiom_u64_trailing_zeros(self.0);
            if self.0 != 0 {
                lemma_lowest(self.0);
            }
        }
        self.0.trailing_zeros()
    }

    /// Returns the index of the lowest member and removes it; the set shrinks by one.
    pub fn poplsb(&mut self) -> (r: u32)
        requires
            !old(self)@.is_empty(),
        ensures
            r < 64,
            is_lowest(old(self)@, r as int),
            final(self)@ == old(self)@.remove(r as int),
            final(self)@.len() == old(self)@.len() - 1,
    {
        proof {
            lemma_set_ops(0, 0);
            lemma_lowest(self.0);
            lemma_squares_finite(self.0);
        }
        let lsb = self.lsb();
        self.0 = self.0 & (self.0 - 1);
        lsb
    }

    /// Whether the set has no member.
    pub fn is_empty(&self) -> (r: bool)
        ensures
            r == self@.is_empty(),
    {
        proof {
            lemma_empty(self.0);
        }
        self.0 == 0
    }

    /// Adds the square on rank `r` and file `f`.
    pub fn set_sq(&mut self, r: u8, f: u8)
        requires
            r < 8,
            f < 8,
        ensures
            final(self)@ == old(self)@.insert(8 * r + f),
    {
        self.set_bit(sq(r, f));
    }

    /// Walks the members from the lowest up, consuming a copy of the set.
    pub fn lsb_iter(self) -> (r: LsbIter)
        ensures
            r@ == self@,
    {
        LsbIter { bb: self }
    }

    /// Moves every member one step in direction `shift` (see `is_direction`).
    /// Before a step with an east or west part, the file that would wrap round
    /// to the other edge is cleared, so no member ever reappears on the far side.
    pub fn shift1(self, shift: i8) -> (r: Bitboard)
        requires
            is_direction(shift as int),
        ensures
            r@ == shifted(self@, shift as int),
    {
        let mask: u64 = if shift == 8 || shift == -8 {
            ALL_SQUARES
        } else if shift == 1 || shift == 9 || shift == -7 {
            NOT_H_FILE
        } else {
            NOT_A_FILE
        };
        let r = if shift < 0 {
            let n: u64 = (-shift) as u64;
            Bitboard((self.0 & mask) >> n)
        } else {
            let n: u64 = shift as u64;
            Bitboard((self.0 & mask) << n)
        };
        proof {
            let d = shift as int;
            assert forall|t: int| #[trigger] r@.contains(t) == (self@.contains(t - d) && can_step(t - d, d)) by {
                if 0 <= t < 64 {
                    lemma_shift_bits(self.0, t as u64);
                }
            }
            assert(r@ =~= shifted(self@, d));
        }
        r
    }
}

/// Intersection.
impl std::ops::BitAnd for Bitboard {
    type Output = Bitboard;

    fn bitand(self, rhs: Bitboard) -> (r: Bitboard) {
        Bitboard(self.0 & rhs.0)
    }
}

impl vstd::std_specs::ops::BitAndSpecImpl for Bitboard {
    open spec fn obeys_bitand_spec() -> bool {
        true
    }

    open spec fn bitand_req(self, rhs: Bitboard) -> bool {
        true
    }

    open spec fn bitand_spec(self, rhs: Bitboard) -> Bitboard {
        Bitboard(self.0 & rhs.0)
    }
}

impl std::ops::BitAnd<u64> for Bitboard {
    type Output = Bitboard;

    fn bitand(self, rhs: u64) -> (r: Bitboard) {
        Bitboard(self.0 & rhs)
    }
}

impl vstd::std_specs::ops::BitAndSpecImpl<u64> for Bitboard {
    open spec fn obeys_bitand_spec() -> bool {
        true
    }

    open spec fn bitand_req(self, rhs: u64) -> bool {
        true
    }

    open spec fn bitand_spec(self, rhs: u64) -> Bitboard {
        Bitboard(self.0 & rhs)
    }
}

/// Union.
impl std::ops::BitOr for Bitboard {
    type Output = Bitboard;

    fn bitor(self, rhs: Bitboard) -> (r: Bitboard) {
        Bitboard(self.0 | rhs.0)
    }
}

impl vstd::std_specs::ops::BitOrSpecImpl for Bitboard {
    open spec fn obeys_bitor_spec() -> bool {
        true
    }

    open spec fn bitor_req(self, rhs: Bitboard) -> bool {
        true
    }

    open spec fn bitor_spec(self, rhs: Bitboard) -> Bitboard {
        Bitboard(self.0 | rhs.0)
    }
}

impl std::ops::BitOr<u64> for Bitboard {
    type Output = Bitboard;

    fn bitor(self, rhs: u64) -> (r: Bitboard) {
        Bitboard(self.0 | rhs)
    }
}

impl vstd::std_specs::ops::BitOrSpecImpl<u64> for Bitboard {
    open spec fn obeys_bitor_spec() -> bool {
        true
    }

    open spec fn bitor_req(self, rhs: u64) -> bool {
        true
    }

    open spec fn bitor_spec(self, rhs: u64) -> Bitboard {
        Bitboard(self.0 | rhs)
    }
}

/// Symmetric difference.
impl std::ops::BitXor for Bitboard {
    type Output = Bitboard;

    fn bitxor(self, rhs: Bitboard) -> (r: Bitboard) {
        Bitboard(self.0 ^ rhs.0)
    }
}

impl vstd::std_specs::ops::BitXorSpecImpl for Bitboard {
    open spec fn obeys_bitxor_spec() -> bool {
        true
    }

    open spec fn bitxor_req(self, rhs: Bitboard) -> bool {
        true
    }

    open spec fn bitxor_spec(self, rhs: Bitboard) -> Bitboard {
        Bitboard(self.0 ^ rhs.0)
    }
}

impl std::ops::BitXor<u64> for Bitboard {
    type Output = Bitboard;

    fn bitxor(self, rhs: u64) -> (r: Bitboard) {
        Bitboard(self.0 ^ rhs)
    }
}

impl vstd::std_specs::ops::BitXorSpecImpl<u64> for Bitboard {
    open spec fn obeys_bitxor_spec() -> bool {
        true
    }

    open spec fn bitxor_req(self, rhs: u64) -> bool {
        true
    }

    open spec fn bitxor_spec(self, rhs: u64) -> Bitboard {
        Bitboard(self.0 ^ rhs)
    }
}

/// Complement within the 64 squares.
impl std::ops::Not for Bitboard {
    type Output = Bitboard;

    fn not(self) -> (r: Bitboard) {
        Bitboard(!self.0)
    }
}

impl vstd::std_specs::ops::NotSpecImpl for Bitboard {
    open spec fn obeys_not_spec() -> bool {
        true
    }

    open spec fn not_req(self) -> bool {
        true
    }

    open spec fn not_spec(self) -> Bitboard {
        Bitboard(!self.0)
    }
}

impl From<u64> for Bitboard {
    fn from(b: u64) -> (r: Bitboard) {
        Bitboard(b)
    }
}

impl vstd::std_specs::convert::FromSpecImpl<u64> for Bitboard {
    open spec fn obeys_from_spec() -> bool {
        true
    }

    open spec fn from_spec(b: u64) -> Bitboard {
        Bitboard(b)
    }
}

/// Moves every bit up by a count below 64.
impl std::ops::Shl<Bitboard> for Bitboard {
    type Output = Bitboard;

    fn shl(self, rhs: Bitboard) -> (r: Bitboard) {
        Bitboard(self.0 << rhs.0)
    }
}

impl vstd::std_specs::ops::ShlSpecImpl<Bitboard> for Bitboard {
    open spec fn obeys_shl_spec() -> bool {
        true
    }

    open spec fn shl_req(self, rhs: Bitboard) -> bool {
        rhs.0 < 64
    }

    open spec fn shl_spec(self, rhs: Bitboard) -> Bitboard {
        Bitboard(self.0 << rhs.0)
    }
}

impl std::ops::Shl<u64> for Bitboard {
    type Output = Bitboard;

    fn shl(self, rhs: u64) -> (r: Bitboard) {
        Bitboard(self.0 << rhs)
    }
}

impl vstd::std_specs::ops::ShlSpecImpl<u64> for Bitboard {
    open spec fn obeys_shl_spec() -> bool {
        true
    }

    open spec fn shl_req(self, rhs: u64) -> bool {
        rhs < 64
    }

    open spec fn shl_spec(self, rhs: u64) -> Bitboard {
        Bitboard(self.0 << rhs)
    }
}

/// Moves every bit down by a count below 64.
impl std::ops::Shr<Bitboard> for Bitboard {
    type Output = Bitboard;

    fn shr(self, rhs: Bitboard) -> (r: Bitboard) {
        Bitboard(self.0 >> rhs.0)
    }
}

impl vstd::std_specs::ops::ShrSpecImpl<Bitboard> for Bitboard {
    open spec fn obeys_shr_spec() -> bool {
        true
    }

    open spec fn shr_req(self, rhs: Bitboard) -> bool {
        rhs.0 < 64
    }

    open spec fn shr_spec(self, rhs: Bitboard) -> Bitboard {
        Bitboard(self.0 >> rhs.0)
    }
}

impl std::ops::Shr<u64> for Bitboard {
    type Output = Bitboard;

    fn shr(self, rhs: u64) -> (r: Bitboard) {
        Bitboard(self.0 >> rhs)
    }
}

impl vstd::std_specs::ops::ShrSpecImpl<u64> for Bitboard {
    open spec fn obeys_shr_spec() -> bool {
        true
    }

    open spec fn shr_req(self, rhs: u64) -> bool {
        rhs < 64
    }

    open spec fn shr_spec(self, rhs: u64) -> Bitboard {
        Bitboard(self.0 >> rhs)
    }
}

/// The members of a set, lowest first; each call of `next` hands one out and
/// drops it. Once empty it stays empty.
pub struct LsbIter {
    bb: Bitboard,
}

impl View for LsbIter {
    type V = Set<int>;

    /// The members not yet handed out.
    closed spec fn view(&self) -> Set<int> {
        self.bb@
    }
}

impl LsbIter {
    /// The lowest member not yet handed out, or `None` when none is left.
    pub fn next(&mut self) -> (r: Option<u32>)
        ensures
            old(self)@.is_empty() ==> r is None && final(self)@ == old(self)@,
            !old(self)@.is_empty() ==> (r matches Some(i) && is_lowest(old(self)@, i as int)
                && final(self)@ == old(self)@.remove(i as int)),
    {
        if !self.bb.is_empty() {
            Some(self.bb.poplsb())
        } else {
            None
        }
    }
}

/// The index of the square on rank `r` and file `f`.
pub fn sq(r: u8, f: u8) -> (s: u8)
    requires
        r * 8 + f <= 255,
    ensures
        s == 8 * r + f,
{
    r * 8 + f
}

} // verus!
