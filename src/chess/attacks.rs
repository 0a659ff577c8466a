//! Attack sets: knight and king by table, bishop, rook and queen by walking rays.
use vstd::prelude::*;
use crate::bitboards::{
    Bitboard, bit, squares_of, file_of, rank_of, is_direction, file_delta, rank_delta, can_step,
    lemma_step_lands, lemma_set_ops,
};

verus! {

/// The difference of files from `s` to `t`.
pub open spec fn file_diff(s: int, t: int) -> int {
    file_of(t) - file_of(s)
}

/// The difference of ranks from `s` to `t`.
pub open spec fn rank_diff(s: int, t: int) -> int {
    rank_of(t) - rank_of(s)
}

/// A knight on `s` attacks `t`: two files and one rank away, or one file and two ranks.
pub open spec fn knight_jump(s: int, t: int) -> bool {
    let df = file_diff(s, t);
    let dr = rank_diff(s, t);
    (df == 1 || df == -1) && (dr == 2 || dr == -2) || (df == 2 || df == -2) && (dr == 1 || dr
        == -1)
}

/// A king on `s` attacks `t`: a different square at most one file and one rank away.
pub open spec fn king_step(s: int, t: int) -> bool {
    let df = file_diff(s, t);
    let dr = rank_diff(s, t);
    t != s && -1 <= df <= 1 && -1 <= dr <= 1
}

/// The squares a knight on `s` attacks.
pub open spec fn knight_targets(s: int) -> Set<int> {
    Set::new(|t: int| 0 <= t < 64 && knight_jump(s, t))
}

/// The squares a king on `s` attacks.
pub open spec fn king_targets(s: int) -> Set<int> {
    Set::new(|t: int| 0 <= t < 64 && king_step(s, t))
}

proof fn lemma_knight_bits(s: u64, t: u64)
    by (bit_vector)
    requires
        s < 64,
        t < 64,
    ensures
        bit(
            ((1u64 << s) & !0x0101010101010101u64) >> 17u64 | ((1u64 << s)
                & !0x8080808080808080u64) >> 15u64 | ((1u64 << s) & !0x0303030303030303u64)
                >> 10u64 | ((1u64 << s) & !0xC0C0C0C0C0C0C0C0u64) >> 6u64 | ((1u64 << s)
                & !0x0303030303030303u64) << 6u64 | ((1u64 << s) & !0xC0C0C0C0C0C0C0C0u64)
                << 10u64 | ((1u64 << s) & !0x0101010101010101u64) << 15u64 | ((1u64 << s)
                & !0x8080808080808080u64) << 17u64,
            t,
        ) == (t + 17 == s && s % 8 != 0 || t + 15 == s && s % 8 != 7 || t + 10 == s && s % 8
            >= 2 || t + 6 == s && s % 8 <= 5 || t == s + 6 && s % 8 >= 2 || t == s + 10 && s % 8
            <= 5 || t == s + 15 && s % 8 != 0 || t == s + 17 && s % 8 != 7),
{
}

proof fn lemma_king_bits(s: u64, t: u64)
    by (bit_vector)
    requires
        s < 64,
        t < 64,
    ensures
        bit(
            ((1u64 << s) & !0x0101010101010101u64) >> 9u64 | ((1u64 << s) & !0x8080808080808080u64)
                >> 7u64 | ((1u64 << s) & !0x0101010101010101u64) >> 1u64 | ((1u64 << s)
                & !0x8080808080808080u64) << 1u64 | ((1u64 << s) & !0x0101010101010101u64)
                << 7u64 | ((1u64 << s) & !0x8080808080808080u64) << 9u64 | (1u64 << s) >> 8u64 | (
            1u64 << s) << 8u64,
            t,
        ) == (t + 9 == s && s % 8 != 0 || t + 7 == s && s % 8 != 7 || t + 1 == s && s % 8 != 0
            || t == s + 1 && s % 8 != 7 || t == s + 7 && s % 8 != 0 || t == s + 9 && s % 8 != 7
            || t + 8 == s || t == s + 8),
{
}

/// The knight attack set of square `sq`, as a word.
fn knight_attack_bits(sq: u8) -> (r: u64)
    requires
        sq < 64,
    ensures
        squares_of(r) == knight_targets(sq as int),
{
    let attack: u64 = 1u64 << sq;
    let r = (attack & !0x0101010101010101u64) >> 17u64 | (attack & !0x8080808080808080u64)
        >> 15u64 | (attack & !0x0303030303030303u64) >> 10u64 | (attack & !0xC0C0C0C0C0C0C0C0u64)
        >> 6u64 | (attack & !0x0303030303030303u64) << 6u64 | (attack & !0xC0C0C0C0C0C0C0C0u64)
        << 10u64 | (attack & !0x0101010101010101u64) << 15u64 | (attack & !0x8080808080808080u64)
        << 17u64;
    proof {
        let s = sq as int;
        assert forall|t: int| #[trigger] squares_of(r).contains(t) == knight_targets(s).contains(
            t,
        ) by {
            if 0 <= t < 64 {
                lemma_knight_bits(sq as u64, t as u64);
            }
        }
        assert(squares_of(r) =~= knight_targets(s));
    }
    r
}

/// The king attack set of square `sq`, as a word.
fn king_attack_bits(sq: u8) -> (r: u64)
    requires
        sq < 64,
    ensures
        squares_of(r) == king_targets(sq as int),
{
    let attack: u64 = 1u64 << sq;
    let r = (attack & !0x0101010101010101u64) >> 9u64 | (attack & !0x8080808080808080u64) >> 7u64
        | (attack & !0x0101010101010101u64) >> 1u64 | (attack & !0x8080808080808080u64) << 1u64
        | (attack & !0x0101010101010101u64) << 7u64 | (attack & !0x8080808080808080u64) << 9u64
        | attack >> 8u64 | attack << 8u64;
    proof {
        let s = sq as int;
        assert forall|t: int| #[trigger] squares_of(r).contains(t) == king_targets(s).contains(t) by {
            if 0 <= t < 64 {
                lemma_king_bits(sq as u64, t as u64);
            }
        }
        assert(squares_of(r) =~= king_targets(s));
    }
    r
}

/// Knight attack sets of every square, entry `i` for square `i`.
pub fn gen_knight_attack_table() -> (r: [u64; 64])
    ensures
        forall|i: int| 0 <= i < 64 ==> squares_of(#[trigger] r[i]) == knight_targets(i),
{
    let mut attacks = [0u64; 64];
    let mut sq: usize = 0;
    while sq < 64
        invariant
            sq <= 64,
            forall|i: int| 0 <= i < sq ==> squares_of(#[trigger] attacks[i]) == knight_targets(i),
        decreases 64 - sq,
    {
        attacks[sq] = knight_attack_bits(sq as u8);
        sq += 1;
    }
    attacks
}

/// King attack sets of every square, entry `i` for square `i`.
pub fn gen_king_attack_table() -> (r: [u64; 64])
    ensures
        forall|i: int| 0 <= i < 64 ==> squares_of(#[trigger] r[i]) == king_targets(i),
{
    let mut attacks = [0u64; 64];
    let mut sq: usize = 0;
    while sq < 64
        invariant
            sq <= 64,
            forall|i: int| 0 <= i < sq ==> squares_of(#[trigger] attacks[i]) == king_targets(i),
        decreases 64 - sq,
    {
        attacks[sq] = king_attack_bits(sq as u8);
        sq += 1;
    }
    attacks
}

/// The squares a knight on `sq` attacks.
pub fn get_knight_attacks(sq: u8) -> (r: Bitboard)
    requires
        sq < 64,
    ensures
        r@ == knight_targets(sq as int),
{
    Bitboard(knight_attack_bits(sq))
}

/// The squares a king on `sq` attacks.
pub fn get_king_attacks(sq: u8) -> (r: Bitboard)
    requires
        sq < 64,
    ensures
        r@ == king_targets(sq as int),
{
    Bitboard(king_attack_bits(sq))
}

/// `t` lies on the ray that leaves `s` in direction `d` (not counting `s`).
pub open spec fn on_ray(s: int, t: int, d: int) -> bool {
    let df = file_diff(s, t);
    let dr = rank_diff(s, t);
    &&& 0 <= s < 64
    &&& 0 <= t < 64
    &&& if d == 1 {
        dr == 0 && df > 0
    } else if d == -1 {
        dr == 0 && df < 0
    } else if d == 8 {
        df == 0 && dr > 0
    } else if d == -8 {
        df == 0 && dr < 0
    } else if d == 9 {
        df == dr && dr > 0
    } else if d == -9 {
        df == dr && dr < 0
    } else if d == 7 {
        df == -dr && dr > 0
    } else {
        df == -dr && dr < 0
    }
}

/// No square strictly between `s` and `t` on the ray in direction `d` is in `occ`.
pub open spec fn ray_clear(s: int, t: int, d: int, occ: Set<int>) -> bool {
    forall|u: int| on_ray(s, u, d) && on_ray(u, t, d) ==> !occ.contains(u)
}

/// What a slider on `s` attacks in direction `d`: each square of the ray up
/// to and including the first one in `occ`.
pub open spec fn ray_attacks(s: int, d: int, occ: Set<int>) -> Set<int> {
    Set::new(|t: int| on_ray(s, t, d) && ray_clear(s, t, d, occ))
}

/// What a bishop on `s` attacks, stopping at the first occupied square on each diagonal.
pub open spec fn bishop_targets(s: int, occ: Set<int>) -> Set<int> {
    ray_attacks(s, -9, occ).union(ray_attacks(s, -7, occ)).union(ray_attacks(s, 7, occ)).union(
        ray_attacks(s, 9, occ),
    )
}

/// What a rook on `s` attacks, stopping at the first occupied square on each line.
pub open spec fn rook_targets(s: int, occ: Set<int>) -> Set<int> {
    ray_attacks(s, -8, occ).union(ray_attacks(s, -1, occ)).union(ray_attacks(s, 1, occ)).union(
        ray_attacks(s, 8, occ),
    )
}

/// What a queen on `s` attacks: the bishop's and the rook's squares.
pub open spec fn queen_targets(s: int, occ: Set<int>) -> Set<int> {
    bishop_targets(s, occ).union(rook_targets(s, occ))
}

/// Steps along a ray still left from `c` before the board's edge.
spec fn steps_left(c: int, d: int) -> int {
    if rank_delta(d) == 1 {
        7 - rank_of(c)
    } else if rank_delta(d) == -1 {
        rank_of(c)
    } else if file_delta(d) == 1 {
        7 - file_of(c)
    } else {
        file_of(c)
    }
}

proof fn lemma_square_parts(s: int)
    requires
        0 <= s < 64,
    ensures
        s == 8 * rank_of(s) + file_of(s),
        0 <= file_of(s) < 8,
        0 <= rank_of(s) < 8,
{
}

/// Facts on rays: order along a ray, the next square, and the edge.
proof fn lemma_ray_facts(s: int, c: int, d: int)
    requires
        is_direction(d),
        0 <= s < 64,
        0 <= c < 64,
    ensures
        !on_ray(c, c, d),
        forall|a: int, b: int|
            #[trigger] on_ray(s, a, d) && #[trigger] on_ray(a, b, d) ==> on_ray(s, b, d),
        forall|t: int| on_ray(s, t, d) && on_ray(s, c, d) ==> t == c || on_ray(t, c, d) || #[trigger] on_ray(c, t, d),
        forall|t: int| on_ray(s, t, d) && #[trigger] on_ray(t, c, d) ==> !on_ray(c, t, d),
        can_step(c, d) ==> on_ray(c, c + d, d) && 0 <= steps_left(c + d, d) == steps_left(c, d) - 1,
        can_step(c, d) ==> forall|t: int| #[trigger] on_ray(c, t, d) ==> t == c + d || on_ray(c + d, t, d),
        can_step(c, d) ==> forall|t: int| #[trigger] on_ray(t, c + d, d) ==> t == c || on_ray(t, c, d),
        !can_step(c, d) ==> forall|t: int| !#[trigger] on_ray(c, t, d),
        on_ray(s, c, d) ==> forall|t: int| #[trigger] on_ray(c, t, d) ==> on_ray(s, t, d),
        0 <= steps_left(c, d),
{
    lemma_square_parts(s);
    lemma_square_parts(c);
    assert forall|t: int| 0 <= t < 64 implies t == 8 * rank_of(t) + file_of(t) && 0 <= file_of(t) < 8 && 0 <= rank_of(t) < 8 by {
        lemma_square_parts(t);
    }
    if can_step(c, d) {
        lemma_step_lands(c, d);
    }
}

/// The squares a slider on `sq` attacks along direction `d`, stopping at the
/// first square of `occ`.
fn ray_walk(sq: u8, occ: Bitboard, d: i8) -> (r: Bitboard)
    requires
        sq < 64,
        is_direction(d as int),
    ensures
        r@ == ray_attacks(sq as int, d as int, occ@),
{
    let ghost s = sq as int;
    let ghost dd = d as int;
    let ghost mut c: int = s;
    let mut attack = Bitboard::empty();
    let mut sqbb = Bitboard::square(sq);
    proof {
        lemma_ray_facts(s, s, dd);
        assert(attack@ =~= Set::new(|t: int| on_ray(s, t, dd) && (t == c || on_ray(t, c, dd))));
    }
    while !sqbb.is_empty()
        invariant
            is_direction(dd),
            dd == d,
            0 <= s < 64,
            0 <= c < 64,
            c == s || on_ray(s, c, dd),
            sqbb@ == set![c] || sqbb@.is_empty(),
            sqbb@ == set![c] ==> c == s || !occ@.contains(c),
            sqbb@.is_empty() ==> !can_step(c, dd) || (c != s && occ@.contains(c)),
            ray_clear(s, c, dd, occ@),
            attack@ == Set::new(|t: int| on_ray(s, t, dd) && (t == c || on_ray(t, c, dd))),
        decreases
            if sqbb@.is_empty() { 0 } else { steps_left(c, dd) + 1 },
    {
        proof {
            lemma_ray_facts(s, c, dd);
        }
        let next = sqbb.shift1(d);
        proof {
            lemma_set_ops(attack.0, next.0);
            lemma_set_ops(next.0, !occ.0);
            lemma_set_ops(occ.0, 0);
            if can_step(c, dd) {
                assert(next@ =~= set![c + dd]);
                let c2 = c + dd;
                assert(ray_clear(s, c2, dd, occ@));
                assert(attack@.union(next@) =~= Set::new(|t: int| on_ray(s, t, dd) && (t == c2 || on_ray(t, c2, dd))));
                c = c2;
            } else {
                assert(next@ =~= Set::<int>::empty());
                assert(attack@.union(next@) =~= attack@);
            }
        }
        attack = Bitboard(attack.0 | next.0);
        sqbb = Bitboard(next.0 & !occ.0);
        proof {
            if sqbb@.contains(c) {
                assert(sqbb@ =~= set![c]);
            } else {
                assert(sqbb@ =~= Set::<int>::empty());
            }
        }
    }
    proof {
        lemma_ray_facts(s, c, dd);
        assert(attack@ =~= ray_attacks(s, dd, occ@));
    }
    attack
}

/// The union of the ray attacks of a slider on `sq` along the four directions `dirs`.
pub fn gen_sliding_attack(sq: u8, occ: Bitboard, dirs: [i8; 4]) -> (r: Bitboard)
    requires
        sq < 64,
        forall|i: int| 0 <= i < 4 ==> is_direction(#[trigger] dirs[i] as int),
    ensures
        r@ == ray_attacks(sq as int, dirs[0] as int, occ@).union(
            ray_attacks(sq as int, dirs[1] as int, occ@),
        ).union(ray_attacks(sq as int, dirs[2] as int, occ@)).union(
            ray_attacks(sq as int, dirs[3] as int, occ@),
        ),
{
    let mut attack = Bitboard::empty();
    let mut k: usize = 0;
    while k < 4
        invariant
            k <= 4,
            sq < 64,
            forall|i: int| 0 <= i < 4 ==> is_direction(#[trigger] dirs[i] as int),
            attack@ == Set::new(
                |t: int| exists|i: int| 0 <= i < k && #[trigger] ray_attacks(sq as int, dirs[i] as int, occ@).contains(t),
            ),
        decreases 4 - k,
    {
        let ray = ray_walk(sq, occ, dirs[k]);
        proof {
            lemma_set_ops(attack.0, ray.0);
            assert(attack@.union(ray@) =~= Set::new(
                |t: int| exists|i: int| 0 <= i < k + 1 && #[trigger] ray_attacks(sq as int, dirs[i] as int, occ@).contains(t),
            ));
        }
        attack = Bitboard(attack.0 | ray.0);
        k += 1;
    }
    assert(attack@ =~= ray_attacks(sq as int, dirs[0] as int, occ@).union(
        ray_attacks(sq as int, dirs[1] as int, occ@),
    ).union(ray_attacks(sq as int, dirs[2] as int, occ@)).union(
        ray_attacks(sq as int, dirs[3] as int, occ@),
    ));
    attack
}

/// The squares a bishop on `sq` attacks; each diagonal stops at the first
/// square of `occ`, which is included.
pub fn get_bishop_attacks(sq: u8, occ: Bitboard) -> (r: Bitboard)
    requires
        sq < 64,
    ensures
        r@ == bishop_targets(sq as int, occ@),
{
    gen_sliding_attack(sq, occ, [-9, -7, 7, 9])
}

/// The squares a rook on `sq` attacks; each line stops at the first square of
/// `occ`, which is included.
pub fn get_rook_attacks(sq: u8, occ: Bitboard) -> (r: Bitboard)
    requires
        sq < 64,
    ensures
        r@ == rook_targets(sq as int, occ@),
{
    gen_sliding_attack(sq, occ, [-8, -1, 1, 8])
}

/// The squares a queen on `sq` attacks: the bishop's and the rook's.
pub fn get_queen_attacks(sq: u8, occ: Bitboard) -> (r: Bitboard)
    requires
        sq < 64,
    ensures
        r@ == queen_targets(sq as int, occ@),
{
    let b = get_bishop_attacks(sq, occ);
    let r = get_rook_attacks(sq, occ);
    proof {
        lemma_set_ops(b.0, r.0);
    }
    Bitboard(b.0 | r.0)
}

} // verus!
