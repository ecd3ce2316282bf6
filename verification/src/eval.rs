//! The terminal evaluator: decides whether a board with no moves remaining
//! is solvable within its action budget, and computes the two summary
//! counters of a solution.
//!
//! The action budget is one action per 4 enemies, rounded up. Each set angle
//! in the merged outer subrings costs one jump action; the remaining inner
//! enemies are greedily paired into adjacent 2-bit hammer groups, each
//! costing one action.

use std::collections::VecDeque;
use vstd::prelude::*;
use vstd::std_specs::bits::{u16_trailing_zeros, u16_trailing_ones, axiom_u16_trailing_zeros,
    axiom_u16_trailing_ones};
use crate::moves::{Ring, RingMovement, ring_inv};
use crate::rotate::{rot12, rotl12, norm12, rotate_right_12};

verus! {

/// The number of set bits of `x` among bit positions below `n`.
pub open spec fn pop_low(x: u16, n: nat) -> u32
    decreases n,
{
    if n == 0 {
        0
    } else {
        (pop_low(x, (n - 1) as nat) + ((x >> ((n - 1) as u16)) & 1)) as u32
    }
}

/// The number of set bits of `x`.
pub open spec fn pop16(x: u16) -> u32 {
    pop_low(x, 16)
}

/// A bit count is bounded by the number of positions counted.
pub proof fn lemma_pop_low_le(x: u16, n: nat)
    ensures
        pop_low(x, n) <= n,
    decreases n,
{
    if n > 0 {
        lemma_pop_low_le(x, (n - 1) as nat);
        let k = (n - 1) as u16;
        assert((x >> k) & 1 <= 1) by (bit_vector);
    }
}

/// The inner mask with the lowest hammer group cleared: the two bits at and
/// above its lowest set bit.
pub open spec fn hammer_clear(x: u16) -> u16
    recommends
        x != 0,
{
    x & !(3u16 << (u16_trailing_zeros(x) as u16))
}

/// Clearing the lowest hammer group strictly shrinks a nonzero mask.
pub proof fn lemma_hammer_clear_lt(x: u16)
    requires
        x != 0,
    ensures
        hammer_clear(x) < x,
{
    axiom_u16_trailing_zeros(x);
    let t = u16_trailing_zeros(x) as u16;
    assert(x & !(3u16 << t) < x) by (bit_vector)
        requires
            t < 16,
            (x >> t) & 1 == 1,
    ;
}

/// How many hammer actions clear the mask `x`: repeatedly remove the lowest
/// set bit together with its immediate next-higher bit.
pub open spec fn hammer_count(x: u16) -> u32
    decreases x,
    via hammer_count_decreases
{
    if x == 0 {
        0
    } else {
        (1 + hammer_count(hammer_clear(x))) as u32
    }
}

#[via_fn]
proof fn hammer_count_decreases(x: u16) {
    if x != 0 {
        lemma_hammer_clear_lt(x);
    }
}

/// The hammer count never exceeds the mask value itself.
pub proof fn lemma_hammer_count_le(x: u16)
    ensures
        hammer_count(x) <= x,
    decreases x,
{
    if x != 0 {
        lemma_hammer_clear_lt(x);
        lemma_hammer_count_le(hammer_clear(x));
    }
}

/// The total number of enemies on the board.
pub open spec fn spec_enemies(b: Seq<u16>) -> u32
    recommends
        ring_inv(b),
{
    (pop16(b[0]) + pop16(b[1]) + pop16(b[2]) + pop16(b[3])) as u32
}

/// The action budget: one action per 4 enemies, rounded up.
pub open spec fn spec_actions(enemies: u32) -> u32 {
    (enemies / 4 + if enemies % 4 != 0 {
        1u32
    } else {
        0u32
    }) as u32
}

/// The merged mask of the two outer subrings, reachable only by jumps.
pub open spec fn spec_outer(b: Seq<u16>) -> u16
    recommends
        ring_inv(b),
{
    b[2] | b[3]
}

/// The merged mask of the two inner subrings, excluding angles already
/// counted as outer.
pub open spec fn spec_inner(b: Seq<u16>) -> u16
    recommends
        ring_inv(b),
{
    (b[0] | b[1]) & !(b[2] | b[3])
}

/// The inner mask rotated right past its trailing run of set bits, so that
/// a contiguous enemy run straddling the angle 0/11 boundary is not counted
/// as two separate hammer groups.
pub open spec fn spec_inner_adjusted(b: Seq<u16>) -> u16
    recommends
        ring_inv(b),
{
    rot12(spec_inner(b), -(u16_trailing_ones(spec_inner(b)) as int))
}

/// The number of jump actions the board needs.
pub open spec fn spec_jump_rows(b: Seq<u16>) -> u32
    recommends
        ring_inv(b),
{
    pop16(spec_outer(b))
}

/// The number of hammer actions the board needs.
pub open spec fn spec_hammers(b: Seq<u16>) -> u32
    recommends
        ring_inv(b),
{
    hammer_count(spec_inner_adjusted(b))
}

/// Whether the board is solvable with no further moves: its jump and hammer
/// actions fit in its action budget.
pub open spec fn solved(b: Seq<u16>) -> bool
    recommends
        ring_inv(b),
{
    spec_jump_rows(b) + spec_hammers(b) <= spec_actions(spec_enemies(b))
}

/// A single bit anywhere in the 12-bit range is cleared by one hammer.
pub proof fn lemma_hammer_single_bit(j: u16)
    requires
        j < 12,
    ensures
        hammer_count(1u16 << j) == 1,
{
    let x = 1u16 << j;
    assert(x != 0) by (bit_vector)
        requires
            j < 12,
            x == 1u16 << j,
    ;
    axiom_u16_trailing_zeros(x);
    let tz = u16_trailing_zeros(x) as u16;
    assert(tz == j) by (bit_vector)
        requires
            j < 12,
            tz < 16,
            ((1u16 << j) >> tz) & 1 == 1,
    ;
    assert((1u16 << j) & !(3u16 << tz) == 0) by (bit_vector)
        requires
            j < 12,
            tz == j,
    ;
    assert(hammer_clear(x) == 0);
    assert(hammer_count(0) == 0);
    assert(hammer_count(x) == 1 + hammer_count(hammer_clear(x)));
}

/// A board whose only enemy is a single bit in one of the two inner
/// subrings needs no jumps and exactly one hammer group, and is accepted:
/// its one enemy grants one action, which the hammer uses.
pub proof fn lemma_single_inner_enemy(b: Seq<u16>, i: u16)
    requires
        ring_inv(b),
        i < 12,
        b[2] == 0,
        b[3] == 0,
        (b[0] == 1u16 << i && b[1] == 0) || (b[0] == 0 && b[1] == 1u16 << i),
    ensures
        spec_jump_rows(b) == 0,
        spec_hammers(b) == 1,
        solved(b),
{
    let s0 = b[0];
    let s1 = b[1];
    let x = 1u16 << i;
    assert(pop_low(x, 16) == 1) by (bit_vector)
        requires
            i < 12,
            x == 1u16 << i,
    ;
    assert(pop_low(0u16, 16) == 0) by (bit_vector);
    assert(spec_enemies(b) == 1);
    assert(spec_actions(1) == 1);
    assert(spec_outer(b) == 0u16 | 0u16);
    assert(0u16 | 0u16 == 0u16) by (bit_vector);
    assert(spec_jump_rows(b) == 0);
    assert((s0 | s1) & !(0u16 | 0u16) == x) by (bit_vector)
        requires
            (s0 == x && s1 == 0) || (s0 == 0 && s1 == x),
    ;
    assert(spec_inner(b) == x);
    axiom_u16_trailing_ones(x);
    let to = u16_trailing_ones(x);
    if i == 0 {
        assert((x >> 0u16) & 1 == 1 && (x >> 1u16) & 1 == 0) by (bit_vector)
            requires
                x == 1u16 << 0u16,
        ;
        assert(to == 1);
        assert(spec_inner_adjusted(b) == rot12(x, -1));
        assert(norm12(-1) == 11);
        assert(rotl12(1u16 << 0u16, 11) == 1u16 << 11u16) by (bit_vector);
        lemma_hammer_single_bit(11);
        assert(spec_hammers(b) == 1);
    } else {
        assert((x >> 0u16) & 1 == 0) by (bit_vector)
            requires
                x == 1u16 << i,
                0 < i < 12,
        ;
        assert(to < 16 ==> (x >> (to as u16)) & 1 == 0);
        assert(x != 0xffffu16) by (bit_vector)
            requires
                x == 1u16 << i,
                i < 12,
        ;
        assert(to == 0);
        lemma_rot12_zero_fact(x, i);
        lemma_hammer_single_bit(i);
        assert(spec_hammers(b) == 1);
    }
}

/// Rotating a single 12-bit-range bit by zero keeps it.
proof fn lemma_rot12_zero_fact(x: u16, i: u16)
    requires
        i < 12,
        x == 1u16 << i,
    ensures
        rot12(x, 0) == x,
{
    assert(1u16 << i < 4096) by (bit_vector)
        requires
            i < 12,
    ;
    crate::rotate::lemma_rot12_zero(x);
}

/// A board whose only enemies fill all 12 angles of one outer subring needs
/// 12 jumps and no hammers, while its 12 enemies grant only 3 actions, so
/// it is not accepted: acceptance would need a budget of at least 12.
pub proof fn lemma_full_outer_subring(b: Seq<u16>)
    requires
        ring_inv(b),
        b[0] == 0,
        b[1] == 0,
        (b[2] == 0xfff && b[3] == 0) || (b[2] == 0 && b[3] == 0xfff),
    ensures
        spec_jump_rows(b) == 12,
        spec_hammers(b) == 0,
        spec_actions(spec_enemies(b)) == 3,
        !solved(b),
{
    let s2 = b[2];
    let s3 = b[3];
    assert(pop_low(0xfffu16, 16) == 12) by (bit_vector);
    assert(pop_low(0u16, 16) == 0) by (bit_vector);
    assert(spec_enemies(b) == 12);
    assert(s2 | s3 == 0xfff) by (bit_vector)
        requires
            (s2 == 0xfff && s3 == 0) || (s2 == 0 && s3 == 0xfff),
    ;
    assert(spec_jump_rows(b) == 12);
    assert((0u16 | 0u16) & !(s2 | s3) == 0) by (bit_vector);
    assert(spec_inner(b) == 0);
    axiom_u16_trailing_ones(0u16);
    assert((0u16 >> 0u16) & 1 == 0) by (bit_vector);
    assert(u16_trailing_ones(0u16) == 0);
    assert(rotl12(0u16, 0) == 0) by (bit_vector);
    assert(spec_inner_adjusted(b) == 0);
    assert(spec_hammers(b) == 0);
    assert(spec_actions(12) == 3);
}

/// A solution: the moves that solve the board (earliest first), the board
/// they produce, and its two action counters.
pub struct Solution {
    /// The move sequence, earliest move first.
    pub moves: VecDeque<RingMovement>,
    /// The board state the moves lead to.
    pub result: Ring,
    /// Jump actions that board needs.
    pub jump_rows: u32,
    /// Hammer actions that board needs.
    pub hammerable_groups: u32,
}

/// Count the set bits of `x`.
pub fn count_bits(x: u16) -> (c: u32)
    ensures
        c == pop16(x),
{
    let mut c: u32 = 0;
    for i in 0..16u16
        invariant
            c == pop_low(x, i as nat),
            c <= i,
    {
        proof {
            assert((x >> i) & 1 <= 1) by (bit_vector);
        }
        c = c + ((x >> i) & 1) as u32;
    }
    c
}

/// Evaluate a terminal board: return a solution with an empty move list and
/// the board's counters when it is solvable within its action budget, and
/// nothing otherwise.
pub fn get_solution(ring: Ring) -> (res: Option<Solution>)
    requires
        ring_inv(ring@),
    ensures
        res is Some <==> solved(ring@),
        res matches Some(s) ==> s.moves@.len() == 0 && s.result@ == ring@ && s.jump_rows
            == spec_jump_rows(ring@) && s.hammerable_groups == spec_hammers(ring@),
{
    proof {
        lemma_pop_low_le(ring@[0], 16);
        lemma_pop_low_le(ring@[1], 16);
        lemma_pop_low_le(ring@[2], 16);
        lemma_pop_low_le(ring@[3], 16);
    }
    let enemies: u32 = count_bits(ring[0]) + count_bits(ring[1]) + count_bits(ring[2])
        + count_bits(ring[3]);

    let outer = ring[2] | ring[3];
    let mut inner = (ring[0] | ring[1]) & !outer;
    proof {
        let b0 = ring@[0];
        let b1 = ring@[1];
        let o = outer;
        assert((b0 | b1) & !o < 4096) by (bit_vector)
            requires
                b0 < 4096,
                b1 < 4096,
        ;
        axiom_u16_trailing_ones(inner);
    }
    inner = rotate_right_12(inner, inner.trailing_ones() as u16);
    let ghost adjusted = inner;
    assert(adjusted == spec_inner_adjusted(ring@));

    let actions = enemies / 4 + if enemies % 4 != 0 {
        1
    } else {
        0
    };
    proof {
        lemma_pop_low_le(outer, 16);
        lemma_hammer_count_le(adjusted);
    }
    let jump_rows = count_bits(outer);

    let mut hammerable_groups: u32 = 0;
    while inner != 0
        invariant
            hammerable_groups + hammer_count(inner) == hammer_count(adjusted),
            hammer_count(adjusted) <= 4096,
        decreases inner,
    {
        let ghost prev = inner;
        proof {
            lemma_hammer_clear_lt(prev);
            lemma_hammer_count_le(hammer_clear(prev));
            assert(hammer_count(prev) == 1 + hammer_count(hammer_clear(prev)));
        }
        let tz = inner.trailing_zeros();
        inner = inner & !(0b11u16 << (tz as u16));
        proof {
            assert(inner == hammer_clear(prev));
        }
        hammerable_groups = hammerable_groups + 1;
    }

    if hammerable_groups + jump_rows > actions {
        None
    } else {
        Some(Solution { moves: VecDeque::new(), result: ring, jump_rows, hammerable_groups })
    }
}

} // verus!
