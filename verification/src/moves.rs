//! The board model and the move generators.
//!
//! A board is 4 concentric subrings, indexed 0 (innermost) to 3 (outermost),
//! each a 12-bit mask with bit `k` set iff an enemy occupies angle `k`. A
//! move either rotates one subring, or shifts one row: the 8 cells at an
//! angle `th` and its opposite `th + 6`, read in shifting order.

use vstd::prelude::*;
use vstd::math::abs;
use crate::rotate::{rot12, rot8, lemma_rot12_zero, lemma_rot8_zero, lemma_rot12_compose,
    lemma_rot8_compose, lemma_rot12_bound};
use crate::zigzag::{zz_amount, ZigZagBits12, ZigZagBits8, lemma_zz_amount_bound};

verus! {

/// The board: one 12-bit enemy mask per subring, inner to outer.
pub type Ring = [u16; 4];

/// Number of subrings on the board.
pub const NUM_RINGS: u16 = 4;

/// Number of angular positions on each subring.
pub const NUM_ANGLES: u16 = 12;

/// A well-formed board: four subrings, each with bits 12..16 clear.
pub open spec fn ring_inv(b: Seq<u16>) -> bool {
    &&& b.len() == 4
    &&& forall|j: int| 0 <= j < 4 ==> b[j] < 4096
}

/// One move of the board: rotate a subring, or shift a row.
#[derive(Clone, Copy, PartialEq, Eq, Structural, Debug)]
pub enum RingMovement {
    /// Rotate subring `r` by `amount` angles, clockwise or not.
    Ring { r: u16, amount: i16, clockwise: bool },
    /// Shift the row at angle pair `th` by `amount` cells, outward or not.
    Row { th: u16, amount: i16, outward: bool },
}

/// The 8-bit row value at angle pair `th`: bits 0..4 are the cells at angle
/// `th` moving outward, bits 4..8 the cells at angle `th + 6` moving inward.
pub open spec fn row_of(b: Seq<u16>, th: u16) -> u16
    recommends
        b.len() == 4,
        th < 6,
{
    ((b[0] >> th) & 1) | (((b[1] >> th) & 1) << 1u16) | (((b[2] >> th) & 1) << 2u16) | (((b[3]
        >> th) & 1) << 3u16) | (((b[3] >> ((th + 6) as u16)) & 1) << 4u16) | (((b[2] >> ((th
        + 6) as u16)) & 1) << 5u16) | (((b[1] >> ((th + 6) as u16)) & 1) << 6u16) | (((b[0] >> ((th
        + 6) as u16)) & 1) << 7u16)
}

/// Subring `r` with its two row cells at angle pair `th` replaced by the
/// corresponding bits of the 8-bit row value `row`.
pub open spec fn put_row_bits(s: u16, th: u16, row: u16, r: u16) -> u16
    recommends
        th < 6,
        r < 4,
{
    (s & !(1u16 << th) & !(1u16 << ((th + 6) as u16))) | (((row >> r) & 1) << th) | (((row >> ((7
        - r) as u16)) & 1) << ((th + 6) as u16))
}

/// The board with the row at angle pair `th` replaced by `row`.
pub open spec fn write_row(b: Seq<u16>, th: u16, row: u16) -> Seq<u16>
    recommends
        b.len() == 4,
        th < 6,
{
    seq![
        put_row_bits(b[0], th, row, 0),
        put_row_bits(b[1], th, row, 1),
        put_row_bits(b[2], th, row, 2),
        put_row_bits(b[3], th, row, 3),
    ]
}

/// Writing a row twice at the same angle pair keeps only the second write.
pub proof fn lemma_put_row_overwrite(s: u16, th: u16, row1: u16, row2: u16, r: u16)
    requires
        th < 6,
        r < 4,
    ensures
        put_row_bits(put_row_bits(s, th, row1, r), th, row2, r) == put_row_bits(s, th, row2, r),
{
    assert(put_row_bits(put_row_bits(s, th, row1, r), th, row2, r) == put_row_bits(
        s,
        th,
        row2,
        r,
    )) by (bit_vector)
        requires
            th < 6,
            r < 4,
    ;
}

/// The board reached from `b` by rotating subring `r` with the zig-zag
/// offset of step `k`.
pub open spec fn ring_move(b: Seq<u16>, r: int, k: nat) -> Seq<u16>
    recommends
        ring_inv(b),
        0 <= r < 4,
{
    b.update(r, rot12(b[r], zz_amount(k)))
}

/// The board reached from `b` by shifting the row at angle pair `th` with
/// the zig-zag offset of step `k`.
pub open spec fn row_move(b: Seq<u16>, th: u16, k: nat) -> Seq<u16>
    recommends
        ring_inv(b),
        th < 6,
{
    write_row(b, th, rot8(row_of(b, th), zz_amount(k)))
}

/// The board reached from `b` by one move descriptor.
pub open spec fn apply_move(b: Seq<u16>, m: RingMovement) -> Seq<u16>
    recommends
        ring_inv(b),
{
    match m {
        RingMovement::Ring { r, amount, clockwise } => b.update(
            r as int,
            rot12(
                b[r as int],
                if clockwise {
                    amount as int
                } else {
                    -(amount as int)
                },
            ),
        ),
        RingMovement::Row { th, amount, outward } => write_row(
            b,
            th,
            rot8(
                row_of(b, th),
                if outward {
                    amount as int
                } else {
                    -(amount as int)
                },
            ),
        ),
    }
}

/// The board reached from `b` by a sequence of moves, earliest first.
pub open spec fn apply_moves(b: Seq<u16>, ms: Seq<RingMovement>) -> Seq<u16>
    recommends
        ring_inv(b),
    decreases ms.len(),
{
    if ms.len() == 0 {
        b
    } else {
        apply_moves(apply_move(b, ms[0]), ms.subrange(1, ms.len() as int))
    }
}

/// Prepending a move applies it before the rest of the sequence.
pub proof fn lemma_apply_moves_prepend(b: Seq<u16>, m: RingMovement, ms: Seq<RingMovement>)
    ensures
        apply_moves(b, seq![m] + ms) == apply_moves(apply_move(b, m), ms),
{
    let all = seq![m] + ms;
    assert(all[0] == m);
    assert(all.subrange(1, all.len() as int) =~= ms);
}

/// An enumerator of the boards reachable by rotating one subring, in
/// zig-zag order of offsets. Restartable only by reconstruction.
pub struct RingRotations {
    /// The working board: the start board with subring `r` rotated to the
    /// enumerator's current offset.
    pub ring: Ring,
    /// The subring being rotated.
    pub r: u16,
    /// The zig-zag enumerator over that subring's 12-bit value.
    pub subring_iter: ZigZagBits12,
    /// The board this enumerator was constructed from.
    pub start: Ghost<Seq<u16>>,
    /// How many steps have been taken.
    pub steps: Ghost<nat>,
}

impl RingRotations {
    /// The enumerator state after `steps` steps from the start board.
    pub open spec fn wf(&self) -> bool {
        &&& ring_inv(self.start@)
        &&& self.r < 4
        &&& self.start@[self.r as int] != 0
        &&& self.subring_iter.amount as int == zz_amount(self.steps@)
        &&& self.subring_iter.data == rot12(self.start@[self.r as int], zz_amount(self.steps@))
        &&& self.ring@.len() == 4
        &&& forall|j: int| 0 <= j < 4 && j != self.r ==> self.ring@[j] == self.start@[j]
        &&& self.ring@[self.r as int] == self.subring_iter.data
    }

    /// Start enumerating rotations of subring `r`; an empty subring has no
    /// useful rotations, so nothing is constructed for it.
    pub fn new(ring: Ring, r: u16) -> (g: Option<Self>)
        requires
            ring_inv(ring@),
            r < 4,
        ensures
            g is Some <==> ring@[r as int] != 0,
            g matches Some(g0) ==> g0.wf() && g0.r == r && g0.start@ == ring@ && g0.steps@ == 0,
    {
        let subring = ring[r as usize];
        if subring == 0 {
            return None;
        }
        let subring_iter = ZigZagBits12::new(subring);
        proof {
            lemma_rot12_zero(ring@[r as int]);
        }
        Some(RingRotations { ring, r, subring_iter, start: Ghost(ring@), steps: Ghost(0) })
    }

    /// Advance to the next zig-zag offset: yield the board with subring `r`
    /// rotated by it, paired with the move descriptor that produced it.
    pub fn next(&mut self) -> (res: (Ring, RingMovement))
        requires
            old(self).wf(),
            old(self).steps@ < 100,
        ensures
            final(self).wf(),
            final(self).r == old(self).r,
            final(self).start@ == old(self).start@,
            final(self).steps@ == old(self).steps@ + 1,
            res.0@ == ring_move(old(self).start@, old(self).r as int, old(self).steps@ + 1),
            ring_inv(res.0@),
            res.1 == (RingMovement::Ring {
                r: old(self).r,
                amount: abs(zz_amount(old(self).steps@ + 1)) as i16,
                clockwise: zz_amount(old(self).steps@ + 1) > 0,
            }),
            apply_move(old(self).start@, res.1) == res.0@,
    {
        proof {
            lemma_zz_amount_bound(self.steps@);
            lemma_rot12_bound(self.start@[self.r as int], zz_amount(self.steps@));
        }
        let (subring, amount) = self.subring_iter.next();
        self.ring[self.r as usize] = subring;
        self.steps = Ghost(self.steps@ + 1);
        proof {
            let orig = self.start@;
            let r = self.r as int;
            let n = (self.steps@ - 1) as nat;
            lemma_zz_amount_bound(n + 1);
            lemma_rot12_compose(orig[r], zz_amount(n), zz_amount(n + 1) - zz_amount(n));
            assert(self.subring_iter.data == rot12(orig[r], zz_amount(n + 1)));
            lemma_rot12_bound(orig[r], zz_amount(n + 1));
            assert(self.ring@ =~= ring_move(orig, r, n + 1));
        }
        let movement = RingMovement::Ring {
            r: self.r,
            amount: if amount >= 0 {
                amount
            } else {
                -amount
            },
            clockwise: amount > 0,
        };
        (self.ring, movement)
    }
}

/// An enumerator of the boards reachable by shifting one row, in zig-zag
/// order of offsets. Restartable only by reconstruction.
pub struct RingShifts {
    /// The working board: the start board with the row at `th` shifted to
    /// the enumerator's current offset.
    pub ring: Ring,
    /// The angle pair whose row is being shifted.
    pub th: u16,
    /// The zig-zag enumerator over that row's 8-bit value.
    pub row_iter: ZigZagBits8,
    /// The board this enumerator was constructed from.
    pub start: Ghost<Seq<u16>>,
    /// How many steps have been taken.
    pub steps: Ghost<nat>,
}

impl RingShifts {
    /// The enumerator state after `steps` steps from the start board.
    pub open spec fn wf(&self) -> bool {
        &&& ring_inv(self.start@)
        &&& self.th < 6
        &&& row_of(self.start@, self.th) != 0
        &&& self.row_iter.amount as int == zz_amount(self.steps@)
        &&& self.row_iter.data == rot8(row_of(self.start@, self.th), zz_amount(self.steps@))
        &&& self.ring@.len() == 4
        &&& forall|j: int| 0 <= j < 4 ==> self.ring@[j] < 4096
        &&& forall|j: int|
            0 <= j < 4 ==> self.ring@[j] == if self.steps@ == 0 {
                self.start@[j]
            } else {
                put_row_bits(self.start@[j], self.th, self.row_iter.data, j as u16)
            }
    }

    /// Start enumerating shifts of the row at angle pair `th`; an empty row
    /// has no useful shifts, so nothing is constructed for it.
    pub fn new(ring: Ring, th: u16) -> (g: Option<Self>)
        requires
            ring_inv(ring@),
            th < 6,
        ensures
            g is Some <==> row_of(ring@, th) != 0,
            g matches Some(g0) ==> g0.wf() && g0.th == th && g0.start@ == ring@ && g0.steps@ == 0,
    {
        let s0 = ring[0];
        let s1 = ring[1];
        let s2 = ring[2];
        let s3 = ring[3];
        let row = ((s0 >> th) & 1) | (((s1 >> th) & 1) << 1) | (((s2 >> th) & 1) << 2) | (((s3
            >> th) & 1) << 3) | (((s3 >> (th + 6)) & 1) << 4) | (((s2 >> (th + 6)) & 1) << 5) | (((
        s1 >> (th + 6)) & 1) << 6) | (((s0 >> (th + 6)) & 1) << 7);
        proof {
            lemma_row_of_bound(s0, s1, s2, s3, th);
        }
        if row == 0 {
            return None;
        }
        let row_iter = ZigZagBits8::new(row);
        proof {
            lemma_rot8_zero(row);
        }
        Some(RingShifts { ring, th, row_iter, start: Ghost(ring@), steps: Ghost(0) })
    }

    /// Advance to the next zig-zag offset: yield the board with the row at
    /// `th` shifted by it, paired with the move descriptor that produced it.
    pub fn next(&mut self) -> (res: (Ring, RingMovement))
        requires
            old(self).wf(),
            old(self).steps@ < 100,
        ensures
            final(self).wf(),
            final(self).th == old(self).th,
            final(self).start@ == old(self).start@,
            final(self).steps@ == old(self).steps@ + 1,
            res.0@ == row_move(old(self).start@, old(self).th, old(self).steps@ + 1),
            ring_inv(res.0@),
            res.1 == (RingMovement::Row {
                th: old(self).th,
                amount: abs(zz_amount(old(self).steps@ + 1)) as i16,
                outward: zz_amount(old(self).steps@ + 1) > 0,
            }),
            apply_move(old(self).start@, res.1) == res.0@,
    {
        proof {
            lemma_zz_amount_bound(self.steps@);
            lemma_row_of_lt(self.start@, self.th);
            crate::rotate::lemma_rot8_bound(row_of(self.start@, self.th), zz_amount(self.steps@));
        }
        let (row, amount) = self.row_iter.next();
        let ghost old_ring = self.ring@;
        self.ring[0] = put_bits(self.ring[0], self.th, row, 0);
        self.ring[1] = put_bits(self.ring[1], self.th, row, 1);
        self.ring[2] = put_bits(self.ring[2], self.th, row, 2);
        self.ring[3] = put_bits(self.ring[3], self.th, row, 3);
        self.steps = Ghost(self.steps@ + 1);
        proof {
            let orig = self.start@;
            let th = self.th;
            let n = (self.steps@ - 1) as nat;
            let base = row_of(orig, th);
            lemma_zz_amount_bound(n + 1);
            lemma_rot8_compose(base, zz_amount(n), zz_amount(n + 1) - zz_amount(n));
            assert(self.row_iter.data == rot8(base, zz_amount(n + 1)));
            if n > 0 {
                let od = rot8(base, zz_amount(n));
                lemma_put_row_overwrite(orig[0], th, od, row, 0);
                lemma_put_row_overwrite(orig[1], th, od, row, 1);
                lemma_put_row_overwrite(orig[2], th, od, row, 2);
                lemma_put_row_overwrite(orig[3], th, od, row, 3);
            }
            assert(self.ring@ =~= row_move(orig, th, n + 1));
        }
        let movement = RingMovement::Row {
            th: self.th,
            amount: if amount >= 0 {
                amount
            } else {
                -amount
            },
            outward: amount > 0,
        };
        (self.ring, movement)
    }
}

/// Replace the two row cells of subring `r` at angle pair `th` with the
/// corresponding bits of `row`.
fn put_bits(s: u16, th: u16, row: u16, r: u16) -> (out: u16)
    requires
        s < 4096,
        th < 6,
        r < 4,
    ensures
        out == put_row_bits(s, th, row, r),
        out < 4096,
{
    let out = (s & !(1u16 << th) & !(1u16 << (th + 6))) | (((row >> r) & 1) << th) | (((row >> (7
        - r)) & 1) << (th + 6));
    proof {
        assert((s & !(1u16 << th) & !(1u16 << ((th + 6) as u16))) | (((row >> r) & 1) << th) | (((
        row >> ((7 - r) as u16)) & 1) << ((th + 6) as u16)) < 4096) by (bit_vector)
            requires
                s < 4096,
                th < 6,
                r < 4,
        ;
    }
    out
}

/// The row value read from four 12-bit subrings is an 8-bit value.
pub proof fn lemma_row_of_bound(s0: u16, s1: u16, s2: u16, s3: u16, th: u16)
    requires
        th < 6,
    ensures
        ((s0 >> th) & 1) | (((s1 >> th) & 1) << 1u16) | (((s2 >> th) & 1) << 2u16) | (((s3 >> th)
            & 1) << 3u16) | (((s3 >> ((th + 6) as u16)) & 1) << 4u16) | (((s2 >> ((th
            + 6) as u16)) & 1) << 5u16) | (((s1 >> ((th + 6) as u16)) & 1) << 6u16) | (((s0 >> ((th
            + 6) as u16)) & 1) << 7u16) < 256,
{
    assert(((s0 >> th) & 1) | (((s1 >> th) & 1) << 1u16) | (((s2 >> th) & 1) << 2u16) | (((s3
        >> th) & 1) << 3u16) | (((s3 >> ((th + 6) as u16)) & 1) << 4u16) | (((s2 >> ((th
        + 6) as u16)) & 1) << 5u16) | (((s1 >> ((th + 6) as u16)) & 1) << 6u16) | (((s0 >> ((th
        + 6) as u16)) & 1) << 7u16) < 256) by (bit_vector)
        requires
            th < 6,
    ;
}

/// The row value at any angle pair of a board is an 8-bit value.
pub proof fn lemma_row_of_lt(b: Seq<u16>, th: u16)
    requires
        b.len() == 4,
        th < 6,
    ensures
        row_of(b, th) < 256,
{
    lemma_row_of_bound(b[0], b[1], b[2], b[3], th);
}

} // verus!
