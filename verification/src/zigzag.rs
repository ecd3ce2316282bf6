//! Zig-zag step enumerators: starting from a seed value, successive steps
//! rotate it by the signed offsets 1, -1, 2, -2, 3, -3, ... relative to the
//! seed, so that a search tries the smallest movements first.

use vstd::prelude::*;
use crate::rotate::{rot12, rot8, rotate_left_12, rotate_left_8, rotate_right_12, rotate_right_8};
use vstd::math::abs;

verus! {

/// The signed offset that follows `a` in the zig-zag order.
pub open spec fn zz_next_amount(a: int) -> int {
    -a + if a <= 0 {
        1int
    } else {
        0int
    }
}

/// The signed zig-zag offset after `k` steps, starting from 0.
pub open spec fn zz_amount(k: nat) -> int
    decreases k,
{
    if k == 0 {
        0
    } else {
        zz_next_amount(zz_amount((k - 1) as nat))
    }
}

/// Closed form of the zig-zag offsets: odd steps move left by half the step
/// count rounded up, even steps move right by half the step count.
pub proof fn lemma_zz_closed_form(k: nat)
    ensures
        k % 2 == 1 ==> zz_amount(k) == (k + 1) / 2,
        k % 2 == 0 ==> zz_amount(k) == -((k / 2) as int),
    decreases k,
{
    if k > 0 {
        lemma_zz_closed_form((k - 1) as nat);
    }
}

/// The zig-zag offset sequence is exactly 1, -1, 2, -2, 3, -3, ...: the
/// offset after an odd number of steps 2j+1 is j+1, and after the even step
/// that follows it is -(j+1). This holds regardless of the seed value, since
/// the offsets do not depend on it.
pub proof fn lemma_zigzag_sequence(j: nat)
    ensures
        zz_amount(2 * j + 1) == j + 1,
        zz_amount(2 * j + 2) == -(j + 1),
{
    lemma_zz_closed_form(2 * j + 1);
    lemma_zz_closed_form(2 * j + 2);
}

/// The magnitude of the zig-zag offset strictly increases every two steps.
pub proof fn lemma_zigzag_magnitude(k: nat)
    ensures
        abs(zz_amount(k + 2)) == abs(zz_amount(k)) + 1,
{
    lemma_zz_closed_form(k);
    lemma_zz_closed_form(k + 2);
}

/// After `k` steps the offset magnitude is at most half of `k` rounded up,
/// and a step count of at least one never leaves the seed value's rotation
/// at zero.
pub proof fn lemma_zz_amount_bound(k: nat)
    ensures
        abs(zz_amount(k)) <= (k + 1) / 2,
        k >= 1 ==> zz_amount(k) != 0,
{
    lemma_zz_closed_form(k);
}

/// Zig-zag enumerator over a 12-bit subring value.
pub struct ZigZagBits12 {
    /// The current rotated value; `rot12(seed, amount)` relative to the seed.
    pub data: u16,
    /// The current signed zig-zag offset relative to the seed.
    pub amount: i16,
}

impl ZigZagBits12 {
    /// Start an enumeration at the seed value, with offset 0.
    pub fn new(data: u16) -> (z: Self)
        requires
            data < 4096,
        ensures
            z.data == data,
            z.amount == 0,
    {
        ZigZagBits12 { data, amount: 0 }
    }

    /// Advance one step: move to the next signed offset and rotate the
    /// stored value by the difference, returning the new value and offset.
    pub fn next(&mut self) -> (r: (u16, i16))
        requires
            old(self).data < 4096,
            -16000 <= old(self).amount <= 16000,
        ensures
            final(self).amount as int == zz_next_amount(old(self).amount as int),
            final(self).data == rot12(old(self).data, final(self).amount - old(self).amount),
            final(self).data < 4096,
            r.0 == final(self).data,
            r.1 == final(self).amount,
    {
        let new_amount = -self.amount + if self.amount <= 0 {
            1
        } else {
            0
        };
        let diff = new_amount - self.amount;
        self.data = if diff > 0 {
            rotate_left_12(self.data, diff as u16)
        } else {
            rotate_right_12(self.data, (-diff) as u16)
        };
        self.amount = new_amount;
        (self.data, self.amount)
    }
}

/// Zig-zag enumerator over an 8-bit row value.
pub struct ZigZagBits8 {
    /// The current rotated value; `rot8(seed, amount)` relative to the seed.
    pub data: u16,
    /// The current signed zig-zag offset relative to the seed.
    pub amount: i16,
}

impl ZigZagBits8 {
    /// Start an enumeration at the seed value, with offset 0.
    pub fn new(data: u16) -> (z: Self)
        requires
            data < 256,
        ensures
            z.data == data,
            z.amount == 0,
    {
        ZigZagBits8 { data, amount: 0 }
    }

    /// Advance one step: move to the next signed offset and rotate the
    /// stored value by the difference, returning the new value and offset.
    pub fn next(&mut self) -> (r: (u16, i16))
        requires
            old(self).data < 256,
            -16000 <= old(self).amount <= 16000,
        ensures
            final(self).amount as int == zz_next_amount(old(self).amount as int),
            final(self).data == rot8(old(self).data, final(self).amount - old(self).amount),
            final(self).data < 256,
            r.0 == final(self).data,
            r.1 == final(self).amount,
    {
        let new_amount = -self.amount + if self.amount <= 0 {
            1
        } else {
            0
        };
        let diff = new_amount - self.amount;
        self.data = if diff > 0 {
            rotate_left_8(self.data, diff as u16)
        } else {
            rotate_right_8(self.data, (-diff) as u16)
        };
        self.amount = new_amount;
        (self.data, self.amount)
    }
}

} // verus!
