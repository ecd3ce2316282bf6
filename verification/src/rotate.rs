//! Masked circular rotation over fixed bit widths: 12 bits for a subring
//! (one bit per angle) and 8 bits for a row (two opposite angles over the
//! four subrings).

use vstd::prelude::*;

verus! {

/// Left rotation of the low 12 bits of `x` by `n` positions, `n < 12`.
pub open spec fn rotl12(x: u16, n: u16) -> u16
    recommends
        x < 4096,
        n < 12,
{
    ((x << n) | (x >> ((12 - n) as u16))) & 0xfff
}

/// Left rotation of the low 8 bits of `x` by `n` positions, `n < 8`.
pub open spec fn rotl8(x: u16, n: u16) -> u16
    recommends
        x < 256,
        n < 8,
{
    ((x << n) | (x >> ((8 - n) as u16))) & 0xff
}

/// A signed rotation amount reduced to a left-rotation count in `[0, 12)`.
pub open spec fn norm12(s: int) -> u16 {
    (s % 12) as u16
}

/// A signed rotation amount reduced to a left-rotation count in `[0, 8)`.
pub open spec fn norm8(s: int) -> u16 {
    (s % 8) as u16
}

/// Rotation of a 12-bit value by a signed amount: positive is left.
pub open spec fn rot12(x: u16, s: int) -> u16
    recommends
        x < 4096,
{
    rotl12(x, norm12(s))
}

/// Rotation of an 8-bit value by a signed amount: positive is left.
pub open spec fn rot8(x: u16, s: int) -> u16
    recommends
        x < 256,
{
    rotl8(x, norm8(s))
}

/// Rotate the low 12 bits of `x` left by `n` positions.
pub fn rotate_left_12(x: u16, n: u16) -> (r: u16)
    requires
        x < 4096,
    ensures
        r == rot12(x, n as int),
        r < 4096,
{
    let n = n % 12;
    let r = ((x << n) | (x >> (12 - n))) & 0xfff;
    proof {
        assert(((x << n) | (x >> ((12 - n) as u16))) & 0xfff < 4096) by (bit_vector);
    }
    r
}

/// Rotate the low 12 bits of `x` right by `n` positions.
pub fn rotate_right_12(x: u16, n: u16) -> (r: u16)
    requires
        x < 4096,
    ensures
        r == rot12(x, -(n as int)),
        r < 4096,
{
    let n = n % 12;
    let r = ((x >> n) | (x << (12 - n))) & 0xfff;
    proof {
        let j = norm12(-(n as int));
        assert(j == if n == 0 { 0u16 } else { (12 - n) as u16 });
        assert(((x >> n) | (x << ((12 - n) as u16))) & 0xfff == rotl12(x, j)) by (bit_vector)
            requires
                x < 4096,
                n < 12,
                j == (if n == 0 { 0u16 } else { (12 - n) as u16 }),
        ;
        assert(((x >> n) | (x << ((12 - n) as u16))) & 0xfff < 4096) by (bit_vector);
    }
    r
}

/// Rotate the low 8 bits of `x` left by `n` positions.
pub fn rotate_left_8(x: u16, n: u16) -> (r: u16)
    requires
        x < 256,
    ensures
        r == rot8(x, n as int),
        r < 256,
{
    let n = n % 8;
    let r = ((x << n) | (x >> (8 - n))) & 0xff;
    proof {
        assert(((x << n) | (x >> ((8 - n) as u16))) & 0xff < 256) by (bit_vector);
    }
    r
}

/// Rotate the low 8 bits of `x` right by `n` positions.
pub fn rotate_right_8(x: u16, n: u16) -> (r: u16)
    requires
        x < 256,
    ensures
        r == rot8(x, -(n as int)),
        r < 256,
{
    let n = n % 8;
    let r = ((x >> n) | (x << (8 - n))) & 0xff;
    proof {
        let j = norm8(-(n as int));
        assert(j == if n == 0 { 0u16 } else { (8 - n) as u16 });
        assert(((x >> n) | (x << ((8 - n) as u16))) & 0xff == rotl8(x, j)) by (bit_vector)
            requires
                x < 256,
                n < 8,
                j == (if n == 0 { 0u16 } else { (8 - n) as u16 }),
        ;
        assert(((x >> n) | (x << ((8 - n) as u16))) & 0xff < 256) by (bit_vector);
    }
    r
}

/// A 12-bit rotation stays a 12-bit value.
pub proof fn lemma_rot12_bound(x: u16, s: int)
    ensures
        rot12(x, s) < 4096,
{
    let n = norm12(s);
    assert(((x << n) | (x >> ((12 - n) as u16))) & 0xfff < 4096) by (bit_vector);
}

/// An 8-bit rotation stays an 8-bit value.
pub proof fn lemma_rot8_bound(x: u16, s: int)
    ensures
        rot8(x, s) < 256,
{
    let n = norm8(s);
    assert(((x << n) | (x >> ((8 - n) as u16))) & 0xff < 256) by (bit_vector);
}

/// Rotating by 0 is the identity on 12-bit values.
pub proof fn lemma_rot12_zero(x: u16)
    requires
        x < 4096,
    ensures
        rot12(x, 0) == x,
{
    assert(((x << 0u16) | (x >> 12u16)) & 0xfff == x) by (bit_vector)
        requires
            x < 4096,
    ;
}

/// Rotating by 0 is the identity on 8-bit values.
pub proof fn lemma_rot8_zero(x: u16)
    requires
        x < 256,
    ensures
        rot8(x, 0) == x,
{
    assert(((x << 0u16) | (x >> 8u16)) & 0xff == x) by (bit_vector)
        requires
            x < 256,
    ;
}

/// Two successive 12-bit rotations compose by adding their signed amounts.
pub proof fn lemma_rot12_compose(x: u16, a: int, b: int)
    requires
        x < 4096,
    ensures
        rot12(rot12(x, a), b) == rot12(x, a + b),
{
    let na = norm12(a);
    let nb = norm12(b);
    vstd::arithmetic::div_mod::lemma_add_mod_noop(a, b, 12);
    assert(norm12(a + b) == ((na + nb) % 12) as u16);
    assert(rotl12(rotl12(x, na), nb) == rotl12(x, ((na + nb) % 12) as u16)) by (bit_vector)
        requires
            x < 4096,
            na < 12,
            nb < 12,
    ;
}

/// Two successive 8-bit rotations compose by adding their signed amounts.
pub proof fn lemma_rot8_compose(x: u16, a: int, b: int)
    requires
        x < 256,
    ensures
        rot8(rot8(x, a), b) == rot8(x, a + b),
{
    let na = norm8(a);
    let nb = norm8(b);
    vstd::arithmetic::div_mod::lemma_add_mod_noop(a, b, 8);
    assert(norm8(a + b) == ((na + nb) % 8) as u16);
    assert(rotl8(rotl8(x, na), nb) == rotl8(x, ((na + nb) % 8) as u16)) by (bit_vector)
        requires
            x < 256,
            na < 8,
            nb < 8,
    ;
}

/// Rotation round-trip: rotating a 12-bit value by any signed amount and
/// then by its negation restores the value, and rotating by a full turn of
/// 12 positions is the same as not rotating at all.
pub proof fn lemma_rot12_round_trip(v: u16, k: int)
    requires
        v < 4096,
    ensures
        rot12(rot12(v, k), -k) == v,
        rot12(v, 12) == rot12(v, 0),
{
    lemma_rot12_compose(v, k, -k);
    lemma_rot12_zero(v);
}

/// Rotation round-trip for 8-bit values, with the full turn at 8 positions.
pub proof fn lemma_rot8_round_trip(v: u16, k: int)
    requires
        v < 256,
    ensures
        rot8(rot8(v, k), -k) == v,
        rot8(v, 8) == rot8(v, 0),
{
    lemma_rot8_compose(v, k, -k);
    lemma_rot8_zero(v);
}

} // verus!
