//! The engine's numbers: 16.16 fixed point and a world that wraps.
//!
//! Positions, speeds and times are `i32` with sixteen bits of fraction, so a
//! unit - an eighth of a cell - is `0x10000`. The world is 1,024 units across
//! and wraps, and the engine takes every difference between two positions with
//! `shl 6; sar 6`, which keeps the low 26 bits signed: the shortest way round.

use vstd::prelude::*;

verus! {

/// One unit, 1.0 in 16.16.
pub const ONE: i32 = 0x10000;

/// Division rounding toward minus infinity, as an arithmetic shift divides.
pub fn floor_div(x: i64, d: i64) -> (q: i64)
    requires
        0 < d <= 0x1_0000,
        -0x4000_0000_0000_0000i64 <= x <= 0x4000_0000_0000_0000i64,
    ensures
        q == x / d,
{
    if x >= 0 {
        x / d
    } else {
        let m = ((-x) as u64 + (d - 1) as u64) / d as u64;
        proof {
            let fq = x / d;
            let fr = x % d;
            vstd::arithmetic::div_mod::lemma_fundamental_div_mod(x as int, d as int);
            vstd::arithmetic::div_mod::lemma_mod_bound(x as int, d as int);
            assert((-fq) * d == -(d * fq)) by (nonlinear_arith);
            vstd::arithmetic::div_mod::lemma_fundamental_div_mod_converse(
                (-x + d - 1) as int,
                d as int,
                -fq,
                d - 1 - fr,
            );
        }
        -(m as i64)
    }
}

/// A 16.16 product: the 64-bit product shifted down sixteen, rounding
/// toward minus infinity, and its low 32 bits.
pub open spec fn product(a: i32, b: i32) -> i32 {
    ((a * b) / 65536) as i32
}

/// A 16.16 product, `imul` then `shrd 16` - the low half of the 64-bit
/// result shifted down, which rounds toward minus infinity.
pub fn mul(a: i32, b: i32) -> (r: i32)
    ensures
        r == product(a, b),
{
    let (x, y) = (a as i64, b as i64);
    assert(-0x4000_0000_0000_0000i64 <= x * y <= 0x4000_0000_0000_0000i64) by (nonlinear_arith)
        requires
            -0x8000_0000i64 <= x <= 0x7fff_ffffi64,
            -0x8000_0000i64 <= y <= 0x7fff_ffffi64,
    ;
    let q = floor_div(x * y, 65536);
    #[verifier::truncate] (q as i32)
}

/// The low 26 bits of a value, read as a signed number: what `shl 6; sar 6`
/// leaves.
pub open spec fn wrapped26(v: i32) -> i32 {
    let m = v % 0x400_0000;
    (if m >= 0x200_0000 { m - 0x400_0000 } else { m as int }) as i32
}

/// A difference between two world positions, 16.16, the short way round:
/// `shl 6; sar 6`.
pub fn wrap(v: i32) -> (r: i32)
    ensures
        r == wrapped26(v),
        -0x200_0000 <= r < 0x200_0000,
{
    let w = v as i64 + 0x8000_0000;
    let m = w % 0x400_0000;
    proof {
        vstd::arithmetic::div_mod::lemma_fundamental_div_mod(v as int, 0x400_0000);
        vstd::arithmetic::div_mod::lemma_fundamental_div_mod(w as int, 0x400_0000);
        vstd::arithmetic::div_mod::lemma_mod_bound(v as int, 0x400_0000);
        vstd::arithmetic::div_mod::lemma_fundamental_div_mod_converse(
            w as int,
            0x400_0000,
            v as int / 0x400_0000 + 32,
            v as int % 0x400_0000,
        );
    }
    if m >= 0x200_0000 { (m - 0x400_0000) as i32 } else { m as i32 }
}

/// `x - y` in 32 bits, wrapping.
pub open spec fn sub32(x: i32, y: i32) -> i32 {
    if x - y > i32::MAX {
        (x - y - 0x1_0000_0000) as i32
    } else if x - y < i32::MIN {
        (x - y + 0x1_0000_0000) as i32
    } else {
        (x - y) as i32
    }
}

/// The squared length of the wrapped difference between two points.
pub open spec fn square_gap(a: [i32; 3], b: [i32; 3]) -> int {
    let dx = wrapped26(sub32(a[0], b[0])) as int;
    let dy = wrapped26(sub32(a[1], b[1])) as int;
    let dz = wrapped26(sub32(a[2], b[2])) as int;
    dx * dx + dy * dy + dz * dz
}

/// The distance between two points, 16.16, each difference wrapped and the
/// result truncated (`0x42b960`): the whole square root of the sum of the
/// squares, which is under 2^52 and so exactly what the engine's floating
/// point gives.
pub fn distance(a: [i32; 3], b: [i32; 3]) -> (r: i32)
    ensures
        0 <= r,
        r * r <= square_gap(a, b) < (r + 1) * (r + 1),
{
    let dx = wrap(a[0].wrapping_sub(b[0])) as i64;
    let dy = wrap(a[1].wrapping_sub(b[1])) as i64;
    let dz = wrap(a[2].wrapping_sub(b[2])) as i64;
    proof {
        assert(dx * dx <= 0x4_0000_0000_0000 && dy * dy <= 0x4_0000_0000_0000 && dz * dz <= 0x4_0000_0000_0000) by (nonlinear_arith)
            requires -0x200_0000 <= dx <= 0x200_0000, -0x200_0000 <= dy <= 0x200_0000, -0x200_0000 <= dz <= 0x200_0000;
        assert(0 <= dx * dx && 0 <= dy * dy && 0 <= dz * dz) by (nonlinear_arith);
    }
    let sum = (dx * dx + dy * dy + dz * dz) as u64;
    let mut lo: u64 = 0;
    let mut hi: u64 = 0x800_0000;
    assert(sum < hi * hi);
    while hi - lo > 1
        invariant
            lo < hi <= 0x800_0000,
            lo * lo <= sum < hi * hi,
        decreases hi - lo,
    {
        let mid = lo + (hi - lo) / 2;
        assert(mid * mid <= 0x40_0000_0000_0000) by (nonlinear_arith)
            requires mid <= 0x800_0000;
        if mid * mid <= sum {
            lo = mid;
        } else {
            hi = mid;
        }
    }
    lo as i32
}

} // verus!
