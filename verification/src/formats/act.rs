//! The `.ACT` palette: 768 bytes, 256 RGB triples, full 0-255 range.

use vstd::prelude::*;
use crate::bytes::{wanted, wanted_bytes};
use crate::formats::{Error, Result};
use core::ops::RangeInclusive;

verus! {

pub const ENTRIES: usize = 256;
pub const BYTES: usize = 768;

#[derive(Debug, Clone)]
pub struct Palette {
    pub colours: [[u8; 3]; 256],
}

/// The triple at `i` of a palette file.
pub open spec fn triple_at(data: Seq<u8>, i: int) -> [u8; 3] {
    [data[3 * i], data[3 * i + 1], data[3 * i + 2]]
}

impl Palette {
    pub fn default() -> (r: Palette)
        ensures
            forall|i: int| 0 <= i < 256 ==> r.colours@[i] == [0u8, 0u8, 0u8],
    {
        Palette { colours: [[0u8; 3]; 256] }
    }

    /// Exactly 768 bytes, colour `i` at `3 i`.
    pub fn parse(data: &[u8]) -> (r: Result<Palette>)
        ensures
            data@.len() == BYTES <==> r is Ok,
            r matches Ok(p) ==> forall|i: int| 0 <= i < 256 ==> p.colours@[i] == triple_at(data@, i),
            r matches Err(e) ==> e matches Error::WrongSize { what, want, have } && what@ == "ACT palette"@ && have
                == data@.len() && want@ == wanted_bytes(BYTES as nat),
    {
        if data.len() != BYTES {
            return Err(Error::WrongSize { what: "ACT palette", want: wanted(BYTES as u128), have: data.len() });
        }
        let mut colours = [[0u8; 3]; 256];
        let mut i: usize = 0;
        while i < ENTRIES
            invariant
                i <= 256,
                data@.len() == BYTES,
                forall|k: int| 0 <= k < i ==> colours@[k] == triple_at(data@, k),
            decreases 256 - i,
        {
            colours[i] = [data[i * 3], data[i * 3 + 1], data[i * 3 + 2]];
            i += 1;
        }
        Ok(Palette { colours })
    }

    /// A zero-length `.ACT` is a legal placeholder; two ship in the archives.
    pub fn parse_lenient(data: &[u8]) -> (r: Result<Option<Palette>>)
        ensures
            data@.len() == 0 ==> r matches Ok(None),
            data@.len() == BYTES ==> r matches Ok(Some(_)),
            r matches Ok(Some(p)) ==> data@.len() == BYTES && forall|i: int|
                0 <= i < 256 ==> p.colours@[i] == triple_at(data@, i),
            r is Err <==> data@.len() != 0 && data@.len() != BYTES,
    {
        if data.len() == 0 {
            Ok(None)
        } else {
            match Palette::parse(data) {
                Ok(p) => Ok(Some(p)),
                Err(e) => Err(e),
            }
        }
    }

    pub fn rgb(&self, index: u8) -> (r: [u8; 3])
        ensures
            r == self.colours@[index as int],
    {
        self.colours[index as usize]
    }

    /// The index nearest a colour, as the engine measures it (`0x485080`):
    /// `29|dr| + 58|dg| + 15|db|`, the first of equals.
    pub fn nearest(&self, rgb: [u8; 3]) -> (r: u8)
        ensures
            forall|j: int| 0 <= j < 256 ==> engine_distance(self.colours@[r as int], rgb)
                <= engine_distance(#[trigger] self.colours@[j], rgb),
            forall|j: int| 0 <= j < r ==> engine_distance(self.colours@[r as int], rgb)
                < engine_distance(#[trigger] self.colours@[j], rgb),
    {
        let mut best: u8 = 0;
        let mut best_d = engine_distance_of(self.rgb(0), rgb);
        let mut i: u16 = 1;
        while i < 256
            invariant
                1 <= i <= 256,
                best < i,
                best_d == engine_distance(self.colours@[best as int], rgb),
                forall|j: int| 0 <= j < i ==> best_d <= engine_distance(#[trigger] self.colours@[j], rgb),
                forall|j: int| 0 <= j < best ==> best_d < engine_distance(#[trigger] self.colours@[j], rgb),
            decreases 256 - i,
        {
            let d = engine_distance_of(self.rgb(i as u8), rgb);
            if d < best_d {
                best = i as u8;
                best_d = d;
            }
            i += 1;
        }
        best
    }

    /// The index among `range` nearest a colour by straight-line distance -
    /// the port's own measure, for colours it picks itself. The first of
    /// equals; the range's start when it is empty.
    pub fn nearest_in(&self, rgb: [u8; 3], range: RangeInclusive<u8>) -> (r: u8)
        ensures
            range@.exhausted || range@.start > range@.end ==> r == range@.start,
            !range@.exhausted && range@.start <= range@.end ==> {
                &&& range@.start <= r <= range@.end
                &&& forall|j: int| range@.start <= j <= range@.end ==> square_distance(
                    self.colours@[r as int],
                    rgb,
                ) <= square_distance(#[trigger] self.colours@[j], rgb)
                &&& forall|j: int| range@.start <= j < r ==> square_distance(
                    self.colours@[r as int],
                    rgb,
                ) < square_distance(#[trigger] self.colours@[j], rgb)
            },
    {
        let start = range_start(&range);
        let end = range_end(&range);
        if range_is_empty(&range) {
            return start;
        }
        let mut best: u8 = start;
        let mut best_d = square_distance_of(self.rgb(start), rgb);
        let mut i: u16 = start as u16 + 1;
        while i <= end as u16
            invariant
                start <= best < i <= end as u16 + 1,
                start <= end,
                best_d == square_distance(self.colours@[best as int], rgb),
                forall|j: int| start <= j < i ==> best_d <= square_distance(#[trigger] self.colours@[j], rgb),
                forall|j: int| start <= j < best ==> best_d < square_distance(#[trigger] self.colours@[j], rgb),
            decreases end as u16 + 1 - i,
        {
            let d = square_distance_of(self.rgb(i as u8), rgb);
            if d < best_d {
                best = i as u8;
                best_d = d;
            }
            i += 1;
        }
        best
    }
}

pub open spec fn abs_diff(a: u8, b: u8) -> int {
    if a >= b { a - b } else { b - a }
}

/// The engine's colour distance, `29|dr| + 58|dg| + 15|db|`.
pub open spec fn engine_distance(p: [u8; 3], c: [u8; 3]) -> int {
    29 * abs_diff(c[0], p[0]) + 58 * abs_diff(c[1], p[1]) + 15 * abs_diff(c[2], p[2])
}

/// The squared straight-line distance.
pub open spec fn square_distance(p: [u8; 3], c: [u8; 3]) -> int {
    abs_diff(c[0], p[0]) * abs_diff(c[0], p[0]) + abs_diff(c[1], p[1]) * abs_diff(c[1], p[1])
        + abs_diff(c[2], p[2]) * abs_diff(c[2], p[2])
}

fn abs_diff_of(a: u8, b: u8) -> (r: u32)
    ensures
        r == abs_diff(a, b),
{
    if a >= b { (a - b) as u32 } else { (b - a) as u32 }
}

fn engine_distance_of(p: [u8; 3], c: [u8; 3]) -> (r: u32)
    ensures
        r == engine_distance(p, c),
{
    29 * abs_diff_of(c[0], p[0]) + 58 * abs_diff_of(c[1], p[1]) + 15 * abs_diff_of(c[2], p[2])
}

fn square_distance_of(p: [u8; 3], c: [u8; 3]) -> (r: u32)
    ensures
        r == square_distance(p, c),
{
    let (a, b, d) = (abs_diff_of(c[0], p[0]), abs_diff_of(c[1], p[1]), abs_diff_of(c[2], p[2]));
    assert(a * a <= 255 * 255 && b * b <= 255 * 255 && d * d <= 255 * 255) by (nonlinear_arith)
        requires
            a <= 255,
            b <= 255,
            d <= 255,
    ;
    a * a + b * b + d * d
}

/// `RangeInclusive::start`.
#[verifier::external_body]
fn range_start(r: &RangeInclusive<u8>) -> (s: u8)
    ensures
        s == r@.start,
{
    *r.start()
}

/// `RangeInclusive::end`.
#[verifier::external_body]
fn range_end(r: &RangeInclusive<u8>) -> (e: u8)
    ensures
        e == r@.end,
{
    *r.end()
}

/// `RangeInclusive::is_empty`: no items, because it has run out or because
/// its start is past its end.
#[verifier::external_body]
fn range_is_empty(r: &RangeInclusive<u8>) -> (b: bool)
    ensures
        b == (r@.exhausted || r@.start > r@.end),
{
    r.is_empty()
}

} // verus!
