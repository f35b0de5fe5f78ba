//! The colour tables: `.MAP`, `.LTE`, `.FOG`, `.MIX`.
//!
//! The engine renders in 8-bit indexed colour, so shading, fogging and
//! blending are all table lookups. Every table maps index to index and is
//! authored rather than computed.

use vstd::prelude::*;
use crate::bytes::{wanted, wanted_bytes, string_of};
use crate::formats::{Error, Result};

verus! {

/// `.MAP`: 15-bit colour to palette index, `(r5 << 10) | (g5 << 5) | b5`.
#[derive(Debug, Clone)]
pub struct ColourMap(pub Vec<u8>);

/// Where `(r, g, b)` falls in a colour map: the top five bits of each channel.
pub open spec fn map_index(r: u8, g: u8, b: u8) -> int {
    (r / 8) * 1024 + (g / 8) * 32 + b / 8
}

impl ColourMap {
    pub const ENTRIES: usize = 32_768;

    pub fn parse(data: &[u8]) -> (r: Result<ColourMap>)
        ensures
            data@.len() == 32_768 <==> r is Ok,
            r matches Ok(m) ==> m.0@ == data@,
            r matches Err(e) ==> e matches Error::WrongSize { what, want, have } && what@ == "MAP colour table"@ && have
                == data@.len() && want@ == wanted_bytes(32_768),
    {
        if data.len() != 32_768 {
            return Err(
                Error::WrongSize { what: "MAP colour table", want: wanted(32_768), have: data.len() },
            );
        }
        Ok(ColourMap(vstd::slice::slice_to_vec(data)))
    }

    pub fn lookup(&self, r: u8, g: u8, b: u8) -> (i: u8)
        requires
            self.0@.len() == 32_768,
        ensures
            i == self.0@[map_index(r, g, b)],
    {
        let at = (r as usize / 8) * 1024 + (g as usize / 8) * 32 + b as usize / 8;
        self.0[at]
    }
}

/// `.LTE` and `.FOG`: rows of 256, `table[shade][index] -> index`.
///
/// Row 0 is the identity in both. At the far end they differ: `.LTE` row 15
/// sends 0..[`SHADED`] to index 0, black, and passes the reserved indices
/// through untouched, while `.FOG` row 15 sends every index to 255.
#[derive(Debug, Clone)]
pub struct Ramp {
    pub levels: usize,
    pub table: Vec<u8>,
}

/// The palette's shadeable range. Indices 240 and above are reserved: a
/// `.LTE` leaves them alone at every level and a `.MIX` refuses to blend them.
pub const SHADED: usize = 240;

impl Ramp {
    pub const LEVELS: usize = 16;
    pub const BYTES: usize = 4096;

    /// Sixteen rows of 256: exactly [`Ramp::BYTES`]. The shading database,
    /// which shares the `.LTE` extension, is a multiple of 256 too, and is
    /// refused.
    pub fn parse(data: &[u8]) -> (r: Result<Ramp>)
        ensures
            data@.len() == Self::BYTES <==> r is Ok,
            r matches Ok(ramp) ==> ramp.table@ == data@ && ramp.levels == Self::LEVELS,
            r matches Err(e) ==> e matches Error::WrongSize { what, want, have } && what@ == "LTE/FOG ramp"@
                && have == data@.len() && want@ == wanted_bytes(4096),
    {
        if data.len() != Self::BYTES {
            return Err(Error::WrongSize { what: "LTE/FOG ramp", want: wanted(4096), have: data.len() });
        }
        Ok(Ramp { levels: Self::LEVELS, table: vstd::slice::slice_to_vec(data) })
    }

    pub fn shade(&self, level: usize, index: u8) -> (r: u8)
        requires
            level * 256 + index < self.table@.len(),
        ensures
            r == self.table@[level * 256 + index],
    {
        let n = self.table.len();
        self.table[level * 256 + index as usize]
    }
}

/// `.MIX`: 256 x 256, `mix[a][b] -> index`. Symmetric. Row 0 is the identity
/// over the shadeable range and sends the reserved indices to 0.
#[derive(Debug, Clone)]
pub struct BlendTable(pub Vec<u8>);

impl BlendTable {
    pub const BYTES: usize = 65_536;

    pub fn parse(data: &[u8]) -> (r: Result<BlendTable>)
        ensures
            data@.len() == 65_536 <==> r is Ok,
            r matches Ok(t) ==> t.0@ == data@,
            r matches Err(e) ==> e matches Error::WrongSize { what, want, have } && what@ == "MIX blend table"@ && have
                == data@.len() && want@ == wanted_bytes(65_536),
    {
        if data.len() != 65_536 {
            return Err(
                Error::WrongSize { what: "MIX blend table", want: wanted(65_536), have: data.len() },
            );
        }
        Ok(BlendTable(vstd::slice::slice_to_vec(data)))
    }

    pub fn blend(&self, a: u8, b: u8) -> (r: u8)
        requires
            self.0@.len() == 65_536,
        ensures
            r == self.0@[a * 256 + b],
    {
        self.0[a as usize * 256 + b as usize]
    }

    /// Whether `blend(a, b) == blend(b, a)` for every pair.
    pub fn is_symmetric(&self) -> (r: bool)
        requires
            self.0@.len() == 65_536,
        ensures
            r == forall|a: int, b: int|
                0 <= a < 256 && 0 <= b < 256 ==> #[trigger] self.0@[a * 256 + b] == self.0@[b * 256
                    + a],
    {
        let mut a: usize = 0;
        while a < 256
            invariant
                a <= 256,
                self.0@.len() == 65_536,
                forall|x: int, y: int|
                    0 <= x < a && 0 <= y < 256 ==> #[trigger] self.0@[x * 256 + y] == self.0@[y
                        * 256 + x],
            decreases 256 - a,
        {
            let mut b: usize = 0;
            while b < 256
                invariant
                    a < 256,
                    b <= 256,
                    self.0@.len() == 65_536,
                    forall|x: int, y: int|
                        0 <= x < a && 0 <= y < 256 ==> #[trigger] self.0@[x * 256 + y] == self.0@[y
                            * 256 + x],
                    forall|y: int| 0 <= y < b ==> #[trigger] self.0@[a * 256 + y] == self.0@[y * 256 + a],
                decreases 256 - b,
            {
                if self.0[a * 256 + b] != self.0[b * 256 + a] {
                    return false;
                }
                b += 1;
            }
            a += 1;
        }
        true
    }
}

} // verus!
