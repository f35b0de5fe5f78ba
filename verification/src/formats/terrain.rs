//! The terrain grids: a 128 x 128 world in thirteen headerless arrays.
//!
//! One base surface, two sets of extruded boxes, one set of chambers. The
//! layer names are the engine's own, taken from the diagnostics next to each
//! `sprintf` format string in the loader at `HELLBEND.EXE:0x412c00`.

use vstd::prelude::*;
use crate::bytes::{le_u16, u16_at, wanted, decimal, decimal_chars, bytes_unit, string_of};
use crate::formats::{Error, Result};

verus! {

pub const SIDE: usize = 128;
pub const CELLS: usize = 16384;

/// Altitude bytes are scaled by 128, so a level has 256 heights and a vertical
/// step of 128 world units.
pub const ALTITUDE_SHIFT: u32 = 7;

/// One cell is 8.0 world units square: `0x80000` in 16.16.
///
/// The engine derives a cell's world origin as `(index & 0x7f) << 19`. The
/// mask is why the world wraps at 128 cells rather than clamping.
pub const CELL_SIZE: i32 = 0x0008_0000;

/// How an altitude byte becomes a stored altitude.
///
/// The loader uses two different scalings and which one it uses is per layer,
/// not per level.
#[derive(Debug, Clone, Copy, PartialEq, Eq)]
pub enum Scale {
    /// `byte << 7`, giving 0 to 32,640. The ground and box set A.
    Up,
    /// `(byte - 255) << 7`, giving -32,640 to 0. Chambers and box set B.
    Down,
}

pub open spec fn scaled(scale: Scale, byte: u8) -> i16 {
    match scale {
        Scale::Up => (byte * 128) as i16,
        Scale::Down => ((byte - 255) * 128) as i16,
    }
}

impl Scale {
    pub fn apply(self, byte: u8) -> (r: i16)
        ensures
            r == scaled(self, byte),
            self == Scale::Up ==> r == byte * 128,
            self == Scale::Down ==> r == (byte - 255) * 128,
    {
        match self {
            Scale::Up => (byte as i16) * 128,
            Scale::Down => (byte as i16 - 255) * 128,
        }
    }
}

/// Six texture slots per ground box: four sides, top and bottom.
pub const BOX_TEXTURES: usize = 6;

/// Which face each of a box's six texture slots covers, in slot order.
///
/// Box vertices 0-3 are the bottom corners and 4-7 the top, each in the
/// ground's corner order: (x, z), (x+1, z), (x+1, z+1), (x, z+1).
#[derive(Debug, Clone, Copy, PartialEq, Eq)]
pub enum BoxFace {
    /// Slot 0, the side facing -z.
    NegZ,
    /// Slot 1, the side facing +z.
    PosZ,
    /// Slot 2, the side facing +x.
    PosX,
    /// Slot 3, the side facing -x.
    NegX,
    /// Slot 4. The top.
    Top,
    /// Slot 5. The bottom, and the least varied.
    Bottom,
}

impl BoxFace {
    /// Every face, in slot order.
    pub fn all() -> (r: [BoxFace; 6])
        ensures
            r@ == seq![BoxFace::NegZ, BoxFace::PosZ, BoxFace::PosX, BoxFace::NegX, BoxFace::Top, BoxFace::Bottom],
    {
        let r = [BoxFace::NegZ, BoxFace::PosZ, BoxFace::PosX, BoxFace::NegX, BoxFace::Top, BoxFace::Bottom];
        assert(r@ =~= seq![BoxFace::NegZ, BoxFace::PosZ, BoxFace::PosX, BoxFace::NegX, BoxFace::Top, BoxFace::Bottom]);
        r
    }

    /// The face's four corners as the engine hands them to `0x414f60`: cell
    /// offsets in x and z, and whether each is at the box's top.
    pub fn corners(self) -> (r: [(i32, i32, bool); 4])
        ensures
            r@ == face_corners(self),
    {
        let r = match self {
            BoxFace::NegZ => [(0, 0, false), (1, 0, false), (1, 0, true), (0, 0, true)],
            BoxFace::PosZ => [(1, 1, false), (0, 1, false), (0, 1, true), (1, 1, true)],
            BoxFace::PosX => [(1, 0, false), (1, 1, false), (1, 1, true), (1, 0, true)],
            BoxFace::NegX => [(0, 1, false), (0, 0, false), (0, 0, true), (0, 1, true)],
            BoxFace::Top => [(0, 0, true), (1, 0, true), (1, 1, true), (0, 1, true)],
            BoxFace::Bottom => [(0, 0, false), (1, 0, false), (1, 1, false), (0, 1, false)],
        };
        assert(r@ =~= face_corners(self));
        r
    }

    /// The way the face looks, which the box draw hands to `0x48a6a0` to
    /// light it by the sun.
    pub fn normal(self) -> (r: [i32; 3])
        ensures
            r@ == face_normal(self),
    {
        let r = match self {
            BoxFace::NegZ => [0, 0, -1],
            BoxFace::PosZ => [0, 0, 1],
            BoxFace::PosX => [1, 0, 0],
            BoxFace::NegX => [-1, 0, 0],
            BoxFace::Top => [0, 1, 0],
            BoxFace::Bottom => [0, -1, 0],
        };
        assert(r@ =~= face_normal(self));
        r
    }
}

pub open spec fn face_corners(f: BoxFace) -> Seq<(i32, i32, bool)> {
    match f {
        BoxFace::NegZ => seq![(0i32, 0i32, false), (1, 0, false), (1, 0, true), (0, 0, true)],
        BoxFace::PosZ => seq![(1, 1, false), (0, 1, false), (0, 1, true), (1, 1, true)],
        BoxFace::PosX => seq![(1, 0, false), (1, 1, false), (1, 1, true), (1, 0, true)],
        BoxFace::NegX => seq![(0, 1, false), (0, 0, false), (0, 0, true), (0, 1, true)],
        BoxFace::Top => seq![(0, 0, true), (1, 0, true), (1, 1, true), (0, 1, true)],
        BoxFace::Bottom => seq![(0, 0, false), (1, 0, false), (1, 1, false), (0, 1, false)],
    }
}

pub open spec fn face_normal(f: BoxFace) -> Seq<i32> {
    match f {
        BoxFace::NegZ => seq![0i32, 0i32, -1i32],
        BoxFace::PosZ => seq![0i32, 0i32, 1i32],
        BoxFace::PosX => seq![1i32, 0i32, 0i32],
        BoxFace::NegX => seq![-1i32, 0i32, 0i32],
        BoxFace::Top => seq![0i32, 1i32, 0i32],
        BoxFace::Bottom => seq![0i32, -1i32, 0i32],
    }
}

/// Two per chamber: floor and ceiling.
pub const CHAMBER_TEXTURES: usize = 2;

/// The cell a coordinate falls in, the world wrapping at 128: its low seven
/// bits, as `and eax, 0x7f` takes them.
pub open spec fn wrap_cell(v: i32) -> int {
    ((v as u32) & 127u32) as int
}

/// The cell `(x, z)` is, in a grid stored row by row of z.
pub open spec fn cell_of(x: i32, z: i32) -> int {
    wrap_cell(z) * 128 + wrap_cell(x)
}

fn cell_index(x: i32, z: i32) -> (r: usize)
    ensures
        r == cell_of(x, z),
        r < CELLS,
{
    let cx = (x as u32) & 127;
    let cz = (z as u32) & 127;
    assert(cx < 128) by (bit_vector)
        requires
            cx == (x as u32) & 127u32,
    ;
    assert(cz < 128) by (bit_vector)
        requires
            cz == (z as u32) & 127u32,
    ;
    cz as usize * 128 + cx as usize
}

/// A 128 x 128 plane of altitudes, scaled the way the engine scales that layer.
///
/// Signed, because [`Scale::Down`] layers are entirely negative.
#[derive(Debug, Clone)]
pub struct Altitudes {
    pub scale: Scale,
    pub values: Vec<i16>,
}

impl Altitudes {
    pub fn parse(data: &[u8], scale: Scale) -> (r: Result<Altitudes>)
        ensures
            data@.len() == CELLS <==> r is Ok,
            r matches Ok(a) ==> a.scale == scale && a.values@.len() == CELLS && forall|i: int|
                0 <= i < CELLS ==> #[trigger] a.values@[i] == scaled(scale, data@[i]),
            r matches Err(e) ==> e matches Error::WrongSize { what, want, have } && what@ == "altitude layer"@ && have
                == data@.len() && want@ == decimal(CELLS as nat) + bytes_unit(),
    {
        if data.len() != CELLS {
            return Err(Error::WrongSize { what: "altitude layer", want: wanted(CELLS as u128), have: data.len() });
        }
        let mut values: Vec<i16> = Vec::with_capacity(CELLS);
        let mut i: usize = 0;
        while i < data.len()
            invariant
                i <= data@.len(),
                values@.len() == i,
                forall|k: int| 0 <= k < i ==> #[trigger] values@[k] == scaled(scale, data@[k]),
            decreases data@.len() - i,
        {
            values.push(scale.apply(data[i]));
            i += 1;
        }
        Ok(Altitudes { scale, values })
    }

    /// The world wraps at 128 cells, so out-of-range indices are masked rather
    /// than rejected - exactly as `heightAtGrid` does with `and eax, 0x7f`.
    pub fn at(&self, x: i32, z: i32) -> (r: i16)
        requires
            self.values@.len() == CELLS,
        ensures
            r == self.values@[cell_of(x, z)],
    {
        self.values[cell_index(x, z)]
    }

    /// The lowest and highest altitude, `(0, 0)` for an empty plane.
    pub fn span(&self) -> (r: (i16, i16))
        ensures
            self.values@.len() == 0 ==> r == (0i16, 0i16),
            self.values@.len() > 0 ==> {
                &&& exists|i: int| 0 <= i < self.values@.len() && self.values@[i] == r.0
                &&& exists|i: int| 0 <= i < self.values@.len() && self.values@[i] == r.1
                &&& forall|i: int| 0 <= i < self.values@.len() ==> r.0 <= #[trigger] self.values@[i] <= r.1
            },
    {
        if self.values.len() == 0 {
            return (0, 0);
        }
        let mut lo = self.values[0];
        let mut hi = self.values[0];
        let ghost mut lo_at: int = 0;
        let ghost mut hi_at: int = 0;
        let mut i: usize = 1;
        while i < self.values.len()
            invariant
                1 <= i <= self.values@.len(),
                0 <= lo_at < i && self.values@[lo_at] == lo,
                0 <= hi_at < i && self.values@[hi_at] == hi,
                forall|k: int| 0 <= k < i ==> lo <= #[trigger] self.values@[k] <= hi,
            decreases self.values@.len() - i,
        {
            let v = self.values[i];
            if v < lo {
                lo = v;
                proof { lo_at = i as int; }
            }
            if v > hi {
                hi = v;
                proof { hi_at = i as int; }
            }
            i += 1;
        }
        (lo, hi)
    }
}

/// A terrain texture word: an index into the level's `.TEX` list in the low
/// twelve bits, and a UV orientation code in the top four.
#[derive(Debug, Clone, Copy, PartialEq, Eq, Default)]
pub struct TextureRef(pub u16);

impl TextureRef {
    /// Index into the level's `.TEX` list. `HELLBEND.EXE:0x413c20` resolves it
    /// as `textureTable[word & 0xfff]`.
    pub fn index(self) -> (r: u16)
        ensures
            r == self.0 % 4096,
    {
        let w = self.0;
        assert(w & 0x0fff == w % 4096) by (bit_vector);
        w & 0x0fff
    }

    /// The orientation code, 0 to 15.
    pub fn orientation(self) -> (r: u8)
        ensures
            r == self.0 / 4096,
    {
        let w = self.0;
        assert(w >> 12 == w / 4096) by (bit_vector);
        (w >> 12) as u8
    }

    /// Whether the texture is drawn in its authored orientation.
    pub fn is_upright(self) -> (r: bool)
        ensures
            r == (self.0 < 4096),
    {
        self.orientation() == 0
    }

    /// The texture coordinates of the cell's corners a (x, z), b (x+1, z),
    /// c (x+1, z+1), d (x, z+1), for a texture whose coordinates run `lo` to
    /// `hi`. Code 0 runs v against z; the top two bits turn the square a
    /// quarter each, then bit one swaps a with b and d with c, and bit zero a
    /// with d and b with c.
    pub fn corner_uvs<T: Copy>(self, lo: T, hi: T) -> (r: [(T, T); 4])
        ensures
            r@ == Seq::new(4, |i: int| square_corner(lo, hi, corner_order((self.0 / 4096) as int)[i])),
    {
        let base = [(lo, hi), (hi, hi), (hi, lo), (lo, lo)];
        let code = self.orientation();
        let turn = (code >> 2) as usize;
        assert(code < 16);
        assert((code >> 2) == code / 4) by (bit_vector);
        let (t1, t2, t3) = (turn + 1, turn + 2, turn + 3);
        assert(t1 & 3 == t1 % 4 && t2 & 3 == t2 % 4 && t3 & 3 == t3 % 4) by (bit_vector);
        let mut uv = [base[turn], base[t1 & 3], base[t2 & 3], base[t3 & 3]];
        if code & 2 != 0 {
            let (a, b, c, d) = (uv[0], uv[1], uv[2], uv[3]);
            uv = [b, a, d, c];
        }
        if code & 1 != 0 {
            let (a, b, c, d) = (uv[0], uv[1], uv[2], uv[3]);
            uv = [d, c, b, a];
        }
        assert((code & 2 != 0) == ((code / 2) % 2 == 1) && (code & 1 != 0) == (code % 2 == 1)) by (bit_vector);
        assert(uv@ =~= Seq::new(4, |i: int| square_corner(lo, hi, corner_order((self.0 / 4096) as int)[i])));
        uv
    }
}

/// The corners of the texture's square in turn: (lo, hi), (hi, hi),
/// (hi, lo), (lo, lo).
pub open spec fn square_corner<T>(lo: T, hi: T, k: int) -> (T, T) {
    if k == 0 { (lo, hi) } else if k == 1 { (hi, hi) } else if k == 2 { (hi, lo) } else { (lo, lo) }
}

/// Which corner of the square each of the cell's corners takes for an
/// orientation code: turned a quarter for each of the top two bits, then
/// mirrored by bits one and zero.
pub open spec fn corner_order(code: int) -> Seq<int> {
    let turn = code / 4;
    let turned = Seq::new(4, |i: int| (turn + i) % 4);
    let mirrored = if (code / 2) % 2 == 1 { seq![turned[1], turned[0], turned[3], turned[2]] } else { turned };
    if code % 2 == 1 { seq![mirrored[3], mirrored[2], mirrored[1], mirrored[0]] } else { mirrored }
}

/// A 128 x 128 plane of `n` `u16` per cell.
///
/// The loader accepts a narrow form - one byte per value instead of two - and
/// picks it on file length.
#[derive(Debug, Clone)]
pub struct Indices {
    pub per_cell: usize,
    pub values: Vec<u16>,
}

/// How the two sizes a layer may be are asked for: `{wide} or {narrow} bytes`.
pub open spec fn wide_or_narrow(wide: nat, narrow: nat) -> Seq<char> {
    decimal(wide) + seq![' ', 'o', 'r', ' '] + decimal(narrow) + bytes_unit()
}

impl Indices {
    pub fn parse(data: &[u8], per_cell: usize, what: &'static str) -> (r: Result<Indices>)
        ensures
            (data@.len() == CELLS * per_cell * 2 || data@.len() == CELLS * per_cell) <==> r is Ok,
            r matches Ok(ix) ==> {
                &&& ix.per_cell == per_cell
                &&& ix.values@.len() == CELLS * per_cell
                &&& data@.len() == CELLS * per_cell * 2 ==> forall|i: int|
                    0 <= i < CELLS * per_cell ==> #[trigger] ix.values@[i] == le_u16(data@, 2 * i)
                &&& data@.len() != CELLS * per_cell * 2 ==> forall|i: int|
                    0 <= i < CELLS * per_cell ==> #[trigger] ix.values@[i] == data@[i] as u16
            },
            r matches Err(e) ==> e matches Error::WrongSize { what: w, want, have } && w == what
                && have == data@.len() && want@ == wide_or_narrow(
                (CELLS * per_cell * 2) as nat,
                (CELLS * per_cell) as nat,
            ),
    {
        let narrow = CELLS as u128 * per_cell as u128;
        let wide = narrow * 2;
        let n = data.len();
        if n as u128 == wide {
            let count = n / 2;
            let mut values: Vec<u16> = Vec::with_capacity(count);
            let mut i: usize = 0;
            while i < count
                invariant
                    count * 2 == n,
                    n == data@.len(),
                    i <= count,
                    values@.len() == i,
                    forall|k: int| 0 <= k < i ==> #[trigger] values@[k] == le_u16(data@, 2 * k),
                decreases count - i,
            {
                values.push(u16_at(data, i * 2));
                i += 1;
            }
            Ok(Indices { per_cell, values })
        } else if n as u128 == narrow {
            let mut values: Vec<u16> = Vec::with_capacity(n);
            let mut i: usize = 0;
            while i < n
                invariant
                    n == data@.len(),
                    i <= n,
                    values@.len() == i,
                    forall|k: int| 0 <= k < i ==> #[trigger] values@[k] == data@[k] as u16,
                decreases n - i,
            {
                values.push(data[i] as u16);
                i += 1;
            }
            Ok(Indices { per_cell, values })
        } else {
            let mut want = decimal_chars(wide);
            want.push(' ');
            want.push('o');
            want.push('r');
            want.push(' ');
            let mut second = decimal_chars(narrow);
            want.append(&mut second);
            want.push(' ');
            want.push('b');
            want.push('y');
            want.push('t');
            want.push('e');
            want.push('s');
            proof {
                assert(want@ =~= wide_or_narrow(wide as nat, narrow as nat));
            }
            Err(Error::WrongSize { what, want: string_of(want.as_slice()), have: n })
        }
    }

    pub fn at(&self, x: i32, z: i32, slot: usize) -> (r: u16)
        requires
            self.values@.len() == CELLS * self.per_cell,
            slot < self.per_cell,
        ensures
            r == self.values@[cell_of(x, z) * self.per_cell + slot],
    {
        let cell = cell_index(x, z);
        proof {
            assert(cell * self.per_cell + slot < CELLS * self.per_cell) by (nonlinear_arith)
                requires
                    cell < CELLS,
                    slot < self.per_cell,
            ;
        }
        let n = self.values.len();
        self.values[cell * self.per_cell + slot]
    }

    /// The same value read as an index plus an orientation.
    pub fn texture_at(&self, x: i32, z: i32, slot: usize) -> (r: TextureRef)
        requires
            self.values@.len() == CELLS * self.per_cell,
            slot < self.per_cell,
        ensures
            r.0 == self.values@[cell_of(x, z) * self.per_cell + slot],
    {
        TextureRef(self.at(x, z, slot))
    }
}

/// The four layer indices `heightAtGrid` and `groundTriangleInt` accept, and
/// the two box sets. There is no layer 1 for a height query.
#[derive(Debug, Clone, Copy, PartialEq, Eq)]
pub enum Layer {
    /// The ground surface.
    Ground,
    /// Box set A. Only `intersectingBoxSurface` accepts it.
    BoxA,
    /// The chamber floor.
    ChamberFloor,
    /// The chamber ceiling.
    ChamberCeiling,
    /// Box set B. Also only `intersectingBoxSurface`.
    BoxB,
}

/// One extruded layer: a bottom altitude, a top altitude and six textures.
#[derive(Debug, Clone)]
pub struct BoxLayer {
    pub bottom: Altitudes,
    pub top: Altitudes,
    pub textures: Indices,
}

/// The inverse: a floor, a ceiling and two textures.
#[derive(Debug, Clone)]
pub struct ChamberLayer {
    pub floor: Altitudes,
    pub ceiling: Altitudes,
    pub textures: Indices,
}

/// `DATA\<stem>.LTE`: the precomputed shading database, seven bytes per cell:
/// two for the ground, one for box set A, three for the chambers and one for
/// box set B, in that order.
#[derive(Debug, Clone)]
pub struct Shading {
    /// Two per cell: the intensity in the low byte and a flag in bit 8.
    pub ground: Vec<[u8; 2]>,
    /// One per cell.
    pub box_a: Vec<u8>,
    /// Three per cell: the chamber floor's intensity, the ceiling's, and two
    /// flags.
    pub chambers: Vec<[u8; 3]>,
    /// One per cell.
    pub box_b: Vec<u8>,
}

impl Shading {
    /// Seven bytes per cell.
    pub const PER_CELL: usize = 7;
    pub const BYTES: usize = 114688;

    pub open spec fn wf(&self) -> bool {
        &&& self.ground@.len() == CELLS
        &&& self.box_a@.len() == CELLS
        &&& self.chambers@.len() == CELLS
        &&& self.box_b@.len() == CELLS
    }

    #[verifier::spinoff_prover]
    pub fn parse(data: &[u8]) -> (r: Result<Shading>)
        ensures
            data@.len() == 114688 <==> r is Ok,
            r matches Ok(s) ==> {
                &&& s.wf()
                &&& forall|c: int|
                    0 <= c < CELLS ==> {
                        &&& #[trigger] s.ground@[c] == [data@[7 * c], data@[7 * c + 1]]
                        &&& s.box_a@[c] == data@[7 * c + 2]
                        &&& s.chambers@[c] == [data@[7 * c + 3], data@[7 * c + 4], data@[7 * c + 5]]
                        &&& s.box_b@[c] == data@[7 * c + 6]
                    }
            },
            r matches Err(e) ==> e matches Error::WrongSize { what, want, have } && what@ == "LTE shading database"@ && have
                == data@.len() && want@ == decimal(114688) + bytes_unit(),
    {
        if data.len() != 114688 {
            return Err(Error::WrongSize { what: "LTE shading database", want: wanted(114688), have: data.len() });
        }
        let mut out = Shading {
            ground: Vec::with_capacity(CELLS),
            box_a: Vec::with_capacity(CELLS),
            chambers: Vec::with_capacity(CELLS),
            box_b: Vec::with_capacity(CELLS),
        };
        let mut c: usize = 0;
        while c < CELLS
            invariant
                c <= CELLS,
                data@.len() == 114688,
                out.ground@.len() == c,
                out.box_a@.len() == c,
                out.chambers@.len() == c,
                out.box_b@.len() == c,
                forall|k: int|
                    0 <= k < c ==> {
                        &&& #[trigger] out.ground@[k] == [data@[7 * k], data@[7 * k + 1]]
                        &&& out.box_a@[k] == data@[7 * k + 2]
                        &&& out.chambers@[k] == [data@[7 * k + 3], data@[7 * k + 4], data@[7 * k + 5]]
                        &&& out.box_b@[k] == data@[7 * k + 6]
                    },
            decreases CELLS - c,
        {
            let at = c * 7;
            let ghost before = out;
            out.ground.push([data[at], data[at + 1]]);
            out.box_a.push(data[at + 2]);
            out.chambers.push([data[at + 3], data[at + 4], data[at + 5]]);
            out.box_b.push(data[at + 6]);
            proof {
                assert forall|k: int| 0 <= k < c + 1 implies {
                    &&& #[trigger] out.ground@[k] == [data@[7 * k], data@[7 * k + 1]]
                    &&& out.box_a@[k] == data@[7 * k + 2]
                    &&& out.chambers@[k] == [data@[7 * k + 3], data@[7 * k + 4], data@[7 * k + 5]]
                    &&& out.box_b@[k] == data@[7 * k + 6]
                } by {
                    if k < c {
                        assert(out.ground@[k] == before.ground@[k]);
                        assert(out.box_a@[k] == before.box_a@[k]);
                        assert(out.chambers@[k] == before.chambers@[k]);
                        assert(out.box_b@[k] == before.box_b@[k]);
                    }
                }
            }
            c += 1;
        }
        Ok(out)
    }

    pub fn ground_at(&self, x: i32, z: i32) -> (r: [u8; 2])
        requires
            self.ground@.len() == CELLS,
        ensures
            r == self.ground@[cell_of(x, z)],
    {
        self.ground[cell_index(x, z)]
    }

    /// The ground cell's two bytes read as one little-endian value: an
    /// intensity in the low byte and a single flag in bit 8.
    pub fn ground_word(&self, x: i32, z: i32) -> (r: u16)
        requires
            self.ground@.len() == CELLS,
        ensures
            r == self.ground@[cell_of(x, z)][0] + 256 * self.ground@[cell_of(x, z)][1],
    {
        let g = self.ground_at(x, z);
        g[0] as u16 + 256 * (g[1] as u16)
    }

    /// The low byte: 0 is dark, 255 is full brightness.
    pub fn ground_intensity(&self, x: i32, z: i32) -> (r: u8)
        requires
            self.ground@.len() == CELLS,
        ensures
            r == self.ground@[cell_of(x, z)][0],
    {
        self.ground_at(x, z)[0]
    }

    /// Bit 8, whatever it means.
    pub fn ground_flag(&self, x: i32, z: i32) -> (r: bool)
        requires
            self.ground@.len() == CELLS,
        ensures
            r == (self.ground@[cell_of(x, z)][1] % 2 == 1),
    {
        let hi = self.ground_at(x, z)[1];
        assert(hi & 1 == hi % 2) by (bit_vector);
        hi & 1 != 0
    }

    pub fn chamber_at(&self, x: i32, z: i32) -> (r: [u8; 3])
        requires
            self.chambers@.len() == CELLS,
        ensures
            r == self.chambers@[cell_of(x, z)],
    {
        self.chambers[cell_index(x, z)]
    }

    /// The chamber floor's or ceiling's intensity at the grid point `(x, z)`,
    /// or `None` where it takes the level's ambient instead: the floor from
    /// the first byte unless the third's bit 0 is set, the ceiling from the
    /// second unless bit 1 is.
    pub fn chamber_intensity(&self, x: i32, z: i32, ceiling: bool) -> (r: Option<u8>)
        requires
            self.chambers@.len() == CELLS,
        ensures
            ({
                let c = self.chambers@[cell_of(x, z)];
                if !ceiling {
                    r == if c[2] % 2 == 0 { Some(c[0]) } else { None::<u8> }
                } else {
                    r == if (c[2] / 2) % 2 == 0 { Some(c[1]) } else { None::<u8> }
                }
            }),
    {
        let c = self.chamber_at(x, z);
        let flags = c[2];
        assert(flags & 1 == flags % 2) by (bit_vector);
        assert(flags & 2 == 2 * ((flags / 2) % 2)) by (bit_vector);
        if !ceiling {
            if flags & 1 == 0 { Some(c[0]) } else { None }
        } else {
            if flags & 2 == 0 { Some(c[1]) } else { None }
        }
    }
}

#[derive(Debug, Clone)]
pub struct Terrain {
    /// From `.RAW`.
    pub ground: Altitudes,
    /// From `.CLR`, one value per cell.
    pub colour: Indices,
    /// From `.RA0`, `.RA1`, `.CL0`.
    pub boxes_a: BoxLayer,
    /// From `.RA2`, `.RA3`, `.CL1`.
    pub chambers: ChamberLayer,
    /// From `.RA4`, `.RA5`, `.CL2`.
    pub boxes_b: BoxLayer,
    /// From `DATA\<stem>.LTE`. Absent when the level ships without one, in
    /// which case the engine computes it at load time.
    pub shading: Option<Shading>,
}


/// The eleven files the terrain needs, in load order: the extension the
/// engine appends to the level stem, and what the file is.
pub const REQUIRED: [(&'static str, &'static str); 11] = [
    ("raw", "ground altitude"),
    ("clr", "ground colour"),
    ("ra0", "box A bottom"),
    ("ra1", "box A top"),
    ("cl0", "box A textures"),
    ("ra2", "chamber floor"),
    ("ra3", "chamber ceiling"),
    ("cl1", "chamber textures"),
    ("ra4", "box B bottom"),
    ("ra5", "box B top"),
    ("cl2", "box B textures"),
];

/// How many texture slots a cell of required file `k` holds, or none where
/// the file is altitudes.
pub open spec fn slots_of(k: int) -> usize {
    if k == 1 { 1 } else if k == 4 || k == 10 { BOX_TEXTURES } else if k == 7 { CHAMBER_TEXTURES } else { 0 }
}

/// How required file `k`'s altitudes are scaled: up above ground, down
/// below it.
pub open spec fn scale_of(k: int) -> Scale {
    if k <= 4 { Scale::Up } else { Scale::Down }
}

/// Where required file `k`'s altitudes stand among the altitude layers.
pub open spec fn layer_slot(k: int) -> int {
    k - (if k <= 1 { 0int } else if k <= 4 { 1 } else if k <= 7 { 2 } else { 3 })
}

/// Where required file `k`'s indices stand among the index layers.
pub open spec fn index_slot(k: int) -> int {
    if k == 1 { 0 } else if k == 4 { 1 } else if k == 7 { 2 } else { 3 }
}

/// Whether bytes are the size required file `k` must be.
pub open spec fn file_fits(k: int, data: Seq<u8>) -> bool {
    if slots_of(k) == 0 {
        data.len() == CELLS
    } else {
        data.len() == CELLS * slots_of(k) * 2 || data.len() == CELLS * slots_of(k)
    }
}

/// A layer of altitudes read from some bytes at a scale.
pub open spec fn altitudes_from(a: Altitudes, data: Seq<u8>, scale: Scale) -> bool {
    &&& a.scale == scale
    &&& a.values@.len() == CELLS
    &&& forall|i: int| 0 <= i < CELLS ==> #[trigger] a.values@[i] == scaled(scale, data[i])
}

/// A layer of indices read from some bytes, `per_cell` to a cell.
pub open spec fn indices_from(ix: Indices, data: Seq<u8>, per_cell: usize) -> bool {
    &&& ix.per_cell == per_cell
    &&& ix.values@.len() == CELLS * per_cell
    &&& data.len() == CELLS * per_cell * 2 ==> forall|i: int|
        0 <= i < CELLS * per_cell ==> #[trigger] ix.values@[i] == le_u16(data, 2 * i)
    &&& data.len() != CELLS * per_cell * 2 ==> forall|i: int|
        0 <= i < CELLS * per_cell ==> #[trigger] ix.values@[i] == data[i] as u16
}

/// The shading database read from some bytes.
pub open spec fn shading_from(s: Shading, data: Seq<u8>) -> bool {
    &&& s.wf()
    &&& forall|c: int| 0 <= c < CELLS ==> {
        &&& #[trigger] s.ground@[c] == [data[7 * c], data[7 * c + 1]]
        &&& s.box_a@[c] == data[7 * c + 2]
        &&& s.chambers@[c] == [data[7 * c + 3], data[7 * c + 4], data[7 * c + 5]]
        &&& s.box_b@[c] == data[7 * c + 6]
    }
}

/// A terrain's eleven layers, each read from its required file.
pub open spec fn terrain_from(t: Terrain, files: Seq<Seq<u8>>) -> bool {
    &&& altitudes_from(t.ground, files[0], Scale::Up)
    &&& indices_from(t.colour, files[1], 1)
    &&& altitudes_from(t.boxes_a.bottom, files[2], Scale::Up)
    &&& altitudes_from(t.boxes_a.top, files[3], Scale::Up)
    &&& indices_from(t.boxes_a.textures, files[4], BOX_TEXTURES)
    &&& altitudes_from(t.chambers.floor, files[5], Scale::Down)
    &&& altitudes_from(t.chambers.ceiling, files[6], Scale::Down)
    &&& indices_from(t.chambers.textures, files[7], CHAMBER_TEXTURES)
    &&& altitudes_from(t.boxes_b.bottom, files[8], Scale::Down)
    &&& altitudes_from(t.boxes_b.top, files[9], Scale::Down)
    &&& indices_from(t.boxes_b.textures, files[10], BOX_TEXTURES)
}

/// The error for a required file that is the wrong size.
pub open spec fn file_refused(k: int, data: Seq<u8>, e: Error) -> bool {
    e matches Error::WrongSize { what, want, have } && have == data.len()
        && what@ == (if slots_of(k) == 0 { "altitude layer"@ } else { REQUIRED[k].1@ })
        && want@ == (if slots_of(k) == 0 {
        decimal(CELLS as nat) + bytes_unit()
    } else {
        wide_or_narrow((CELLS * slots_of(k) * 2) as nat, (CELLS * slots_of(k)) as nat)
    })
}

/// The error for a required file that is not there.
pub open spec fn file_missing(k: int, e: Error) -> bool {
    e matches Error::WrongSize { what, want, have } && what == REQUIRED[k].1 && want@ == "a file"@ && have == 0
}

/// What loading gives for the files fetched, in order, up to the first that
/// is missing or the wrong size: that file's error; or, where all eleven
/// read, the terrain, with the shading database where one was fetched and
/// reads, or its error where it does not.
pub open spec fn loaded(got: Seq<Option<Seq<u8>>>, r: Result<Terrain>) -> bool {
    let n = got.len();
    &&& 1 <= n <= 12
    &&& forall|k: int| 0 <= k < n - 1 && k < 11 ==> ((#[trigger] got[k]) matches Some(d) && file_fits(k, d))
    &&& n <= 11 ==> (r matches Err(e) && match got[n - 1] {
        None => file_missing(n - 1, e),
        Some(d) => !file_fits(n - 1, d) && file_refused(n - 1, d, e),
    })
    &&& n == 12 ==> {
        let files = Seq::new(11, |k: int| got[k]->0);
        match got[11] {
            None => r matches Ok(t) && t.shading is None && terrain_from(t, files),
            Some(d) => if d.len() == 114688 {
                r matches Ok(t) && (t.shading matches Some(s) && shading_from(s, d)) && terrain_from(t, files)
            } else {
                r matches Err(e) && (e matches Error::WrongSize { what, want, have } && have == d.len()
                    && what@ == "LTE shading database"@ && want@ == decimal(114688) + bytes_unit())
            },
        }
    }
}

/// The files' bytes, as values.
pub open spec fn answers_view(files: Seq<Option<Vec<u8>>>) -> Seq<Option<Seq<u8>>> {
    files.map_values(|f: Option<Vec<u8>>| match f { Some(v) => Some(v@), None => None })
}

/// Whether a run of answers stops where loading stops: every file before the
/// last is there and the right size, and the run is all twelve or ends at
/// the first that is missing or the wrong size.
pub open spec fn answers_stop(got: Seq<Option<Seq<u8>>>) -> bool {
    let n = got.len();
    &&& 1 <= n <= 12
    &&& forall|k: int| 0 <= k < n - 1 && k < 11 ==> ((#[trigger] got[k]) matches Some(d) && file_fits(k, d))
    &&& n <= 11 ==> match got[n - 1] {
        None => true,
        Some(d) => !file_fits(n - 1, d),
    }
}

/// The extension asked for in turn `k`: the eleven required files, then the
/// shading database.
pub open spec fn asked(k: int) -> &'static str {
    if k < 11 { REQUIRED[k].0 } else { "lte" }
}

/// Whether each answer is what `fetch` gave, in its state at the time, for
/// the extension asked in that turn, starting from `first`.
pub open spec fn answered<F: FnMut(&str) -> Option<Vec<u8>>>(first: F, states: Seq<F>, answers: Seq<Option<Vec<u8>>>) -> bool {
    &&& states.len() == answers.len()
    &&& states.len() > 0 ==> states[0] == first
    &&& forall|k: int| 0 <= k < answers.len() ==> call_ensures(states[k], (asked(k),), #[trigger] answers[k])
}

/// Whether bytes are the size required file `k` must be.
pub(crate) fn fits(k: usize, data: &[u8]) -> (r: bool)
    requires
        k < 11,
    ensures
        r == file_fits(k as int, data@),
{
    let slots: usize = if k == 1 { 1 } else if k == 4 || k == 10 { BOX_TEXTURES } else if k == 7 { CHAMBER_TEXTURES } else { 0 };
    if slots == 0 {
        data.len() == CELLS
    } else {
        data.len() == CELLS * slots * 2 || data.len() == CELLS * slots
    }
}

impl Terrain {
    /// Assemble a terrain from the files fetched for it, in load order: the
    /// first missing or wrong-sized one is the error; where all eleven read,
    /// the twelfth is the shading database, which may be absent.
    pub fn from_files(files: &[Option<Vec<u8>>]) -> (r: Result<Terrain>)
        requires
            answers_stop(answers_view(files@)),
        ensures
            loaded(answers_view(files@), r),
    {
        let ghost all = answers_view(files@);
        let ghost mut got: Seq<Option<Seq<u8>>> = Seq::empty();
        let mut layers: Vec<Altitudes> = Vec::new();
        let mut indices: Vec<Indices> = Vec::new();
        let ghost mut files_seen: Seq<Seq<u8>> = Seq::empty();
        let mut k: usize = 0;
        while k < 11
            invariant
                all == answers_view(files@),
                answers_stop(all),
                k <= 11,
                k < files@.len(),
                got == all.take(k as int),
                files_seen.len() == k,
                forall|j: int| 0 <= j < k ==> (#[trigger] got[j]) == Some(files_seen[j]) && file_fits(j, files_seen[j]),
                layers@.len() + indices@.len() == k,
                layers@.len() == (if k <= 1 { k as int } else if k <= 4 { k as int - 1 } else if k <= 7 { k as int - 2 } else if k <= 10 { k as int - 3 } else { 7 }),
                forall|j: int| 0 <= j < k && slots_of(j) == 0 ==> altitudes_from(layers@[layer_slot(j)], #[trigger] files_seen[j], scale_of(j)),
                forall|j: int| 0 <= j < k && slots_of(j) != 0 ==> indices_from(indices@[index_slot(j)], #[trigger] files_seen[j], slots_of(j)),
            decreases 11 - k,
        {
            let (_, what) = REQUIRED[k];
            let data = match &files[k] {
                Some(d) => d,
                None => {
                    let r = Err(Error::WrongSize { what, want: "a file".to_owned(), have: 0 });
                    proof {
                        assert(all[k as int] is None);
                        assert(k as int == all.len() - 1);
                        assert(all.take(k + 1) =~= all);
                        got = all;
                        assert(loaded(got, r));
                    }
                    return r;
                },
            };
            let per_cell: usize = if k == 1 { 1 } else if k == 4 || k == 10 { BOX_TEXTURES } else if k == 7 { CHAMBER_TEXTURES } else { 0 };
            if per_cell == 0 {
                let scale = if k <= 4 { Scale::Up } else { Scale::Down };
                match Altitudes::parse(data.as_slice(), scale) {
                    Ok(a) => layers.push(a),
                    Err(e) => {
                        let r = Err(e);
                        proof {
                            assert(all[k as int] == Some(data@));
                            assert(k as int == all.len() - 1);
                            assert(all.take(k + 1) =~= all);
                            got = all;
                            assert(loaded(got, r));
                        }
                        return r;
                    },
                }
            } else {
                match Indices::parse(data.as_slice(), per_cell, what) {
                    Ok(ix) => indices.push(ix),
                    Err(e) => {
                        let r = Err(e);
                        proof {
                            assert(all[k as int] == Some(data@));
                            assert(k as int == all.len() - 1);
                            assert(all.take(k + 1) =~= all);
                            got = all;
                            assert(loaded(got, r));
                        }
                        return r;
                    },
                }
            }
            proof {
                assert(all[k as int] == Some(data@));
                assert(all.take(k + 1) =~= all.take(k as int).push(Some(data@)));
                got = all.take(k + 1);
                files_seen = files_seen.push(data@);
            }
            k += 1;
        }
        assert(all.len() == 12);
        let ghost seen: Option<Seq<u8>> = all[11];
        let shading = match &files[11] {
            Some(bytes) => match Shading::parse(bytes.as_slice()) {
                Ok(s) => Some(s),
                Err(e) => {
                    let r = Err(e);
                    proof {
                        assert(all.take(12) =~= all);
                        assert(files_seen =~= Seq::new(11, |j: int| all[j]->0));
                        assert(loaded(all, r));
                    }
                    return r;
                },
            },
            None => None,
        };
        let mut indices = indices;
        let mut layers = layers;
        let boxes_b_textures = indices.pop().unwrap();
        let chamber_textures = indices.pop().unwrap();
        let boxes_a_textures = indices.pop().unwrap();
        let colour = indices.pop().unwrap();
        let boxes_b_top = layers.pop().unwrap();
        let boxes_b_bottom = layers.pop().unwrap();
        let ceiling = layers.pop().unwrap();
        let floor = layers.pop().unwrap();
        let boxes_a_top = layers.pop().unwrap();
        let boxes_a_bottom = layers.pop().unwrap();
        let ground = layers.pop().unwrap();
        let t = Terrain {
            ground,
            colour,
            boxes_a: BoxLayer { bottom: boxes_a_bottom, top: boxes_a_top, textures: boxes_a_textures },
            chambers: ChamberLayer { floor, ceiling, textures: chamber_textures },
            boxes_b: BoxLayer { bottom: boxes_b_bottom, top: boxes_b_top, textures: boxes_b_textures },
            shading,
        };
        let r = Ok(t);
        proof {
            assert(all.take(12) =~= all);
            assert(files_seen =~= Seq::new(11, |j: int| all[j]->0));
            assert(loaded(all, r));
        }
        r
    }

    /// `fetch` resolves an extension to that file's bytes - normally a closure
    /// over a `Pod` looking in the `data` directory. The required files are
    /// asked for in load order, up to the first that is missing or the wrong
    /// size; then the shading database, `lte`, which may be absent. The files
    /// are put together by [`Terrain::from_files`].
    pub fn load<F>(mut fetch: F) -> (r: Result<Terrain>)
        where
            F: FnMut(&str) -> Option<Vec<u8>>,
        requires
            forall|ext: &str| call_requires(fetch, (ext,)),
        ensures
            exists|answers: Seq<Option<Vec<u8>>>, states: Seq<F>|
                #![trigger answered(fetch, states, answers), loaded(answers_view(answers), r)]
                answers_stop(answers_view(answers)) && answered(fetch, states, answers) && loaded(answers_view(answers), r),
    {
        let mut answers: Vec<Option<Vec<u8>>> = Vec::new();
        let ghost first = fetch;
        let ghost mut states: Seq<F> = Seq::empty();
        let mut k: usize = 0;
        let mut stopped = false;
        while k < 11 && !stopped
            invariant
                k <= 11,
                answers@.len() == k,
                answered(first, states, answers@),
                k == 0 ==> fetch == first,
                forall|ext: &str| call_requires(fetch, (ext,)),
                forall|j: int| 0 <= j < k && (j < k - 1 || !stopped) ==> ((#[trigger] answers@[j]) matches Some(d) && file_fits(j, d@)),
                stopped ==> k >= 1 && match answers@[k - 1] { Some(d) => !file_fits(k - 1, d@), None => true },
            decreases 11 - k,
        {
            let (ext, _) = REQUIRED[k];
            let ghost before = fetch;
            let answer = fetch(ext);
            let stop = match &answer {
                Some(d) => !fits(k, d.as_slice()),
                None => true,
            };
            answers.push(answer);
            proof {
                states = states.push(before);
            }
            stopped = stop;
            k += 1;
        }
        if !stopped {
            let ghost before = fetch;
            let answer = fetch("lte");
            answers.push(answer);
            proof {
                states = states.push(before);
            }
        }
        proof {
            let v = answers_view(answers@);
            assert forall|j: int| 0 <= j < v.len() - 1 && j < 11 implies ((#[trigger] v[j]) matches Some(d) && file_fits(j, d)) by {
                assert(answers@[j] matches Some(d) && file_fits(j, d@));
            }
            if stopped {
                assert(v[v.len() - 1] == (match answers@[k - 1] { Some(d) => Some(d@), None => None }));
            }
        }
        let r = Self::from_files(answers.as_slice());
        assert(answers_stop(answers_view(answers@)) && answered(first, states, answers@) && loaded(answers_view(answers@), r));
        r
    }
}

} // verus!
