//! The `.BIN` model: a flat stream of variable-length MRGL nodes.
//!
//! The size table is transcribed from the jump table at `HELLBEND.EXE:0x47442c`
//! and is what lets a reader step over a node it does not understand.

use vstd::prelude::*;
use crate::bytes::{le_u32, u32_at, i32_at, cstr, cstr_bytes, utf8_lossy};
use crate::formats::{Error, Result};
use crate::formats::fixed::floor_div;

verus! {

/// End of the node stream.
pub const END: u32 = 0x00;
/// Vertex list: count at +8, then three `i32` per vertex.
pub const VERTEX_LIST: u32 = 0x02;
/// Material: a 16-byte texture name at +8.
pub const MATERIAL: u32 = 0x0D;
/// Textured polygon: corner count at +4, a normal and plane constant, then
/// 12 bytes per corner from +0x18.
pub const POLYGON: u32 = 0x0E;
/// Start of a mesh. Also one of the two node types a model may begin with.
pub const MESH_START: u32 = 0x14;
/// Group: up to sixteen child model names. The other legal first node.
pub const GROUP: u32 = 0x20;
/// A group node's fixed capacity.
pub const GROUP_CHILDREN: usize = 16;
/// Where the name slots start inside a group node.
pub const GROUP_NAMES: usize = 0x18;
/// Where the runtime pointer slots start.
pub const GROUP_POINTERS: usize = 0x118;
/// Animated model, produced by the `.TXT` parser rather than read from a file.
pub const ANIMATED: u32 = 0x26;
/// The most common polygon node by far, with the same layout as [`POLYGON`].
pub const POLYGON_ALT: u32 = 0x18;
/// A flat colour, 12 bytes: a zero `i32` at +4 and a palette index at +8.
pub const FLAT_COLOUR: u32 = 0x17;
/// Texel coordinates for a run of vertices: `+4` the first vertex, `+8` the
/// count, then `(u, v)` pairs in 16.16.
pub const VERTEX_TEXELS: u32 = 0x04;
/// An indexed polygon: `+4` the corner count, `+8` a 16.16 normal, `+0x14`
/// the plane constant, `+0x18` the vertex indices.
pub const INDEXED_POLYGON: u32 = 0x0F;
/// A material that cycles through frames: `+8` the frame count, `+0x10`
/// seconds a frame in 16.16, then from `+0x1c` one 32-byte record per frame -
/// a texture name, and at `+0x10` a sound.
pub const FLIPBOOK: u32 = 0x1D;
/// The colour the flat polygons that follow are filled with.
pub const SHADE_COLOUR: u32 = 0x0A;
/// An indexed polygon filled flat with the current [`SHADE_COLOUR`].
pub const FLAT_POLYGON: u32 = 0x19;
/// The same again, node 5: a solid fill.
pub const SOLID_POLYGON: u32 = 0x05;
/// And once more, node 6: shaded across the span.
pub const SHADED_POLYGON: u32 = 0x06;

/// The palette bands a [`SHADE_COLOUR`] of 0 to 15 picks: the darkest and
/// brightest index of each (`0x50c4e8`, `0x50c528`).
pub open spec fn band(i: int) -> (u8, u8) {
    if i == 0 { (0x00, 0x1f) }
    else if i == 1 { (0x00, 0x0f) }
    else if i == 2 { (0x20, 0x3f) }
    else if i == 3 { (0x40, 0x5f) }
    else if i == 4 { (0x60, 0x7f) }
    else if i == 5 { (0x80, 0x8f) }
    else if i == 6 { (0x90, 0x9f) }
    else if i == 7 { (0xa0, 0xaf) }
    else if i == 8 { (0xb0, 0xbf) }
    else if i == 9 { (0xc0, 0xcf) }
    else if i == 10 { (0xd0, 0xdf) }
    else if i == 11 { (0xe0, 0xef) }
    else if i == 12 { (0xf0, 0xf0) }
    else if i == 13 { (0xff, 0xff) }
    else if i == 14 { (0x00, 0x00) }
    else { (0xd8, 0xd8) }
}

pub fn bands() -> (r: [(u8, u8); 16])
    ensures
        forall|i: int| 0 <= i < 16 ==> #[trigger] r@[i] == band(i),
{
    [
        (0x00, 0x1f), (0x00, 0x0f), (0x20, 0x3f), (0x40, 0x5f), (0x60, 0x7f), (0x80, 0x8f),
        (0x90, 0x9f), (0xa0, 0xaf), (0xb0, 0xbf), (0xc0, 0xcf), (0xd0, 0xdf), (0xe0, 0xef),
        (0xf0, 0xf0), (0xff, 0xff), (0x00, 0x00), (0xd8, 0xd8),
    ]
}

/// The index a [`SHADE_COLOUR`] fills with at a light of 0 to 0xffff
/// (`0x458ae0`): below 0 the colour is an index outright; otherwise the band
/// its low four bits pick, from the darkest index at light 0 toward the
/// brightest, `lo + ((hi - lo) * light >> 16)`.
pub open spec fn shaded(colour: i32, light: i32) -> u8 {
    if colour < 0 {
        (-colour) as u8
    } else {
        let (lo, hi) = band((colour % 16) as int);
        (lo + ((hi - lo) * light) / 65536) as u8
    }
}

pub fn shade_colour(colour: i32, light: i32) -> (r: u8)
    ensures
        r == shaded(colour, light),
{
    if colour < 0 {
        let magnitude: u32 = if colour == i32::MIN { 0x8000_0000 } else { (-colour) as u32 };
        return #[verifier::truncate] (magnitude as u8);
    }
    let b = bands();
    let (lo, hi) = b[(colour % 16) as usize];
    let span = hi as i64 - lo as i64;
    assert(0 <= span <= 31);
    let l = light as i64;
    assert(-0x8000_0000i64 * 31 <= span * l <= 0x7fff_ffffi64 * 31) by (nonlinear_arith)
        requires
            0 <= span <= 31,
            -0x8000_0000i64 <= l <= 0x7fff_ffffi64,
    ;
    let x = span * l;
    let step = floor_div(x, 65536);
    #[verifier::truncate] ((lo as i64 + step) as u8)
}

/// Every node type that carries a polygon payload.
pub open spec fn is_polygon_kind(kind: u32) -> bool {
    kind == 0x0E || kind == 0x11 || kind == 0x18 || kind == 0x1E || kind == 0x22
}

/// The count a node's size depends on: the `i32` at `at + off`, floored at
/// zero, or zero when it is past the end.
pub open spec fn count_at(data: Seq<u8>, at: int, off: int) -> int {
    if at + off + 4 <= data.len() {
        let v = le_u32(data, at + off) as i32;
        if v < 0 { 0 } else { v as int }
    } else {
        0
    }
}

/// Byte length of the node at `at`, or `None` if its type is not defined.
pub open spec fn node_size_of(data: Seq<u8>, at: int) -> Option<int> {
    let kind = le_u32(data, at);
    if kind == 0x00 { Some(4) }
    else if kind == 0x01 { Some(16) }
    else if kind == 0x02 { Some(12 + 12 * count_at(data, at, 8)) }
    else if kind == 0x03 { Some(12 + 4 * count_at(data, at, 8)) }
    else if kind == 0x04 { Some(12 + 8 * count_at(data, at, 8)) }
    else if kind == 0x05 || kind == 0x06 || kind == 0x07 || kind == 0x08 || kind == 0x0F
        || kind == 0x15 || kind == 0x19 || kind == 0x1A || kind == 0x1B || kind == 0x21 {
        Some(24 + 4 * count_at(data, at, 4))
    }
    else if kind == 0x09 { Some(32) }
    else if kind == 0x0A || kind == 0x0B { Some(8) }
    else if kind == 0x0C { Some(28) }
    else if kind == 0x0D { Some(24) }
    else if is_polygon_kind(kind) { Some(24 + 12 * count_at(data, at, 4)) }
    else if kind == 0x10 { Some(20) }
    else if kind == 0x12 || kind == 0x14 { Some(8) }
    else if kind == 0x16 { Some(8 + 4 * count_at(data, at, 4)) }
    else if kind == 0x17 { Some(12) }
    else if kind == 0x1D { Some(28 + 32 * count_at(data, at, 8)) }
    else if kind == 0x1F { Some(12 + 4 * count_at(data, at, 8)) }
    else if kind == 0x20 { Some(344) }
    else if kind == 0x26 { Some(15_712) }
    else { None }
}

fn count_word(data: &[u8], at: usize, off: usize) -> (r: u64)
    requires
        at + 4 <= data@.len(),
    ensures
        r == count_at(data@, at as int, off as int),
        r <= 0x7fff_ffff,
{
    if off <= data.len() - at - 4 {
        let v = i32_at(data, at + off);
        if v < 0 { 0 } else { v as u64 }
    } else {
        0
    }
}

/// The exact byte length of the node at `at`, in a `u64`, which always holds
/// it.
fn node_len(data: &[u8], at: usize) -> (r: Option<u64>)
    requires
        at + 4 <= data@.len(),
    ensures
        match node_size_of(data@, at as int) {
            Some(n) => r == Some(n as u64),
            None => r is None,
        },
{
    let kind = u32_at(data, at);
    let n: u64 = match kind {
        0x00 => 4,
        0x01 => 16,
        0x02 => 12 + 12 * count_word(data, at, 8),
        0x03 => 12 + 4 * count_word(data, at, 8),
        0x04 => 12 + 8 * count_word(data, at, 8),
        0x05 | 0x06 | 0x07 | 0x08 | 0x0F | 0x15 | 0x19 | 0x1A | 0x1B | 0x21 => 24 + 4 * count_word(data, at, 4),
        0x09 => 32,
        0x0A | 0x0B => 8,
        0x0C => 28,
        0x0D => 24,
        0x0E | 0x11 | 0x18 | 0x1E | 0x22 => 24 + 12 * count_word(data, at, 4),
        0x10 => 20,
        0x12 | 0x14 => 8,
        0x16 => 8 + 4 * count_word(data, at, 4),
        0x17 => 12,
        0x1D => 28 + 32 * count_word(data, at, 8),
        0x1F => 12 + 4 * count_word(data, at, 8),
        0x20 => 344,
        0x26 => 15_712,
        _ => return None,
    };
    Some(n)
}

/// Byte length of a node, or `None` if the type is not defined.
///
/// `at` must point at the node's type word. Nodes whose length depends on a
/// count read that count out of the node itself. A length no `usize` holds
/// comes back as `usize::MAX`.
pub fn node_size(data: &[u8], at: usize) -> (r: Option<usize>)
    requires
        at + 4 <= data@.len(),
    ensures
        match node_size_of(data@, at as int) {
            Some(n) => r == Some(fit(n)),
            None => r is None,
        },
        r matches Some(n) ==> n >= 4,
{
    match node_len(data, at) {
        Some(n) => if n > usize::MAX as u64 { Some(usize::MAX) } else { Some(n as usize) },
        None => None,
    }
}

/// A size as a `usize`: itself wherever a `usize` holds it.
pub open spec fn fit(n: int) -> usize {
    if n > usize::MAX { usize::MAX } else { n as usize }
}

#[derive(Debug, Clone, Copy)]
pub struct Node {
    pub offset: usize,
    pub kind: u32,
    pub size: usize,
}

/// What one step of the stream gives from `at`: nothing when fewer than four
/// bytes are left, an undefined type, a node that runs past the end, or the
/// node.
pub enum Step {
    Done,
    BadTag { kind: u32 },
    Truncated { need: int },
    Node { kind: u32, size: int },
}

pub open spec fn step_at(data: Seq<u8>, at: int) -> Step {
    if at + 4 > data.len() {
        Step::Done
    } else {
        match node_size_of(data, at) {
            None => Step::BadTag { kind: le_u32(data, at) },
            Some(n) => if at + n > data.len() {
                Step::Truncated { need: fit(n) as int }
            } else {
                Step::Node { kind: le_u32(data, at), size: n }
            },
        }
    }
}

/// Where the last node of a clean walk from `at` ends, `end` if there are
/// none; `None` when the walk meets an undefined type or a node that runs
/// past the end.
pub open spec fn walk_end(data: Seq<u8>, at: int, end: int) -> Option<int>
    decreases data.len() - at,
{
    match step_at(data, at) {
        Step::Done => Some(end),
        Step::BadTag { .. } => None,
        Step::Truncated { .. } => None,
        Step::Node { kind, size } => if kind == END {
            Some(at + size)
        } else {
            walk_end(data, at + size, at + size)
        },
    }
}

/// Steps the node stream. Stops after the type-0 node, or at the first
/// undefined type.
pub struct Walk<'a> {
    data: &'a [u8],
    at: usize,
    done: bool,
}

impl<'a> Walk<'a> {
    pub fn new(data: &'a [u8]) -> (r: Walk<'a>)
        ensures
            r.data_view() == data@,
            r.position() == 0,
            !r.finished(),
    {
        Walk { data, at: 0, done: false }
    }

    pub closed spec fn data_view(&self) -> Seq<u8> {
        self.data@
    }

    pub closed spec fn position(&self) -> int {
        self.at as int
    }

    pub closed spec fn finished(&self) -> bool {
        self.done
    }

    /// The next node, or the error that ends the walk, or `None` once it has
    /// ended.
    pub fn next(&mut self) -> (r: Option<Result<Node>>)
        ensures
            final(self).data_view() == old(self).data_view(),
            old(self).finished() ==> r is None && final(self).finished() && final(self).position() == old(self).position(),
            !old(self).finished() ==> {
                let data = old(self).data_view();
                let at = old(self).position();
                match step_at(data, at) {
                    Step::Done => r is None && final(self).position() == at,
                    Step::BadTag { kind } => {
                        &&& final(self).finished()
                        &&& r matches Some(Err(Error::BadTag { what, tag, at: a }))
                        &&& tag == kind && a == at
                    },
                    Step::Truncated { need } => {
                        &&& final(self).finished()
                        &&& r matches Some(Err(Error::Truncated { what, at: a, need: n, have }))
                        &&& a == at && n == need && have == data.len() - at
                    },
                    Step::Node { kind, size } => {
                        &&& r matches Some(Ok(node))
                        &&& node.offset == at && node.kind == kind && node.size == size
                        &&& final(self).position() == at + size
                        &&& final(self).finished() == (kind == END)
                    },
                }
            },
    {
        if self.done || self.data.len() < 4 || self.at > self.data.len() - 4 {
            return None;
        }
        let at = self.at;
        let kind = u32_at(self.data, at);
        let n = match node_len(self.data, at) {
            Some(n) => n,
            None => {
                self.done = true;
                return Some(Err(Error::BadTag { what: "MRGL", tag: kind, at }));
            },
        };
        let left = self.data.len() - at;
        if n > left as u64 {
            self.done = true;
            let need = if n > usize::MAX as u64 { usize::MAX } else { n as usize };
            return Some(Err(Error::Truncated { what: "MRGL", at, need, have: left }));
        }
        let size = n as usize;
        self.at = at + size;
        if kind == END {
            self.done = true;
        }
        Some(Ok(Node { offset: at, kind, size }))
    }
}

/// Model coordinates are normalised: model space is 2.14 fixed point,
/// spanning -1.0 to +1.0.
pub const MODEL_ONE: i32 = 16_384;

#[derive(Debug, Clone, Copy, Default, PartialEq, Eq)]
pub struct Vertex {
    pub x: i32,
    pub y: i32,
    pub z: i32,
}

/// A coordinate at a 16.16 scale: `(v * scale) >> 14`.
pub open spec fn scaled_coord(v: i32, scale: i32) -> i32 {
    ((v * scale) / 16384) as i32
}

fn scale_coord(v: i32, scale: i32) -> (r: i32)
    ensures
        r == scaled_coord(v, scale),
{
    let (a, b) = (v as i64, scale as i64);
    assert(-0x4000_0000_0000_0000i64 <= a * b <= 0x4000_0000_0000_0000i64) by (nonlinear_arith)
        requires
            -0x8000_0000i64 <= a <= 0x7fff_ffffi64,
            -0x8000_0000i64 <= b <= 0x7fff_ffffi64,
    ;
    let q = floor_div(a * b, 16384);
    #[verifier::truncate] (q as i32)
}

impl Vertex {
    /// This vertex as a 16.16 world offset from the object's origin, for an
    /// object placed at the given 16.16 scale.
    pub fn world(self, scale: i32) -> (r: [i32; 3])
        ensures
            r@ == seq![scaled_coord(self.x, scale), scaled_coord(self.y, scale), scaled_coord(self.z, scale)],
    {
        let r = [scale_coord(self.x, scale), scale_coord(self.y, scale), scale_coord(self.z, scale)];
        assert(r@ =~= seq![scaled_coord(self.x, scale), scaled_coord(self.y, scale), scaled_coord(self.z, scale)]);
        r
    }
}

#[derive(Debug, Clone, Copy)]
pub struct Corner {
    pub vertex: u32,
    /// Texture coordinate, stored as a texel shifted left 16.
    pub u: i32,
    pub v: i32,
}

impl Corner {
    /// The texel, 0 to 255: bits 16 to 23 of each coordinate.
    pub fn texel(self) -> (r: (u8, u8))
        ensures
            r.0 == ((self.u as u32) / 65536) % 256,
            r.1 == ((self.v as u32) / 65536) % 256,
    {
        let (u, v) = (self.u as u32, self.v as u32);
        (((u / 65536) % 256) as u8, ((v / 65536) % 256) as u8)
    }
}


#[derive(Debug, Clone)]
pub struct Polygon {
    /// 0x0e or one of its variants. 0x18 is 98% of them.
    pub kind: u32,
    /// The outward face normal, 16.16.
    pub normal: [i32; 3],
    /// The plane constant: the plane is `dot(normal, p) == plane`, 16.16.
    pub plane: i32,
    /// Three or four in every shipped model.
    pub corners: Vec<Corner>,
    /// The last [`FLAT_COLOUR`] node seen before this polygon, if any.
    pub colour: Option<u16>,
    /// The last [`SHADE_COLOUR`] before this polygon, which is what a
    /// [`FLAT_POLYGON`] is filled with.
    pub shade: Option<i32>,
    /// Which of [`Model::materials`] this polygon is textured with: the last
    /// material node seen before it in the stream.
    pub material: Option<usize>,
}

/// A vertex as the whole numbers it holds.
pub open spec fn vertex_ints(v: Vertex) -> (int, int, int) {
    (v.x as int, v.y as int, v.z as int)
}

/// The cross product of `v1 - v0` and `v2 - v1`, in whole numbers.
pub open spec fn winding_cross(p0: Vertex, p1: Vertex, p2: Vertex) -> (int, int, int) {
    let a = (p1.x - p0.x, p1.y - p0.y, p1.z - p0.z);
    let b = (p2.x - p1.x, p2.y - p1.y, p2.z - p1.z);
    (a.1 * b.2 - a.2 * b.1, a.2 * b.0 - a.0 * b.2, a.0 * b.1 - a.1 * b.0)
}

/// Whether some corner names a vertex that is not there.
pub open spec fn corner_missing(corners: Seq<Corner>, vertices: Seq<Vertex>) -> bool {
    exists|i: int| 0 <= i < corners.len() && corners[i].vertex >= vertices.len()
}

/// Whether the polygon's corners wind along its normal: `None` when a corner
/// names a vertex that is not there, or when the first three are collinear.
pub open spec fn winding(corners: Seq<Corner>, normal: Seq<i32>, vertices: Seq<Vertex>) -> Option<bool> {
    if corner_missing(corners, vertices) {
        None
    } else {
        let c = winding_cross(
            vertices[corners[0].vertex as int],
            vertices[corners[1].vertex as int],
            vertices[corners[2].vertex as int],
        );
        if c.0 == 0 && c.1 == 0 && c.2 == 0 {
            None
        } else {
            Some(c.0 * normal[0] + c.1 * normal[1] + c.2 * normal[2] > 0)
        }
    }
}

impl Polygon {
    /// Whether `cross(v1 - v0, v2 - v1)` points along the stored normal.
    ///
    /// `None` when the first three corners are collinear, so the cross product
    /// is zero and there is nothing to compare, or when a corner names a
    /// vertex that is not in `vertices`. A polygon whose corners are all
    /// there has at least three.
    pub fn winding_matches(&self, vertices: &[Vertex]) -> (r: Option<bool>)
        requires
            self.corners@.len() >= 3 || corner_missing(self.corners@, vertices@),
        ensures
            r == winding(self.corners@, self.normal@, vertices@),
    {
        let mut i: usize = 0;
        while i < self.corners.len()
            invariant
                i <= self.corners@.len(),
                forall|k: int| 0 <= k < i ==> self.corners@[k].vertex < vertices@.len(),
            decreases self.corners@.len() - i,
        {
            if self.corners[i].vertex as usize >= vertices.len() {
                return None;
            }
            i += 1;
        }
        let p0 = vertices[self.corners[0].vertex as usize];
        let p1 = vertices[self.corners[1].vertex as usize];
        let p2 = vertices[self.corners[2].vertex as usize];
        let a = [p1.x as i64 - p0.x as i64, p1.y as i64 - p0.y as i64, p1.z as i64 - p0.z as i64];
        let b = [p2.x as i64 - p1.x as i64, p2.y as i64 - p1.y as i64, p2.z as i64 - p1.z as i64];
        let c0 = wide_cross(a[1], b[2], a[2], b[1]);
        let c1 = wide_cross(a[2], b[0], a[0], b[2]);
        let c2 = wide_cross(a[0], b[1], a[1], b[0]);
        if c0 == 0 && c1 == 0 && c2 == 0 {
            return None;
        }
        let n = self.normal;
        let d = wide_dot(c0, n[0]) + wide_dot(c1, n[1]) + wide_dot(c2, n[2]);
        Some(d > 0)
    }
}

/// `p * q - r * s` for differences of two `i32`, which an `i128` holds.
fn wide_cross(p: i64, q: i64, r: i64, s: i64) -> (c: i128)
    requires
        -0x1_0000_0000i64 < p < 0x1_0000_0000i64,
        -0x1_0000_0000i64 < q < 0x1_0000_0000i64,
        -0x1_0000_0000i64 < r < 0x1_0000_0000i64,
        -0x1_0000_0000i64 < s < 0x1_0000_0000i64,
    ensures
        c == p * q - r * s,
        -0x2_0000_0000_0000_0000i128 < c < 0x2_0000_0000_0000_0000i128,
{
    let (p, q, r, s) = (p as i128, q as i128, r as i128, s as i128);
    assert(-0x1_0000_0000_0000_0000i128 < p * q < 0x1_0000_0000_0000_0000i128) by (nonlinear_arith)
        requires
            -0x1_0000_0000i128 < p < 0x1_0000_0000i128,
            -0x1_0000_0000i128 < q < 0x1_0000_0000i128,
    ;
    assert(-0x1_0000_0000_0000_0000i128 < r * s < 0x1_0000_0000_0000_0000i128) by (nonlinear_arith)
        requires
            -0x1_0000_0000i128 < r < 0x1_0000_0000i128,
            -0x1_0000_0000i128 < s < 0x1_0000_0000i128,
    ;
    p * q - r * s
}

/// One term of the dot product with the normal.
fn wide_dot(c: i128, n: i32) -> (d: i128)
    requires
        -0x2_0000_0000_0000_0000i128 < c < 0x2_0000_0000_0000_0000i128,
    ensures
        d == c * n,
        -0x1_0000_0000_0000_0000_0000_0000_0000i128 < d < 0x1_0000_0000_0000_0000_0000_0000_0000i128,
{
    let n = n as i128;
    assert(-0x1_0000_0000_0000_0000_0000_0000_0000i128 < c * n < 0x1_0000_0000_0000_0000_0000_0000_0000i128) by (nonlinear_arith)
        requires
            -0x2_0000_0000_0000_0000i128 < c < 0x2_0000_0000_0000_0000i128,
            -0x8000_0000i128 <= n <= 0x7fff_ffffi128,
    ;
    c * n
}


/// A [`FLIPBOOK`] material.
#[derive(Debug, Clone, PartialEq, Eq)]
pub struct Flipbook {
    /// Which of [`Model::materials`] it stands for; that entry is the first
    /// frame.
    pub material: usize,
    pub frames: Vec<String>,
    /// Seconds a frame, 16.16.
    pub period: i32,
    /// A sound for each frame, where it has one.
    pub sounds: Vec<Option<String>>,
}

#[derive(Debug, Clone)]
pub struct Model {
    /// The mesh-start node's second word: model units to a world unit.
    pub unit: Option<i32>,
    pub vertices: Vec<Vertex>,
    /// Texels given per vertex by [`VERTEX_TEXELS`], 16.16; zero where none.
    pub vertex_texels: Vec<(i32, i32)>,
    pub materials: Vec<String>,
    pub flipbooks: Vec<Flipbook>,
    pub polygons: Vec<Polygon>,
    /// Child model filenames, for a group node.
    pub children: Vec<String>,
    /// Every node in the stream, understood or not.
    pub nodes: Vec<Node>,
}

// ---------------------------------------------------------------------------
// What a model holds, as values.

pub struct PolygonView {
    pub kind: u32,
    pub normal: Seq<i32>,
    pub plane: i32,
    pub corners: Seq<Corner>,
    pub colour: Option<u16>,
    pub shade: Option<i32>,
    pub material: Option<usize>,
}

pub open spec fn polygon_view(p: Polygon) -> PolygonView {
    PolygonView {
        kind: p.kind,
        normal: p.normal@,
        plane: p.plane,
        corners: p.corners@,
        colour: p.colour,
        shade: p.shade,
        material: p.material,
    }
}

pub struct FlipbookView {
    pub material: usize,
    pub frames: Seq<Seq<char>>,
    pub period: i32,
    pub sounds: Seq<Option<Seq<char>>>,
}

pub open spec fn sound_view(s: Option<String>) -> Option<Seq<char>> {
    match s {
        Some(s) => Some(s@),
        None => None,
    }
}

pub open spec fn flipbook_view(f: Flipbook) -> FlipbookView {
    FlipbookView {
        material: f.material,
        frames: f.frames@.map_values(|s: String| s@),
        period: f.period,
        sounds: f.sounds@.map_values(|s: Option<String>| sound_view(s)),
    }
}

pub struct ModelView {
    pub unit: Option<i32>,
    pub vertices: Seq<Vertex>,
    pub vertex_texels: Seq<(i32, i32)>,
    pub materials: Seq<Seq<char>>,
    pub flipbooks: Seq<FlipbookView>,
    pub polygons: Seq<PolygonView>,
    pub children: Seq<Seq<char>>,
    pub nodes: Seq<Node>,
}

pub open spec fn model_view(m: Model) -> ModelView {
    ModelView {
        unit: m.unit,
        vertices: m.vertices@,
        vertex_texels: m.vertex_texels@,
        materials: m.materials@.map_values(|s: String| s@),
        flipbooks: m.flipbooks@.map_values(|f: Flipbook| flipbook_view(f)),
        polygons: m.polygons@.map_values(|p: Polygon| polygon_view(p)),
        children: m.children@.map_values(|s: String| s@),
        nodes: m.nodes@,
    }
}

/// A reading of the stream so far: the model, and the material, flat colour
/// and shade that the next polygon takes.
pub struct Reading {
    pub model: ModelView,
    pub material: Option<usize>,
    pub colour: Option<u16>,
    pub shade: Option<i32>,
}

pub open spec fn empty_model() -> ModelView {
    ModelView {
        unit: None,
        vertices: Seq::empty(),
        vertex_texels: Seq::empty(),
        materials: Seq::empty(),
        flipbooks: Seq::empty(),
        polygons: Seq::empty(),
        children: Seq::empty(),
        nodes: Seq::empty(),
    }
}

pub open spec fn i32_in(data: Seq<u8>, at: int) -> i32 {
    le_u32(data, at) as i32
}

/// The `i32` at `at`, floored at zero.
pub open spec fn count_in(data: Seq<u8>, at: int) -> int {
    let v = i32_in(data, at);
    if v < 0 { 0 } else { v as int }
}

/// The 16-byte name field at `at`.
pub open spec fn name_in(data: Seq<u8>, at: int) -> Seq<char> {
    utf8_lossy(cstr_bytes(data.subrange(at, at + 16)))
}

pub open spec fn vertex_in(data: Seq<u8>, at: int) -> Vertex {
    Vertex { x: i32_in(data, at), y: i32_in(data, at + 4), z: i32_in(data, at + 8) }
}

/// `run` written over `old` from `first`, which grows with `fill` to reach
/// it where it is shorter.
pub open spec fn overlay<T>(old: Seq<T>, first: int, run: Seq<T>, fill: T) -> Seq<T> {
    let len = if old.len() < first + run.len() { first + run.len() } else { old.len() as int };
    Seq::new(
        len as nat,
        |j: int|
            if first <= j < first + run.len() {
                run[j - first]
            } else if j < old.len() {
                old[j]
            } else {
                fill
            },
    )
}

pub open spec fn vertex_run(data: Seq<u8>, at: int) -> Seq<Vertex> {
    Seq::new(count_in(data, at + 8) as nat, |i: int| vertex_in(data, at + 12 + 12 * i))
}

pub open spec fn texel_run(data: Seq<u8>, at: int) -> Seq<(i32, i32)> {
    Seq::new(
        count_in(data, at + 8) as nat,
        |i: int| (i32_in(data, at + 12 + 8 * i), i32_in(data, at + 16 + 8 * i)),
    )
}

pub open spec fn flipbook_frames(data: Seq<u8>, at: int) -> Seq<Seq<char>> {
    Seq::new(count_in(data, at + 8) as nat, |i: int| name_in(data, at + 0x1c + 32 * i))
}

/// A frame's sound, `None` where its field is empty.
pub open spec fn flipbook_sounds(data: Seq<u8>, at: int) -> Seq<Option<Seq<char>>> {
    Seq::new(
        count_in(data, at + 8) as nat,
        |i: int| {
            let f = at + 0x1c + 32 * i + 16;
            if data[f] == 0 { None } else { Some(name_in(data, f)) }
        },
    )
}

/// An indexed polygon's corners: vertex numbers from `+0x18`, each with the
/// texel its vertex was given, zero where none was.
pub open spec fn indexed_corners(data: Seq<u8>, at: int, texels: Seq<(i32, i32)>) -> Seq<Corner> {
    Seq::new(
        count_in(data, at + 4) as nat,
        |i: int| {
            let vertex = le_u32(data, at + 0x18 + 4 * i);
            let t = if (vertex as int) < texels.len() { texels[vertex as int] } else { (0i32, 0i32) };
            Corner { vertex, u: t.0, v: t.1 }
        },
    )
}

/// A textured polygon's corners: twelve bytes each from `+24`.
pub open spec fn textured_corners(data: Seq<u8>, at: int) -> Seq<Corner> {
    Seq::new(
        count_in(data, at + 4) as nat,
        |i: int| {
            let c = at + 24 + 12 * i;
            Corner { vertex: le_u32(data, c), u: i32_in(data, c + 4), v: i32_in(data, c + 8) }
        },
    )
}

/// A group's child names: the count, at most sixteen, of 16-byte slots.
pub open spec fn group_children(data: Seq<u8>, at: int) -> Seq<Seq<char>> {
    let n = count_in(data, at + 8);
    Seq::new(
        (if n > GROUP_CHILDREN { GROUP_CHILDREN as int } else { n }) as nat,
        |i: int| name_in(data, at + 0x18 + 16 * i),
    )
}

pub open spec fn is_indexed_kind(kind: u32) -> bool {
    kind == INDEXED_POLYGON || kind == FLAT_POLYGON || kind == SOLID_POLYGON || kind == SHADED_POLYGON
}

/// What a node does to the reading: every node is recorded, and the ones the
/// model is made of add to it.
pub open spec fn apply_node(data: Seq<u8>, r: Reading, node: Node) -> Reading {
    let at = node.offset as int;
    let kind = node.kind;
    let m = ModelView { nodes: r.model.nodes.push(node), ..r.model };
    let r = Reading { model: m, ..r };
    if kind == MESH_START && m.unit is None {
        Reading { model: ModelView { unit: Some(i32_in(data, at + 4)), ..m }, ..r }
    } else if kind == VERTEX_LIST {
        let v = overlay(m.vertices, count_in(data, at + 4), vertex_run(data, at), Vertex { x: 0, y: 0, z: 0 });
        Reading { model: ModelView { vertices: v, ..m }, ..r }
    } else if kind == MATERIAL {
        Reading {
            model: ModelView { materials: m.materials.push(name_in(data, at + 8)), ..m },
            material: Some(m.materials.len() as usize),
            ..r
        }
    } else if kind == VERTEX_TEXELS {
        let t = overlay(m.vertex_texels, count_in(data, at + 4), texel_run(data, at), (0i32, 0i32));
        Reading { model: ModelView { vertex_texels: t, ..m }, ..r }
    } else if kind == FLIPBOOK {
        let frames = flipbook_frames(data, at);
        if frames.len() == 0 {
            r
        } else {
            let f = FlipbookView {
                material: m.materials.len() as usize,
                frames,
                period: i32_in(data, at + 0x10),
                sounds: flipbook_sounds(data, at),
            };
            Reading {
                model: ModelView { flipbooks: m.flipbooks.push(f), materials: m.materials.push(frames[0]), ..m },
                material: Some(m.materials.len() as usize),
                ..r
            }
        }
    } else if is_indexed_kind(kind) {
        let p = PolygonView {
            kind,
            normal: seq![i32_in(data, at + 8), i32_in(data, at + 12), i32_in(data, at + 16)],
            plane: i32_in(data, at + 0x14),
            corners: indexed_corners(data, at, m.vertex_texels),
            colour: r.colour,
            shade: r.shade,
            material: r.material,
        };
        Reading { model: ModelView { polygons: m.polygons.push(p), ..m }, ..r }
    } else if kind == FLAT_COLOUR {
        Reading { colour: Some(i32_in(data, at + 8) as u16), ..r }
    } else if kind == SHADE_COLOUR {
        Reading { shade: Some(i32_in(data, at + 4)), ..r }
    } else if is_polygon_kind(kind) {
        let p = PolygonView {
            kind,
            normal: seq![i32_in(data, at + 8), i32_in(data, at + 12), i32_in(data, at + 16)],
            plane: i32_in(data, at + 20),
            corners: textured_corners(data, at),
            colour: r.colour,
            shade: r.shade,
            material: r.material,
        };
        Reading { model: ModelView { polygons: m.polygons.push(p), ..m }, ..r }
    } else if kind == GROUP {
        Reading { model: ModelView { children: m.children + group_children(data, at), ..m }, ..r }
    } else {
        r
    }
}

/// A vertex list node at `at` sets vertex `first + i`, for each of its
/// `count` vertices, to the three little-endian `i32`s twelve bytes apart
/// from `at + 12`: x at `at + 12 + 12 i`, y four bytes on and z eight, where
/// `first` and `count` are the node's `i32`s at `at + 4` and `at + 8`.
pub proof fn law_a_vertex_list_is_x_y_z(data: Seq<u8>, r: Reading, node: Node, i: int)
    requires
        node.kind == VERTEX_LIST,
        0 <= i < count_in(data, node.offset + 8),
    ensures
        ({
            let at = node.offset as int;
            let first = count_in(data, at + 4);
            apply_node(data, r, node).model.vertices[first + i] == Vertex {
                x: le_u32(data, at + 12 + 12 * i) as i32,
                y: le_u32(data, at + 16 + 12 * i) as i32,
                z: le_u32(data, at + 20 + 12 * i) as i32,
            }
        }),
{
    let at = node.offset as int;
    let first = count_in(data, at + 4);
    let run = vertex_run(data, at);
    assert(run[i] == vertex_in(data, at + 12 + 12 * i));
}

/// Where a walk stopped short: the node's offset and what was wrong there.
pub struct Fault {
    pub at: int,
    pub step: Step,
}

/// The reading of the stream from `at` on, or the fault that stopped it.
pub open spec fn read_from(data: Seq<u8>, at: int, r: Reading) -> core::result::Result<Reading, Fault>
    decreases data.len() - at,
{
    match step_at(data, at) {
        Step::Done => Ok(r),
        Step::Node { kind, size } => {
            let next = apply_node(data, r, Node { offset: at as usize, kind, size: size as usize });
            if kind == END {
                Ok(next)
            } else {
                read_from(data, at + size, next)
            }
        },
        step => Err(Fault { at, step }),
    }
}

/// The model in a `.BIN` file, or the fault that stops its walk.
pub open spec fn model_of(data: Seq<u8>) -> core::result::Result<ModelView, Fault> {
    match read_from(data, 0, Reading { model: empty_model(), material: None, colour: None, shade: None }) {
        Ok(r) => Ok(r.model),
        Err(f) => Err(f),
    }
}

/// The error a walk gives for a fault.
pub open spec fn fault_error(e: Error, f: Fault, data: Seq<u8>) -> bool {
    match f.step {
        Step::BadTag { kind } => e matches Error::BadTag { what, tag, at } && tag == kind && at == f.at,
        Step::Truncated { need } => e matches Error::Truncated { what, at, need: n, have }
            && at == f.at && n == need && have == data.len() - f.at,
        _ => false,
    }
}


// ---------------------------------------------------------------------------
// The reader.

/// The polygon state that runs along the stream beside the model.
struct Reader {
    model: Model,
    material: Option<usize>,
    colour: Option<u16>,
    shade: Option<i32>,
}

spec fn reading(r: Reader) -> Reading {
    Reading { model: model_view(r.model), material: r.material, colour: r.colour, shade: r.shade }
}

/// `v` grown with `fill` to at least `len` items.
fn grow<T: Copy>(v: &mut Vec<T>, len: usize, fill: T)
    ensures
        final(v)@ == Seq::new(
            (if old(v)@.len() < len { len as int } else { old(v)@.len() as int }) as nat,
            |j: int| if j < old(v)@.len() { old(v)@[j] } else { fill },
        ),
{
    let ghost before = v@;
    while v.len() < len
        invariant
            before.len() <= v@.len(),
            v@.len() <= (if before.len() < len { len as int } else { before.len() as int }),
            forall|j: int| 0 <= j < v@.len() ==> #[trigger] v@[j] == (if j < before.len() { before[j] } else { fill }),
        decreases len - v@.len(),
    {
        v.push(fill);
    }
    assert(v@ =~= Seq::new(
        (if before.len() < len { len as int } else { before.len() as int }) as nat,
        |j: int| if j < before.len() { before[j] } else { fill },
    ));
}

/// A vertex list written into the vertices from its first number on.
fn read_vertices(vertices: &mut Vec<Vertex>, data: &[u8], at: usize)
    requires
        at + 12 <= data@.len(),
        at + 12 + 12 * count_in(data@, at + 8) <= data@.len(),
    ensures
        final(vertices)@ == overlay(old(vertices)@, count_in(data@, at + 4), vertex_run(data@, at as int), Vertex { x: 0, y: 0, z: 0 }),
{
    let first = count_word(data, at, 4) as usize;
    let count = count_word(data, at, 8) as usize;
    let ghost before = vertices@;
    let ghost run = vertex_run(data@, at as int);
    let zero = Vertex { x: 0, y: 0, z: 0 };
    let end = first + count;
    grow(vertices, end, zero);
    let ghost len = vertices@.len();
    let len_data = data.len();
    let mut i: usize = 0;
    while i < count
        invariant
            len_data == data@.len(),
            i <= count,
            first == count_in(data@, at + 4),
            count == count_in(data@, at + 8),
            run == vertex_run(data@, at as int),
            at + 12 + 12 * count <= data@.len(),
            len == (if before.len() < first + count { first + count } else { before.len() as int }),
            vertices@.len() == len,
            forall|j: int| 0 <= j < len ==> #[trigger] vertices@[j] == (
                if first <= j < first + i { run[j - first] } else if j < before.len() { before[j] } else { zero }
            ),
        decreases count - i,
    {
        let v = at + 12 + 12 * i;
        let vertex = Vertex { x: i32_at(data, v), y: i32_at(data, v + 4), z: i32_at(data, v + 8) };
        vertices[first + i] = vertex;
        i += 1;
    }
    assert(vertices@ =~= overlay(before, first as int, run, zero));
}

/// A texel list written into the vertex texels from its first number on.
fn read_texels(texels: &mut Vec<(i32, i32)>, data: &[u8], at: usize)
    requires
        at + 12 <= data@.len(),
        at + 12 + 8 * count_in(data@, at + 8) <= data@.len(),
    ensures
        final(texels)@ == overlay(old(texels)@, count_in(data@, at + 4), texel_run(data@, at as int), (0i32, 0i32)),
{
    let first = count_word(data, at, 4) as usize;
    let count = count_word(data, at, 8) as usize;
    let ghost before = texels@;
    let ghost run = texel_run(data@, at as int);
    let end = first + count;
    grow(texels, end, (0i32, 0i32));
    let ghost len = texels@.len();
    let len_data = data.len();
    let mut i: usize = 0;
    while i < count
        invariant
            len_data == data@.len(),
            i <= count,
            first == count_in(data@, at + 4),
            count == count_in(data@, at + 8),
            run == texel_run(data@, at as int),
            at + 12 + 8 * count <= data@.len(),
            len == (if before.len() < first + count { first + count } else { before.len() as int }),
            texels@.len() == len,
            forall|j: int| 0 <= j < len ==> #[trigger] texels@[j] == (
                if first <= j < first + i { run[j - first] } else if j < before.len() { before[j] } else { (0i32, 0i32) }
            ),
        decreases count - i,
    {
        let t = at + 12 + 8 * i;
        texels[first + i] = (i32_at(data, t), i32_at(data, t + 4));
        i += 1;
    }
    assert(texels@ =~= overlay(before, first as int, run, (0i32, 0i32)));
}

/// The 16-byte name field at `at`.
fn name(data: &[u8], at: usize) -> (r: String)
    requires
        at + 16 <= data@.len(),
    ensures
        r@ == name_in(data@, at as int),
{
    let len_data = data.len();
    assert(at + 16 <= len_data);
    let field = &data[at..at + 16];
    assert(field@ =~= data@.subrange(at as int, at + 16));
    cstr(field)
}

/// A flipbook's frames and sounds.
fn read_flipbook(data: &[u8], at: usize) -> (r: (Vec<String>, Vec<Option<String>>))
    requires
        at + 28 + 32 * count_in(data@, at + 8) <= data@.len(),
    ensures
        r.0@.map_values(|s: String| s@) == flipbook_frames(data@, at as int),
        r.1@.map_values(|s: Option<String>| sound_view(s)) == flipbook_sounds(data@, at as int),
{
    let count = count_word(data, at, 8) as usize;
    let mut frames: Vec<String> = Vec::new();
    let mut sounds: Vec<Option<String>> = Vec::new();
    let len_data = data.len();
    let mut i: usize = 0;
    while i < count
        invariant
            len_data == data@.len(),
            i <= count,
            count == count_in(data@, at + 8),
            at + 28 + 32 * count <= data@.len(),
            frames@.len() == i,
            sounds@.len() == i,
            forall|k: int| 0 <= k < i ==> #[trigger] frames@[k]@ == flipbook_frames(data@, at as int)[k],
            forall|k: int| 0 <= k < i ==> #[trigger] sound_view(sounds@[k]) == flipbook_sounds(data@, at as int)[k],
        decreases count - i,
    {
        let f = at + 0x1c + 32 * i;
        frames.push(name(data, f));
        let sound = if data[f + 16] == 0 { None } else { Some(name(data, f + 16)) };
        sounds.push(sound);
        i += 1;
    }
    assert(frames@.map_values(|s: String| s@) =~= flipbook_frames(data@, at as int));
    assert(sounds@.map_values(|s: Option<String>| sound_view(s)) =~= flipbook_sounds(data@, at as int));
    (frames, sounds)
}

/// An indexed polygon's corners, each with its vertex's texel.
fn read_indexed_corners(data: &[u8], at: usize, texels: &Vec<(i32, i32)>) -> (r: Vec<Corner>)
    requires
        at + 24 + 4 * count_in(data@, at + 4) <= data@.len(),
    ensures
        r@ == indexed_corners(data@, at as int, texels@),
{
    let count = count_word(data, at, 4) as usize;
    let mut out: Vec<Corner> = Vec::new();
    let len_data = data.len();
    let mut i: usize = 0;
    while i < count
        invariant
            len_data == data@.len(),
            i <= count,
            count == count_in(data@, at + 4),
            at + 24 + 4 * count <= data@.len(),
            out@ =~= indexed_corners(data@, at as int, texels@).take(i as int),
        decreases count - i,
    {
        let vertex = u32_at(data, at + 0x18 + 4 * i);
        let (u, v) = if (vertex as usize) < texels.len() { texels[vertex as usize] } else { (0i32, 0i32) };
        out.push(Corner { vertex, u, v });
        i += 1;
    }
    out
}

/// A textured polygon's corners.
fn read_textured_corners(data: &[u8], at: usize) -> (r: Vec<Corner>)
    requires
        at + 24 + 12 * count_in(data@, at + 4) <= data@.len(),
    ensures
        r@ == textured_corners(data@, at as int),
{
    let count = count_word(data, at, 4) as usize;
    let mut out: Vec<Corner> = Vec::new();
    let len_data = data.len();
    let mut i: usize = 0;
    while i < count
        invariant
            len_data == data@.len(),
            i <= count,
            count == count_in(data@, at + 4),
            at + 24 + 12 * count <= data@.len(),
            out@ =~= textured_corners(data@, at as int).take(i as int),
        decreases count - i,
    {
        let c = at + 24 + 12 * i;
        out.push(Corner { vertex: u32_at(data, c), u: i32_at(data, c + 4), v: i32_at(data, c + 8) });
        i += 1;
    }
    out
}

/// A group's child names, appended.
fn read_children(children: &mut Vec<String>, data: &[u8], at: usize)
    requires
        at + 344 <= data@.len(),
    ensures
        final(children)@.map_values(|s: String| s@) == old(children)@.map_values(|s: String| s@) + group_children(data@, at as int),
{
    let n = count_word(data, at, 8);
    let count: usize = if n > 16 { 16 } else { n as usize };
    let ghost before = old(children)@.map_values(|s: String| s@);
    let ghost names = group_children(data@, at as int);
    let len_data = data.len();
    let mut i: usize = 0;
    while i < count
        invariant
            len_data == data@.len(),
            i <= count <= 16,
            count == names.len(),
            names == group_children(data@, at as int),
            at + 344 <= data@.len(),
            children@.map_values(|s: String| s@) =~= before + names.take(i as int),
        decreases count - i,
    {
        let ghost was = children@;
        children.push(name(data, at + 0x18 + 16 * i));
        assert(children@.map_values(|s: String| s@) =~= was.map_values(|s: String| s@).push(names[i as int]));
        i += 1;
    }
    assert(names.take(count as int) =~= names);
}


/// A polygon read from the node at `at`, with the reader's state.
fn polygon_at(data: &[u8], at: usize, kind: u32, plane_at: usize, corners: Vec<Corner>, r: &Reader) -> (p: Polygon)
    requires
        at + 24 <= data@.len(),
        plane_at == at + 0x14 || plane_at == at + 20,
    ensures
        polygon_view(p) == (PolygonView {
            kind,
            normal: seq![i32_in(data@, at + 8), i32_in(data@, at + 12), i32_in(data@, at + 16)],
            plane: i32_in(data@, plane_at as int),
            corners: corners@,
            colour: r.colour,
            shade: r.shade,
            material: r.material,
        }),
{
    let normal = [i32_at(data, at + 8), i32_at(data, at + 12), i32_at(data, at + 16)];
    assert(normal@ =~= seq![i32_in(data@, at + 8), i32_in(data@, at + 12), i32_in(data@, at + 16)]);
    Polygon {
        kind,
        normal,
        plane: i32_at(data, plane_at),
        corners,
        colour: r.colour,
        shade: r.shade,
        material: r.material,
    }
}

/// What one node does to the reading.
#[verifier::rlimit(40)]
fn apply(r: &mut Reader, data: &[u8], node: Node)
    requires
        step_at(data@, node.offset as int) == (Step::Node { kind: node.kind, size: node.size as int }),
    ensures
        reading(*final(r)) == apply_node(data@, reading(*old(r)), node),
{
    let at = node.offset;
    let kind = node.kind;
    let ghost before = reading(*r);
    let len_data = data.len();
    proof {
        assert(at + 4 <= data@.len());
        assert(kind == le_u32(data@, at as int));
    }
    r.model.nodes.push(node);
    let ghost pushed = reading(*r);
    assert(pushed.model == (ModelView { nodes: before.model.nodes.push(node), ..before.model }));
    if kind == MESH_START && r.model.unit.is_none() {
        r.model.unit = Some(i32_at(data, at + 4));
    } else if kind == VERTEX_LIST {
        read_vertices(&mut r.model.vertices, data, at);
    } else if kind == MATERIAL {
        r.material = Some(r.model.materials.len());
        let n = name(data, at + 8);
        let ghost was = r.model.materials@;
        r.model.materials.push(n);
        assert(r.model.materials@.map_values(|s: String| s@) =~= was.map_values(|s: String| s@).push(n@));
    } else if kind == VERTEX_TEXELS {
        read_texels(&mut r.model.vertex_texels, data, at);
    } else if kind == FLIPBOOK {
        let (frames, sounds) = read_flipbook(data, at);
        if frames.len() > 0 {
            let m = r.model.materials.len();
            r.material = Some(m);
            let first = name(data, at + 0x1c);
            assert(frames@.map_values(|s: String| s@)[0] == frames@[0]@);
            let book = Flipbook { material: m, frames, period: i32_at(data, at + 0x10), sounds };
            let ghost books = r.model.flipbooks@;
            let ghost names = r.model.materials@;
            r.model.flipbooks.push(book);
            r.model.materials.push(first);
            assert(r.model.flipbooks@.map_values(|f: Flipbook| flipbook_view(f)) =~= books.map_values(|f: Flipbook| flipbook_view(f)).push(flipbook_view(book)));
            assert(r.model.materials@.map_values(|s: String| s@) =~= names.map_values(|s: String| s@).push(first@));
        } else {
            assert(flipbook_frames(data@, at as int).len() == 0);
        }
    } else if kind == INDEXED_POLYGON || kind == FLAT_POLYGON || kind == SOLID_POLYGON || kind == SHADED_POLYGON {
        let corners = read_indexed_corners(data, at, &r.model.vertex_texels);
        let p = polygon_at(data, at, kind, at + 0x14, corners, r);
        let ghost was = r.model.polygons@;
        r.model.polygons.push(p);
        assert(r.model.polygons@.map_values(|p: Polygon| polygon_view(p)) =~= was.map_values(|p: Polygon| polygon_view(p)).push(polygon_view(p)));
    } else if kind == FLAT_COLOUR {
        r.colour = Some(#[verifier::truncate] (i32_at(data, at + 8) as u16));
    } else if kind == SHADE_COLOUR {
        r.shade = Some(i32_at(data, at + 4));
    } else if kind == 0x0E || kind == 0x11 || kind == 0x18 || kind == 0x1E || kind == 0x22 {
        let corners = read_textured_corners(data, at);
        let p = polygon_at(data, at, kind, at + 20, corners, r);
        let ghost was = r.model.polygons@;
        r.model.polygons.push(p);
        assert(r.model.polygons@.map_values(|p: Polygon| polygon_view(p)) =~= was.map_values(|p: Polygon| polygon_view(p)).push(polygon_view(p)));
    } else if kind == GROUP {
        read_children(&mut r.model.children, data, at);
    }
}

impl Model {
    /// Walks the node stream and collects what the model is made of: every
    /// node, the mesh's unit, vertices and their texels, materials and
    /// flipbooks, polygons with the material, flat colour and shade before
    /// them, and a group's children. The first undefined type, or a node that
    /// runs past the end, is the error.
    pub fn parse(data: &[u8]) -> (r: Result<Model>)
        ensures
            match model_of(data@) {
                Ok(m) => r matches Ok(model) && model_view(model) == m,
                Err(f) => r matches Err(e) && fault_error(e, f, data@),
            },
    {
        let mut reader = Reader {
            model: Model {
                unit: None,
                vertices: Vec::new(),
                vertex_texels: Vec::new(),
                materials: Vec::new(),
                flipbooks: Vec::new(),
                polygons: Vec::new(),
                children: Vec::new(),
                nodes: Vec::new(),
            },
            material: None,
            colour: None,
            shade: None,
        };
        proof {
            assert(reading(reader).model.materials =~= Seq::<Seq<char>>::empty());
            assert(reading(reader).model.flipbooks =~= Seq::<FlipbookView>::empty());
            assert(reading(reader).model.polygons =~= Seq::<PolygonView>::empty());
            assert(reading(reader).model.children =~= Seq::<Seq<char>>::empty());
        }
        let ghost start = reading(reader);
        let mut walk = Walk::new(data);
        loop
            invariant
                walk.data_view() == data@,
                0 <= walk.position() <= data@.len(),
                !walk.finished() ==> read_from(data@, 0, start) == read_from(data@, walk.position(), reading(reader)),
                walk.finished() ==> read_from(data@, 0, start) == Ok::<Reading, Fault>(reading(reader)),
                start == (Reading { model: empty_model(), material: None, colour: None, shade: None }),
            ensures
                read_from(data@, 0, start) == Ok::<Reading, Fault>(reading(reader)),
            decreases (if walk.finished() { 0 } else { data@.len() - walk.position() + 1 }),
        {
            match walk.next() {
                None => {
                    break;
                },
                Some(Err(e)) => {
                    return Err(e);
                },
                Some(Ok(node)) => {
                    apply(&mut reader, data, node);
                },
            }
        }
        Ok(reader.model)
    }

    /// The stream is well formed when the last node ends exactly at end of
    /// file.
    pub fn walks_exactly(data: &[u8]) -> (r: bool)
        ensures
            r == (walk_end(data@, 0, 0) == Some(data@.len() as int)),
    {
        let mut end: usize = 0;
        let mut walk = Walk::new(data);
        loop
            invariant
                walk.data_view() == data@,
                0 <= walk.position() <= data@.len(),
                end <= data@.len(),
                !walk.finished() ==> walk_end(data@, 0, 0) == walk_end(data@, walk.position(), end as int),
                walk.finished() ==> walk_end(data@, 0, 0) == Some(end as int),
            ensures
                walk_end(data@, 0, 0) == Some(end as int),
            decreases (if walk.finished() { 0 } else { data@.len() - walk.position() + 1 }),
        {
            match walk.next() {
                None => {
                    break;
                },
                Some(Ok(n)) => {
                    end = n.offset + n.size;
                },
                Some(Err(_)) => {
                    return false;
                },
            }
        }
        end == data.len()
    }
}

} // verus!
