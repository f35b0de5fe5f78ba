//! `MODELS\*.TXT`: the animated model format.
//!
//! A skeleton of parts, each with its own mesh and a keyframe per frame. The
//! engine parses it at `HELLBEND.EXE:0x0046cd60` and writes it back at
//! `0x0046c240`, and the writer's `fprintf` calls are where the field names
//! here come from - they are the game's own.
//!
//! Not to be confused with `DATA\*.TXT`, which is a mission briefing, or with
//! the binary [MRGL](crate::formats::mrgl) models.

use vstd::prelude::*;
use crate::bytes::{chars_of, string_of, decimal, decimal_chars, debug_quoted, quoted, signed_decimal, signed_decimal_chars};
use crate::chars::same_chars;
use crate::text_core::{trim, trim_chars, split, lemma_split_nonempty};
use crate::formats::text::{lines, views, text_lines, parse_ints, ints_of, push_all, line_count, line_at, line_or_empty, row_of, row_values};
use crate::formats::mrgl::{Corner, Polygon, Vertex, PolygonView, polygon_view, POLYGON};
use crate::formats::{Error, Result};

verus! {

/// The material index that means "no texture on this face".
pub const NO_MATERIAL: i32 = 255;

/// Animated models normalise to +/-32,767, where the binary models normalise
/// to +/-16,384 - a factor of two.
pub const MODEL_ONE: i32 = 32_767;

#[derive(Debug, Clone)]
pub struct Animated {
    /// Keyframes per part.
    pub frames: usize,
    /// 16.16 seconds per frame.
    pub time_per_frame: i32,
    /// Texture names, indexed by a face's material field.
    pub materials: Vec<String>,
    pub angle: [i32; 3],
    pub centre: [i32; 3],
    /// The exponent the exporter normalised the vertices by.
    pub mag_power: i32,
    pub parts: Vec<Part>,
}

#[derive(Debug, Clone)]
pub struct Part {
    pub name: String,
    pub pivot: [i32; 3],
    /// One per frame, in the engine's 16-bit circle per axis.
    pub angles: Vec<[i32; 3]>,
    /// One per frame.
    pub centres: Vec<[i32; 3]>,
    /// Index of the part this one hangs off, or -1 for the root.
    pub parent: i32,
    pub hit_points: i32,
    pub leg_flag: i32,
    pub min: [i32; 3],
    pub max: [i32; 3],
    pub vertices: Vec<Vertex>,
    /// Faces in the same shape as a binary polygon node: a normal, a plane
    /// constant and `(vertex, u, v)` per corner.
    pub polygons: Vec<Polygon>,
}

// ---------------------------------------------------------------------------
// What a file holds, as values.

pub struct PartView {
    pub name: Seq<char>,
    pub pivot: Seq<i32>,
    pub angles: Seq<Seq<i32>>,
    pub centres: Seq<Seq<i32>>,
    pub parent: i32,
    pub hit_points: i32,
    pub leg_flag: i32,
    pub min: Seq<i32>,
    pub max: Seq<i32>,
    pub vertices: Seq<Vertex>,
    pub polygons: Seq<PolygonView>,
}

pub open spec fn part_view(p: Part) -> PartView {
    PartView {
        name: p.name@,
        pivot: p.pivot@,
        angles: p.angles@.map_values(|a: [i32; 3]| a@),
        centres: p.centres@.map_values(|a: [i32; 3]| a@),
        parent: p.parent,
        hit_points: p.hit_points,
        leg_flag: p.leg_flag,
        min: p.min@,
        max: p.max@,
        vertices: p.vertices@,
        polygons: p.polygons@.map_values(|q: Polygon| polygon_view(q)),
    }
}

pub struct AnimatedView {
    pub frames: usize,
    pub time_per_frame: i32,
    pub materials: Seq<Seq<char>>,
    pub angle: Seq<i32>,
    pub centre: Seq<i32>,
    pub mag_power: i32,
    pub parts: Seq<PartView>,
}

pub open spec fn animated_view(a: Animated) -> AnimatedView {
    AnimatedView {
        frames: a.frames,
        time_per_frame: a.time_per_frame,
        materials: a.materials@.map_values(|s: String| s@),
        angle: a.angle@,
        centre: a.centre@,
        mag_power: a.mag_power,
        parts: a.parts@.map_values(|p: Part| part_view(p)),
    }
}

/// Where and why a reading stops.
pub enum Refusal {
    /// The line is not the keyword the position calls for.
    Keyword { line: int, saw: Seq<char>, want: Seq<char> },
    /// A name was due and the file had ended.
    Name { line: int },
    /// A comma-separated row of numbers was due; `saw` is the line, empty
    /// when the file had ended.
    Row { line: int, saw: Seq<char> },
    /// A row held some other count of numbers than three.
    Triple { line: int, values: Seq<i32> },
    /// A face's row held some other count of numbers than its corners call
    /// for.
    Face { line: int, corners: int, values: int },
    /// The vertex and face counts' row held one number: the reader indexes
    /// past it.
    ShortCounts { line: int },
}

/// How a keyword line that is not the keyword is reported: the line
/// quoted, `, wanted `, and the keyword quoted.
pub open spec fn keyword_refusal(saw: Seq<char>, want: Seq<char>) -> Seq<char> {
    debug_quoted(saw) + ", wanted "@ + debug_quoted(want)
}

/// The numbers of a list after the first `n`, each after `, `.
pub open spec fn values_tail(values: Seq<i32>, n: nat) -> Seq<char>
    decreases values.len() - n,
{
    if n >= values.len() {
        Seq::empty()
    } else {
        seq![',', ' '] + signed_decimal(values[n as int] as int) + values_tail(values, n + 1)
    }
}

/// A list of numbers the way `{:?}` writes one: in square brackets, apart
/// by `, `.
pub open spec fn values_text(values: Seq<i32>) -> Seq<char> {
    if values.len() == 0 {
        seq!['[', ']']
    } else {
        seq!['['] + signed_decimal(values[0] as int) + values_tail(values, 1) + seq![']']
    }
}

/// `{corners} corners but {values} values`.
pub open spec fn face_text(corners: nat, values: nat) -> Seq<char> {
    decimal(corners) + seq![' ', 'c', 'o', 'r', 'n', 'e', 'r', 's', ' ', 'b', 'u', 't', ' '] + decimal(values)
        + seq![' ', 'v', 'a', 'l', 'u', 'e', 's']
}

/// The error each refusal is given as.
pub open spec fn refused(e: Error, f: Refusal) -> bool {
    match f {
        Refusal::Keyword { line, saw, want } => e matches Error::BadLine { what, line: l, saw: s }
            && what@ == "animated model keyword"@ && l == line && s@ == keyword_refusal(saw, want),
        Refusal::Name { line } => e matches Error::BadLine { what, line: l, saw: s }
            && what@ == "animated model name"@ && l == line && s@.len() == 0,
        Refusal::Row { line, saw } => e matches Error::BadLine { what, line: l, saw: s }
            && what@ == "animated model row"@ && l == line && s@ == saw,
        Refusal::Triple { line, values } => e matches Error::BadLine { what, line: l, saw: s }
            && what@ == "animated model triple"@ && l == line && s@ == values_text(values),
        Refusal::Face { line, corners, values } => e matches Error::BadLine { what, line: l, saw: s }
            && what@ == "animated model face"@ && l == line && s@ == face_text(corners as nat, values as nat),
        Refusal::ShortCounts { .. } => false,
    }
}

pub open spec fn line_of(ls: Seq<Seq<char>>, at: int) -> Seq<char> {
    if 0 <= at < ls.len() { ls[at] } else { Seq::empty() }
}

/// The keyword line at `at`; the line after it.
pub open spec fn keyword_at(ls: Seq<Seq<char>>, at: int, want: Seq<char>) -> core::result::Result<int, Refusal> {
    if 0 <= at < ls.len() && trim(ls[at]) == want {
        Ok(at + 1)
    } else {
        Err(Refusal::Keyword { line: at + 1, saw: line_of(ls, at), want })
    }
}

/// A name: the line at `at`, trimmed.
pub open spec fn name_at(ls: Seq<Seq<char>>, at: int) -> core::result::Result<(Seq<char>, int), Refusal> {
    if 0 <= at < ls.len() { Ok((trim(ls[at]), at + 1)) } else { Err(Refusal::Name { line: at + 1 }) }
}

pub open spec fn row_at(ls: Seq<Seq<char>>, at: int) -> core::result::Result<(Seq<i32>, int), Refusal> {
    if 0 <= at < ls.len() {
        match row_of(ls[at]) {
            Some(v) => Ok((v, at + 1)),
            None => Err(Refusal::Row { line: at + 1, saw: ls[at] }),
        }
    } else {
        Err(Refusal::Row { line: at + 1, saw: Seq::empty() })
    }
}

pub open spec fn triple_at(ls: Seq<Seq<char>>, at: int) -> core::result::Result<(Seq<i32>, int), Refusal> {
    match row_at(ls, at) {
        Ok((v, next)) => if v.len() == 3 { Ok((v, next)) } else { Err(Refusal::Triple { line: next, values: v }) },
        Err(f) => Err(f),
    }
}

/// `n` triples, one a line.
pub open spec fn triples_at(ls: Seq<Seq<char>>, at: int, n: nat) -> core::result::Result<(Seq<Seq<i32>>, int), Refusal>
    decreases n,
{
    if n == 0 {
        Ok((Seq::empty(), at))
    } else {
        match triples_at(ls, at, (n - 1) as nat) {
            Ok((s, next)) => match triple_at(ls, next) {
                Ok((t, after)) => Ok((s.push(t), after)),
                Err(f) => Err(f),
            },
            Err(f) => Err(f),
        }
    }
}

/// `n` names, one a line.
pub open spec fn names_at(ls: Seq<Seq<char>>, at: int, n: nat) -> core::result::Result<(Seq<Seq<char>>, int), Refusal>
    decreases n,
{
    if n == 0 {
        Ok((Seq::empty(), at))
    } else {
        match names_at(ls, at, (n - 1) as nat) {
            Ok((s, next)) => match name_at(ls, next) {
                Ok((t, after)) => Ok((s.push(t), after)),
                Err(f) => Err(f),
            },
            Err(f) => Err(f),
        }
    }
}

/// A number floored at zero.
pub open spec fn floor0(v: i32) -> int {
    if v < 0 { 0 } else { v as int }
}

/// A face's material: none for the sentinel, else the number floored at zero.
pub open spec fn face_material(raw: i32) -> Option<usize> {
    if raw == NO_MATERIAL { None } else { Some(floor0(raw) as usize) }
}

/// The corners a face row lists after its count, normal and plane.
pub open spec fn face_corners(f: Seq<i32>, n: int) -> Seq<Corner> {
    Seq::new(n as nat, |i: int| Corner { vertex: f[5 + 3 * i] as u32, u: f[6 + 3 * i], v: f[7 + 3 * i] })
}

/// A face: its material row, then a row of the corner count, the normal, the
/// plane and three numbers a corner.
pub open spec fn face_at(ls: Seq<Seq<char>>, at: int) -> core::result::Result<(PolygonView, int), Refusal> {
    match row_at(ls, at) {
        Err(f) => Err(f),
        Ok((m, at1)) => match row_at(ls, at1) {
            Err(f) => Err(f),
            Ok((f, at2)) => {
                let n = if f.len() > 0 { floor0(f[0]) } else { 0 };
                if f.len() != 5 + 3 * n {
                    Err(Refusal::Face { line: at2, corners: n, values: f.len() as int })
                } else {
                    Ok((PolygonView {
                        kind: POLYGON,
                        normal: seq![f[1], f[2], f[3]],
                        plane: f[4],
                        corners: face_corners(f, n),
                        colour: None,
                        shade: None,
                        material: face_material(m[0]),
                    }, at2))
                }
            },
        },
    }
}

pub open spec fn faces_at(ls: Seq<Seq<char>>, at: int, n: nat) -> core::result::Result<(Seq<PolygonView>, int), Refusal>
    decreases n,
{
    if n == 0 {
        Ok((Seq::empty(), at))
    } else {
        match faces_at(ls, at, (n - 1) as nat) {
            Ok((s, next)) => match face_at(ls, next) {
                Ok((t, after)) => Ok((s.push(t), after)),
                Err(f) => Err(f),
            },
            Err(f) => Err(f),
        }
    }
}

/// A part's name, pivot and keyframes.
pub struct Pose {
    pub name: Seq<char>,
    pub pivot: Seq<i32>,
    pub angles: Seq<Seq<i32>>,
    pub centres: Seq<Seq<i32>>,
}

pub open spec fn pose_at(ls: Seq<Seq<char>>, at: int, frames: nat) -> core::result::Result<(Pose, int), Refusal> {
    match keyword_at(ls, at, "partName"@) {
        Err(f) => Err(f),
        Ok(a) => match name_at(ls, a) {
            Err(f) => Err(f),
            Ok((name, a)) => match keyword_at(ls, a, "pivot"@) {
                Err(f) => Err(f),
                Ok(a) => match triple_at(ls, a) {
                    Err(f) => Err(f),
                    Ok((pivot, a)) => match keyword_at(ls, a, "angleList"@) {
                        Err(f) => Err(f),
                        Ok(a) => match triples_at(ls, a, frames) {
                            Err(f) => Err(f),
                            Ok((angles, a)) => match keyword_at(ls, a, "centerList"@) {
                                Err(f) => Err(f),
                                Ok(a) => match triples_at(ls, a, frames) {
                                    Err(f) => Err(f),
                                    Ok((centres, a)) => Ok((Pose { name, pivot, angles, centres }, a)),
                                },
                            },
                        },
                    },
                },
            },
        },
    }
}

/// A part's parent, hit points, leg flag and bounds.
pub struct Frame {
    pub parent: i32,
    pub hit_points: i32,
    pub leg_flag: i32,
    pub min: Seq<i32>,
    pub max: Seq<i32>,
}

/// The value at `i`, or 0 past the end.
pub open spec fn value_or_zero(v: Seq<i32>, i: int) -> i32 {
    if 0 <= i < v.len() { v[i] } else { 0 }
}

pub open spec fn frame_at(ls: Seq<Seq<char>>, at: int) -> core::result::Result<(Frame, int), Refusal> {
    match keyword_at(ls, at, "parent,partHP,legFlag"@) {
        Err(f) => Err(f),
        Ok(a) => match row_at(ls, a) {
            Err(f) => Err(f),
            Ok((v, a)) => match keyword_at(ls, a, "min"@) {
                Err(f) => Err(f),
                Ok(a) => match triple_at(ls, a) {
                    Err(f) => Err(f),
                    Ok((min, a)) => match keyword_at(ls, a, "max"@) {
                        Err(f) => Err(f),
                        Ok(a) => match triple_at(ls, a) {
                            Err(f) => Err(f),
                            Ok((max, a)) => Ok((Frame {
                                parent: v[0],
                                hit_points: value_or_zero(v, 1),
                                leg_flag: value_or_zero(v, 2),
                                min,
                                max,
                            }, a)),
                        },
                    },
                },
            },
        },
    }
}

/// A part's vertices and faces.
pub open spec fn mesh_at(ls: Seq<Seq<char>>, at: int) -> core::result::Result<((Seq<Vertex>, Seq<PolygonView>), int), Refusal> {
    match keyword_at(ls, at, "vertexCount,faceCount"@) {
        Err(f) => Err(f),
        Ok(a) => match row_at(ls, a) {
            Err(f) => Err(f),
            Ok((v, a)) => if v.len() < 2 {
                Err(Refusal::ShortCounts { line: a })
            } else {
                match keyword_at(ls, a, "vertexList"@) {
                    Err(f) => Err(f),
                    Ok(a) => match triples_at(ls, a, floor0(v[0]) as nat) {
                        Err(f) => Err(f),
                        Ok((ts, a)) => match keyword_at(ls, a, "material and faceList"@) {
                            Err(f) => Err(f),
                            Ok(a) => match faces_at(ls, a, floor0(v[1]) as nat) {
                                Err(f) => Err(f),
                                Ok((faces, a)) => Ok((
                                    (Seq::new(ts.len(), |i: int| Vertex { x: ts[i][0], y: ts[i][1], z: ts[i][2] }), faces),
                                    a,
                                )),
                            },
                        },
                    },
                }
            },
        },
    }
}

pub open spec fn part_at(ls: Seq<Seq<char>>, at: int, frames: nat) -> core::result::Result<(PartView, int), Refusal> {
    match pose_at(ls, at, frames) {
        Err(f) => Err(f),
        Ok((p, a)) => match frame_at(ls, a) {
            Err(f) => Err(f),
            Ok((b, a)) => match mesh_at(ls, a) {
                Err(f) => Err(f),
                Ok(((vertices, polygons), a)) => Ok((PartView {
                    name: p.name,
                    pivot: p.pivot,
                    angles: p.angles,
                    centres: p.centres,
                    parent: b.parent,
                    hit_points: b.hit_points,
                    leg_flag: b.leg_flag,
                    min: b.min,
                    max: b.max,
                    vertices,
                    polygons,
                }, a)),
            },
        },
    }
}

pub open spec fn parts_at(ls: Seq<Seq<char>>, at: int, n: nat, frames: nat) -> core::result::Result<(Seq<PartView>, int), Refusal>
    decreases n,
{
    if n == 0 {
        Ok((Seq::empty(), at))
    } else {
        match parts_at(ls, at, (n - 1) as nat, frames) {
            Ok((s, next)) => match part_at(ls, next, frames) {
                Ok((t, after)) => Ok((s.push(t), after)),
                Err(f) => Err(f),
            },
            Err(f) => Err(f),
        }
    }
}

/// The file's header: frame count and time, and the materials.
pub struct Head {
    pub frames: int,
    pub time_per_frame: i32,
    pub materials: Seq<Seq<char>>,
}

pub open spec fn head_at(ls: Seq<Seq<char>>) -> core::result::Result<(Head, int), Refusal> {
    match keyword_at(ls, 0, "frameCount,timePerFrame"@) {
        Err(f) => Err(f),
        Ok(a) => match row_at(ls, a) {
            Err(f) => Err(f),
            Ok((head, a)) => match keyword_at(ls, a, "materialCount"@) {
                Err(f) => Err(f),
                Ok(a) => match row_at(ls, a) {
                    Err(f) => Err(f),
                    Ok((count, a)) => match keyword_at(ls, a, "materialList"@) {
                        Err(f) => Err(f),
                        Ok(a) => match names_at(ls, a, floor0(count[0]) as nat) {
                            Err(f) => Err(f),
                            Ok((materials, a)) => Ok((Head {
                                frames: floor0(value_or_zero(head, 0)),
                                time_per_frame: value_or_zero(head, 1),
                                materials,
                            }, a)),
                        },
                    },
                },
            },
        },
    }
}

/// The model's placement: angle, centre, magnitude and the part count.
pub struct Place {
    pub angle: Seq<i32>,
    pub centre: Seq<i32>,
    pub mag_power: i32,
    pub parts: int,
}

pub open spec fn place_at(ls: Seq<Seq<char>>, at: int) -> core::result::Result<(Place, int), Refusal> {
    match keyword_at(ls, at, "angle"@) {
        Err(f) => Err(f),
        Ok(a) => match triple_at(ls, a) {
            Err(f) => Err(f),
            Ok((angle, a)) => match keyword_at(ls, a, "center"@) {
                Err(f) => Err(f),
                Ok(a) => match triple_at(ls, a) {
                    Err(f) => Err(f),
                    Ok((centre, a)) => match keyword_at(ls, a, "magPower"@) {
                        Err(f) => Err(f),
                        Ok(a) => match row_at(ls, a) {
                            Err(f) => Err(f),
                            Ok((mag, a)) => match keyword_at(ls, a, "partCount"@) {
                                Err(f) => Err(f),
                                Ok(a) => match row_at(ls, a) {
                                    Err(f) => Err(f),
                                    Ok((parts, a)) => Ok((Place {
                                        angle,
                                        centre,
                                        mag_power: mag[0],
                                        parts: floor0(parts[0]),
                                    }, a)),
                                },
                            },
                        },
                    },
                },
            },
        },
    }
}

/// An animated model file, or where and why its reading stops.
pub open spec fn animated_of(data: Seq<u8>) -> core::result::Result<AnimatedView, Refusal> {
    let ls = text_lines(data);
    match head_at(ls) {
        Err(f) => Err(f),
        Ok((h, a)) => match place_at(ls, a) {
            Err(f) => Err(f),
            Ok((p, a)) => match parts_at(ls, a, p.parts as nat, h.frames as nat) {
                Err(f) => Err(f),
                Ok((parts, _)) => Ok(AnimatedView {
                    frames: h.frames as usize,
                    time_per_frame: h.time_per_frame,
                    materials: h.materials,
                    angle: p.angle,
                    centre: p.centre,
                    mag_power: p.mag_power,
                    parts,
                }),
            },
        },
    }
}

// ---------------------------------------------------------------------------
// The reader.

/// Append a string's characters.
fn push_text(out: &mut Vec<char>, s: &str)
    ensures
        final(out)@ == old(out)@ + s@,
{
    let c = chars_of(s);
    push_all(out, c.as_slice());
}

/// The report for a keyword line that is not the keyword.
fn keyword_refusal_text(saw: &str, want: &str) -> (r: String)
    ensures
        r@ == keyword_refusal(saw@, want@),
{
    let mut out: Vec<char> = Vec::new();
    let q = quoted(saw);
    push_text(&mut out, q.as_str());
    push_text(&mut out, ", wanted ");
    let q = quoted(want);
    push_text(&mut out, q.as_str());
    assert(out@ =~= keyword_refusal(saw@, want@));
    string_of(out.as_slice())
}

/// The report for a row of numbers that is not three.
fn values_refusal_text(values: &[i32]) -> (r: String)
    ensures
        r@ == values_text(values@),
{
    let mut out: Vec<char> = Vec::new();
    out.push('[');
    if values.len() > 0 {
        let d = signed_decimal_chars(values[0]);
        push_all(&mut out, d.as_slice());
        assert(out@ + values_tail(values@, 1) =~= seq!['['] + signed_decimal(values@[0] as int) + values_tail(values@, 1));
        let mut i: usize = 1;
        while i < values.len()
            invariant
                1 <= i <= values@.len(),
                out@ + values_tail(values@, i as nat) == seq!['['] + signed_decimal(values@[0] as int) + values_tail(values@, 1),
            decreases values@.len() - i,
        {
            let ghost out0 = out@;
            out.push(',');
            out.push(' ');
            let d = signed_decimal_chars(values[i]);
            push_all(&mut out, d.as_slice());
            proof {
                assert(values_tail(values@, i as nat) == seq![',', ' '] + signed_decimal(values@[i as int] as int) + values_tail(values@, (i + 1) as nat));
                assert(out@ + values_tail(values@, (i + 1) as nat) =~= out0 + values_tail(values@, i as nat));
            }
            i += 1;
        }
        assert(values_tail(values@, i as nat) == Seq::<char>::empty());
        assert(out@ =~= out@ + values_tail(values@, i as nat));
    }
    out.push(']');
    assert(out@ =~= values_text(values@));
    string_of(out.as_slice())
}

fn keyword(lines: &[String], at: usize, want: &'static str) -> (r: Result<usize>)
    requires
        at <= lines@.len(),
        lines@.len() <= isize::MAX,
    ensures
        match keyword_at(views(lines@), at as int, want@) {
            Ok(n) => r == Ok::<usize, Error>(n as usize) && n <= lines@.len(),
            Err(f) => r matches Err(e) && refused(e, f),
        },
{
    let saw = line_at(lines, at);
    proof {
        if at < lines@.len() {
            assert(views(lines@)[at as int] == lines@[at as int]@);
        }
        assert(saw@ == line_of(views(lines@), at as int));
    }
    let c = chars_of(saw.as_str());
    let t = trim_chars(c.as_slice());
    let w = chars_of(want);
    if at < lines.len() && same_chars(t.as_slice(), w.as_slice()) {
        Ok(at + 1)
    } else {
        Err(Error::BadLine { what: "animated model keyword", line: at + 1, saw: keyword_refusal_text(saw.as_str(), want) })
    }
}

fn name(lines: &[String], at: usize) -> (r: Result<(String, usize)>)
    requires
        at <= lines@.len(),
        lines@.len() <= isize::MAX,
    ensures
        match name_at(views(lines@), at as int) {
            Ok((v, n)) => r matches Ok((s, m)) && s@ == v && m == n && n <= lines@.len(),
            Err(f) => r matches Err(e) && refused(e, f),
        },
{
    if at < lines.len() {
        proof {
            assert(views(lines@)[at as int] == lines@[at as int]@);
        }
        let c = chars_of(lines[at].as_str());
        let t = trim_chars(c.as_slice());
        Ok((string_of(t.as_slice()), at + 1))
    } else {
        let empty = String::new();
        Err(Error::BadLine { what: "animated model name", line: at + 1, saw: empty })
    }
}

fn row(lines: &[String], at: usize) -> (r: Result<(Vec<i32>, usize)>)
    requires
        at <= lines@.len(),
        lines@.len() <= isize::MAX,
    ensures
        match row_at(views(lines@), at as int) {
            Ok((v, n)) => r matches Ok((w, m)) && w@ == v && m == n && n <= lines@.len() && v.len() >= 1,
            Err(f) => r matches Err(e) && refused(e, f),
        },
{
    if at >= lines.len() {
        let empty = String::new();
        return Err(Error::BadLine { what: "animated model row", line: at + 1, saw: empty });
    }
    proof {
        assert(views(lines@)[at as int] == lines@[at as int]@);
    }
    let c = chars_of(lines[at].as_str());
    match row_values(c.as_slice()) {
        Some(v) => Ok((v, at + 1)),
        None => Err(Error::BadLine { what: "animated model row", line: at + 1, saw: lines[at].clone() }),
    }
}

fn triple(lines: &[String], at: usize) -> (r: Result<([i32; 3], usize)>)
    requires
        at <= lines@.len(),
        lines@.len() <= isize::MAX,
    ensures
        match triple_at(views(lines@), at as int) {
            Ok((v, n)) => r matches Ok((w, m)) && w@ == v && m == n && n <= lines@.len(),
            Err(f) => r matches Err(e) && refused(e, f),
        },
{
    let (v, next) = match row(lines, at) {
        Ok(x) => x,
        Err(e) => return Err(e),
    };
    if v.len() != 3 {
        return Err(Error::BadLine { what: "animated model triple", line: next, saw: values_refusal_text(v.as_slice()) });
    }
    let t = [v[0], v[1], v[2]];
    assert(t@ =~= v@);
    Ok((t, next))
}

fn triples(lines: &[String], at: usize, n: usize) -> (r: Result<(Vec<[i32; 3]>, usize)>)
    requires
        at <= lines@.len(),
        lines@.len() <= isize::MAX,
    ensures
        match triples_at(views(lines@), at as int, n as nat) {
            Ok((v, next)) => r matches Ok((w, m)) && w@.map_values(|a: [i32; 3]| a@) == v && m == next && next <= lines@.len(),
            Err(f) => r matches Err(e) && refused(e, f),
        },
{
    let ghost ls = views(lines@);
    let mut out: Vec<[i32; 3]> = Vec::new();
    let mut a = at;
    let mut k: usize = 0;
    assert(out@.map_values(|t: [i32; 3]| t@) =~= Seq::empty());
    while k < n
        invariant
            ls == views(lines@),
            lines@.len() <= isize::MAX,
            k <= n,
            a <= lines@.len(),
            triples_at(ls, at as int, k as nat) == Ok::<(Seq<Seq<i32>>, int), Refusal>((out@.map_values(|t: [i32; 3]| t@), a as int)),
        decreases n - k,
    {
        let ghost before = out@;
        match triple(lines, a) {
            Ok((t, next)) => {
                out.push(t);
                a = next;
                assert(out@.map_values(|t: [i32; 3]| t@) =~= before.map_values(|t: [i32; 3]| t@).push(t@));
            },
            Err(e) => {
                proof {
                    lemma_triples_stay_failed(ls, at as int, (k + 1) as nat, n as nat);
                }
                return Err(e);
            },
        }
        k += 1;
    }
    Ok((out, a))
}

proof fn lemma_triples_stay_failed(ls: Seq<Seq<char>>, at: int, i: nat, n: nat)
    requires
        i <= n,
        triples_at(ls, at, i) is Err,
    ensures
        triples_at(ls, at, n) == triples_at(ls, at, i),
    decreases n - i,
{
    if i < n {
        lemma_triples_stay_failed(ls, at, i, (n - 1) as nat);
    }
}

fn names(lines: &[String], at: usize, n: usize) -> (r: Result<(Vec<String>, usize)>)
    requires
        at <= lines@.len(),
        lines@.len() <= isize::MAX,
    ensures
        match names_at(views(lines@), at as int, n as nat) {
            Ok((v, next)) => r matches Ok((w, m)) && w@.map_values(|s: String| s@) == v && m == next && next <= lines@.len(),
            Err(f) => r matches Err(e) && refused(e, f),
        },
{
    let ghost ls = views(lines@);
    let mut out: Vec<String> = Vec::new();
    let mut a = at;
    let mut k: usize = 0;
    assert(out@.map_values(|s: String| s@) =~= Seq::empty());
    while k < n
        invariant
            ls == views(lines@),
            lines@.len() <= isize::MAX,
            k <= n,
            a <= lines@.len(),
            names_at(ls, at as int, k as nat) == Ok::<(Seq<Seq<char>>, int), Refusal>((out@.map_values(|s: String| s@), a as int)),
        decreases n - k,
    {
        let ghost before = out@;
        match name(lines, a) {
            Ok((t, next)) => {
                out.push(t);
                a = next;
                assert(out@.map_values(|s: String| s@) =~= before.map_values(|s: String| s@).push(t@));
            },
            Err(e) => {
                proof {
                    lemma_names_stay_failed(ls, at as int, (k + 1) as nat, n as nat);
                }
                return Err(e);
            },
        }
        k += 1;
    }
    Ok((out, a))
}

proof fn lemma_names_stay_failed(ls: Seq<Seq<char>>, at: int, i: nat, n: nat)
    requires
        i <= n,
        names_at(ls, at, i) is Err,
    ensures
        names_at(ls, at, n) == names_at(ls, at, i),
    decreases n - i,
{
    if i < n {
        lemma_names_stay_failed(ls, at, i, (n - 1) as nat);
    }
}

/// A number floored at zero, as a `usize`.
fn floored(v: i32) -> (r: usize)
    ensures
        r == floor0(v),
{
    if v < 0 { 0 } else { v as usize }
}

/// `{corners} corners but {values} values`.
fn face_refusal_text(corners: usize, values: usize) -> (r: String)
    ensures
        r@ == face_text(corners as nat, values as nat),
{
    let mut out = decimal_chars(corners as u128);
    let mid = [' ', 'c', 'o', 'r', 'n', 'e', 'r', 's', ' ', 'b', 'u', 't', ' '];
    push_all(&mut out, &mid);
    let v = decimal_chars(values as u128);
    push_all(&mut out, v.as_slice());
    let tail = [' ', 'v', 'a', 'l', 'u', 'e', 's'];
    push_all(&mut out, &tail);
    proof {
        assert(mid@ =~= seq![' ', 'c', 'o', 'r', 'n', 'e', 'r', 's', ' ', 'b', 'u', 't', ' ']);
        assert(tail@ =~= seq![' ', 'v', 'a', 'l', 'u', 'e', 's']);
    }
    string_of(out.as_slice())
}

fn face(lines: &[String], at: usize) -> (r: Result<(Polygon, usize)>)
    requires
        at <= lines@.len(),
        lines@.len() <= isize::MAX,
    ensures
        match face_at(views(lines@), at as int) {
            Ok((v, n)) => r matches Ok((p, m)) && polygon_view(p) == v && m == n && n <= lines@.len(),
            Err(f) => r matches Err(e) && refused(e, f),
        },
{
    let (m, at1) = match row(lines, at) {
        Ok(x) => x,
        Err(e) => return Err(e),
    };
    let raw = m[0];
    let material = if raw == NO_MATERIAL { None } else { Some(floored(raw)) };
    let (f, at2) = match row(lines, at1) {
        Ok(x) => x,
        Err(e) => return Err(e),
    };
    let n = floored(f[0]);
    if f.len() as u64 != 5 + 3 * (n as u64) {
        return Err(Error::BadLine { what: "animated model face", line: at2, saw: face_refusal_text(n, f.len()) });
    }
    let mut corners: Vec<Corner> = Vec::new();
    let flen = f.len();
    let mut i: usize = 0;
    while i < n
        invariant
            i <= n,
            flen == f@.len(),
            f@.len() == 5 + 3 * n,
            corners@ =~= face_corners(f@, n as int).take(i as int),
        decreases n - i,
    {
        corners.push(Corner { vertex: f[5 + 3 * i] as u32, u: f[6 + 3 * i], v: f[7 + 3 * i] });
        i += 1;
    }
    assert(corners@ =~= face_corners(f@, n as int));
    let normal = [f[1], f[2], f[3]];
    assert(normal@ =~= seq![f@[1], f@[2], f@[3]]);
    assert(material == face_material(m@[0]));
    Ok((Polygon { kind: POLYGON, normal, plane: f[4], corners, colour: None, shade: None, material }, at2))
}

fn faces(lines: &[String], at: usize, n: usize) -> (r: Result<(Vec<Polygon>, usize)>)
    requires
        at <= lines@.len(),
        lines@.len() <= isize::MAX,
    ensures
        match faces_at(views(lines@), at as int, n as nat) {
            Ok((v, next)) => r matches Ok((w, m)) && w@.map_values(|p: Polygon| polygon_view(p)) == v && m == next && next <= lines@.len(),
            Err(f) => r matches Err(e) && refused(e, f),
        },
{
    let ghost ls = views(lines@);
    let mut out: Vec<Polygon> = Vec::new();
    let mut a = at;
    let mut k: usize = 0;
    assert(out@.map_values(|p: Polygon| polygon_view(p)) =~= Seq::empty());
    while k < n
        invariant
            ls == views(lines@),
            lines@.len() <= isize::MAX,
            k <= n,
            a <= lines@.len(),
            faces_at(ls, at as int, k as nat) == Ok::<(Seq<PolygonView>, int), Refusal>((out@.map_values(|p: Polygon| polygon_view(p)), a as int)),
        decreases n - k,
    {
        let ghost before = out@;
        match face(lines, a) {
            Ok((t, next)) => {
                out.push(t);
                a = next;
                assert(out@.map_values(|p: Polygon| polygon_view(p)) =~= before.map_values(|p: Polygon| polygon_view(p)).push(polygon_view(t)));
            },
            Err(e) => {
                proof {
                    lemma_faces_stay_failed(ls, at as int, (k + 1) as nat, n as nat);
                }
                return Err(e);
            },
        }
        k += 1;
    }
    Ok((out, a))
}

proof fn lemma_faces_stay_failed(ls: Seq<Seq<char>>, at: int, i: nat, n: nat)
    requires
        i <= n,
        faces_at(ls, at, i) is Err,
    ensures
        faces_at(ls, at, n) == faces_at(ls, at, i),
    decreases n - i,
{
    if i < n {
        lemma_faces_stay_failed(ls, at, i, (n - 1) as nat);
    }
}

/// The spec keyframe list of a `Vec` of triples.
pub open spec fn triple_views(v: Seq<[i32; 3]>) -> Seq<Seq<i32>> {
    v.map_values(|a: [i32; 3]| a@)
}

fn read_pose(lines: &[String], at: usize, frames: usize) -> (r: Result<((String, [i32; 3], Vec<[i32; 3]>, Vec<[i32; 3]>), usize)>)
    requires
        at <= lines@.len(),
        lines@.len() <= isize::MAX,
    ensures
        match pose_at(views(lines@), at as int, frames as nat) {
            Ok((p, n)) => r matches Ok(((name, pivot, angles, centres), m)) && name@ == p.name && pivot@ == p.pivot
                && triple_views(angles@) == p.angles && triple_views(centres@) == p.centres && m == n && n <= lines@.len(),
            Err(f) => r matches Err(e) && refused(e, f),
        },
{
    let a = match keyword(lines, at, "partName") { Ok(a) => a, Err(e) => return Err(e) };
    let (name, a) = match name(lines, a) { Ok(x) => x, Err(e) => return Err(e) };
    let a = match keyword(lines, a, "pivot") { Ok(a) => a, Err(e) => return Err(e) };
    let (pivot, a) = match triple(lines, a) { Ok(x) => x, Err(e) => return Err(e) };
    let a = match keyword(lines, a, "angleList") { Ok(a) => a, Err(e) => return Err(e) };
    let (angles, a) = match triples(lines, a, frames) { Ok(x) => x, Err(e) => return Err(e) };
    let a = match keyword(lines, a, "centerList") { Ok(a) => a, Err(e) => return Err(e) };
    let (centres, a) = match triples(lines, a, frames) { Ok(x) => x, Err(e) => return Err(e) };
    Ok(((name, pivot, angles, centres), a))
}

fn read_frame(lines: &[String], at: usize) -> (r: Result<((i32, i32, i32, [i32; 3], [i32; 3]), usize)>)
    requires
        at <= lines@.len(),
        lines@.len() <= isize::MAX,
    ensures
        match frame_at(views(lines@), at as int) {
            Ok((b, n)) => r matches Ok(((parent, hp, leg, min, max), m)) && parent == b.parent && hp == b.hit_points
                && leg == b.leg_flag && min@ == b.min && max@ == b.max && m == n && n <= lines@.len(),
            Err(f) => r matches Err(e) && refused(e, f),
        },
{
    let a = match keyword(lines, at, "parent,partHP,legFlag") { Ok(a) => a, Err(e) => return Err(e) };
    let (v, a) = match row(lines, a) { Ok(x) => x, Err(e) => return Err(e) };
    let a = match keyword(lines, a, "min") { Ok(a) => a, Err(e) => return Err(e) };
    let (min, a) = match triple(lines, a) { Ok(x) => x, Err(e) => return Err(e) };
    let a = match keyword(lines, a, "max") { Ok(a) => a, Err(e) => return Err(e) };
    let (max, a) = match triple(lines, a) { Ok(x) => x, Err(e) => return Err(e) };
    let hp = if v.len() > 1 { v[1] } else { 0 };
    let leg = if v.len() > 2 { v[2] } else { 0 };
    Ok(((v[0], hp, leg, min, max), a))
}

/// Why a section did not read: the file refuses it, or its counts' row is
/// too short for the reader to index.
enum Stop {
    Refused(Error),
    Short,
}

/// Whether a stop is the one a fault calls for.
spec fn stopped(st: Stop, f: Refusal) -> bool {
    match f {
        Refusal::ShortCounts { .. } => st is Short,
        _ => st matches Stop::Refused(e) && refused(e, f),
    }
}

fn read_mesh(lines: &[String], at: usize) -> (r: core::result::Result<((Vec<Vertex>, Vec<Polygon>), usize), Stop>)
    requires
        at <= lines@.len(),
        lines@.len() <= isize::MAX,
    ensures
        match mesh_at(views(lines@), at as int) {
            Ok(((vs, ps), n)) => r matches Ok(((vertices, polygons), m)) && vertices@ == vs
                && polygons@.map_values(|p: Polygon| polygon_view(p)) == ps && m == n && n <= lines@.len(),
            Err(f) => r matches Err(st) && stopped(st, f),
        },
{
    let a = match keyword(lines, at, "vertexCount,faceCount") { Ok(a) => a, Err(e) => return Err(Stop::Refused(e)) };
    let (v, a) = match row(lines, a) { Ok(x) => x, Err(e) => return Err(Stop::Refused(e)) };
    if v.len() < 2 {
        return Err(Stop::Short);
    }
    let (nv, nf) = (floored(v[0]), floored(v[1]));
    let a = match keyword(lines, a, "vertexList") { Ok(a) => a, Err(e) => return Err(Stop::Refused(e)) };
    let (ts, a) = match triples(lines, a, nv) { Ok(x) => x, Err(e) => return Err(Stop::Refused(e)) };
    let a = match keyword(lines, a, "material and faceList") { Ok(a) => a, Err(e) => return Err(Stop::Refused(e)) };
    let (faces, a) = match faces(lines, a, nf) { Ok(x) => x, Err(e) => return Err(Stop::Refused(e)) };
    let mut vertices: Vec<Vertex> = Vec::new();
    let mut i: usize = 0;
    while i < ts.len()
        invariant
            i <= ts@.len(),
            vertices@ =~= Seq::new(i as nat, |k: int| Vertex { x: ts@[k]@[0], y: ts@[k]@[1], z: ts@[k]@[2] }),
        decreases ts@.len() - i,
    {
        let t = ts[i];
        vertices.push(Vertex { x: t[0], y: t[1], z: t[2] });
        i += 1;
    }
    proof {
        let tv = triple_views(ts@);
        assert(vertices@ =~= Seq::new(tv.len(), |k: int| Vertex { x: tv[k][0], y: tv[k][1], z: tv[k][2] }));
    }
    Ok(((vertices, faces), a))
}

fn read_part(lines: &[String], at: usize, frames: usize) -> (r: core::result::Result<(Part, usize), Stop>)
    requires
        at <= lines@.len(),
        lines@.len() <= isize::MAX,
    ensures
        match part_at(views(lines@), at as int, frames as nat) {
            Ok((v, n)) => r matches Ok((p, m)) && part_view(p) == v && m == n && n <= lines@.len(),
            Err(f) => r matches Err(st) && stopped(st, f),
        },
{
    let ((name, pivot, angles, centres), a) = match read_pose(lines, at, frames) { Ok(x) => x, Err(e) => return Err(Stop::Refused(e)) };
    let ((parent, hit_points, leg_flag, min, max), a) = match read_frame(lines, a) { Ok(x) => x, Err(e) => return Err(Stop::Refused(e)) };
    let ((vertices, polygons), a) = match read_mesh(lines, a) { Ok(x) => x, Err(st) => return Err(st) };
    Ok((Part { name, pivot, angles, centres, parent, hit_points, leg_flag, min, max, vertices, polygons }, a))
}

fn read_parts(lines: &[String], at: usize, n: usize, frames: usize) -> (r: core::result::Result<(Vec<Part>, usize), Stop>)
    requires
        at <= lines@.len(),
        lines@.len() <= isize::MAX,
    ensures
        match parts_at(views(lines@), at as int, n as nat, frames as nat) {
            Ok((v, next)) => r matches Ok((w, m)) && w@.map_values(|p: Part| part_view(p)) == v && m == next && next <= lines@.len(),
            Err(f) => r matches Err(st) && stopped(st, f),
        },
{
    let ghost ls = views(lines@);
    let mut out: Vec<Part> = Vec::new();
    assert(out@.map_values(|p: Part| part_view(p)) =~= Seq::empty());
    let mut a = at;
    let mut k: usize = 0;
    while k < n
        invariant
            ls == views(lines@),
            lines@.len() <= isize::MAX,
            k <= n,
            a <= lines@.len(),
            parts_at(ls, at as int, k as nat, frames as nat) == Ok::<(Seq<PartView>, int), Refusal>((out@.map_values(|p: Part| part_view(p)), a as int)),
        decreases n - k,
    {
        let ghost before = out@;
        proof {
            if part_at(ls, a as int, frames as nat) is Err {
                lemma_parts_stay_failed(ls, at as int, (k + 1) as nat, n as nat, frames as nat);
            }
        }
        match read_part(lines, a, frames) {
            Ok((t, next)) => {
                out.push(t);
                a = next;
                assert(out@.map_values(|p: Part| part_view(p)) =~= before.map_values(|p: Part| part_view(p)).push(part_view(t)));
            },
            Err(e) => {
                proof {
                    lemma_parts_stay_failed(ls, at as int, (k + 1) as nat, n as nat, frames as nat);
                }
                return Err(e);
            },
        }
        k += 1;
    }
    Ok((out, a))
}

proof fn lemma_parts_stay_failed(ls: Seq<Seq<char>>, at: int, i: nat, n: nat, frames: nat)
    requires
        i <= n,
        parts_at(ls, at, i, frames) is Err,
    ensures
        parts_at(ls, at, n, frames) == parts_at(ls, at, i, frames),
    decreases n - i,
{
    if i < n {
        lemma_parts_stay_failed(ls, at, i, (n - 1) as nat, frames);
    }
}

fn read_head(lines: &[String]) -> (r: Result<((usize, i32, Vec<String>), usize)>)
    requires
        lines@.len() <= isize::MAX,
    ensures
        match head_at(views(lines@)) {
            Ok((h, n)) => r matches Ok(((frames, time, materials), m)) && frames == h.frames && time == h.time_per_frame
                && materials@.map_values(|s: String| s@) == h.materials && m == n && n <= lines@.len(),
            Err(f) => r matches Err(e) && refused(e, f),
        },
{
    let a = match keyword(lines, 0, "frameCount,timePerFrame") { Ok(a) => a, Err(e) => return Err(e) };
    let (head, a) = match row(lines, a) { Ok(x) => x, Err(e) => return Err(e) };
    let a = match keyword(lines, a, "materialCount") { Ok(a) => a, Err(e) => return Err(e) };
    let (count, a) = match row(lines, a) { Ok(x) => x, Err(e) => return Err(e) };
    let a = match keyword(lines, a, "materialList") { Ok(a) => a, Err(e) => return Err(e) };
    let (materials, a) = match names(lines, a, floored(count[0])) { Ok(x) => x, Err(e) => return Err(e) };
    let frames = floored(head[0]);
    let time = if head.len() > 1 { head[1] } else { 0 };
    Ok(((frames, time, materials), a))
}

fn read_place(lines: &[String], at: usize) -> (r: Result<(([i32; 3], [i32; 3], i32, usize), usize)>)
    requires
        at <= lines@.len(),
        lines@.len() <= isize::MAX,
    ensures
        match place_at(views(lines@), at as int) {
            Ok((p, n)) => r matches Ok(((angle, centre, mag, parts), m)) && angle@ == p.angle && centre@ == p.centre
                && mag == p.mag_power && parts == p.parts && m == n && n <= lines@.len(),
            Err(f) => r matches Err(e) && refused(e, f),
        },
{
    let a = match keyword(lines, at, "angle") { Ok(a) => a, Err(e) => return Err(e) };
    let (angle, a) = match triple(lines, a) { Ok(x) => x, Err(e) => return Err(e) };
    let a = match keyword(lines, a, "center") { Ok(a) => a, Err(e) => return Err(e) };
    let (centre, a) = match triple(lines, a) { Ok(x) => x, Err(e) => return Err(e) };
    let a = match keyword(lines, a, "magPower") { Ok(a) => a, Err(e) => return Err(e) };
    let (mag, a) = match row(lines, a) { Ok(x) => x, Err(e) => return Err(e) };
    let a = match keyword(lines, a, "partCount") { Ok(a) => a, Err(e) => return Err(e) };
    let (parts, a) = match row(lines, a) { Ok(x) => x, Err(e) => return Err(e) };
    Ok(((angle, centre, mag[0], floored(parts[0])), a))
}

/// Reads an animated model: the header (frame count and time, materials,
/// angle, centre, magnitude, part count), then each part (name, pivot, a
/// keyframe angle and centre per frame, parent, hit points and leg flag,
/// bounds, vertices and faces), each section after its keyword line. The
/// first line out of place is the error.
pub fn parse(data: &[u8]) -> (r: Result<Animated>)
    requires
        !(animated_of(data@) matches Err(Refusal::ShortCounts { .. })),
    ensures
        match animated_of(data@) {
            Ok(v) => r matches Ok(a) && animated_view(a) == v,
            Err(f) => r matches Err(e) && refused(e, f),
        },
{
    match read_model(data) {
        Ok(a) => Ok(a),
        Err(Stop::Refused(e)) => Err(e),
        Err(Stop::Short) => {
            assert(false);
            Err(Error::BadLine { what: "animated model counts", line: 0, saw: String::new() })
        },
    }
}

/// Reads an animated model as [`parse`] does, first making sure that every
/// part's vertex and face counts' row holds both counts: `None` where one
/// does not, which the reader cannot index.
pub fn parse_checked(data: &[u8]) -> (r: Option<Result<Animated>>)
    ensures
        match animated_of(data@) {
            Ok(v) => r matches Some(Ok(a)) && animated_view(a) == v,
            Err(Refusal::ShortCounts { .. }) => r is None,
            Err(f) => r matches Some(Err(e)) && refused(e, f),
        },
{
    match read_model(data) {
        Ok(a) => Some(Ok(a)),
        Err(Stop::Refused(e)) => Some(Err(e)),
        Err(Stop::Short) => None,
    }
}

fn read_model(data: &[u8]) -> (r: core::result::Result<Animated, Stop>)
    ensures
        match animated_of(data@) {
            Ok(v) => r matches Ok(a) && animated_view(a) == v,
            Err(f) => r matches Err(st) && stopped(st, f),
        },
{
    let lines = lines(data);
    let _ = line_count(lines.as_slice());
    let ((frames, time_per_frame, materials), a) = match read_head(lines.as_slice()) {
        Ok(x) => x,
        Err(e) => return Err(Stop::Refused(e)),
    };
    let ((angle, centre, mag_power, n), a) = match read_place(lines.as_slice(), a) {
        Ok(x) => x,
        Err(e) => return Err(Stop::Refused(e)),
    };
    let (parts, _) = match read_parts(lines.as_slice(), a, n, frames) {
        Ok(x) => x,
        Err(st) => return Err(st),
    };
    Ok(Animated { frames, time_per_frame, materials, angle, centre, mag_power, parts })
}

// ---------------------------------------------------------------------------
// The rest pose.

/// How many vertices the first `k` parts hold.
pub open spec fn vertices_before(parts: Seq<Part>, k: int) -> int
    decreases k,
{
    if k <= 0 { 0 } else { vertices_before(parts, k - 1) + parts[k - 1].vertices@.len() }
}

/// How many faces the first `k` parts hold.
pub open spec fn polygons_before(parts: Seq<Part>, k: int) -> int
    decreases k,
{
    if k <= 0 { 0 } else { polygons_before(parts, k - 1) + parts[k - 1].polygons@.len() }
}

/// Half a coordinate, rounded toward zero as integer division rounds.
pub open spec fn half(v: i32) -> i32 {
    (if v >= 0 { v / 2 } else { -((-v) / 2) }) as i32
}

pub open spec fn halved(v: Vertex) -> Vertex {
    Vertex { x: half(v.x), y: half(v.y), z: half(v.z) }
}

/// A face with its corners' vertex numbers moved on by `base`.
pub open spec fn shifted(p: Polygon, base: u32) -> PolygonView {
    PolygonView {
        corners: p.corners@.map_values(|c: Corner| Corner { vertex: (c.vertex + base) as u32, u: c.u, v: c.v }),
        ..polygon_view(p)
    }
}

/// Where the `k`th part's vertices start in the one mesh, as the `u32` the
/// corners count in.
pub open spec fn base_of(parts: Seq<Part>, k: int) -> u32 {
    vertices_before(parts, k) as u32
}

pub open spec fn rest_vertices(parts: Seq<Part>, k: int) -> Seq<Vertex>
    decreases k,
{
    if k <= 0 { Seq::empty() } else { rest_vertices(parts, k - 1) + parts[k - 1].vertices@.map_values(|v: Vertex| halved(v)) }
}

pub open spec fn rest_polygons(parts: Seq<Part>, k: int) -> Seq<PolygonView>
    decreases k,
{
    if k <= 0 {
        Seq::empty()
    } else {
        rest_polygons(parts, k - 1) + parts[k - 1].polygons@.map_values(|p: Polygon| shifted(p, base_of(parts, k - 1)))
    }
}

proof fn lemma_rest_lengths(parts: Seq<Part>, k: int)
    requires
        0 <= k <= parts.len(),
    ensures
        rest_polygons(parts, k).len() == polygons_before(parts, k),
        rest_vertices(parts, k).len() == vertices_before(parts, k),
        0 <= vertices_before(parts, k),
        0 <= polygons_before(parts, k),
    decreases k,
{
    if k > 0 {
        lemma_rest_lengths(parts, k - 1);
    }
}

proof fn lemma_rest_grows(parts: Seq<Part>, k: int, n: int)
    requires
        0 <= k <= n <= parts.len(),
    ensures
        forall|j: int| 0 <= j < polygons_before(parts, k) ==> #[trigger] rest_polygons(parts, n)[j] == rest_polygons(parts, k)[j],
        forall|j: int| 0 <= j < vertices_before(parts, k) ==> #[trigger] rest_vertices(parts, n)[j] == rest_vertices(parts, k)[j],
    decreases n - k,
{
    if k < n {
        lemma_rest_grows(parts, k, n - 1);
        lemma_rest_lengths(parts, n - 1);
        lemma_rest_lengths(parts, k);
        lemma_before_grows(parts, k, n - 1);
        assert forall|j: int| 0 <= j < polygons_before(parts, k) implies #[trigger] rest_polygons(parts, n)[j] == rest_polygons(parts, k)[j] by {
            assert(rest_polygons(parts, n)[j] == rest_polygons(parts, n - 1)[j]);
        }
        assert forall|j: int| 0 <= j < vertices_before(parts, k) implies #[trigger] rest_vertices(parts, n)[j] == rest_vertices(parts, k)[j] by {
            assert(rest_vertices(parts, n)[j] == rest_vertices(parts, n - 1)[j]);
        }
    }
}

/// In the rest pose's one mesh, each corner of part `k`'s faces is moved on
/// by the number of vertices in the parts before it, so that it names the
/// same vertex of its own part, halved, that it named before the parts were
/// put together: the vertex as it was, each coordinate halved toward zero.
pub proof fn law_rest_pose_corners_keep_their_vertices(parts: Seq<Part>, k: int, i: int, c: int)
    requires
        corners_fit(parts),
        0 <= k < parts.len(),
        0 <= i < parts[k].polygons@.len(),
        0 <= c < parts[k].polygons@[i].corners@.len(),
        vertices_before(parts, k) <= u32::MAX,
    ensures
        ({
            let n = parts.len() as int;
            let orig = parts[k].polygons@[i].corners@[c].vertex;
            let moved = rest_polygons(parts, n)[polygons_before(parts, k) + i].corners[c].vertex;
            &&& moved == orig + vertices_before(parts, k)
            &&& orig < parts[k].vertices@.len() ==> {
                let v = parts[k].vertices@[orig as int];
                let w = rest_vertices(parts, n)[moved as int];
                &&& w.x as int == if v.x >= 0 { v.x / 2 } else { -((-(v.x as int)) / 2) }
                &&& w.y as int == if v.y >= 0 { v.y / 2 } else { -((-(v.y as int)) / 2) }
                &&& w.z as int == if v.z >= 0 { v.z / 2 } else { -((-(v.z as int)) / 2) }
            }
        }),
{
    let n = parts.len() as int;
    lemma_rest_lengths(parts, k);
    lemma_rest_lengths(parts, k + 1);
    lemma_rest_grows(parts, k + 1, n);
    let p = parts[k].polygons@[i];
    let orig = p.corners@[c].vertex;
    let j = polygons_before(parts, k) + i;
    assert(rest_polygons(parts, k + 1)[j] == shifted(p, base_of(parts, k)));
    assert(base_of(parts, k) == vertices_before(parts, k));
    assert(orig + base_of(parts, k) <= u32::MAX);
    assert(rest_polygons(parts, n)[j] == rest_polygons(parts, k + 1)[j]);
    if orig < parts[k].vertices@.len() {
        let v = vertices_before(parts, k) + orig;
        assert(rest_vertices(parts, k + 1)[v] == halved(parts[k].vertices@[orig as int]));
        assert(rest_vertices(parts, n)[v] == rest_vertices(parts, k + 1)[v]);
    }
}

/// Whether every part's corners stay in a `u32` once moved on by the
/// vertices before the part.
pub open spec fn corners_fit(parts: Seq<Part>) -> bool {
    forall|k: int, i: int, c: int|
        0 <= k < parts.len() && 0 <= i < parts[k].polygons@.len() && 0 <= c < parts[k].polygons@[i].corners@.len()
            ==> parts[k].polygons@[i].corners@[c].vertex + base_of(parts, k) <= u32::MAX
}

fn halve(v: i32) -> (r: i32)
    ensures
        r == half(v),
{
    if v >= 0 { v / 2 } else { (-((-(v as i64)) / 2)) as i32 }
}

impl Animated {
    /// How many vertices the parts hold between them.
    pub fn vertex_count(&self) -> (r: usize)
        requires
            vertices_before(self.parts@, self.parts@.len() as int) <= usize::MAX,
        ensures
            r == vertices_before(self.parts@, self.parts@.len() as int),
    {
        let mut total: usize = 0;
        let mut k: usize = 0;
        while k < self.parts.len()
            invariant
                k <= self.parts@.len(),
                vertices_before(self.parts@, self.parts@.len() as int) <= usize::MAX,
                total == vertices_before(self.parts@, k as int),
            decreases self.parts@.len() - k,
        {
            proof {
                lemma_before_grows(self.parts@, (k + 1) as int, self.parts@.len() as int);
            }
            total = total + self.parts[k].vertices.len();
            k += 1;
        }
        total
    }

    /// How many faces the parts hold between them.
    pub fn polygon_count(&self) -> (r: usize)
        requires
            polygons_before(self.parts@, self.parts@.len() as int) <= usize::MAX,
        ensures
            r == polygons_before(self.parts@, self.parts@.len() as int),
    {
        let mut total: usize = 0;
        let mut k: usize = 0;
        while k < self.parts.len()
            invariant
                k <= self.parts@.len(),
                polygons_before(self.parts@, self.parts@.len() as int) <= usize::MAX,
                total == polygons_before(self.parts@, k as int),
            decreases self.parts@.len() - k,
        {
            proof {
                lemma_before_grows(self.parts@, (k + 1) as int, self.parts@.len() as int);
            }
            total = total + self.parts[k].polygons.len();
            k += 1;
        }
        total
    }

    /// The model's rest pose as one mesh, in the same normalisation the
    /// binary models use: every part's vertices halved (toward zero), one
    /// part after another, and each part's faces with their corners moved on
    /// by the vertices before the part.
    ///
    /// A part's vertices are already in model space; its pivot and keyframe
    /// centres are deltas from this pose, and are not applied.
    pub fn rest_pose(&self) -> (r: (Vec<Vertex>, Vec<Polygon>))
        requires
            corners_fit(self.parts@),
        ensures
            r.0@ == rest_vertices(self.parts@, self.parts@.len() as int),
            r.1@.map_values(|p: Polygon| polygon_view(p)) == rest_polygons(self.parts@, self.parts@.len() as int),
    {
        let ghost parts = self.parts@;
        let mut vertices: Vec<Vertex> = Vec::new();
        let mut polygons: Vec<Polygon> = Vec::new();
        assert(polygons@.map_values(|p: Polygon| polygon_view(p)) =~= Seq::empty());
        let mut k: usize = 0;
        while k < self.parts.len()
            invariant
                parts == self.parts@,
                corners_fit(parts),
                k <= parts.len(),
                vertices@ == rest_vertices(parts, k as int),
                vertices@.len() == vertices_before(parts, k as int),
                polygons@.map_values(|p: Polygon| polygon_view(p)) == rest_polygons(parts, k as int),
            decreases parts.len() - k,
        {
            let part = &self.parts[k];
            let base = #[verifier::truncate] (vertices.len() as u32);
            assert(base == base_of(parts, k as int));
            let ghost v0 = vertices@;
            let mut i: usize = 0;
            while i < part.vertices.len()
                invariant
                    i <= part.vertices@.len(),
                    vertices@ == v0 + part.vertices@.take(i as int).map_values(|v: Vertex| halved(v)),
                decreases part.vertices@.len() - i,
            {
                let v = part.vertices[i];
                vertices.push(Vertex { x: halve(v.x), y: halve(v.y), z: halve(v.z) });
                i += 1;
                assert(part.vertices@.take(i as int).map_values(|v: Vertex| halved(v)) =~= part.vertices@.take(i - 1).map_values(|v: Vertex| halved(v)).push(halved(v)));
            }
            assert(part.vertices@.take(i as int) =~= part.vertices@);
            let ghost p0 = polygons@.map_values(|p: Polygon| polygon_view(p));
            let mut j: usize = 0;
            while j < part.polygons.len()
                invariant
                    parts == self.parts@,
                    corners_fit(parts),
                    k < parts.len(),
                    *part == parts[k as int],
                    base == base_of(parts, k as int),
                    j <= part.polygons@.len(),
                    polygons@.map_values(|p: Polygon| polygon_view(p)) == p0 + part.polygons@.take(j as int).map_values(|p: Polygon| shifted(p, base)),
                decreases part.polygons@.len() - j,
            {
                let poly = &part.polygons[j];
                let mut corners: Vec<Corner> = Vec::new();
                let mut c: usize = 0;
                while c < poly.corners.len()
                    invariant
                        parts == self.parts@,
                        corners_fit(parts),
                        k < parts.len(),
                        *part == parts[k as int],
                        j < part.polygons@.len(),
                        *poly == part.polygons@[j as int],
                        base == base_of(parts, k as int),
                        c <= poly.corners@.len(),
                        corners@ =~= poly.corners@.take(c as int).map_values(|q: Corner| Corner { vertex: (q.vertex + base) as u32, u: q.u, v: q.v }),
                    decreases poly.corners@.len() - c,
                {
                    let q = poly.corners[c];
                    assert(q.vertex + base <= u32::MAX);
                    corners.push(Corner { vertex: q.vertex + base, u: q.u, v: q.v });
                    c += 1;
                }
                assert(poly.corners@.take(c as int) =~= poly.corners@);
                let moved = Polygon {
                    kind: poly.kind,
                    normal: poly.normal,
                    plane: poly.plane,
                    corners,
                    colour: poly.colour,
                    shade: poly.shade,
                    material: poly.material,
                };
                let ghost was = polygons@;
                polygons.push(moved);
                assert(polygons@.map_values(|p: Polygon| polygon_view(p)) =~= was.map_values(|p: Polygon| polygon_view(p)).push(polygon_view(moved)));
                j += 1;
                assert(part.polygons@.take(j as int).map_values(|p: Polygon| shifted(p, base)) =~= part.polygons@.take(j - 1).map_values(|p: Polygon| shifted(p, base)).push(shifted(*poly, base)));
            }
            assert(part.polygons@.take(j as int) =~= part.polygons@);
            k += 1;
        }
        (vertices, polygons)
    }
}

proof fn lemma_before_grows(parts: Seq<Part>, k: int, n: int)
    requires
        0 <= k <= n,
    ensures
        vertices_before(parts, k) <= vertices_before(parts, n),
        polygons_before(parts, k) <= polygons_before(parts, n),
    decreases n - k,
{
    if k < n {
        lemma_before_grows(parts, k, n - 1);
    }
}

} // verus!
