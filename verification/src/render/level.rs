//! The sky of the space levels.

use vstd::prelude::*;
use crate::bytes::{chars_of, string_of, decimal, decimal_chars, debug_quoted, wanted_bytes};
use crate::chars::{lower_seq, lower_chars, same_chars};
use crate::text_core::{trim, trim_chars};
use crate::pod::Pod;
use crate::formats::{Error, error_text};
use crate::formats::lvl;
use crate::formats::lvl::{level_of, level_view, LevelView, before_dot};
use crate::formats::terrain::{Terrain, REQUIRED, asked, answers_view, answers_stop, loaded, file_fits, fits};
use crate::formats::text::{self, EnemyDef, LineFault, views, text_lines, first_int, names_read, defs_read};
use crate::formats::act::{Palette, triple_at, square_distance};
use crate::formats::colour::{Ramp, ColourMap, map_index};
use crate::formats::raw::{Image, Shape, guessed, lemma_guessed_area};
use crate::formats::quake::{self, Quake, quake_of, entry_view};
use crate::formats::nav::{self, Nav, navs_of, nav_view, line_or_empty_v};
use crate::formats::course::{self, Course, courses_of, course_view};
use crate::formats::mrgl::{Model, Polygon, Flipbook, model_of, model_view, polygon_view};
use crate::formats::anim::{self, Animated, Refusal, animated_of, animated_view, corners_fit, rest_vertices, rest_polygons};

verus! {

/// One of the 2,000 points the space levels draw for a sky.
#[derive(Debug, Clone, Copy, PartialEq, Eq)]
pub struct Star {
    /// Where it is, as a 16.16 offset from the eye: a star never moves.
    pub at: [i32; 3],
    /// Its palette index, 0 to 31, which is the grey ramp at the bottom of
    /// every level palette: a star's brightness.
    pub colour: u8,
}

/// The C runtime's generator: the seed times 214013 plus 2531011, in 32
/// bits.
pub open spec fn next_seed(s: u32) -> u32 {
    ((s * 214013 + 2531011) % 0x1_0000_0000) as u32
}

/// The seed after `n` draws from 1.
pub open spec fn seed_after(n: nat) -> u32
    decreases n,
{
    if n == 0 { 1 } else { next_seed(seed_after((n - 1) as nat)) }
}

/// The `n`th draw, counting from 1: bits 16 to 30 of the seed it leaves.
pub open spec fn draw(n: nat) -> int {
    ((seed_after(n) / 65536) % 32768) as int
}

/// Star `i` of the field: x and z are `(rand() - 0x4000) << 8`, y is
/// `rand() << 8`, negated for the second thousand, and the colour is
/// `rand() >> 10`, four draws a star in that order.
pub open spec fn star(i: int) -> Star {
    let n = (4 * i) as nat;
    let x = ((draw(n + 1) - 0x4000) * 256) as i32;
    let y = (draw(n + 2) * 256) as i32;
    let z = ((draw(n + 3) - 0x4000) * 256) as i32;
    Star { at: [x, if i < 1000 { y } else { -y as i32 }, z], colour: (draw(n + 4) / 1024) as u8 }
}

fn next(seed: u32) -> (r: u32)
    ensures
        r == next_seed(seed),
{
    ((seed as u64 * 214013 + 2531011) % 0x1_0000_0000) as u32
}

fn rand(seed: u32) -> (r: i32)
    ensures
        r == (seed / 65536) % 32768,
        0 <= r < 32768,
{
    ((seed / 65536) % 32768) as i32
}

/// The star that four draws make, the `i`th of the field.
fn make_star(i: usize, r1: i32, r2: i32, r3: i32, r4: i32) -> (s: Star)
    requires
        i < 2000,
        0 <= r1 < 32768 && 0 <= r2 < 32768 && 0 <= r3 < 32768 && 0 <= r4 < 32768,
        r1 == draw((4 * i + 1) as nat) && r2 == draw((4 * i + 2) as nat),
        r3 == draw((4 * i + 3) as nat) && r4 == draw((4 * i + 4) as nat),
    ensures
        s == star(i as int),
{
    let x = (r1 - 0x4000) * 256;
    let y = r2 * 256;
    let z = (r3 - 0x4000) * 256;
    let colour = (r4 / 1024) as u8;
    Star { at: [x, if i < 1000 { y } else { -y }, z], colour }
}

/// The star field, as `0x44f6f0` generates it once at startup: nothing about
/// the stars is in a file.
pub fn stars() -> (r: Vec<Star>)
    ensures
        r@.len() == 2000,
        forall|i: int| 0 <= i < 2000 ==> #[trigger] r@[i] == star(i),
{
    let mut seed: u32 = 1;
    let mut out: Vec<Star> = Vec::new();
    let mut i: usize = 0;
    while i < 2000
        invariant
            i <= 2000,
            seed == seed_after((4 * i) as nat),
            out@.len() == i,
            forall|k: int| 0 <= k < i ==> #[trigger] out@[k] == star(k),
        decreases 2000 - i,
    {
        let s1 = next(seed);
        let s2 = next(s1);
        let s3 = next(s2);
        let s4 = next(s3);
        assert(s1 == seed_after((4 * i + 1) as nat));
        assert(s2 == seed_after((4 * i + 2) as nat));
        assert(s3 == seed_after((4 * i + 3) as nat));
        assert(s4 == seed_after((4 * i + 4) as nat));
        let s = make_star(i, rand(s1), rand(s2), rand(s3), rand(s4));
        out.push(s);
        seed = s4;
        i += 1;
    }
    out
}

} // verus!

verus! {

/// The bytes of the first entry of `pod` in directory `dir` named `name`,
/// case insensitively, if there is one.
pub open spec fn first_entry(pod: Pod, i: int, dir: Seq<char>, name: Seq<char>) -> bool {
    &&& 0 <= i < pod.entries_view().len()
    &&& pod.matches(i, dir, name)
    &&& forall|k: int| 0 <= k < i ==> !pod.matches(k, dir, name)
}

pub open spec fn pod_bytes(pod: Pod, dir: Seq<char>, name: Seq<char>) -> Option<Seq<u8>> {
    if exists|i: int| first_entry(pod, i, dir, name) {
        let i = choose|i: int| first_entry(pod, i, dir, name);
        let e = pod.entries_view()[i];
        Some(pod.data_view().subrange(e.offset as int, e.offset + e.size))
    } else {
        None
    }
}

/// A file as a level reads it: from the game's archive, or else from the
/// front end's, which carries some art the levels name but do not hold.
pub open spec fn fetched(game: Pod, startup: Option<Pod>, dir: Seq<char>, name: Seq<char>) -> Option<Seq<u8>> {
    match pod_bytes(game, dir, name) {
        Some(b) => Some(b),
        None => match startup {
            Some(s) => pod_bytes(s, dir, name),
            None => None,
        },
    }
}

pub open spec fn pod_of(p: Option<&Pod>) -> Option<Pod> {
    match p {
        Some(x) => Some(*x),
        None => None,
    }
}

fn read_one(pod: &Pod, dir: &str, name: &str) -> (r: Option<Vec<u8>>)
    ensures
        match pod_bytes(*pod, dir@, name@) {
            Some(b) => r matches Some(v) && v@ == b,
            None => r is None,
        },
{
    match pod.read(dir, name) {
        Ok(bytes) => {
            proof {
                let i = choose|i: int|
                    0 <= i < pod.entries_view().len() && pod.matches(i, dir@, name@) && (forall|k: int|
                        0 <= k < i ==> !pod.matches(k, dir@, name@)) && bytes@
                        == pod.data_view().subrange(
                        pod.entries_view()[i].offset as int,
                        pod.entries_view()[i].offset + pod.entries_view()[i].size,
                    );
                assert(first_entry(*pod, i, dir@, name@));
                let j = choose|j: int| first_entry(*pod, j, dir@, name@);
                assert(first_entry(*pod, j, dir@, name@));
                if j < i {
                    assert(!pod.matches(j, dir@, name@));
                } else if i < j {
                    assert(!pod.matches(i, dir@, name@));
                }
                assert(i == j);
            }
            Some(vstd::slice::slice_to_vec(bytes))
        },
        Err(_) => {
            assert forall|i: int| !first_entry(*pod, i, dir@, name@) by {
                if 0 <= i < pod.entries_view().len() {
                    assert(!pod.matches(i, dir@, name@));
                }
            }
            None
        },
    }
}

/// The bytes of a file, looked for in the game's archive and then in the
/// front end's.
pub fn fetch(game: &Pod, startup: Option<&Pod>, dir: &str, name: &str) -> (r: Option<Vec<u8>>)
    ensures
        match fetched(*game, pod_of(startup), dir@, name@) {
            Some(b) => r matches Some(v) && v@ == b,
            None => r is None,
        },
{
    match read_one(game, dir, name) {
        Some(v) => Some(v),
        None => match startup {
            Some(s) => read_one(s, dir, name),
            None => None,
        },
    }
}

/// Two strings, one after the other.
pub fn joined(a: &str, b: &str) -> (r: String)
    ensures
        r@ == a@ + b@,
{
    let mut c = chars_of(a);
    let mut d = chars_of(b);
    c.append(&mut d);
    string_of(c.as_slice())
}

/// Three strings, one after another.
pub fn joined3(a: &str, b: &str, c: &str) -> (r: String)
    ensures
        r@ == a@ + b@ + c@,
{
    let ab = joined(a, b);
    joined(ab.as_str(), c)
}

} // verus!

verus! {

/// Where each file a level needs is named on its manifest: the slots of
/// the `.LVL`'s file lines.
pub const GROUND_ALTITUDE: usize = 1;
pub const GROUND_PALETTE: usize = 3;
pub const QUAKE: usize = 5;
pub const SKY: usize = 9;
pub const SKY_PALETTE: usize = 10;
pub const NAVIGATION: usize = 12;
pub const FOG: usize = 14;
pub const LIGHT: usize = 15;

/// How a text reader's fault reads.
pub open spec fn fault_text(f: LineFault) -> Seq<char> {
    f.what@ + ": line "@ + decimal(f.line as nat) + " is "@ + debug_quoted(f.saw)
}

/// How a fixed-size reader's refusal reads.
pub open spec fn size_text(what: Seq<char>, want: Seq<char>, have: nat) -> Seq<char> {
    what + ": expected "@ + want + ", got "@ + decimal(have) + " bytes"@
}

/// The level stem: the ground altitude file's name before its first dot.
pub open spec fn stem_of(mv: LevelView) -> Seq<char> {
    if mv.files.len() > 1 { before_dot(mv.files[1]) } else { Seq::empty() }
}

/// The terrain file asked for in turn `k`.
pub open spec fn terrain_file(g: Pod, s: Option<Pod>, stem: Seq<char>, k: int) -> Option<Seq<u8>> {
    fetched(g, s, "data"@, stem + "."@ + asked(k)@)
}

/// The terrain files fetched from turn `k` on, up to the first that is
/// missing or the wrong size, and the shading database after all eleven.
pub open spec fn terrain_run(g: Pod, s: Option<Pod>, stem: Seq<char>, k: int) -> Seq<Option<Seq<u8>>>
    decreases 12 - k,
{
    if k < 0 || k >= 12 {
        Seq::empty()
    } else if k == 11 {
        seq![terrain_file(g, s, stem, 11)]
    } else {
        match terrain_file(g, s, stem, k) {
            Some(d) => if file_fits(k, d) {
                seq![Some(d)] + terrain_run(g, s, stem, k + 1)
            } else {
                seq![Some(d)]
            },
            None => seq![None],
        }
    }
}

/// An image file read with its shape guessed from its size; nothing where
/// the file is missing, empty, or of no known size.
pub open spec fn image_of(b: Option<Seq<u8>>, t: Option<Image>) -> bool {
    match b {
        Some(d) => if d.len() != 0 && guessed(d.len() as usize) is Some {
            t matches Some(img) && guessed(d.len() as usize) == Some((img.shape.width, img.shape.height))
                && img.pixels@ == d && d.len() == img.shape.width * img.shape.height
        } else {
            t is None
        },
        None => t is None,
    }
}

/// A ramp file read; nothing where it is missing or the wrong size.
pub open spec fn ramp_of(b: Option<Seq<u8>>, t: Option<Ramp>) -> bool {
    match b {
        Some(d) => if d.len() == Ramp::BYTES {
            t matches Some(rp) && rp.table@ == d && rp.levels == Ramp::LEVELS
        } else {
            t is None
        },
        None => t is None,
    }
}

/// How many times the star field is drawn for a sky file: twice for
/// `space.vox`, once for another `.VOX`, not at all for a sky texture.
pub open spec fn star_passes_of(file: Seq<char>) -> u8 {
    let low = lower_seq(file);
    if low.len() >= 4 && low.subrange(low.len() - 4, low.len() as int) == ".vox"@ {
        if low == "space.vox"@ { 2 } else { 1 }
    } else {
        0
    }
}

/// How far a sky texture's indices sit above the entries they name in the
/// sky palette.
pub const SKY_BIAS: u8 = 48;

/// The sky texture's own indices remapped into the level's palette: each
/// index, less the bias, names a colour of the sky palette, and the
/// ground palette's `.MAP` (named after the palette, in `FOG\`) gives the
/// nearest index to it in the level's. Nothing where either file is
/// missing or does not read.
pub open spec fn sky_remap_of(g: Pod, s: Option<Pod>, mv: LevelView, t: Option<Vec<u8>>) -> bool {
    match fetched(g, s, "art"@, mv.files[SKY_PALETTE as int]) {
        Some(sp) if sp.len() == 768 => match fetched(g, s, "fog"@, before_dot(mv.files[GROUND_PALETTE as int]) + ".map"@) {
            Some(mb) if mb.len() == 32_768 => t matches Some(v) && v@.len() == 256 && forall|i: int|
                0 <= i < 256 ==> {
                    let c = triple_at(sp, (i + 256 - SKY_BIAS) % 256);
                    #[trigger] v@[i] == mb[map_index(c[0], c[1], c[2])]
                },
            _ => t is None,
        },
        _ => t is None,
    }
}

/// A type's destroy sound: `.DEF` line 24 names it, `null` or nothing for
/// none.
pub open spec fn sound_of(g: Pod, s: Option<Pod>, raw: Seq<String>, t: Option<Vec<u8>>) -> bool {
    if raw.len() <= 24 {
        t is None
    } else {
        let name = trim(raw[24]@);
        if lower_seq(name) == "null"@ || name.len() == 0 {
            t is None
        } else {
            match fetched(g, s, "sound"@, name) {
                Some(b) => t matches Some(v) && v@ == b,
                None => t is None,
            }
        }
    }
}

/// Whether the terrain files read.
pub open spec fn terrain_reads(got: Seq<Option<Seq<u8>>>) -> bool {
    exists|t: Terrain| loaded(got, Ok(t))
}

/// The level assembled from its manifest, texture names, palette file and
/// types, with everything optional resolved.
pub open spec fn level_built(
    g: Pod,
    s: Option<Pod>,
    lt: LevelTables,
    mv: LevelView,
    names: Seq<Seq<char>>,
    pb: Seq<u8>,
    kinds: Vec<EnemyDef>,
    l: Level,
) -> bool {
    let stem = stem_of(mv);
    &&& level_view(l.manifest) == mv
    &&& l.stem@ == stem
    &&& loaded(terrain_run(g, s, stem, 0), Ok(l.terrain))
    &&& views(l.texture_names@) == names
    &&& l.textures@.len() == names.len()
    &&& forall|i: int| 0 <= i < names.len() ==> image_of(fetched(g, s, "art"@, names[i]), #[trigger] l.textures@[i])
    &&& forall|i: int| 0 <= i < 256 ==> l.palette.colours@[i] == triple_at(pb, i)
    &&& ramp_of(fetched(g, s, "fog"@, mv.files[LIGHT as int]), l.light)
    &&& ramp_of(fetched(g, s, "fog"@, mv.files[FOG as int]), l.fog)
    &&& l.kinds == kinds
    &&& image_of(fetched(g, s, "art"@, mv.files[SKY as int]), l.sky)
    &&& l.star_passes == star_passes_of(mv.files[SKY as int])
    &&& sky_remap_of(g, s, mv, l.sky_remap)
    &&& l.mips@.len() == names.len()
    &&& forall|i: int| 0 <= i < names.len() ==> mips_of(l.palette.colours@, colour_map_of(g, s, mv), l.textures@[i], #[trigger] l.mips@[i])
    &&& l.stars@ == (if l.star_passes > 0 { Seq::new(2000, |i: int| star(i)) } else { Seq::empty() })
    &&& match fetched(g, s, "data"@, mv.files[QUAKE as int]) {
        Some(qb) => quake_of(qb) matches Ok(q) && l.quake.ground@.map_values(|e: quake::Entry| entry_view(e)) == q.ground
            && l.quake.boxes@.map_values(|e: quake::Entry| entry_view(e)) == q.boxes,
        None => l.quake.ground@.len() == 0 && l.quake.boxes@.len() == 0,
    }
    &&& ({
        let n = kinds@.len() as int;
        let after_wrecks = n + wrecks_before(g, s, kinds@, n);
        let pn = all_named(lt.powerup_models@);
        let after_powerups = after_wrecks + extras_before(g, s, pn, true, pn.len() as int);
        let sn = shot_names(lt.shots@);
        let after_shots = after_powerups + extras_before(g, s, sn, false, sn.len() as int);
        let mn = all_named(lt.muzzle@);
        &&& l.meshes@.len() == after_shots + extras_before(g, s, mn, false, mn.len() as int)
        &&& forall|i: int| 0 <= i < n ==> kind_mesh(g, s, kinds@[i].model@, #[trigger] l.meshes@[i])
        &&& l.wreck_mesh@.len() == n
        &&& forall|i: int| 0 <= i < n ==> wreck_placed(g, s, kinds@, l.meshes@, #[trigger] l.wreck_mesh@[i], i)
        &&& l.powerup_mesh@.len() == pn.len()
        &&& forall|i: int| 0 <= i < pn.len() ==> extra_placed(g, s, pn, true, after_wrecks, l.meshes@, #[trigger] l.powerup_mesh@[i], i)
        &&& l.shot_mesh@.len() == sn.len()
        &&& forall|i: int| 0 <= i < sn.len() ==> extra_placed(g, s, sn, false, after_powerups, l.meshes@, #[trigger] l.shot_mesh@[i], i)
        &&& l.muzzle_mesh@.len() == mn.len()
        &&& forall|i: int| 0 <= i < mn.len() ==> extra_placed(g, s, mn, false, after_shots, l.meshes@, #[trigger] l.muzzle_mesh@[i], i)
    })
    &&& l.blast@.len() == lt.blast_frames
    &&& forall|i: int| 0 <= i < lt.blast_frames ==> image_of(fetched(g, s, "art"@, blast_name((i + 1) as nat)), #[trigger] l.blast@[i])
    &&& l.mesh_textures@.len() == l.meshes@.len()
    &&& forall|i: int| 0 <= i < l.meshes@.len() ==> mesh_images(g, s, l.meshes@[i], #[trigger] l.mesh_textures@[i]@)
    &&& l.mesh_flipbooks@.len() == l.meshes@.len()
    &&& forall|i: int| 0 <= i < l.meshes@.len() ==> mesh_flips(g, s, l.meshes@[i], #[trigger] l.mesh_flipbooks@[i]@)
    &&& l.animated@.len() == kinds@.len()
    &&& forall|i: int| 0 <= i < kinds@.len() ==> kind_animated(g, s, kinds@[i].model@, #[trigger] l.animated@[i])
    &&& l.destroy_sound@.len() == kinds@.len()
    &&& forall|i: int| 0 <= i < kinds@.len() ==> sound_of(g, s, kinds@[i].raw@, #[trigger] l.destroy_sound@[i])
    &&& match fetched(g, s, "data"@, mv.files[NAVIGATION as int]) {
        Some(nb) => navs_of(nb) matches Ok(v) && l.navs@.map_values(|n: Nav| nav_view(n)) == v,
        None => l.navs@.len() == 0,
    }
    &&& match fetched(g, s, "data"@, mv.courses) {
        Some(cb) => match courses_of(cb) {
            Ok(v) => l.courses@.map_values(|c: Course| course_view(c)) == v,
            Err(_) => l.courses@.len() == 0,
        },
        None => l.courses@.len() == 0,
    }
}

/// After the types: the doors and moving ground, then the mission, each of
/// which refuses the level if it is there and does not read.
pub open spec fn after_defs(
    g: Pod,
    s: Option<Pod>,
    lt: LevelTables,
    mv: LevelView,
    names: Seq<Seq<char>>,
    pb: Seq<u8>,
    kinds: Vec<EnemyDef>,
    r: core::result::Result<Level, String>,
) -> bool {
    match fetched(g, s, "data"@, mv.files[QUAKE as int]) {
        Some(qb) if quake_of(qb) is Err => r matches Err(m) && m@ == fault_text(quake_of(qb)->Err_0),
        _ => match fetched(g, s, "data"@, mv.files[NAVIGATION as int]) {
            Some(nb) if navs_of(nb) is Err => {
                let f = navs_of(nb)->Err_0;
                r matches Err(m) && m@ == f.1 + ": line "@ + decimal((f.0 + 1) as nat) + " is "@
                    + debug_quoted(line_or_empty_v(text_lines(nb), f.0))
            },
            _ => r matches Ok(l) && level_built(g, s, lt, mv, names, pb, kinds, l),
        },
    }
}

/// After the palette: the `.DEF` type table.
pub open spec fn after_palette(
    g: Pod,
    s: Option<Pod>,
    lt: LevelTables,
    mv: LevelView,
    names: Seq<Seq<char>>,
    pb: Seq<u8>,
    r: core::result::Result<Level, String>,
) -> bool {
    let stem = stem_of(mv);
    match fetched(g, s, "data"@, stem + ".def"@) {
        None => r matches Err(m) && m@ == "no data\\"@ + stem + ".def"@,
        Some(db) => {
            ||| exists|e: Error| #[trigger] defs_read(db, Err(e)) && (r matches Err(m) && m@ == error_text(e))
            ||| exists|kinds: Vec<EnemyDef>| #[trigger] defs_read(db, Ok(kinds)) && after_defs(g, s, lt, mv, names, pb, kinds, r)
        },
    }
}

/// After the texture names: the ground palette, named on the manifest and
/// looked for in `ART\`.
pub open spec fn after_names(
    g: Pod,
    s: Option<Pod>,
    lt: LevelTables,
    mv: LevelView,
    names: Seq<Seq<char>>,
    r: core::result::Result<Level, String>,
) -> bool {
    let file = mv.files[GROUND_PALETTE as int];
    match fetched(g, s, "art"@, file) {
        None => r matches Err(m) && m@ == "no art\\"@ + file,
        Some(pb) => if pb.len() != 768 {
            r matches Err(m) && m@ == size_text("ACT palette"@, wanted_bytes(768), pb.len())
        } else {
            after_palette(g, s, lt, mv, names, pb, r)
        },
    }
}

/// After the manifest: the terrain, then the `.TEX` texture list.
pub open spec fn after_manifest(g: Pod, s: Option<Pod>, lt: LevelTables, mv: LevelView, r: core::result::Result<Level, String>) -> bool {
    let stem = stem_of(mv);
    let got = terrain_run(g, s, stem, 0);
    if !terrain_reads(got) {
        exists|e: Error| #[trigger] loaded(got, Err(e)) && (r matches Err(m) && m@ == error_text(e))
    } else {
        match fetched(g, s, "data"@, stem + ".tex"@) {
            None => r matches Err(m) && m@ == "no data\\"@ + stem + ".tex"@,
            Some(tb) => {
                ||| exists|e: Error| #[trigger] names_read(tb, "TEX", Err(e)) && (r matches Err(m) && m@ == error_text(e))
                ||| exists|ns: Vec<String>| #[trigger] names_read(tb, "TEX", Ok(ns)) && after_names(g, s, lt, mv, views(ns@), r)
            },
        }
    }
}

/// What loading level `name` gives: the manifest `levels\{name}.lvl`, and
/// everything it names, or the first thing that refuses it.
pub open spec fn loads(g: Pod, s: Option<Pod>, lt: LevelTables, name: Seq<char>, r: core::result::Result<Level, String>) -> bool {
    match fetched(g, s, "levels"@, name + ".lvl"@) {
        None => r matches Err(m) && m@ == "no levels\\"@ + name + ".lvl"@,
        Some(lb) => match level_of(lb) {
            Err(f) => r matches Err(m) && m@ == fault_text(f),
            Ok(mv) => after_manifest(g, s, lt, mv, r),
        },
    }
}

/// Whether the level's `.TEX` count is one a list can be read for: the
/// reader cannot take a count of `usize::MAX`, read from `-1`.
pub open spec fn tex_count_fits(g: Pod, s: Option<Pod>, name: Seq<char>) -> bool {
    match fetched(g, s, "levels"@, name + ".lvl"@) {
        Some(lb) => match level_of(lb) {
            Ok(mv) => terrain_reads(terrain_run(g, s, stem_of(mv), 0)) ==> match fetched(g, s, "data"@, stem_of(mv) + ".tex"@) {
                Some(tb) => first_int(tb) matches Some(v) ==> (v as usize) < usize::MAX,
                None => true,
            },
            Err(_) => true,
        },
        None => true,
    }
}

/// Everything a level needs to be drawn, pulled out of the archives.
pub struct Level {
    pub manifest: lvl::Level,
    pub stem: String,
    pub terrain: Terrain,
    /// The level's `.TEX` list, resolved. An entry is `None` when the named
    /// file is not in either archive or is a zero-length placeholder.
    pub textures: Vec<Option<Image>>,
    /// Each texture at half and quarter size, for the engine's
    /// distance-picked resolution. `None` where the texture is missing or
    /// will not halve.
    pub mips: Vec<[Option<Image>; 2]>,
    pub texture_names: Vec<String>,
    pub palette: Palette,
    pub light: Option<Ramp>,
    pub fog: Option<Ramp>,
    /// The `.DEF` type table.
    pub kinds: Vec<EnemyDef>,
    /// One mesh per type, in the same order, loaded from `MODELS\`; the
    /// wrecks that load follow, so that a destroyed placement can point at
    /// one.
    pub meshes: Vec<Option<Model>>,
    /// Each mesh's materials resolved to images, in the order the mesh names
    /// them. A model's textures come from `ART\` by name, not from the
    /// level's `.TEX` list.
    pub mesh_textures: Vec<Vec<Option<Image>>>,
    /// For each type, the index in `meshes` of its wreck, when it has a
    /// real one.
    pub wreck_mesh: Vec<Option<usize>>,
    /// For each powerup kind, the index in `meshes` of its model.
    pub powerup_mesh: Vec<Option<usize>>,
    /// For each weapon kind, the index in `meshes` of the model its shots
    /// are drawn with.
    pub shot_mesh: Vec<Option<usize>>,
    /// The Valkyrie Cannon's muzzle flashes.
    pub muzzle_mesh: Vec<Option<usize>>,
    /// The explosion's frames, `blast1.raw` upward.
    pub blast: Vec<Option<Image>>,
    /// For each mesh, its flipbook materials with their frames.
    pub mesh_flipbooks: Vec<Vec<Flip>>,
    /// The `.TXT` source of any type's mesh that has one, so the pose can
    /// be taken again at a new time.
    pub animated: Vec<Option<Animated>>,
    /// The sky texture. `None` for the levels whose sky slot names a
    /// zero-length `.VOX`, which are the ones set in space.
    pub sky: Option<Image>,
    /// The star field the space levels draw instead of a sky plane, empty
    /// everywhere else.
    pub stars: Vec<Star>,
    pub star_passes: u8,
    /// The sky texture's indices in the level's palette.
    pub sky_remap: Option<Vec<u8>>,
    /// The level's `.QKE`: the doors and the ground that moves.
    pub quake: Quake,
    /// For each type, the bytes of its destroy sound from `.DEF` line 24.
    pub destroy_sound: Vec<Option<Vec<u8>>>,
    /// The mission, as the `.NAV` file lists it.
    pub navs: Vec<Nav>,
    /// The level's `.CRS` courses.
    pub courses: Vec<Course>,
}

pub open spec fn bytes_view(o: Option<Vec<u8>>) -> Option<Seq<u8>> {
    match o {
        Some(v) => Some(v@),
        None => None,
    }
}

/// A string of a literal's characters.
fn text_of(s: &str) -> (r: String)
    ensures
        r@ == s@,
{
    string_of(chars_of(s).as_slice())
}

/// The terrain files, fetched in load order.
fn terrain_files(game: &Pod, startup: Option<&Pod>, stem: &str) -> (files: Vec<Option<Vec<u8>>>)
    ensures
        answers_view(files@) == terrain_run(*game, pod_of(startup), stem@, 0),
        answers_stop(answers_view(files@)),
{
    let ghost g = *game;
    let ghost s = pod_of(startup);
    let mut files: Vec<Option<Vec<u8>>> = Vec::new();
    let mut k: usize = 0;
    let mut stopped = false;
    while k < 11 && !stopped
        invariant
            k <= 11,
            files@.len() == k,
            g == *game,
            s == pod_of(startup),
            !stopped ==> answers_view(files@) + terrain_run(g, s, stem@, k as int) == terrain_run(g, s, stem@, 0),
            stopped ==> answers_view(files@) == terrain_run(g, s, stem@, 0),
            forall|j: int| 0 <= j < k && (j < k - 1 || !stopped) ==> ((#[trigger] files@[j]) matches Some(d) && file_fits(j, d@)),
            stopped ==> k >= 1 && match files@[k - 1] { Some(d) => !file_fits(k - 1, d@), None => true },
        decreases 11 - k,
    {
        let (ext, _) = REQUIRED[k];
        let file = joined3(stem, ".", ext);
        let answer = fetch(game, startup, "data", file.as_str());
        let stop = match &answer {
            Some(d) => !fits(k, d.as_slice()),
            None => true,
        };
        let ghost before = answers_view(files@);
        let ghost x = bytes_view(answer);
        assert(x == terrain_file(g, s, stem@, k as int));
        files.push(answer);
        proof {
            assert(answers_view(files@) =~= before + seq![x]);
            let rest = terrain_run(g, s, stem@, k as int);
            if stop {
                assert(rest =~= seq![x]);
            } else {
                assert(rest =~= seq![x] + terrain_run(g, s, stem@, k + 1));
                assert(before + rest =~= (before + seq![x]) + terrain_run(g, s, stem@, k + 1));
            }
        }
        stopped = stop;
        k += 1;
    }
    if !stopped {
        let file = joined3(stem, ".", "lte");
        let answer = fetch(game, startup, "data", file.as_str());
        let ghost before = answers_view(files@);
        let ghost x = bytes_view(answer);
        files.push(answer);
        proof {
            assert(answers_view(files@) =~= before + seq![x]);
            assert(terrain_run(g, s, stem@, 11) =~= seq![x]);
        }
    }
    proof {
        let v = answers_view(files@);
        assert forall|j: int| 0 <= j < v.len() - 1 && j < 11 implies ((#[trigger] v[j]) matches Some(d) && file_fits(j, d)) by {
            assert(files@[j] matches Some(d) && file_fits(j, d@));
        }
        if stopped {
            assert(v[v.len() - 1] == (match files@[k - 1] { Some(d) => Some(d@), None => None }));
        }
    }
    files
}

/// An image file with its shape guessed from its size.
fn image_file(game: &Pod, startup: Option<&Pod>, dir: &str, name: &str) -> (t: Option<Image>)
    ensures
        image_of(fetched(*game, pod_of(startup), dir@, name@), t),
{
    match fetch(game, startup, dir, name) {
        Some(b) => match Image::parse_guessed(b.as_slice()) {
            Ok(Some(img)) => {
                let n = b.len();
                proof {
                    lemma_guessed_area(n);
                }
                Some(img)
            },
            _ => None,
        },
        None => None,
    }
}

/// A ramp file, where it is there and reads.
fn ramp_file(game: &Pod, startup: Option<&Pod>, dir: &str, name: &str) -> (t: Option<Ramp>)
    ensures
        ramp_of(fetched(*game, pod_of(startup), dir@, name@), t),
{
    match fetch(game, startup, dir, name) {
        Some(b) => match Ramp::parse(b.as_slice()) {
            Ok(rp) => Some(rp),
            Err(_) => None,
        },
        None => None,
    }
}

/// Each named texture, from `ART\`.
fn textures_of(game: &Pod, startup: Option<&Pod>, names: &[String]) -> (t: Vec<Option<Image>>)
    ensures
        t@.len() == names@.len(),
        forall|i: int| 0 <= i < names@.len() ==> image_of(fetched(*game, pod_of(startup), "art"@, names@[i]@), #[trigger] t@[i]),
{
    let mut out: Vec<Option<Image>> = Vec::new();
    let mut i: usize = 0;
    while i < names.len()
        invariant
            i <= names@.len(),
            out@.len() == i,
            forall|j: int| 0 <= j < i ==> image_of(fetched(*game, pod_of(startup), "art"@, names@[j]@), #[trigger] out@[j]),
        decreases names@.len() - i,
    {
        let img = image_file(game, startup, "art", names[i].as_str());
        out.push(img);
        i += 1;
    }
    out
}

/// How many times the star field is drawn for a sky file.
fn star_passes_for(file: &str) -> (n: u8)
    ensures
        n == star_passes_of(file@),
{
    let low = lower_chars(chars_of(file).as_slice());
    let vox = chars_of(".vox");
    let n = low.len();
    if n >= 4 && same_chars(&low.as_slice()[n - 4..n], vox.as_slice()) {
        assert(low@.subrange(n - 4, n as int) =~= low@.subrange(low@.len() - 4, low@.len() as int));
        let space = chars_of("space.vox");
        if same_chars(low.as_slice(), space.as_slice()) {
            2
        } else {
            1
        }
    } else {
        0
    }
}

/// The table that brings the sky texture into the level's palette.
fn sky_remap(game: &Pod, startup: Option<&Pod>, manifest: &lvl::Level) -> (t: Option<Vec<u8>>)
    requires
        level_view(*manifest).files.len() == 16,
    ensures
        sky_remap_of(*game, pod_of(startup), level_view(*manifest), t),
{
    let ghost mv = level_view(*manifest);
    assert(manifest.files@[SKY_PALETTE as int]@ == mv.files[SKY_PALETTE as int]);
    assert(manifest.files@[GROUND_PALETTE as int]@ == mv.files[GROUND_PALETTE as int]);
    let sky_palette = match fetch(game, startup, "art", manifest.files[SKY_PALETTE].as_str()) {
        Some(b) => match Palette::parse(b.as_slice()) {
            Ok(p) => p,
            Err(_) => return None,
        },
        None => return None,
    };
    let ground = chars_of(manifest.files[GROUND_PALETTE].as_str());
    let dot = crate::chars::find_char(ground.as_slice(), '.', 0);
    proof {
        crate::chars::lemma_index_from(ground@, '.', 0);
    }
    let stem = string_of(&ground.as_slice()[0..dot]);
    assert(stem@ =~= before_dot(mv.files[GROUND_PALETTE as int]));
    let map_name = joined(stem.as_str(), ".map");
    let map = match fetch(game, startup, "fog", map_name.as_str()) {
        Some(b) => match ColourMap::parse(b.as_slice()) {
            Ok(m) => m,
            Err(_) => return None,
        },
        None => return None,
    };
    let mut table: Vec<u8> = Vec::new();
    let mut i: usize = 0;
    while i < 256
        invariant
            i <= 256,
            table@.len() == i,
            map.0@.len() == 32_768,
            forall|j: int| 0 <= j < i ==> {
                let c = sky_palette.colours@[(j + 256 - SKY_BIAS) % 256];
                #[trigger] table@[j] == map.0@[map_index(c[0], c[1], c[2])]
            },
        decreases 256 - i,
    {
        let entry = ((i + 256 - SKY_BIAS as usize) % 256) as u8;
        let c = sky_palette.rgb(entry);
        table.push(map.lookup(c[0], c[1], c[2]));
        i += 1;
    }
    Some(table)
}

/// The ground palette's colour map.
fn colour_map(game: &Pod, startup: Option<&Pod>, manifest: &lvl::Level) -> (m: Option<ColourMap>)
    requires
        level_view(*manifest).files.len() == 16,
    ensures
        match colour_map_of(*game, pod_of(startup), level_view(*manifest)) {
            Some(b) => m matches Some(cm) && cm.0@ == b,
            None => m is None,
        },
{
    let ghost mv = level_view(*manifest);
    assert(manifest.files@[GROUND_PALETTE as int]@ == mv.files[GROUND_PALETTE as int]);
    let ground = chars_of(manifest.files[GROUND_PALETTE].as_str());
    let dot = crate::chars::find_char(ground.as_slice(), '.', 0);
    proof {
        crate::chars::lemma_index_from(ground@, '.', 0);
    }
    let stem = string_of(&ground.as_slice()[0..dot]);
    assert(stem@ =~= before_dot(mv.files[GROUND_PALETTE as int]));
    let map_name = joined(stem.as_str(), ".map");
    match fetch(game, startup, "fog", map_name.as_str()) {
        Some(b) => match ColourMap::parse(b.as_slice()) {
            Ok(m) => Some(m),
            Err(_) => None,
        },
        None => None,
    }
}

/// Each texture's half and quarter sizes.
fn mips(textures: &[Option<Image>], palette: &Palette, map: Option<&ColourMap>) -> (m: Vec<[Option<Image>; 2]>)
    requires
        map matches Some(cm) ==> cm.0@.len() == 32_768,
        forall|i: int| 0 <= i < textures@.len() ==> (#[trigger] textures@[i] matches Some(img)
            ==> img.pixels@.len() == img.shape.width * img.shape.height),
    ensures
        m@.len() == textures@.len(),
        forall|i: int| 0 <= i < textures@.len() ==> mips_of(palette.colours@, map_view(map), textures@[i], #[trigger] m@[i]),
{
    let mut out: Vec<[Option<Image>; 2]> = Vec::new();
    let mut i: usize = 0;
    while i < textures.len()
        invariant
            i <= textures@.len(),
            out@.len() == i,
            map matches Some(cm) ==> cm.0@.len() == 32_768,
            forall|j: int| 0 <= j < textures@.len() ==> (#[trigger] textures@[j] matches Some(img)
                ==> img.pixels@.len() == img.shape.width * img.shape.height),
            forall|j: int| 0 <= j < i ==> mips_of(palette.colours@, map_view(map), textures@[j], #[trigger] out@[j]),
        decreases textures@.len() - i,
    {
        let pair = match &textures[i] {
            Some(image) => {
                let half = halve(image, palette, map);
                let quarter = match &half {
                    Some(h) => halve(h, palette, map),
                    None => None,
                };
                [half, quarter]
            },
            None => [None, None],
        };
        out.push(pair);
        i += 1;
    }
    out
}

/// Each type's destroy sound, from `SOUND\`.
fn destroy_sounds(game: &Pod, startup: Option<&Pod>, kinds: &[EnemyDef]) -> (t: Vec<Option<Vec<u8>>>)
    ensures
        t@.len() == kinds@.len(),
        forall|i: int| 0 <= i < kinds@.len() ==> sound_of(*game, pod_of(startup), kinds@[i].raw@, #[trigger] t@[i]),
{
    let mut out: Vec<Option<Vec<u8>>> = Vec::new();
    let mut i: usize = 0;
    while i < kinds.len()
        invariant
            i <= kinds@.len(),
            out@.len() == i,
            forall|j: int| 0 <= j < i ==> sound_of(*game, pod_of(startup), kinds@[j].raw@, #[trigger] out@[j]),
        decreases kinds@.len() - i,
    {
        let raw = &kinds[i].raw;
        let sound = if raw.len() <= 24 {
            None
        } else {
            let name = trim_chars(chars_of(raw[24].as_str()).as_slice());
            let low = lower_chars(name.as_slice());
            let null = chars_of("null");
            if same_chars(low.as_slice(), null.as_slice()) || name.len() == 0 {
                None
            } else {
                let file = string_of(name.as_slice());
                fetch(game, startup, "sound", file.as_str())
            }
        };
        out.push(sound);
        i += 1;
    }
    out
}

/// Channel `ch` of the colour of source pixel `(x, y)`.
pub open spec fn channel(pal: Seq<[u8; 3]>, px: Seq<u8>, w: int, x: int, y: int, ch: int) -> int {
    pal[px[y * w + x] as int][ch] as int
}

/// The mean of channel `ch` over the 2x2 block under half-size pixel
/// `(x, y)`, rounded down.
pub open spec fn block_mean(pal: Seq<[u8; 3]>, px: Seq<u8>, w: int, x: int, y: int, ch: int) -> u8 {
    ((channel(pal, px, w, 2 * x, 2 * y, ch) + channel(pal, px, w, 2 * x + 1, 2 * y, ch)
        + channel(pal, px, w, 2 * x, 2 * y + 1, ch) + channel(pal, px, w, 2 * x + 1, 2 * y + 1, ch)) / 4) as u8
}

pub open spec fn block_colour(pal: Seq<[u8; 3]>, px: Seq<u8>, w: int, x: int, y: int) -> [u8; 3] {
    [block_mean(pal, px, w, x, y, 0), block_mean(pal, px, w, x, y, 1), block_mean(pal, px, w, x, y, 2)]
}

/// `p` is the first of the 240 ordinary palette entries nearest colour `c`.
pub open spec fn nearest_ordinary(pal: Seq<[u8; 3]>, c: [u8; 3], p: u8) -> bool {
    &&& p < 240
    &&& forall|j: int| 0 <= j < 240 ==> square_distance(pal[p as int], c) <= square_distance(#[trigger] pal[j], c)
    &&& forall|j: int| 0 <= j < p ==> square_distance(pal[p as int], c) < square_distance(#[trigger] pal[j], c)
}

/// Whether an image has a half size: both sides even and at least two.
pub open spec fn halves(image: Image) -> bool {
    image.shape.width >= 2 && image.shape.height >= 2 && image.shape.width % 2 == 0 && image.shape.height % 2 == 0
}

pub open spec fn map_view(map: Option<&ColourMap>) -> Option<Seq<u8>> {
    match map {
        Some(m) => Some(m.0@),
        None => None,
    }
}

/// The half-size image of `image`: none where it has no half size; else
/// each pixel the colour map's index for its block's mean colour, or the
/// nearest ordinary entry without a map.
pub open spec fn halved(image: Image, pal: Seq<[u8; 3]>, map: Option<Seq<u8>>, r: Option<Image>) -> bool {
    &&& !halves(image) ==> r is None
    &&& halves(image) ==> (r matches Some(out) && {
        let (w, hw, hh) = (image.shape.width as int, image.shape.width / 2, image.shape.height / 2);
        &&& out.shape.width == hw && out.shape.height == hh
        &&& out.pixels@.len() == hw * hh
        &&& forall|k: int| 0 <= k < hw * hh ==> {
            let c = block_colour(pal, image.pixels@, w, k % (hw as int), k / (hw as int));
            match map {
                Some(m) => #[trigger] out.pixels@[k] == m[map_index(c[0], c[1], c[2])],
                None => nearest_ordinary(pal, c, out.pixels@[k]),
            }
        }
    })
}

/// A texture's half and quarter sizes, for the resolution picked by
/// distance; none where the texture is missing or will not halve.
pub open spec fn mips_of(pal: Seq<[u8; 3]>, map: Option<Seq<u8>>, t: Option<Image>, m: [Option<Image>; 2]) -> bool {
    match t {
        None => m[0] is None && m[1] is None,
        Some(img) => halved(img, pal, map, m[0]) && match m[0] {
            Some(half) => halved(half, pal, map, m[1]),
            None => m[1] is None,
        },
    }
}

/// The ground palette's colour map, `FOG\{palette stem}.map`, where it is
/// there and reads.
pub open spec fn colour_map_of(g: Pod, s: Option<Pod>, mv: LevelView) -> Option<Seq<u8>> {
    match fetched(g, s, "fog"@, before_dot(mv.files[GROUND_PALETTE as int]) + ".map"@) {
        Some(mb) if mb.len() == 32_768 => Some(mb),
        _ => None,
    }
}

/// An image at half size: each 2x2 block averaged in colour and turned back
/// into an index through the palette's `.MAP`, or by nearest colour among
/// the ordinary entries without one.
pub fn halve(image: &Image, palette: &Palette, map: Option<&ColourMap>) -> (r: Option<Image>)
    requires
        image.pixels@.len() == image.shape.width * image.shape.height,
        map matches Some(m) ==> m.0@.len() == 32_768,
    ensures
        halved(*image, palette.colours@, map_view(map), r),
{
    let w = image.shape.width;
    let h = image.shape.height;
    if w < 2 || h < 2 || w % 2 != 0 || h % 2 != 0 {
        return None;
    }
    let plen = image.pixels.len();
    let hw = w / 2;
    let hh = h / 2;
    assert(hw * hh <= w * h) by (nonlinear_arith)
        requires hw * 2 == w, hh * 2 == h, hw >= 1, hh >= 1;
    let n = hw * hh;
    let mut pixels: Vec<u8> = Vec::new();
    let mut k: usize = 0;
    while k < n
        invariant
            w == image.shape.width && h == image.shape.height,
            hw * 2 == w && hh * 2 == h && hw >= 1 && hh >= 1,
            n == hw * hh,
            image.pixels@.len() == w * h,
            w * h <= usize::MAX,
            map matches Some(m) ==> m.0@.len() == 32_768,
            k <= n,
            pixels@.len() == k,
            forall|j: int| 0 <= j < k ==> {
                let c = block_colour(palette.colours@, image.pixels@, w as int, j % (hw as int), j / (hw as int));
                match map {
                    Some(m) => #[trigger] pixels@[j] == m.0@[map_index(c[0], c[1], c[2])],
                    None => nearest_ordinary(palette.colours@, c, pixels@[j]),
                }
            },
        decreases n - k,
    {
        let x = k % hw;
        let y = k / hw;
        assert(y < hh && x < hw) by (nonlinear_arith)
            requires x == k % hw, y == k / hw, k < hw * hh, hw >= 1;
        assert((2 * y + 1) * w + 2 * x + 1 < w * h && (2 * y) * w + 2 * x + 1 < w * h) by (nonlinear_arith)
            requires y < hh, x < hw, hw * 2 == w, hh * 2 == h;
        let top = 2 * y * w + 2 * x;
        let bottom = (2 * y + 1) * w + 2 * x;
        let a = palette.rgb(image.pixels[top]);
        let b = palette.rgb(image.pixels[top + 1]);
        let c = palette.rgb(image.pixels[bottom]);
        let d = palette.rgb(image.pixels[bottom + 1]);
        let mean = [
            ((a[0] as u32 + b[0] as u32 + c[0] as u32 + d[0] as u32) / 4) as u8,
            ((a[1] as u32 + b[1] as u32 + c[1] as u32 + d[1] as u32) / 4) as u8,
            ((a[2] as u32 + b[2] as u32 + c[2] as u32 + d[2] as u32) / 4) as u8,
        ];
        proof {
            let (pal, px) = (palette.colours@, image.pixels@);
            assert(2 * y * w + 2 * x == (2 * y) * w + 2 * x);
            assert(mean == block_colour(pal, px, w as int, x as int, y as int));
        }
        let index = match map {
            Some(m) => m.lookup(mean[0], mean[1], mean[2]),
            None => palette.nearest_in(mean, 0..=239),
        };
        pixels.push(index);
        k += 1;
    }
    Some(Image { shape: Shape::new(hw, hh), pixels })
}

/// Whether a model file is an animated `.TXT` one, by its name.
pub open spec fn is_animated_name(name: Seq<char>) -> bool {
    let low = lower_seq(name);
    low.len() >= 4 && low.subrange(low.len() - 4, low.len() as int) == ".txt"@
}

/// Whether an animated model file can be read and posed: every part's
/// counts' row holds both counts, and every part's corners stay in a `u32`
/// once moved on by the vertices before it.
pub open spec fn animated_reads(d: Seq<u8>) -> bool {
    &&& !(animated_of(d) matches Err(Refusal::ShortCounts { .. }))
    &&& animated_of(d) matches Ok(av) ==> forall|a: Animated| #[trigger] animated_view(a) == av ==> corners_fit(a.parts@)
}

/// Whether the model a type names can be read: binary ones always can.
pub open spec fn model_reads(g: Pod, s: Option<Pod>, name: Seq<char>) -> bool {
    is_animated_name(name) ==> match fetched(g, s, "models"@, name) {
        Some(d) => animated_reads(d),
        None => true,
    }
}

/// Whether every type's model in the `.DEF` found for `stem` can be read.
pub open spec fn defs_models_read(g: Pod, s: Option<Pod>, stem: Seq<char>) -> bool {
    match fetched(g, s, "data"@, stem + ".def"@) {
        Some(db) => forall|kinds: Vec<EnemyDef>| #[trigger] defs_read(db, Ok(kinds)) ==> forall|i: int|
            0 <= i < kinds@.len() ==> model_reads(g, s, #[trigger] kinds@[i].model@),
        None => true,
    }
}

/// Whether every model level `name` names for its types can be read.
pub open spec fn models_read(g: Pod, s: Option<Pod>, name: Seq<char>) -> bool {
    match fetched(g, s, "levels"@, name + ".lvl"@) {
        Some(lb) => match level_of(lb) {
            Ok(mv) => defs_models_read(g, s, stem_of(mv)),
            Err(_) => true,
        },
        None => true,
    }
}

/// A mesh made of an animated model in its rest pose, with its materials.
pub open spec fn posed(a: Animated, m: Model) -> bool {
    &&& m.vertices@ == rest_vertices(a.parts@, a.parts@.len() as int)
    &&& m.polygons@.map_values(|p: Polygon| polygon_view(p)) == rest_polygons(a.parts@, a.parts@.len() as int)
    &&& m.materials@ == a.materials@
    &&& m.unit is None && m.vertex_texels@.len() == 0 && m.flipbooks@.len() == 0
    &&& m.children@.len() == 0 && m.nodes@.len() == 0
}

/// The mesh a type's model file gives: an animated model in its rest pose;
/// a binary one as it reads, or, where it is a group with no geometry of its
/// own, its first child; nothing where the file is missing or does not read.
pub open spec fn kind_mesh(g: Pod, s: Option<Pod>, name: Seq<char>, m: Option<Model>) -> bool {
    match fetched(g, s, "models"@, name) {
        None => m is None,
        Some(b) => if is_animated_name(name) {
            match animated_of(b) {
                Ok(av) => m matches Some(x) && exists|a: Animated| #[trigger] animated_view(a) == av && posed(a, x),
                Err(_) => m is None,
            }
        } else {
            match model_of(b) {
                Err(_) => m is None,
                Ok(mv) => if mv.polygons.len() == 0 && mv.children.len() > 0 {
                    match fetched(g, s, "models"@, mv.children[0]) {
                        Some(cb) => match model_of(cb) {
                            Ok(cv) => m matches Some(x) && model_view(x) == cv,
                            Err(_) => m is None,
                        },
                        None => m is None,
                    }
                } else {
                    m matches Some(x) && model_view(x) == mv
                },
            }
        },
    }
}

/// A mesh's materials resolved to images from `ART\`, in the order the mesh
/// names them; none for a missing mesh.
pub open spec fn mesh_images(g: Pod, s: Option<Pod>, m: Option<Model>, t: Seq<Option<Image>>) -> bool {
    match m {
        Some(x) => t.len() == x.materials@.len() && forall|j: int|
            0 <= j < t.len() ==> image_of(fetched(g, s, "art"@, x.materials@[j]@), #[trigger] t[j]),
        None => t.len() == 0,
    }
}

/// Whether a name is an animated model's, by its ending.
fn animated_name(name: &str) -> (b: bool)
    ensures
        b == is_animated_name(name@),
{
    let low = lower_chars(chars_of(name).as_slice());
    let txt = chars_of(".txt");
    let n = low.len();
    if n >= 4 && same_chars(&low.as_slice()[n - 4..n], txt.as_slice()) {
        assert(low@.subrange(n - 4, n as int) =~= low@.subrange(low@.len() - 4, low@.len() as int));
        true
    } else {
        false
    }
}

/// A binary model file, where it is there and reads.
fn binary_model(game: &Pod, startup: Option<&Pod>, name: &str) -> (m: Option<Model>)
    ensures
        match fetched(*game, pod_of(startup), "models"@, name@) {
            Some(b) => match model_of(b) {
                Ok(mv) => m matches Some(x) && model_view(x) == mv,
                Err(_) => m is None,
            },
            None => m is None,
        },
{
    match fetch(game, startup, "models", name) {
        Some(b) => match Model::parse(b.as_slice()) {
            Ok(x) => Some(x),
            Err(_) => None,
        },
        None => None,
    }
}

/// The mesh for a type's model.
fn kind_model(game: &Pod, startup: Option<&Pod>, name: &str) -> (m: Option<Model>)
    requires
        model_reads(*game, pod_of(startup), name@),
    ensures
        kind_mesh(*game, pod_of(startup), name@, m),
{
    let bytes = match fetch(game, startup, "models", name) {
        Some(b) => b,
        None => return None,
    };
    if animated_name(name) {
        let read = anim::parse(bytes.as_slice());
        match read {
            Ok(a) => {
                proof {
                    assert(animated_view(a) == animated_of(bytes@)->Ok_0);
                }
                let ghost a0 = a;
                let (vertices, polygons) = a.rest_pose();
                let materials = a.materials;
                let x = Model {
                    unit: None,
                    vertices,
                    vertex_texels: Vec::new(),
                    materials,
                    flipbooks: Vec::new(),
                    polygons,
                    children: Vec::new(),
                    nodes: Vec::new(),
                };
                assert(animated_view(a0) == animated_of(bytes@)->Ok_0 && posed(a0, x));
                Some(x)
            },
            Err(_) => None,
        }
    } else {
        let model = match Model::parse(bytes.as_slice()) {
            Ok(x) => x,
            Err(_) => return None,
        };
        proof {
            assert(model_view(model).polygons.len() == model.polygons@.len());
            assert(model_view(model).children.len() == model.children@.len());
        }
        if model.polygons.len() == 0 && model.children.len() > 0 {
            assert(model.children@[0]@ == model_view(model).children[0]);
            return binary_model(game, startup, model.children[0].as_str());
        }
        Some(model)
    }
}

/// A mesh's materials, from `ART\`.
fn mesh_textures_of(game: &Pod, startup: Option<&Pod>, m: &Option<Model>) -> (t: Vec<Option<Image>>)
    ensures
        mesh_images(*game, pod_of(startup), *m, t@),
{
    match m {
        Some(x) => textures_of(game, startup, x.materials.as_slice()),
        None => Vec::new(),
    }
}

/// Whether a type's wreck loads: `cube.bin` means no wreck at all.
pub open spec fn has_wreck(g: Pod, s: Option<Pod>, wreck: Seq<char>) -> bool {
    lower_seq(wreck) != "cube.bin"@ && match fetched(g, s, "models"@, wreck) {
        Some(b) => model_of(b) is Ok,
        None => false,
    }
}

/// How many of the first `i` types have a wreck that loads.
pub open spec fn wrecks_before(g: Pod, s: Option<Pod>, kinds: Seq<EnemyDef>, i: int) -> int
    decreases i,
{
    if i <= 0 {
        0
    } else {
        wrecks_before(g, s, kinds, i - 1) + if has_wreck(g, s, kinds[i - 1].wreck@) { 1int } else { 0 }
    }
}

proof fn lemma_wrecks_before_bounds(g: Pod, s: Option<Pod>, kinds: Seq<EnemyDef>, i: int)
    requires
        0 <= i,
    ensures
        0 <= wrecks_before(g, s, kinds, i) <= i,
    decreases i,
{
    if i > 0 {
        lemma_wrecks_before_bounds(g, s, kinds, i - 1);
    }
}

/// Where type `j`'s wreck went among the meshes, if it loads.
pub open spec fn wreck_placed(g: Pod, s: Option<Pod>, kinds: Seq<EnemyDef>, meshes: Seq<Option<Model>>, w: Option<usize>, j: int) -> bool {
    if has_wreck(g, s, kinds[j].wreck@) {
        let at = kinds.len() + wrecks_before(g, s, kinds, j);
        &&& w == Some(at as usize)
        &&& at < meshes.len()
        &&& meshes[at] matches Some(x)
        &&& model_of(fetched(g, s, "models"@, kinds[j].wreck@)->Some_0) == Ok::<_, crate::formats::mrgl::Fault>(model_view(x))
    } else {
        w is None
    }
}

/// The meshes for the types' models, in order.
fn kind_meshes(game: &Pod, startup: Option<&Pod>, kinds: &[EnemyDef]) -> (m: Vec<Option<Model>>)
    requires
        forall|i: int| 0 <= i < kinds@.len() ==> model_reads(*game, pod_of(startup), #[trigger] kinds@[i].model@),
    ensures
        m@.len() == kinds@.len(),
        forall|i: int| 0 <= i < kinds@.len() ==> kind_mesh(*game, pod_of(startup), kinds@[i].model@, #[trigger] m@[i]),
{
    let mut out: Vec<Option<Model>> = Vec::new();
    let mut i: usize = 0;
    while i < kinds.len()
        invariant
            i <= kinds@.len(),
            out@.len() == i,
            forall|j: int| 0 <= j < kinds@.len() ==> model_reads(*game, pod_of(startup), #[trigger] kinds@[j].model@),
            forall|j: int| 0 <= j < i ==> kind_mesh(*game, pod_of(startup), kinds@[j].model@, #[trigger] out@[j]),
        decreases kinds@.len() - i,
    {
        let m = kind_model(game, startup, kinds[i].model.as_str());
        out.push(m);
        i += 1;
    }
    out
}

/// Append each type's wreck that loads to the meshes, and say where.
fn add_wrecks(game: &Pod, startup: Option<&Pod>, kinds: &[EnemyDef], meshes: &mut Vec<Option<Model>>) -> (w: Vec<Option<usize>>)
    requires
        old(meshes)@.len() == kinds@.len(),
    ensures
        final(meshes)@.len() == kinds@.len() + wrecks_before(*game, pod_of(startup), kinds@, kinds@.len() as int),
        final(meshes)@.subrange(0, kinds@.len() as int) == old(meshes)@,
        w@.len() == kinds@.len(),
        forall|i: int| 0 <= i < kinds@.len() ==> wreck_placed(*game, pod_of(startup), kinds@, final(meshes)@, #[trigger] w@[i], i),
{
    let ghost g = *game;
    let ghost s = pod_of(startup);
    let ghost start = meshes@;
    let n = kinds.len();
    let mut out: Vec<Option<usize>> = Vec::new();
    let mut i: usize = 0;
    while i < n
        invariant
            n == kinds@.len(),
            g == *game && s == pod_of(startup),
            i <= n,
            out@.len() == i,
            meshes@.len() == n + wrecks_before(g, s, kinds@, i as int),
            meshes@.subrange(0, n as int) == start,
            start.len() == n,
            forall|j: int| 0 <= j < i ==> wreck_placed(g, s, kinds@, meshes@, #[trigger] out@[j], j),
        decreases n - i,
    {
        proof {
            lemma_wrecks_before_bounds(g, s, kinds@, i as int);
        }
        let wreck = kinds[i].wreck.as_str();
        let low = lower_chars(chars_of(wreck).as_slice());
        let cube = chars_of("cube.bin");
        let ghost before = meshes@;
        let ghost out_before = out@;
        let ghost before_len = meshes@.len();
        let found = if same_chars(low.as_slice(), cube.as_slice()) {
            None
        } else {
            binary_model(game, startup, wreck)
        };
        assert(found is Some <==> has_wreck(g, s, kinds@[i as int].wreck@));
        match found {
            Some(x) => {
                meshes.push(Some(x));
                let at = meshes.len() - 1;
                out.push(Some(at));
                proof {
                    assert(meshes@.subrange(0, n as int) =~= before.subrange(0, n as int));
                    assert forall|j: int| 0 <= j < i + 1 implies wreck_placed(g, s, kinds@, meshes@, #[trigger] out@[j], j) by {
                        if j < i {
                            assert(out@[j] == out_before[j]);
                            assert(wreck_placed(g, s, kinds@, before, out_before[j], j));
                            if has_wreck(g, s, kinds@[j].wreck@) {
                                lemma_wrecks_before_mono(g, s, kinds@, j + 1, i as int);
                                assert(wrecks_before(g, s, kinds@, j + 1) == wrecks_before(g, s, kinds@, j) + 1);
                                lemma_wrecks_before_bounds(g, s, kinds@, j);
                                let k = n + wrecks_before(g, s, kinds@, j);
                                assert(0 <= k < before.len());
                                assert(meshes@[k] === before[k]);
                            }
                        }
                    }
                }
            },
            None => {
                out.push(None);
                proof {
                    assert forall|j: int| 0 <= j < i + 1 implies wreck_placed(g, s, kinds@, meshes@, #[trigger] out@[j], j) by {
                        if j < i {
                            assert(out@[j] == out_before[j]);
                        }
                    }
                }
            },
        }
        i += 1;
    }
    out
}

proof fn lemma_wrecks_before_mono(g: Pod, s: Option<Pod>, kinds: Seq<EnemyDef>, a: int, b: int)
    requires
        0 <= a <= b,
    ensures
        wrecks_before(g, s, kinds, a) <= wrecks_before(g, s, kinds, b),
    decreases b - a,
{
    if a < b {
        lemma_wrecks_before_mono(g, s, kinds, a, b - 1);
    }
}

/// Each mesh's materials, from `ART\`.
fn all_mesh_textures(game: &Pod, startup: Option<&Pod>, meshes: &[Option<Model>]) -> (t: Vec<Vec<Option<Image>>>)
    ensures
        t@.len() == meshes@.len(),
        forall|i: int| 0 <= i < meshes@.len() ==> mesh_images(*game, pod_of(startup), meshes@[i], #[trigger] t@[i]@),
{
    let mut out: Vec<Vec<Option<Image>>> = Vec::new();
    let mut i: usize = 0;
    while i < meshes.len()
        invariant
            i <= meshes@.len(),
            out@.len() == i,
            forall|j: int| 0 <= j < i ==> mesh_images(*game, pod_of(startup), meshes@[j], #[trigger] out@[j]@),
        decreases meshes@.len() - i,
    {
        let t = mesh_textures_of(game, startup, &meshes[i]);
        out.push(t);
        i += 1;
    }
    out
}

pub open spec fn shot_names(shots: Seq<(i32, String)>) -> Seq<Option<Seq<char>>> {
    shots.map_values(|r: (i32, String)| if r.0 <= 1 && r.1@.len() > 0 { Some(r.1@) } else { None })
}

pub open spec fn all_named(names: Seq<String>) -> Seq<Option<Seq<char>>> {
    names.map_values(|n: String| Some(n@))
}

/// Whether `b` starts with all of `a`.
pub open spec fn extends(a: Seq<Option<Model>>, b: Seq<Option<Model>>) -> bool {
    a.len() <= b.len() && b.subrange(0, a.len() as int) == a
}

proof fn lemma_extends(a: Seq<Option<Model>>, b: Seq<Option<Model>>, c: Seq<Option<Model>>)
    requires
        extends(a, b),
        extends(b, c),
    ensures
        extends(a, c),
        forall|k: int| 0 <= k < a.len() ==> #[trigger] c[k] == a[k],
{
    assert forall|k: int| 0 <= k < a.len() implies #[trigger] c[k] == a[k] by {
        assert(c[k] == c.subrange(0, b.len() as int)[k]);
        assert(b[k] == b.subrange(0, a.len() as int)[k]);
    }
    assert(c.subrange(0, a.len() as int) =~= a);
}

proof fn lemma_extra_kept(
    g: Pod,
    s: Option<Pod>,
    names: Seq<Option<Seq<char>>>,
    need_unit: bool,
    base: int,
    a: Seq<Option<Model>>,
    b: Seq<Option<Model>>,
    w: Option<usize>,
    j: int,
)
    requires
        extra_placed(g, s, names, need_unit, base, a, w, j),
        extends(a, b),
        0 <= base,
        0 <= j,
    ensures
        extra_placed(g, s, names, need_unit, base, b, w, j),
{
    if extra_loads(g, s, names[j], need_unit) {
        lemma_extras_before_bounds(g, s, names, need_unit, 0, j);
        let at = base + extras_before(g, s, names, need_unit, j);
        assert(b[at] == b.subrange(0, a.len() as int)[at]);
    }
}

proof fn lemma_wreck_kept(g: Pod, s: Option<Pod>, kinds: Seq<EnemyDef>, a: Seq<Option<Model>>, b: Seq<Option<Model>>, w: Option<usize>, j: int)
    requires
        wreck_placed(g, s, kinds, a, w, j),
        extends(a, b),
        0 <= j,
    ensures
        wreck_placed(g, s, kinds, b, w, j),
{
    if has_wreck(g, s, kinds[j].wreck@) {
        lemma_wrecks_before_bounds(g, s, kinds, j);
        let at = kinds.len() + wrecks_before(g, s, kinds, j);
        assert(b[at] == b.subrange(0, a.len() as int)[at]);
    }
}

/// Each name, as a model wanted.
fn every_name(names: &[String]) -> (r: Vec<Option<String>>)
    ensures
        names_view(r@) == all_named(names@),
{
    let mut out: Vec<Option<String>> = Vec::new();
    let mut i: usize = 0;
    while i < names.len()
        invariant
            i <= names@.len(),
            out@.len() == i,
            names_view(out@) =~= all_named(names@).take(i as int),
        decreases names@.len() - i,
    {
        let ghost before = out@;
        let t = text_of(names[i].as_str());
        out.push(Some(t));
        assert forall|k: int| 0 <= k < i + 1 implies #[trigger] names_view(out@)[k] == all_named(names@).take(i + 1)[k] by {
            if k < i {
                assert(out@[k] == before[k]);
                assert(names_view(before)[k] == all_named(names@).take(i as int)[k]);
            } else {
                assert(out@[k] == Some(t));
            }
        }
        assert(names_view(out@) =~= all_named(names@).take(i + 1));
        i += 1;
    }
    assert(all_named(names@).take(i as int) =~= all_named(names@));
    out
}

/// The shot models wanted: those drawn in style 0 or 1 with a model named.
fn shot_list(shots: &[(i32, String)]) -> (r: Vec<Option<String>>)
    ensures
        names_view(r@) == shot_names(shots@),
{
    let mut out: Vec<Option<String>> = Vec::new();
    let mut i: usize = 0;
    while i < shots.len()
        invariant
            i <= shots@.len(),
            out@.len() == i,
            names_view(out@) =~= shot_names(shots@).take(i as int),
        decreases shots@.len() - i,
    {
        let draw = shots[i].0;
        let model = chars_of(shots[i].1.as_str());
        let ghost before = out@;
        let item = if draw <= 1 && model.len() > 0 { Some(string_of(model.as_slice())) } else { None };
        out.push(item);
        assert forall|k: int| 0 <= k < i + 1 implies #[trigger] names_view(out@)[k] == shot_names(shots@).take(i + 1)[k] by {
            if k < i {
                assert(out@[k] == before[k]);
                assert(names_view(before)[k] == shot_names(shots@).take(i as int)[k]);
            } else {
                assert(out@[k] == item);
            }
        }
        assert(names_view(out@) =~= shot_names(shots@).take(i + 1));
        i += 1;
    }
    assert(shot_names(shots@).take(i as int) =~= shot_names(shots@));
    out
}

/// Append the powerups', the shots' and the muzzle flashes' models.
fn add_table_meshes(game: &Pod, startup: Option<&Pod>, tables: &LevelTables, meshes: &mut Vec<Option<Model>>)
    -> (r: (Vec<Option<usize>>, Vec<Option<usize>>, Vec<Option<usize>>))
    ensures
        extends(old(meshes)@, final(meshes)@),
        ({
            let (g, s, (powerups, shots, muzzle)) = (*game, pod_of(startup), r);
            let ms = final(meshes)@;
            let after_wrecks = old(meshes)@.len() as int;
            let pn = all_named(tables.powerup_models@);
            let after_powerups = after_wrecks + extras_before(g, s, pn, true, pn.len() as int);
            let sn = shot_names(tables.shots@);
            let after_shots = after_powerups + extras_before(g, s, sn, false, sn.len() as int);
            let mn = all_named(tables.muzzle@);
            &&& ms.len() == after_shots + extras_before(g, s, mn, false, mn.len() as int)
            &&& powerups@.len() == pn.len()
            &&& forall|i: int| 0 <= i < pn.len() ==> extra_placed(g, s, pn, true, after_wrecks, ms, #[trigger] powerups@[i], i)
            &&& shots@.len() == sn.len()
            &&& forall|i: int| 0 <= i < sn.len() ==> extra_placed(g, s, sn, false, after_powerups, ms, #[trigger] shots@[i], i)
            &&& muzzle@.len() == mn.len()
            &&& forall|i: int| 0 <= i < mn.len() ==> extra_placed(g, s, mn, false, after_shots, ms, #[trigger] muzzle@[i], i)
        }),
{
    let ghost g = *game;
    let ghost s = pod_of(startup);
    let ghost m1 = meshes@;
    let powerup_names = every_name(tables.powerup_models.as_slice());
    let powerup_mesh = add_extras(game, startup, powerup_names.as_slice(), true, meshes);
    let ghost m2 = meshes@;
    let shot_names_list = shot_list(tables.shots.as_slice());
    let shot_mesh = add_extras(game, startup, shot_names_list.as_slice(), false, meshes);
    let ghost m3 = meshes@;
    let muzzle_names = every_name(tables.muzzle.as_slice());
    let muzzle_mesh = add_extras(game, startup, muzzle_names.as_slice(), false, meshes);
    proof {
        let m4 = meshes@;
        let pn = all_named(tables.powerup_models@);
        let sn = shot_names(tables.shots@);
        let mn = all_named(tables.muzzle@);
        lemma_extras_before_bounds(g, s, pn, true, 0, pn.len() as int);
        lemma_extras_before_bounds(g, s, sn, false, 0, sn.len() as int);
        lemma_extras_before_bounds(g, s, mn, false, 0, mn.len() as int);
        assert(extends(m1, m2));
        assert(extends(m2, m3));
        assert(extends(m3, m4));
        lemma_extends(m1, m2, m3);
        lemma_extends(m1, m3, m4);
        lemma_extends(m2, m3, m4);
        assert forall|i: int| 0 <= i < pn.len() implies extra_placed(g, s, pn, true, m1.len() as int, m4, #[trigger] powerup_mesh@[i], i) by {
            lemma_extra_kept(g, s, pn, true, m1.len() as int, m2, m4, powerup_mesh@[i], i);
        }
        assert forall|i: int| 0 <= i < sn.len() implies extra_placed(g, s, sn, false, m2.len() as int, m4, #[trigger] shot_mesh@[i], i) by {
            lemma_extra_kept(g, s, sn, false, m2.len() as int, m3, m4, shot_mesh@[i], i);
        }
    }
    (powerup_mesh, shot_mesh, muzzle_mesh)
}

/// Every mesh the level draws: one per type, then the wrecks that load,
/// the powerups' models that carry a unit, the shots' models and the
/// muzzle flashes; and where each of those went.
fn all_meshes(game: &Pod, startup: Option<&Pod>, kinds: &[EnemyDef], tables: &LevelTables)
    -> (r: (Vec<Option<Model>>, Vec<Option<usize>>, Vec<Option<usize>>, Vec<Option<usize>>, Vec<Option<usize>>))
    requires
        forall|i: int| 0 <= i < kinds@.len() ==> model_reads(*game, pod_of(startup), #[trigger] kinds@[i].model@),
    ensures
        ({
            let (g, s, (meshes, wrecks, powerups, shots, muzzle)) = (*game, pod_of(startup), r);
            let n = kinds@.len() as int;
            let after_wrecks = n + wrecks_before(g, s, kinds@, n);
            let pn = all_named(tables.powerup_models@);
            let after_powerups = after_wrecks + extras_before(g, s, pn, true, pn.len() as int);
            let sn = shot_names(tables.shots@);
            let after_shots = after_powerups + extras_before(g, s, sn, false, sn.len() as int);
            let mn = all_named(tables.muzzle@);
            &&& meshes@.len() == after_shots + extras_before(g, s, mn, false, mn.len() as int)
            &&& forall|i: int| 0 <= i < n ==> kind_mesh(g, s, kinds@[i].model@, #[trigger] meshes@[i])
            &&& wrecks@.len() == n
            &&& forall|i: int| 0 <= i < n ==> wreck_placed(g, s, kinds@, meshes@, #[trigger] wrecks@[i], i)
            &&& powerups@.len() == pn.len()
            &&& forall|i: int| 0 <= i < pn.len() ==> extra_placed(g, s, pn, true, after_wrecks, meshes@, #[trigger] powerups@[i], i)
            &&& shots@.len() == sn.len()
            &&& forall|i: int| 0 <= i < sn.len() ==> extra_placed(g, s, sn, false, after_powerups, meshes@, #[trigger] shots@[i], i)
            &&& muzzle@.len() == mn.len()
            &&& forall|i: int| 0 <= i < mn.len() ==> extra_placed(g, s, mn, false, after_shots, meshes@, #[trigger] muzzle@[i], i)
        }),
{
    let ghost g = *game;
    let ghost s = pod_of(startup);
    let mut meshes = kind_meshes(game, startup, kinds);
    let ghost m0 = meshes@;
    let wreck_mesh = add_wrecks(game, startup, kinds, &mut meshes);
    let ghost m1 = meshes@;
    let (powerup_mesh, shot_mesh, muzzle_mesh) = add_table_meshes(game, startup, tables, &mut meshes);
    proof {
        let m4 = meshes@;
        lemma_wrecks_before_bounds(g, s, kinds@, kinds@.len() as int);
        assert(extends(m0, m1));
        lemma_extends(m0, m1, m4);
        let n = kinds@.len() as int;
        assert forall|i: int| 0 <= i < n implies wreck_placed(g, s, kinds@, m4, #[trigger] wreck_mesh@[i], i) by {
            lemma_wreck_kept(g, s, kinds@, m1, m4, wreck_mesh@[i], i);
        }
    }
    (meshes, wreck_mesh, powerup_mesh, shot_mesh, muzzle_mesh)
}

/// A mesh's flipbook material with its frames loaded.
pub struct Flip {
    pub material: usize,
    pub frames: Vec<Option<Image>>,
    /// Seconds a frame, 16.16.
    pub period: i32,
}

/// A flipbook's frames resolved to images from `ART\`.
pub open spec fn flip_of(g: Pod, s: Option<Pod>, book: Flipbook, f: Flip) -> bool {
    &&& f.material == book.material
    &&& f.period == book.period
    &&& f.frames@.len() == book.frames@.len()
    &&& forall|j: int| 0 <= j < book.frames@.len() ==> image_of(fetched(g, s, "art"@, book.frames@[j]@), #[trigger] f.frames@[j])
}

/// A mesh's flipbooks with their frames; none for a missing mesh.
pub open spec fn mesh_flips(g: Pod, s: Option<Pod>, m: Option<Model>, t: Seq<Flip>) -> bool {
    match m {
        Some(x) => t.len() == x.flipbooks@.len() && forall|j: int|
            0 <= j < t.len() ==> flip_of(g, s, x.flipbooks@[j], #[trigger] t[j]),
        None => t.len() == 0,
    }
}

/// The source of a type's animated model, kept so the pose can be taken
/// again at a new time; none for a binary model, or a missing or unreadable
/// one.
pub open spec fn kind_animated(g: Pod, s: Option<Pod>, name: Seq<char>, t: Option<Animated>) -> bool {
    if is_animated_name(name) {
        match fetched(g, s, "models"@, name) {
            Some(b) => match animated_of(b) {
                Ok(av) => t matches Some(a) && animated_view(a) == av,
                Err(_) => t is None,
            },
            None => t is None,
        }
    } else {
        t is None
    }
}

/// Each mesh's flipbooks.
fn flipbooks_of(game: &Pod, startup: Option<&Pod>, meshes: &[Option<Model>]) -> (t: Vec<Vec<Flip>>)
    ensures
        t@.len() == meshes@.len(),
        forall|i: int| 0 <= i < meshes@.len() ==> mesh_flips(*game, pod_of(startup), meshes@[i], #[trigger] t@[i]@),
{
    let mut out: Vec<Vec<Flip>> = Vec::new();
    let mut i: usize = 0;
    while i < meshes.len()
        invariant
            i <= meshes@.len(),
            out@.len() == i,
            forall|j: int| 0 <= j < i ==> mesh_flips(*game, pod_of(startup), meshes@[j], #[trigger] out@[j]@),
        decreases meshes@.len() - i,
    {
        let mut flips: Vec<Flip> = Vec::new();
        match &meshes[i] {
            Some(x) => {
                let mut k: usize = 0;
                while k < x.flipbooks.len()
                    invariant
                        k <= x.flipbooks@.len(),
                        flips@.len() == k,
                        forall|j: int| 0 <= j < k ==> flip_of(*game, pod_of(startup), x.flipbooks@[j], #[trigger] flips@[j]),
                    decreases x.flipbooks@.len() - k,
                {
                    let book = &x.flipbooks[k];
                    let frames = textures_of(game, startup, book.frames.as_slice());
                    flips.push(Flip { material: book.material, frames, period: book.period });
                    k += 1;
                }
            },
            None => {},
        }
        out.push(flips);
        i += 1;
    }
    out
}

/// Each type's animated model source.
fn animated_of_kinds(game: &Pod, startup: Option<&Pod>, kinds: &[EnemyDef]) -> (t: Vec<Option<Animated>>)
    requires
        forall|i: int| 0 <= i < kinds@.len() ==> model_reads(*game, pod_of(startup), #[trigger] kinds@[i].model@),
    ensures
        t@.len() == kinds@.len(),
        forall|i: int| 0 <= i < kinds@.len() ==> kind_animated(*game, pod_of(startup), kinds@[i].model@, #[trigger] t@[i]),
{
    let mut out: Vec<Option<Animated>> = Vec::new();
    let mut i: usize = 0;
    while i < kinds.len()
        invariant
            i <= kinds@.len(),
            out@.len() == i,
            forall|j: int| 0 <= j < kinds@.len() ==> model_reads(*game, pod_of(startup), #[trigger] kinds@[j].model@),
            forall|j: int| 0 <= j < i ==> kind_animated(*game, pod_of(startup), kinds@[j].model@, #[trigger] out@[j]),
        decreases kinds@.len() - i,
    {
        let name = kinds[i].model.as_str();
        let a = if animated_name(name) {
            assert(model_reads(*game, pod_of(startup), kinds@[i as int].model@));
            match fetch(game, startup, "models", name) {
                Some(b) => match anim::parse(b.as_slice()) {
                    Ok(a) => Some(a),
                    Err(_) => None,
                },
                None => None,
            }
        } else {
            None
        };
        out.push(a);
        i += 1;
    }
    out
}

/// How many of the textures resolved.
pub open spec fn resolved(t: Seq<Option<Image>>) -> nat
    decreases t.len(),
{
    if t.len() == 0 {
        0
    } else {
        resolved(t.drop_last()) + if t.last() is Some { 1nat } else { 0 }
    }
}

/// What the game's rules name for every level: the models the powerups,
/// the shots and the Valkyrie Cannon's muzzle flashes are drawn with, and
/// how many frames the explosion has.
pub struct LevelTables {
    /// The model each powerup kind is drawn with, by kind.
    pub powerup_models: Vec<String>,
    /// Each weapon kind's draw style and shot model: a shot drawn in style
    /// 0 or 1 with a model named has a mesh.
    pub shots: Vec<(i32, String)>,
    /// The Valkyrie Cannon's three muzzle flashes.
    pub muzzle: Vec<String>,
    /// How many explosion frames there are, `blast1.raw` upward.
    pub blast_frames: u32,
}

/// A model file wanted as an extra mesh, by name; `need_unit` asks that it
/// carry a positive unit, as a powerup's must to be drawn at its own scale.
pub open spec fn extra_loads(g: Pod, s: Option<Pod>, name: Option<Seq<char>>, need_unit: bool) -> bool {
    match name {
        Some(n) => match fetched(g, s, "models"@, n) {
            Some(b) => match model_of(b) {
                Ok(mv) => !need_unit || (mv.unit matches Some(u) && u > 0),
                Err(_) => false,
            },
            None => false,
        },
        None => false,
    }
}

/// How many of the first `i` extra models load.
pub open spec fn extras_before(g: Pod, s: Option<Pod>, names: Seq<Option<Seq<char>>>, need_unit: bool, i: int) -> int
    decreases i,
{
    if i <= 0 {
        0
    } else {
        extras_before(g, s, names, need_unit, i - 1) + if extra_loads(g, s, names[i - 1], need_unit) { 1int } else { 0 }
    }
}

proof fn lemma_extras_before_bounds(g: Pod, s: Option<Pod>, names: Seq<Option<Seq<char>>>, need_unit: bool, a: int, b: int)
    requires
        0 <= a <= b,
    ensures
        0 <= extras_before(g, s, names, need_unit, a) <= extras_before(g, s, names, need_unit, b) <= b,
    decreases b,
{
    if b > 0 {
        if a < b {
            lemma_extras_before_bounds(g, s, names, need_unit, a, b - 1);
        } else {
            lemma_extras_before_bounds(g, s, names, need_unit, b - 1, b - 1);
        }
    }
}

/// Where extra model `j` went among the meshes, which held `base` before
/// the extras, if it loads.
pub open spec fn extra_placed(
    g: Pod,
    s: Option<Pod>,
    names: Seq<Option<Seq<char>>>,
    need_unit: bool,
    base: int,
    meshes: Seq<Option<Model>>,
    w: Option<usize>,
    j: int,
) -> bool {
    if extra_loads(g, s, names[j], need_unit) {
        let at = base + extras_before(g, s, names, need_unit, j);
        &&& w == Some(at as usize)
        &&& at < meshes.len()
        &&& meshes[at] matches Some(x)
        &&& model_of(fetched(g, s, "models"@, names[j]->Some_0)->Some_0) == Ok::<_, crate::formats::mrgl::Fault>(model_view(x))
    } else {
        w is None
    }
}

pub open spec fn names_view(names: Seq<Option<String>>) -> Seq<Option<Seq<char>>> {
    names.map_values(|n: Option<String>| match n { Some(x) => Some(x@), None => None })
}

/// Append each named model that loads to the meshes, and say where.
fn add_extras(
    game: &Pod,
    startup: Option<&Pod>,
    names: &[Option<String>],
    need_unit: bool,
    meshes: &mut Vec<Option<Model>>,
) -> (w: Vec<Option<usize>>)
    ensures
        final(meshes)@.len() == old(meshes)@.len() + extras_before(*game, pod_of(startup), names_view(names@), need_unit, names@.len() as int),
        final(meshes)@.subrange(0, old(meshes)@.len() as int) == old(meshes)@,
        w@.len() == names@.len(),
        forall|i: int| 0 <= i < names@.len() ==> extra_placed(*game, pod_of(startup), names_view(names@), need_unit,
            old(meshes)@.len() as int, final(meshes)@, #[trigger] w@[i], i),
{
    let ghost g = *game;
    let ghost s = pod_of(startup);
    let ghost start = meshes@;
    let ghost nv = names_view(names@);
    let base = meshes.len();
    let mut out: Vec<Option<usize>> = Vec::new();
    let mut i: usize = 0;
    while i < names.len()
        invariant
            g == *game && s == pod_of(startup),
            nv == names_view(names@),
            base == start.len(),
            i <= names@.len(),
            out@.len() == i,
            meshes@.len() == base + extras_before(g, s, nv, need_unit, i as int),
            meshes@.subrange(0, base as int) == start,
            forall|j: int| 0 <= j < i ==> extra_placed(g, s, nv, need_unit, base as int, meshes@, #[trigger] out@[j], j),
        decreases names@.len() - i,
    {
        proof {
            lemma_extras_before_bounds(g, s, nv, need_unit, i as int, i as int);
        }
        let ghost before = meshes@;
        let ghost out_before = out@;
        let found = match &names[i] {
            Some(name) => match binary_model(game, startup, name.as_str()) {
                Some(x) => if !need_unit || (match x.unit { Some(u) => u > 0, None => false }) { Some(x) } else { None },
                None => None,
            },
            None => None,
        };
        assert(nv[i as int] == match names@[i as int] { Some(x) => Some(x@), None => None::<Seq<char>> });
        assert(found is Some <==> extra_loads(g, s, nv[i as int], need_unit));
        match found {
            Some(x) => {
                meshes.push(Some(x));
                let at = meshes.len() - 1;
                out.push(Some(at));
                proof {
                    assert(meshes@.subrange(0, base as int) =~= before.subrange(0, base as int));
                    assert forall|j: int| 0 <= j < i + 1 implies extra_placed(g, s, nv, need_unit, base as int, meshes@, #[trigger] out@[j], j) by {
                        if j < i {
                            assert(out@[j] == out_before[j]);
                            assert(extra_placed(g, s, nv, need_unit, base as int, before, out_before[j], j));
                            if extra_loads(g, s, nv[j], need_unit) {
                                lemma_extras_before_bounds(g, s, nv, need_unit, j, j + 1);
                                lemma_extras_before_bounds(g, s, nv, need_unit, j + 1, i as int);
                                let k = base + extras_before(g, s, nv, need_unit, j);
                                assert(0 <= k < before.len());
                                assert(meshes@[k] === before[k]);
                            }
                        }
                    }
                }
            },
            None => {
                out.push(None);
                proof {
                    assert forall|j: int| 0 <= j < i + 1 implies extra_placed(g, s, nv, need_unit, base as int, meshes@, #[trigger] out@[j], j) by {
                        if j < i {
                            assert(out@[j] == out_before[j]);
                        }
                    }
                }
            },
        }
        i += 1;
    }
    out
}

/// The explosion frame file `n`, counting from 1.
pub open spec fn blast_name(n: nat) -> Seq<char> {
    "blast"@ + decimal(n) + ".raw"@
}

/// The explosion's frames, `blast1.raw` upward.
fn blast_frames(game: &Pod, startup: Option<&Pod>, frames: u32) -> (t: Vec<Option<Image>>)
    ensures
        t@.len() == frames,
        forall|i: int| 0 <= i < frames ==> image_of(fetched(*game, pod_of(startup), "art"@, blast_name((i + 1) as nat)), #[trigger] t@[i]),
{
    let mut out: Vec<Option<Image>> = Vec::new();
    let mut n: u32 = 0;
    while n < frames
        invariant
            n <= frames,
            out@.len() == n,
            forall|i: int| 0 <= i < n ==> image_of(fetched(*game, pod_of(startup), "art"@, blast_name((i + 1) as nat)), #[trigger] out@[i]),
        decreases frames - n,
    {
        let mut name = chars_of("blast");
        let mut digits = decimal_chars((n + 1) as u128);
        name.append(&mut digits);
        let mut ext = chars_of(".raw");
        name.append(&mut ext);
        let file = string_of(name.as_slice());
        assert(file@ =~= blast_name((n + 1) as nat));
        let img = image_file(game, startup, "art", file.as_str());
        out.push(img);
        n += 1;
    }
    out
}

impl Level {
    /// How many of the level's `.TEX` textures resolved to an image.
    pub fn resolved_textures(&self) -> (n: usize)
        ensures
            n == resolved(self.textures@),
    {
        let mut n: usize = 0;
        let mut i: usize = 0;
        while i < self.textures.len()
            invariant
                i <= self.textures@.len(),
                n == resolved(self.textures@.take(i as int)),
                n <= i,
            decreases self.textures@.len() - i,
        {
            assert(self.textures@.take(i + 1).drop_last() =~= self.textures@.take(i as int));
            if self.textures[i].is_some() {
                n += 1;
            }
            i += 1;
        }
        assert(self.textures@.take(i as int) =~= self.textures@);
        n
    }

    /// Load level `name` from `game`, with `startup` consulted for art a
    /// level names but does not carry, which happens because the front end
    /// and the levels share some textures. The first thing that is missing
    /// or does not read refuses the level, with a message naming it.
    pub fn load(game: &Pod, startup: Option<&Pod>, name: &str, tables: &LevelTables) -> (r: core::result::Result<Level, String>)
        requires
            tex_count_fits(*game, pod_of(startup), name@),
            models_read(*game, pod_of(startup), name@),
        ensures
            loads(*game, pod_of(startup), *tables, name@, r),
    {
        let lvl_name = joined(name, ".lvl");
        let bytes = match fetch(game, startup, "levels", lvl_name.as_str()) {
            Some(b) => b,
            None => return Err(joined3("no levels\\", name, ".lvl")),
        };
        let parsed = lvl::Level::parse(bytes.as_slice());
        let manifest = match parsed {
            Ok(m) => m,
            Err(e) => return Err(e.message()),
        };
        Self::from_manifest(game, startup, manifest, tables)
    }

    fn from_manifest(game: &Pod, startup: Option<&Pod>, manifest: lvl::Level, tables: &LevelTables) -> (r: core::result::Result<Level, String>)
        requires
            level_view(manifest).files.len() == 16,
            defs_models_read(*game, pod_of(startup), stem_of(level_view(manifest))),
            ({
                let (g, s, mv) = (*game, pod_of(startup), level_view(manifest));
                terrain_reads(terrain_run(g, s, stem_of(mv), 0)) ==> match fetched(g, s, "data"@, stem_of(mv) + ".tex"@) {
                    Some(tb) => first_int(tb) matches Some(v) ==> (v as usize) < usize::MAX,
                    None => true,
                }
            }),
        ensures
            after_manifest(*game, pod_of(startup), *tables, level_view(manifest), r),
    {
        let ghost g = *game;
        let ghost s = pod_of(startup);
        let ghost mv = level_view(manifest);
        let stem = text_of(manifest.stem());
        assert(stem@ == stem_of(mv));
        let files = terrain_files(game, startup, stem.as_str());
        let ghost got = terrain_run(g, s, stem_of(mv), 0);
        let loaded_terrain = Terrain::from_files(files.as_slice());
        let ghost t0 = loaded_terrain;
        let terrain = match loaded_terrain {
            Ok(t) => t,
            Err(e) => {
                proof {
                    assert(loaded(got, Err(e)));
                    assert forall|t: Terrain| !loaded(got, Ok(t)) by {}
                }
                return Err(e.message());
            },
        };
        assert(loaded(got, Ok(terrain)));
        let tex_name = joined(stem.as_str(), ".tex");
        let tex = match fetch(game, startup, "data", tex_name.as_str()) {
            Some(t) => t,
            None => return Err(joined3("no data\\", stem.as_str(), ".tex")),
        };
        let listed = text::name_list(tex.as_slice(), "TEX");
        let ghost n0 = listed;
        let texture_names = match listed {
            Ok(n) => n,
            Err(e) => {
                assert(names_read(tex@, "TEX", Err(e)));
                return Err(e.message());
            },
        };
        assert(names_read(tex@, "TEX", Ok(texture_names)));
        let ghost names0 = texture_names;
        let r = Self::from_names(game, startup, manifest, stem, terrain, texture_names, tables);
        assert(after_names(g, s, *tables, mv, views(names0@), r));
        r
    }

    fn from_names(
        game: &Pod,
        startup: Option<&Pod>,
        manifest: lvl::Level,
        stem: String,
        terrain: Terrain,
        texture_names: Vec<String>,
        tables: &LevelTables,
    ) -> (r: core::result::Result<Level, String>)
        requires
            level_view(manifest).files.len() == 16,
            stem@ == stem_of(level_view(manifest)),
            loaded(terrain_run(*game, pod_of(startup), stem@, 0), Ok(terrain)),
            defs_models_read(*game, pod_of(startup), stem@),
        ensures
            after_names(*game, pod_of(startup), *tables, level_view(manifest), views(texture_names@), r),
    {
        let ghost mv = level_view(manifest);
        assert(manifest.files@[GROUND_PALETTE as int]@ == mv.files[GROUND_PALETTE as int]);
        let palette_name = manifest.files[GROUND_PALETTE].as_str();
        let palette_bytes = match fetch(game, startup, "art", palette_name) {
            Some(b) => b,
            None => return Err(joined("no art\\", palette_name)),
        };
        let palette = match Palette::parse(palette_bytes.as_slice()) {
            Ok(p) => p,
            Err(e) => return Err(e.message()),
        };
        Self::from_palette(game, startup, manifest, stem, terrain, texture_names, palette, tables, Ghost(palette_bytes@))
    }

    fn from_palette(
        game: &Pod,
        startup: Option<&Pod>,
        manifest: lvl::Level,
        stem: String,
        terrain: Terrain,
        texture_names: Vec<String>,
        palette: Palette,
        tables: &LevelTables,
        Ghost(pb): Ghost<Seq<u8>>,
    ) -> (r: core::result::Result<Level, String>)
        requires
            level_view(manifest).files.len() == 16,
            stem@ == stem_of(level_view(manifest)),
            loaded(terrain_run(*game, pod_of(startup), stem@, 0), Ok(terrain)),
            forall|i: int| 0 <= i < 256 ==> palette.colours@[i] == triple_at(pb, i),
            defs_models_read(*game, pod_of(startup), stem@),
        ensures
            after_palette(*game, pod_of(startup), *tables, level_view(manifest), views(texture_names@), pb, r),
    {
        let def_name = joined(stem.as_str(), ".def");
        let def = match fetch(game, startup, "data", def_name.as_str()) {
            Some(d) => d,
            None => return Err(joined3("no data\\", stem.as_str(), ".def")),
        };
        let read = text::enemy_defs(def.as_slice());
        let kinds = match read {
            Ok(k) => k,
            Err(e) => {
                assert(defs_read(def@, Err(e)));
                return Err(e.message());
            },
        };
        assert(defs_read(def@, Ok(kinds)));
        assert(forall|i: int| 0 <= i < kinds@.len() ==> model_reads(*game, pod_of(startup), #[trigger] kinds@[i].model@));
        let ghost k0 = kinds;
        let r = Self::assemble(game, startup, manifest, stem, terrain, texture_names, palette, kinds, tables, Ghost(pb));
        assert(after_defs(*game, pod_of(startup), *tables, level_view(manifest), views(texture_names@), pb, k0, r));
        r
    }

    fn assemble(
        game: &Pod,
        startup: Option<&Pod>,
        manifest: lvl::Level,
        stem: String,
        terrain: Terrain,
        texture_names: Vec<String>,
        palette: Palette,
        kinds: Vec<EnemyDef>,
        tables: &LevelTables,
        Ghost(pb): Ghost<Seq<u8>>,
    ) -> (r: core::result::Result<Level, String>)
        requires
            level_view(manifest).files.len() == 16,
            stem@ == stem_of(level_view(manifest)),
            loaded(terrain_run(*game, pod_of(startup), stem@, 0), Ok(terrain)),
            forall|i: int| 0 <= i < 256 ==> palette.colours@[i] == triple_at(pb, i),
            forall|i: int| 0 <= i < kinds@.len() ==> model_reads(*game, pod_of(startup), #[trigger] kinds@[i].model@),
        ensures
            after_defs(*game, pod_of(startup), *tables, level_view(manifest), views(texture_names@), pb, kinds, r),
    {
        let ghost g = *game;
        let ghost s = pod_of(startup);
        let ghost mv = level_view(manifest);
        assert(manifest.files@.len() == 16);
        assert(manifest.files@[QUAKE as int]@ == mv.files[QUAKE as int]);
        assert(manifest.files@[NAVIGATION as int]@ == mv.files[NAVIGATION as int]);
        assert(manifest.files@[SKY as int]@ == mv.files[SKY as int]);
        assert(manifest.files@[LIGHT as int]@ == mv.files[LIGHT as int]);
        assert(manifest.files@[FOG as int]@ == mv.files[FOG as int]);
        let quake = match fetch(game, startup, "data", manifest.files[QUAKE].as_str()) {
            Some(qb) => match quake::parse(qb.as_slice()) {
                Ok(q) => q,
                Err(e) => return Err(e.message()),
            },
            None => Quake { ground: Vec::new(), boxes: Vec::new() },
        };
        let navs = match fetch(game, startup, "data", manifest.files[NAVIGATION].as_str()) {
            Some(nb) => match nav::navs(nb.as_slice()) {
                Ok(v) => v,
                Err(e) => return Err(e.message()),
            },
            None => Vec::new(),
        };
        let courses = match fetch(game, startup, "data", manifest.courses.as_str()) {
            Some(cb) => match course::parse(cb.as_slice()) {
                Ok(v) => v,
                Err(_) => Vec::new(),
            },
            None => Vec::new(),
        };
        let textures = textures_of(game, startup, texture_names.as_slice());
        let light = ramp_file(game, startup, "fog", manifest.files[LIGHT].as_str());
        let fog = ramp_file(game, startup, "fog", manifest.files[FOG].as_str());
        let sky = image_file(game, startup, "art", manifest.files[SKY].as_str());
        let star_passes = star_passes_for(manifest.files[SKY].as_str());
        let stars = if star_passes > 0 { stars() } else { Vec::new() };
        let sky_remap = sky_remap(game, startup, &manifest);
        let map = colour_map(game, startup, &manifest);
        proof {
            assert forall|i: int| 0 <= i < textures@.len() implies (#[trigger] textures@[i] matches Some(img)
                ==> img.pixels@.len() == img.shape.width * img.shape.height) by {
                assert(image_of(fetched(g, s, "art"@, texture_names@[i]@), textures@[i]));
            }
        }
        let mips = mips(textures.as_slice(), &palette, map.as_ref());
        let destroy_sound = destroy_sounds(game, startup, kinds.as_slice());
        let (meshes, wreck_mesh, powerup_mesh, shot_mesh, muzzle_mesh) = all_meshes(game, startup, kinds.as_slice(), tables);
        let mesh_textures = all_mesh_textures(game, startup, meshes.as_slice());
        let blast = blast_frames(game, startup, tables.blast_frames);
        let mesh_flipbooks = flipbooks_of(game, startup, meshes.as_slice());
        let animated = animated_of_kinds(game, startup, kinds.as_slice());
        let level = Level {
            manifest,
            stem,
            terrain,
            textures,
            mips,
            texture_names,
            palette,
            light,
            fog,
            kinds,
            meshes,
            mesh_textures,
            wreck_mesh,
            powerup_mesh,
            shot_mesh,
            muzzle_mesh,
            blast,
            mesh_flipbooks,
            animated,
            sky,
            stars,
            star_passes,
            sky_remap,
            quake,
            destroy_sound,
            navs,
            courses,
        };
        proof {
            let names = views(level.texture_names@);
            assert forall|i: int| 0 <= i < names.len() implies image_of(fetched(g, s, "art"@, names[i]), #[trigger] level.textures@[i]) by {
                assert(names[i] == level.texture_names@[i]@);
            }
            if star_passes > 0 {
                assert(level.stars@ =~= Seq::new(2000, |i: int| star(i)));
            } else {
                assert(level.stars@ =~= Seq::<Star>::empty());
            }
        }
        Ok(level)
    }
}

} // verus!
