//! The `.LVL` manifest: 43 lines of CRLF text naming everything a level is
//! made of. Positional, not keyed.

use vstd::prelude::*;
use crate::bytes::{chars_of, decimal, decimal_chars, string_of};
use crate::chars::index_from;
use crate::text_core::{trim, parse_int};
use crate::formats::text::{lines, views, text_lines, line_count, integer, ints, parse_ints, expect_sentinel,
    is_sentinel_line, optional, optional_name, push_all, LineFault, refused_as};
use crate::formats::{Error, Result};
use vstd::string::StrSliceExecFns;

verus! {

pub const LINES: usize = 43;
pub const VERSION: i64 = 4;

/// Which POD directory each filename slot resolves against, slot by slot.
pub const DIRS: [(&'static str, &'static str); 16] = [
    ("briefing", "data"),
    ("ground_altitude", "data"),
    ("ground_colour", "data"),
    ("ground_palette", "art"),
    ("textures", "data"),
    ("quake", "data"),
    ("powerups", "data"),
    ("animations", "data"),
    ("tdf", "data"),
    ("sky", "art"),
    ("sky_palette", "art"),
    ("enemies", "data"),
    ("navigation", "data"),
    ("music", "music"),
    ("fog", "fog"),
    ("light", "fog"),
];

#[derive(Debug, Clone)]
pub struct Level {
    pub version: i64,
    /// Lines 2-17, in order, matching [`DIRS`].
    pub files: Vec<String>,
    /// Line 18: the light direction, a 16.16 unit vector.
    pub light: [i64; 3],
    /// Line 19: the ambient intensity for the same, 16.16.
    pub ambient: i64,
    /// Lines 20 and 21: the direction and ambient the chambers are lit with.
    pub chamber_light: [i64; 3],
    pub chamber_ambient: i64,
    /// Line 22.
    pub unknown_22: i64,
    /// Lines 24-28, `None` where the file says `null`.
    pub story_movies: [Option<String>; 5],
    pub unknown_30: i64,
    pub courses: String,
    pub glt: String,
    pub unknown_33: i64,
    /// Line 35. CD audio track, 0 for none.
    pub redbook_track: i64,
    pub briefing_movie: Option<String>,
    pub death_movie: Option<String>,
    /// Line 40. 0 none, 1 snow, 2 rain, 4 lightning; 6 is rain and lightning.
    pub weather: i64,
    /// Lines 41 and 42, 16.16 fixed point.
    pub weather_params: [[i64; 2]; 2],
}

pub struct LevelView {
    pub version: i64,
    pub files: Seq<Seq<char>>,
    pub light: Seq<i64>,
    pub ambient: i64,
    pub chamber_light: Seq<i64>,
    pub chamber_ambient: i64,
    pub unknown_22: i64,
    pub story_movies: Seq<Option<Seq<char>>>,
    pub unknown_30: i64,
    pub courses: Seq<char>,
    pub glt: Seq<char>,
    pub unknown_33: i64,
    pub redbook_track: i64,
    pub briefing_movie: Option<Seq<char>>,
    pub death_movie: Option<Seq<char>>,
    pub weather: i64,
    pub weather_params: Seq<Seq<i64>>,
}

pub open spec fn name_view(n: Option<String>) -> Option<Seq<char>> {
    match n {
        Some(s) => Some(s@),
        None => None,
    }
}

pub open spec fn level_view(l: Level) -> LevelView {
    LevelView {
        version: l.version,
        files: l.files@.map_values(|s: String| s@),
        light: l.light@,
        ambient: l.ambient,
        chamber_light: l.chamber_light@,
        chamber_ambient: l.chamber_ambient,
        unknown_22: l.unknown_22,
        story_movies: l.story_movies@.map_values(|n: Option<String>| name_view(n)),
        unknown_30: l.unknown_30,
        courses: l.courses@,
        glt: l.glt@,
        unknown_33: l.unknown_33,
        redbook_track: l.redbook_track,
        briefing_movie: name_view(l.briefing_movie),
        death_movie: name_view(l.death_movie),
        weather: l.weather,
        weather_params: l.weather_params@.map_values(|p: [i64; 2]| p@),
    }
}

/// `expected 42 lines, got {n}`.
pub open spec fn too_short(n: nat) -> Seq<char> {
    seq!['e', 'x', 'p', 'e', 'c', 't', 'e', 'd', ' ', '4', '2', ' ', 'l', 'i', 'n', 'e', 's', ',', ' ', 'g', 'o', 't', ' ']
        + decimal(n)
}

/// The whole number on line `at`.
pub open spec fn int_at(ls: Seq<Seq<char>>, at: int, what: &'static str) -> core::result::Result<i64, LineFault> {
    match parse_int(trim(ls[at])) {
        Some(v) => Ok(v),
        None => Err(LineFault { what, line: at + 1, saw: ls[at] }),
    }
}

/// Exactly `n` numbers on line `at`.
pub open spec fn ints_at(ls: Seq<Seq<char>>, at: int, n: nat, what: &'static str) -> core::result::Result<Seq<i64>, LineFault> {
    match parse_ints(ls[at]) {
        Some(v) => if v.len() == n { Ok(v) } else { Err(LineFault { what, line: at + 1, saw: ls[at] }) },
        None => Err(LineFault { what, line: at + 1, saw: ls[at] }),
    }
}

/// Line `at` must head an appended block.
pub open spec fn sentinel_at(ls: Seq<Seq<char>>, at: int, what: &'static str) -> core::result::Result<(), LineFault> {
    if is_sentinel_line(ls[at]) { Ok(()) } else { Err(LineFault { what, line: at + 1, saw: ls[at] }) }
}

/// The version and the five block sentinels, in the order they are checked.
pub open spec fn checks(ls: Seq<Seq<char>>) -> core::result::Result<i64, LineFault> {
    match int_at(ls, 0, "LVL version") {
        Err(f) => Err(f),
        Ok(v) => match sentinel_at(ls, 22, "LVL ;New story stuff") {
            Err(f) => Err(f),
            Ok(_) => match sentinel_at(ls, 28, "LVL !New ground additions") {
                Err(f) => Err(f),
                Ok(_) => match sentinel_at(ls, 33, "LVL @Redbook Audio Track") {
                    Err(f) => Err(f),
                    Ok(_) => match sentinel_at(ls, 35, "LVL =New Cinematic Info") {
                        Err(f) => Err(f),
                        Ok(_) => match sentinel_at(ls, 38, "LVL { Weather") {
                            Err(f) => Err(f),
                            Ok(_) => Ok(v),
                        },
                    },
                },
            },
        },
    }
}

/// The numbers of lines 18 to 22: light, ambient, chamber light, chamber
/// ambient, line 22.
pub open spec fn lighting(ls: Seq<Seq<char>>) -> core::result::Result<(Seq<i64>, i64, Seq<i64>, i64, i64), LineFault> {
    match ints_at(ls, 17, 3, "LVL light") {
        Err(f) => Err(f),
        Ok(light) => match int_at(ls, 18, "LVL ambient") {
            Err(f) => Err(f),
            Ok(ambient) => match ints_at(ls, 19, 3, "LVL chamber light") {
                Err(f) => Err(f),
                Ok(chamber_light) => match int_at(ls, 20, "LVL chamber ambient") {
                    Err(f) => Err(f),
                    Ok(chamber_ambient) => match int_at(ls, 21, "LVL line 22") {
                        Err(f) => Err(f),
                        Ok(u22) => Ok((light, ambient, chamber_light, chamber_ambient, u22)),
                    },
                },
            },
        },
    }
}

/// The numbers after the story movies: lines 30, 33, 35, 40, 41 and 42.
pub open spec fn the_rest(ls: Seq<Seq<char>>) -> core::result::Result<(i64, i64, i64, i64, Seq<i64>, Seq<i64>), LineFault> {
    match int_at(ls, 29, "LVL line 30") {
        Err(f) => Err(f),
        Ok(u30) => match int_at(ls, 32, "LVL line 33") {
            Err(f) => Err(f),
            Ok(u33) => match int_at(ls, 34, "LVL line 35") {
                Err(f) => Err(f),
                Ok(redbook) => match int_at(ls, 39, "LVL weather") {
                    Err(f) => Err(f),
                    Ok(weather) => match ints_at(ls, 40, 2, "LVL line 41") {
                        Err(f) => Err(f),
                        Ok(p41) => match ints_at(ls, 41, 2, "LVL line 42") {
                            Err(f) => Err(f),
                            Ok(p42) => Ok((u30, u33, redbook, weather, p41, p42)),
                        },
                    },
                },
            },
        },
    }
}

/// A level manifest: at least 42 lines, the checks, then each field from its
/// line.
pub open spec fn level_of(data: Seq<u8>) -> core::result::Result<LevelView, LineFault> {
    let ls = text_lines(data);
    if ls.len() < LINES - 1 {
        Err(LineFault { what: "LVL", line: ls.len() as int, saw: too_short(ls.len()) })
    } else {
        match checks(ls) {
            Err(f) => Err(f),
            Ok(version) => match lighting(ls) {
                Err(f) => Err(f),
                Ok((light, ambient, chamber_light, chamber_ambient, unknown_22)) => match the_rest(ls) {
                    Err(f) => Err(f),
                    Ok((unknown_30, unknown_33, redbook_track, weather, p41, p42)) => Ok(LevelView {
                        version,
                        files: ls.subrange(1, 17),
                        light,
                        ambient,
                        chamber_light,
                        chamber_ambient,
                        unknown_22,
                        story_movies: Seq::new(5, |i: int| optional(ls[23 + i])),
                        unknown_30,
                        courses: ls[30],
                        glt: ls[31],
                        unknown_33,
                        redbook_track,
                        briefing_movie: optional(ls[36]),
                        death_movie: optional(ls[37]),
                        weather,
                        weather_params: seq![p41, p42],
                    }),
                },
            },
        }
    }
}

fn whole(lines: &[String], at: usize, what: &'static str) -> (r: Result<i64>)
    requires
        at < lines@.len(),
        at < 42,
    ensures
        match int_at(views(lines@), at as int, what) {
            Ok(v) => r == Ok::<i64, Error>(v),
            Err(f) => r matches Err(e) && refused_as(e, f),
        },
{
    proof {
        assert(views(lines@)[at as int] == lines@[at as int]@);
    }
    integer(lines, at, what)
}

fn numbers(lines: &[String], at: usize, n: usize, what: &'static str) -> (r: Result<Vec<i64>>)
    requires
        at < lines@.len(),
        at < 42,
    ensures
        match ints_at(views(lines@), at as int, n as nat, what) {
            Ok(v) => r matches Ok(w) && w@ == v,
            Err(f) => r matches Err(e) && refused_as(e, f),
        },
{
    proof {
        assert(views(lines@)[at as int] == lines@[at as int]@);
    }
    let v = match ints(lines, at, what) {
        Ok(v) => v,
        Err(e) => return Err(e),
    };
    if v.len() != n {
        return Err(Error::BadLine { what, line: at + 1, saw: lines[at].clone() });
    }
    Ok(v)
}

fn sentinel(lines: &[String], at: usize, what: &'static str) -> (r: Result<()>)
    requires
        at < lines@.len(),
        at < 42,
    ensures
        match sentinel_at(views(lines@), at as int, what) {
            Ok(_) => r is Ok,
            Err(f) => r matches Err(e) && refused_as(e, f),
        },
{
    proof {
        assert(views(lines@)[at as int] == lines@[at as int]@);
    }
    expect_sentinel(lines, at, what)
}

fn movie(lines: &[String], at: usize) -> (r: Option<String>)
    requires
        at < lines@.len(),
    ensures
        name_view(r) == optional(views(lines@)[at as int]),
{
    proof {
        assert(views(lines@)[at as int] == lines@[at as int]@);
    }
    match optional_name(lines[at].as_str()) {
        Some(s) => Some(s.to_owned()),
        None => None,
    }
}

impl Level {
    /// Reads a level manifest: at least 42 lines; the version; the five
    /// block sentinels on lines 23, 29, 34, 36 and 39; then the files, the
    /// lighting, the story movies, the courses and light table, the audio
    /// track, the cinematics and the weather, each from its own line.
    pub fn parse(data: &[u8]) -> (r: Result<Level>)
        ensures
            match level_of(data@) {
                Ok(v) => r matches Ok(l) && level_view(l) == v,
                Err(f) => r matches Err(e) && refused_as(e, f),
            },
    {
        let l = lines(data);
        let ghost ls = views(l@);
        let n = l.len();
        if n < LINES - 1 {
            let mut saw = chars_of("expected 42 lines, got ");
            proof {
                reveal_strlit("expected 42 lines, got ");
            }
            let digits = decimal_chars(n as u128);
            push_all(&mut saw, digits.as_slice());
            assert(saw@ =~= too_short(n as nat));
            return Err(Error::BadLine { what: "LVL", line: n, saw: string_of(saw.as_slice()) });
        }
        let lines = l.as_slice();
        let version = match whole(lines, 0, "LVL version") { Ok(v) => v, Err(e) => return Err(e) };
        match sentinel(lines, 22, "LVL ;New story stuff") { Ok(_) => {}, Err(e) => return Err(e) };
        match sentinel(lines, 28, "LVL !New ground additions") { Ok(_) => {}, Err(e) => return Err(e) };
        match sentinel(lines, 33, "LVL @Redbook Audio Track") { Ok(_) => {}, Err(e) => return Err(e) };
        match sentinel(lines, 35, "LVL =New Cinematic Info") { Ok(_) => {}, Err(e) => return Err(e) };
        match sentinel(lines, 38, "LVL { Weather") { Ok(_) => {}, Err(e) => return Err(e) };
        let mut files: Vec<String> = Vec::new();
        let mut i: usize = 1;
        while i < 17
            invariant
                1 <= i <= 17,
                lines@.len() >= 42,
                ls == views(lines@),
                files@.map_values(|s: String| s@) =~= ls.subrange(1, i as int),
            decreases 17 - i,
        {
            let ghost before = files@;
            let f = lines[i].clone();
            files.push(f);
            assert(files@.map_values(|s: String| s@) =~= before.map_values(|s: String| s@).push(ls[i as int]));
            i += 1;
        }
        let light = match numbers(lines, 17, 3, "LVL light") { Ok(v) => v, Err(e) => return Err(e) };
        let ambient = match whole(lines, 18, "LVL ambient") { Ok(v) => v, Err(e) => return Err(e) };
        let chamber_light = match numbers(lines, 19, 3, "LVL chamber light") { Ok(v) => v, Err(e) => return Err(e) };
        let chamber_ambient = match whole(lines, 20, "LVL chamber ambient") { Ok(v) => v, Err(e) => return Err(e) };
        let unknown_22 = match whole(lines, 21, "LVL line 22") { Ok(v) => v, Err(e) => return Err(e) };
        let story_movies = [movie(lines, 23), movie(lines, 24), movie(lines, 25), movie(lines, 26), movie(lines, 27)];
        let unknown_30 = match whole(lines, 29, "LVL line 30") { Ok(v) => v, Err(e) => return Err(e) };
        let courses = lines[30].clone();
        let glt = lines[31].clone();
        let unknown_33 = match whole(lines, 32, "LVL line 33") { Ok(v) => v, Err(e) => return Err(e) };
        let redbook_track = match whole(lines, 34, "LVL line 35") { Ok(v) => v, Err(e) => return Err(e) };
        let briefing_movie = movie(lines, 36);
        let death_movie = movie(lines, 37);
        let weather = match whole(lines, 39, "LVL weather") { Ok(v) => v, Err(e) => return Err(e) };
        let p41 = match numbers(lines, 40, 2, "LVL line 41") { Ok(v) => v, Err(e) => return Err(e) };
        let p42 = match numbers(lines, 41, 2, "LVL line 42") { Ok(v) => v, Err(e) => return Err(e) };
        let level = Level {
            version,
            files,
            light: [light[0], light[1], light[2]],
            ambient,
            chamber_light: [chamber_light[0], chamber_light[1], chamber_light[2]],
            chamber_ambient,
            unknown_22,
            story_movies,
            unknown_30,
            courses,
            glt,
            unknown_33,
            redbook_track,
            briefing_movie,
            death_movie,
            weather,
            weather_params: [[p41[0], p41[1]], [p42[0], p42[1]]],
        };
        proof {
            let v = level_view(level);
            assert(ls[30] == lines@[30]@);
            assert(ls[31] == lines@[31]@);
            assert(v.light =~= light@);
            assert(v.chamber_light =~= chamber_light@);
            assert(v.story_movies =~= Seq::new(5, |i: int| optional(ls[23 + i])));
            assert(v.weather_params[0] =~= p41@);
            assert(v.weather_params[1] =~= p42@);
            assert(v.weather_params =~= seq![p41@, p42@]);
        }
        Ok(level)
    }

    /// The filename in a named slot, with the POD directory it lives in.
    pub fn slot(&self, name: &str) -> (r: Option<(&str, &str)>)
        ensures
            match slot_index(name@) {
                Some(i) => if i < self.files@.len() {
                    r matches Some((dir, file)) && dir@ == DIRS[i].1@ && file@ == self.files@[i]@
                } else {
                    r is None
                },
                None => r is None,
            },
    {
        let want = chars_of(name);
        let mut i: usize = 0;
        while i < 16
            invariant
                i <= 16,
                want@ == name@,
                slot_index(name@) == slot_from(name@, i as int),
            decreases 16 - i,
        {
            let (slot, dir) = DIRS[i];
            let s = chars_of(slot);
            if crate::chars::same_chars(s.as_slice(), want.as_slice()) {
                if i < self.files.len() {
                    return Some((dir, self.files[i].as_str()));
                }
                return None;
            }
            i += 1;
        }
        None
    }

    /// The level stem, taken from the ground altitude filename: the part
    /// before its first dot, empty when there is no such file.
    pub fn stem(&self) -> (r: &str)
        ensures
            r@ == (if self.files@.len() > 1 { before_dot(self.files@[1]@) } else { Seq::empty() }),
    {
        if self.files.len() <= 1 {
            let empty = "";
            proof {
                reveal_strlit("");
            }
            return empty;
        }
        let f = self.files[1].as_str();
        let c = chars_of(f);
        let dot = crate::chars::find_char(c.as_slice(), '.', 0);
        proof {
            crate::chars::lemma_index_from(c@, '.', 0);
        }
        let r = f.substring_char(0, dot);
        assert(r@ =~= before_dot(f@));
        r
    }

    pub fn has_snow(&self) -> (r: bool)
        ensures
            r == (self.weather & 1 != 0),
    {
        self.weather & 1 != 0
    }

    pub fn has_rain(&self) -> (r: bool)
        ensures
            r == (self.weather & 2 != 0),
    {
        self.weather & 2 != 0
    }

    pub fn has_lightning(&self) -> (r: bool)
        ensures
            r == (self.weather & 4 != 0),
    {
        self.weather & 4 != 0
    }
}

/// The first slot from `i` on with the given name.
pub open spec fn slot_from(name: Seq<char>, i: int) -> Option<int>
    decreases 16 - i,
{
    if i < 0 || i >= 16 {
        None
    } else if DIRS[i].0@ == name {
        Some(i)
    } else {
        slot_from(name, i + 1)
    }
}

/// Which slot has the given name.
pub open spec fn slot_index(name: Seq<char>) -> Option<int> {
    slot_from(name, 0)
}

/// The text before the first dot, or all of it.
pub open spec fn before_dot(s: Seq<char>) -> Seq<char> {
    s.take(index_from(s, '.', 0))
}

} // verus!
