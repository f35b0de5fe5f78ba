//! `.GLT`: which textures mean a light.
//!
//! The extended ground light table - the loader's own error is
//! `Bad ext ground light`. A record names the texture that marks a lit
//! window, the one that replaces it when the light is off, and the one for a
//! broken light, and carries eight numbers whose meaning is not settled.

use vstd::prelude::*;
use crate::bytes::{chars_of, string_of};
use crate::text_core::{trim, trim_chars, parse_int};
use crate::formats::text::{lines, views, text_lines, line_count, integer, ints, parse_ints, line_int, LineFault, refused_as,
    line_or_blank, line_chars, bad_line_at, line_or_empty};
use crate::formats::{Error, Result};

verus! {

/// One light: three textures and the numbers that go with them.
#[derive(Debug, Clone, PartialEq, Eq)]
pub struct Light {
    /// The texture that says a face is this light, lit.
    pub on: String,
    /// What it wears switched off.
    pub off: String,
    /// And shot out.
    pub broken: String,
    /// The eight numbers, in the order the record holds them: the five of the
    /// fourth line then the three of the fifth.
    pub numbers: [i64; 8],
}

/// The defaults the loader writes when the fourth line carries two numbers
/// instead of five, in the same order as [`Light::numbers`].
pub const SHORT_FORM: [i64; 8] = [0, 0, 0, 6, 1, 0, 1, 0];

pub struct LightView {
    pub on: Seq<char>,
    pub off: Seq<char>,
    pub broken: Seq<char>,
    pub numbers: Seq<i64>,
}

pub open spec fn light_view(l: Light) -> LightView {
    LightView { on: l.on@, off: l.off@, broken: l.broken@, numbers: l.numbers@ }
}

pub open spec fn texture_at(ls: Seq<Seq<char>>, at: int) -> core::result::Result<Seq<char>, LineFault> {
    if 0 <= at < ls.len() {
        Ok(trim(ls[at]))
    } else {
        Err(LineFault { what: "GLT texture", line: at + 1, saw: Seq::empty() })
    }
}

pub open spec fn numbers_at(ls: Seq<Seq<char>>, at: int) -> core::result::Result<Seq<i64>, LineFault> {
    if 0 <= at < ls.len() {
        match parse_ints(ls[at]) {
            Some(v) => Ok(v),
            None => Err(LineFault { what: "GLT numbers", line: at + 1, saw: ls[at] }),
        }
    } else {
        Err(LineFault { what: "GLT numbers", line: at + 1, saw: Seq::empty() })
    }
}

/// A record from `at`: three texture lines, then two numbers, or five and a
/// line of three more. Two take the short form's defaults for the rest.
pub open spec fn light_at(ls: Seq<Seq<char>>, at: int) -> core::result::Result<(LightView, int), LineFault> {
    match texture_at(ls, at) {
        Err(f) => Err(f),
        Ok(on) => match texture_at(ls, at + 1) {
            Err(f) => Err(f),
            Ok(off) => match texture_at(ls, at + 2) {
                Err(f) => Err(f),
                Ok(broken) => match numbers_at(ls, at + 3) {
                    Err(f) => Err(f),
                    Ok(first) => if first.len() == 2 {
                        Ok((LightView { on, off, broken, numbers: seq![first[0], first[1], 0, 6, 1, 0, 1, 0] }, at + 4))
                    } else if first.len() == 5 {
                        match numbers_at(ls, at + 4) {
                            Err(f) => Err(f),
                            Ok(second) => if second.len() != 3 {
                                Err(LineFault { what: "GLT numbers", line: at + 5, saw: ls[at + 4] })
                            } else {
                                Ok((LightView { on, off, broken, numbers: first + second }, at + 5))
                            },
                        }
                    } else {
                        Err(LineFault { what: "GLT numbers", line: at + 4, saw: ls[at + 3] })
                    },
                },
            },
        },
    }
}

pub open spec fn lights_at(ls: Seq<Seq<char>>, at: int, n: nat) -> core::result::Result<(Seq<LightView>, int), LineFault>
    decreases n,
{
    if n == 0 {
        Ok((Seq::empty(), at))
    } else {
        match lights_at(ls, at, (n - 1) as nat) {
            Err(f) => Err(f),
            Ok((s, next)) => match light_at(ls, next) {
                Err(f) => Err(f),
                Ok((l, after)) => Ok((s.push(l), after)),
            },
        }
    }
}

/// The count on the first line, floored at zero, as a `usize` holds it.
pub open spec fn glt_count(c: i64) -> usize {
    (if c < 0 { 0 } else { c }) as usize
}

/// A light table: the count, then that many records.
pub open spec fn lights_of(data: Seq<u8>) -> core::result::Result<Seq<LightView>, LineFault> {
    let ls = text_lines(data);
    let count = if ls.len() > 0 { parse_int(trim(ls[0])) } else { None };
    match count {
        None => Err(LineFault { what: "GLT count", line: 1, saw: line_or_blank(ls, 0) }),
        Some(c) => match lights_at(ls, 1, glt_count(c) as nat) {
            Err(f) => Err(f),
            Ok((s, _)) => Ok(s),
        },
    }
}

fn texture(lines: &[String], at: usize) -> (r: Result<String>)
    requires
        at < usize::MAX,
    ensures
        match texture_at(views(lines@), at as int) {
            Ok(t) => r matches Ok(s) && s@ == t && at < lines@.len(),
            Err(f) => r matches Err(e) && refused_as(e, f),
        },
{
    if at < lines.len() {
        let c = line_chars(lines, at);
        let t = trim_chars(c.as_slice());
        Ok(string_of(t.as_slice()))
    } else {
        Err(Error::BadLine { what: "GLT texture", line: at + 1, saw: String::new() })
    }
}

fn numbers(lines: &[String], at: usize) -> (r: Result<Vec<i64>>)
    requires
        at < usize::MAX,
    ensures
        match numbers_at(views(lines@), at as int) {
            Ok(v) => r matches Ok(w) && w@ == v && at < lines@.len(),
            Err(f) => r matches Err(e) && refused_as(e, f),
        },
{
    proof {
        if at < lines@.len() {
            assert(views(lines@)[at as int] == lines@[at as int]@);
        }
    }
    ints(lines, at, "GLT numbers")
}

fn light(lines: &[String], at: usize) -> (r: Result<(Light, usize)>)
    requires
        at <= lines@.len(),
        lines@.len() <= isize::MAX,
    ensures
        match light_at(views(lines@), at as int) {
            Ok((l, next)) => r matches Ok((v, n)) && light_view(v) == l && n == next && next <= lines@.len(),
            Err(f) => r matches Err(e) && refused_as(e, f),
        },
{
    let on = match texture(lines, at) { Ok(t) => t, Err(e) => return Err(e) };
    let off = match texture(lines, at + 1) { Ok(t) => t, Err(e) => return Err(e) };
    let broken = match texture(lines, at + 2) { Ok(t) => t, Err(e) => return Err(e) };
    let first = match numbers(lines, at + 3) { Ok(v) => v, Err(e) => return Err(e) };
    proof {
        assert(views(lines@)[at + 3] == lines@[at + 3]@);
    }
    if first.len() == 2 {
        let numbers = [first[0], first[1], 0, 6, 1, 0, 1, 0];
        assert(numbers@ =~= seq![first@[0], first@[1], 0, 6, 1, 0, 1, 0]);
        Ok((Light { on, off, broken, numbers }, at + 4))
    } else if first.len() == 5 {
        let second = match numbers(lines, at + 4) { Ok(v) => v, Err(e) => return Err(e) };
        proof {
            assert(views(lines@)[at + 4] == lines@[at + 4]@);
        }
        if second.len() != 3 {
            return Err(Error::BadLine { what: "GLT numbers", line: at + 5, saw: lines[at + 4].clone() });
        }
        let numbers = [first[0], first[1], first[2], first[3], first[4], second[0], second[1], second[2]];
        assert(numbers@ =~= first@ + second@);
        Ok((Light { on, off, broken, numbers }, at + 5))
    } else {
        Err(Error::BadLine { what: "GLT numbers", line: at + 4, saw: lines[at + 3].clone() })
    }
}

/// A count, then that many five-line records (four in the short form).
pub fn parse(data: &[u8]) -> (r: Result<Vec<Light>>)
    ensures
        match lights_of(data@) {
            Ok(s) => r matches Ok(v) && v@.map_values(|l: Light| light_view(l)) == s,
            Err(f) => r matches Err(e) && refused_as(e, f),
        },
{
    let lines = lines(data);
    let ghost ls = views(lines@);
    let _ = line_count(lines.as_slice());
    proof {
        if lines@.len() > 0 {
            assert(ls[0] == lines@[0]@);
        }
    }
    let c = match integer(lines.as_slice(), 0, "GLT count") {
        Ok(c) => c,
        Err(e) => return Err(e),
    };
    let count: usize = #[verifier::truncate] ((if c < 0 { 0 } else { c }) as usize);
    let mut out: Vec<Light> = Vec::new();
    assert(out@.map_values(|l: Light| light_view(l)) =~= Seq::empty());
    let mut at: usize = 1;
    let mut k: usize = 0;
    while k < count
        invariant
            ls == views(lines@),
            ls == text_lines(data@),
            lines@.len() <= isize::MAX,
            ls.len() > 0,
            parse_int(trim(ls[0])) == Some(c),
            count == glt_count(c),
            k <= count,
            1 <= at <= lines@.len(),
            lights_at(ls, 1, k as nat) == Ok::<(Seq<LightView>, int), LineFault>((out@.map_values(|l: Light| light_view(l)), at as int)),
        decreases count - k,
    {
        let ghost before = out@;
        match light(lines.as_slice(), at) {
            Ok((l, next)) => {
                out.push(l);
                at = next;
                assert(out@.map_values(|l: Light| light_view(l)) =~= before.map_values(|l: Light| light_view(l)).push(light_view(l)));
            },
            Err(e) => {
                proof {
                    assert(lights_at(ls, 1, (k + 1) as nat) is Err);
                    lemma_lights_stay_failed(ls, 1, (k + 1) as nat, count as nat);
                }
                return Err(e);
            },
        }
        k += 1;
    }
    Ok(out)
}

proof fn lemma_lights_stay_failed(ls: Seq<Seq<char>>, at: int, i: nat, n: nat)
    requires
        i <= n,
        lights_at(ls, at, i) is Err,
    ensures
        lights_at(ls, at, n) == lights_at(ls, at, i),
    decreases n - i,
{
    if i < n {
        lemma_lights_stay_failed(ls, at, i, (n - 1) as nat);
    }
}

impl Light {
    /// The three textures, in the order on, off, broken.
    pub fn textures(&self) -> (r: [&str; 3])
        ensures
            r[0]@ == self.on@,
            r[1]@ == self.off@,
            r[2]@ == self.broken@,
    {
        [self.on.as_str(), self.off.as_str(), self.broken.as_str()]
    }
}

} // verus!
