//! `.QKE`: the parts of the world that move.
//!
//! "Quake" is the engine's own word, and the file holds two lists: ground
//! quakes, which move a rectangle of the ground's heightfield, and box
//! quakes, which move one cell's box. A box quake with an up sound and a down
//! sound is a door or a lift.

use vstd::prelude::*;
use crate::text_core::{trim, parse_int};
use crate::formats::text::{lines, views, text_lines, line_count, integer, ints, parse_ints, LineFault, refused_as,
    line_or_blank, line_at, line_or_empty, optional, optional_name};
use crate::formats::{Error, Result};

verus! {

/// One entry of either list: the numbers, then five sound slots.
#[derive(Debug, Clone, PartialEq, Eq)]
pub struct Entry {
    /// First line. 0 for an entry that does nothing.
    pub kind: i64,
    /// Two heights in the terrain's own units: where the piece moves between.
    pub heights: [i64; 2],
    /// A ground quake's rectangle of cells - two corners and a mode - or a
    /// box quake's single cell and its box set.
    pub where_: Vec<i64>,
    /// Four more, `-1` in the first where a ground quake is not watching an
    /// actor.
    pub watch: [i64; 4],
    /// Five, of which the middle three are 16.16: the distances and rates the
    /// piece moves at.
    pub motion: [i64; 5],
    /// Four for a ground quake, five for a box quake.
    pub flags: Vec<i64>,
    /// Up to five sounds. A door names two, going up and going down.
    pub sounds: Vec<Option<String>>,
    /// The number after `!--Additional quake info--`.
    pub extra: i64,
    /// Box entries only: the number and two names after
    /// `@--Box quake switch info--`.
    pub switch: Option<(i64, Vec<Option<String>>)>,
}

#[derive(Debug, Clone, PartialEq, Eq)]
pub struct Quake {
    pub ground: Vec<Entry>,
    pub boxes: Vec<Entry>,
}

pub struct EntryView {
    pub kind: i64,
    pub heights: Seq<i64>,
    pub where_: Seq<i64>,
    pub watch: Seq<i64>,
    pub motion: Seq<i64>,
    pub flags: Seq<i64>,
    pub sounds: Seq<Option<Seq<char>>>,
    pub extra: i64,
    pub switch: Option<(i64, Seq<Option<Seq<char>>>)>,
}

pub open spec fn name_view(n: Option<String>) -> Option<Seq<char>> {
    match n {
        Some(s) => Some(s@),
        None => None,
    }
}

pub open spec fn names_view(v: Seq<Option<String>>) -> Seq<Option<Seq<char>>> {
    v.map_values(|n: Option<String>| name_view(n))
}

pub open spec fn entry_view(e: Entry) -> EntryView {
    EntryView {
        kind: e.kind,
        heights: e.heights@,
        where_: e.where_@,
        watch: e.watch@,
        motion: e.motion@,
        flags: e.flags@,
        sounds: names_view(e.sounds@),
        extra: e.extra,
        switch: match e.switch {
            Some((n, names)) => Some((n, names_view(names@))),
            None => None,
        },
    }
}

pub struct QuakeView {
    pub ground: Seq<EntryView>,
    pub boxes: Seq<EntryView>,
}

// ---------------------------------------------------------------------------
// The format, as values.

/// The whole number on line `at`.
pub open spec fn int_at(ls: Seq<Seq<char>>, at: int, what: &'static str) -> core::result::Result<i64, LineFault> {
    match (if 0 <= at < ls.len() { parse_int(trim(ls[at])) } else { None }) {
        Some(v) => Ok(v),
        None => Err(LineFault { what, line: at + 1, saw: line_or_blank(ls, at) }),
    }
}

/// Exactly `n` comma-separated numbers on line `at`.
pub open spec fn ints_at(ls: Seq<Seq<char>>, at: int, n: nat, what: &'static str) -> core::result::Result<Seq<i64>, LineFault> {
    match (if 0 <= at < ls.len() { parse_ints(ls[at]) } else { None }) {
        Some(v) => if v.len() == n { Ok(v) } else { Err(LineFault { what, line: at + 1, saw: ls[at] }) },
        None => Err(LineFault { what, line: at + 1, saw: line_or_blank(ls, at) }),
    }
}

/// `n` sound slots from `at`, one a line.
pub open spec fn names_at(ls: Seq<Seq<char>>, at: int, n: nat) -> Seq<Option<Seq<char>>> {
    Seq::new(n, |i: int| optional(line_or_blank(ls, at + i)))
}

pub open spec fn marked(ls: Seq<Seq<char>>, at: int, c: char) -> bool {
    0 <= at < ls.len() && ls[at].len() > 0 && ls[at][0] == c
}

/// The numbers of an entry from its banner at `at`: kind, heights, cells,
/// watch, motion and flags, one line each; and the line after them.
pub struct Numbers {
    pub kind: i64,
    pub heights: Seq<i64>,
    pub where_: Seq<i64>,
    pub watch: Seq<i64>,
    pub motion: Seq<i64>,
    pub flags: Seq<i64>,
}

pub open spec fn numbers_at(ls: Seq<Seq<char>>, at: int, box_quake: bool) -> core::result::Result<Numbers, LineFault> {
    match int_at(ls, at + 1, "QKE kind") {
        Err(f) => Err(f),
        Ok(kind) => match ints_at(ls, at + 2, 2, "QKE heights") {
            Err(f) => Err(f),
            Ok(heights) => match ints_at(ls, at + 3, if box_quake { 3 } else { 5 }, "QKE cells") {
                Err(f) => Err(f),
                Ok(where_) => match ints_at(ls, at + 4, 4, "QKE watch") {
                    Err(f) => Err(f),
                    Ok(watch) => match ints_at(ls, at + 5, 5, "QKE motion") {
                        Err(f) => Err(f),
                        Ok(motion) => match ints_at(ls, at + 6, if box_quake { 5 } else { 4 }, "QKE flags") {
                            Err(f) => Err(f),
                            Ok(flags) => Ok(Numbers { kind, heights, where_, watch, motion, flags }),
                        },
                    },
                },
            },
        },
    }
}

/// An entry from its banner at `at`: the numbers, five sounds, a banner and
/// the extra number, and for a box quake a switch block where the next line
/// is marked `@`.
pub open spec fn entry_at(ls: Seq<Seq<char>>, at: int, box_quake: bool) -> core::result::Result<(EntryView, int), LineFault> {
    match numbers_at(ls, at, box_quake) {
        Err(f) => Err(f),
        Ok(n) => match int_at(ls, at + 13, "QKE extra") {
            Err(f) => Err(f),
            Ok(extra) => {
                let e = EntryView {
                    kind: n.kind,
                    heights: n.heights,
                    where_: n.where_,
                    watch: n.watch,
                    motion: n.motion,
                    flags: n.flags,
                    sounds: names_at(ls, at + 7, 5),
                    extra,
                    switch: None,
                };
                if box_quake && marked(ls, at + 14, '@') {
                    match int_at(ls, at + 15, "QKE switch") {
                        Err(f) => Err(f),
                        Ok(s) => Ok((EntryView { switch: Some((s, names_at(ls, at + 16, 2))), ..e }, at + 18)),
                    }
                } else {
                    Ok((e, at + 14))
                }
            },
        },
    }
}

pub open spec fn entries_at(ls: Seq<Seq<char>>, at: int, n: nat, box_quake: bool) -> core::result::Result<(Seq<EntryView>, int), LineFault>
    decreases n,
{
    if n == 0 {
        Ok((Seq::empty(), at))
    } else {
        match entries_at(ls, at, (n - 1) as nat, box_quake) {
            Err(f) => Err(f),
            Ok((s, next)) => match entry_at(ls, next, box_quake) {
                Err(f) => Err(f),
                Ok((e, after)) => Ok((s.push(e), after)),
            },
        }
    }
}

/// A count floored at zero, as a `usize` holds it.
pub open spec fn count_of(c: i64) -> usize {
    (if c < 0 { 0 } else { c }) as usize
}

/// A quake file: a banner, the ground count and entries, a banner, the box
/// count and entries.
pub open spec fn quake_of(data: Seq<u8>) -> core::result::Result<QuakeView, LineFault> {
    let ls = text_lines(data);
    match int_at(ls, 1, "QKE ground count") {
        Err(f) => Err(f),
        Ok(g) => match entries_at(ls, 2, count_of(g) as nat, false) {
            Err(f) => Err(f),
            Ok((ground, at)) => match int_at(ls, at + 1, "QKE box count") {
                Err(f) => Err(f),
                Ok(b) => match entries_at(ls, at + 2, count_of(b) as nat, true) {
                    Err(f) => Err(f),
                    Ok((boxes, _)) => Ok(QuakeView { ground, boxes }),
                },
            },
        },
    }
}

// ---------------------------------------------------------------------------
// The reader.

fn whole(lines: &[String], at: usize, what: &'static str) -> (r: Result<i64>)
    requires
        at < usize::MAX,
    ensures
        match int_at(views(lines@), at as int, what) {
            Ok(v) => r == Ok::<i64, Error>(v) && at < lines@.len(),
            Err(f) => r matches Err(e) && refused_as(e, f),
        },
{
    proof {
        if at < lines@.len() {
            assert(views(lines@)[at as int] == lines@[at as int]@);
        }
    }
    integer(lines, at, what)
}

fn ints_n(lines: &[String], at: usize, n: usize, what: &'static str) -> (r: Result<Vec<i64>>)
    requires
        at < usize::MAX,
    ensures
        match ints_at(views(lines@), at as int, n as nat, what) {
            Ok(v) => r matches Ok(w) && w@ == v && at < lines@.len(),
            Err(f) => r matches Err(e) && refused_as(e, f),
        },
{
    proof {
        if at < lines@.len() {
            assert(views(lines@)[at as int] == lines@[at as int]@);
        }
    }
    let v = match ints(lines, at, what) {
        Ok(v) => v,
        Err(e) => return Err(e),
    };
    if v.len() != n {
        return Err(Error::BadLine { what, line: at + 1, saw: lines[at].clone() });
    }
    Ok(v)
}

fn names(lines: &[String], at: usize, n: usize) -> (r: Vec<Option<String>>)
    requires
        at + n <= usize::MAX,
    ensures
        names_view(r@) == names_at(views(lines@), at as int, n as nat),
{
    let mut out: Vec<Option<String>> = Vec::new();
    let mut i: usize = 0;
    while i < n
        invariant
            i <= n,
            at + n <= usize::MAX,
            out@.len() == i,
            forall|k: int| 0 <= k < i ==> #[trigger] name_view(out@[k]) == optional(line_or_blank(views(lines@), at + k)),
        decreases n - i,
    {
        let line = line_at(lines, at + i);
        proof {
            if at + i < lines@.len() {
                assert(views(lines@)[at + i] == lines@[at + i]@);
            }
        }
        let name = match optional_name(line.as_str()) {
            Some(s) => Some(s.to_owned()),
            None => None,
        };
        out.push(name);
        i += 1;
    }
    assert(names_view(out@) =~= names_at(views(lines@), at as int, n as nat));
    out
}

fn entry(lines: &[String], at: usize, box_quake: bool) -> (r: Result<(Entry, usize)>)
    requires
        at <= lines@.len() + 2,
        lines@.len() <= isize::MAX,
    ensures
        match entry_at(views(lines@), at as int, box_quake) {
            Ok((v, next)) => r matches Ok((e, n)) && entry_view(e) == v && n == next && next <= lines@.len() + 2,
            Err(f) => r matches Err(e) && refused_as(e, f),
        },
{
    let ghost ls = views(lines@);
    let kind = match whole(lines, at + 1, "QKE kind") { Ok(v) => v, Err(e) => return Err(e) };
    let heights = match ints_n(lines, at + 2, 2, "QKE heights") { Ok(v) => v, Err(e) => return Err(e) };
    let where_ = match ints_n(lines, at + 3, if box_quake { 3 } else { 5 }, "QKE cells") { Ok(v) => v, Err(e) => return Err(e) };
    let watch = match ints_n(lines, at + 4, 4, "QKE watch") { Ok(v) => v, Err(e) => return Err(e) };
    let motion = match ints_n(lines, at + 5, 5, "QKE motion") { Ok(v) => v, Err(e) => return Err(e) };
    let flags = match ints_n(lines, at + 6, if box_quake { 5 } else { 4 }, "QKE flags") { Ok(v) => v, Err(e) => return Err(e) };
    let sounds = names(lines, at + 7, 5);
    let extra = match whole(lines, at + 13, "QKE extra") { Ok(v) => v, Err(e) => return Err(e) };
    let heights_a = [heights[0], heights[1]];
    let watch_a = [watch[0], watch[1], watch[2], watch[3]];
    let motion_a = [motion[0], motion[1], motion[2], motion[3], motion[4]];
    assert(heights_a@ =~= heights@);
    assert(watch_a@ =~= watch@);
    assert(motion_a@ =~= motion@);
    let marked_at = if at + 14 < lines.len() {
        let l = crate::bytes::chars_of(lines[at + 14].as_str());
        proof {
            assert(ls[at + 14] == lines@[at + 14]@);
        }
        l.len() > 0 && l[0] == '@'
    } else {
        false
    };
    if box_quake && marked_at {
        let s = match whole(lines, at + 15, "QKE switch") { Ok(v) => v, Err(e) => return Err(e) };
        let switch_names = names(lines, at + 16, 2);
        let e = Entry {
            kind,
            heights: heights_a,
            where_,
            watch: watch_a,
            motion: motion_a,
            flags,
            sounds,
            extra,
            switch: Some((s, switch_names)),
        };
        Ok((e, at + 18))
    } else {
        let e = Entry {
            kind,
            heights: heights_a,
            where_,
            watch: watch_a,
            motion: motion_a,
            flags,
            sounds,
            extra,
            switch: None,
        };
        Ok((e, at + 14))
    }
}

fn entries(lines: &[String], at: usize, n: usize, box_quake: bool) -> (r: Result<(Vec<Entry>, usize)>)
    requires
        at <= lines@.len() + 2,
        lines@.len() <= isize::MAX,
    ensures
        match entries_at(views(lines@), at as int, n as nat, box_quake) {
            Ok((v, next)) => r matches Ok((w, m)) && w@.map_values(|e: Entry| entry_view(e)) == v && m == next
                && next <= lines@.len() + 2,
            Err(f) => r matches Err(e) && refused_as(e, f),
        },
{
    let ghost ls = views(lines@);
    let mut out: Vec<Entry> = Vec::new();
    assert(out@.map_values(|e: Entry| entry_view(e)) =~= Seq::empty());
    let mut a = at;
    let mut k: usize = 0;
    while k < n
        invariant
            ls == views(lines@),
            lines@.len() <= isize::MAX,
            k <= n,
            a <= lines@.len() + 2,
            entries_at(ls, at as int, k as nat, box_quake) == Ok::<(Seq<EntryView>, int), LineFault>((out@.map_values(|e: Entry| entry_view(e)), a as int)),
        decreases n - k,
    {
        let ghost before = out@;
        match entry(lines, a, box_quake) {
            Ok((e, next)) => {
                out.push(e);
                a = next;
                assert(out@.map_values(|e: Entry| entry_view(e)) =~= before.map_values(|e: Entry| entry_view(e)).push(entry_view(e)));
            },
            Err(e) => {
                proof {
                    assert(entries_at(ls, at as int, (k + 1) as nat, box_quake) is Err);
                    lemma_entries_stay_failed(ls, at as int, (k + 1) as nat, n as nat, box_quake);
                }
                return Err(e);
            },
        }
        k += 1;
    }
    Ok((out, a))
}

proof fn lemma_entries_stay_failed(ls: Seq<Seq<char>>, at: int, i: nat, n: nat, box_quake: bool)
    requires
        i <= n,
        entries_at(ls, at, i, box_quake) is Err,
    ensures
        entries_at(ls, at, n, box_quake) == entries_at(ls, at, i, box_quake),
    decreases n - i,
{
    if i < n {
        lemma_entries_stay_failed(ls, at, i, (n - 1) as nat, box_quake);
    }
}

fn count(c: i64) -> (r: usize)
    ensures
        r == count_of(c),
{
    #[verifier::truncate] ((if c < 0 { 0 } else { c }) as usize)
}

/// A count, that many ground entries, a count, that many box entries; each
/// count after a banner line.
pub fn parse(data: &[u8]) -> (r: Result<Quake>)
    ensures
        match quake_of(data@) {
            Ok(q) => r matches Ok(v) && v.ground@.map_values(|e: Entry| entry_view(e)) == q.ground
                && v.boxes@.map_values(|e: Entry| entry_view(e)) == q.boxes,
            Err(f) => r matches Err(e) && refused_as(e, f),
        },
{
    let lines = lines(data);
    let _ = line_count(lines.as_slice());
    let g = match whole(lines.as_slice(), 1, "QKE ground count") { Ok(v) => v, Err(e) => return Err(e) };
    let (ground, at) = match entries(lines.as_slice(), 2, count(g), false) { Ok(x) => x, Err(e) => return Err(e) };
    let b = match whole(lines.as_slice(), at + 1, "QKE box count") { Ok(v) => v, Err(e) => return Err(e) };
    let (boxes, _) = match entries(lines.as_slice(), at + 2, count(b), true) { Ok(x) => x, Err(e) => return Err(e) };
    Ok(Quake { ground, boxes })
}

/// The sounds an entry names, in order, without the empty slots.
pub open spec fn named(sounds: Seq<Option<Seq<char>>>) -> Seq<Seq<char>>
    decreases sounds.len(),
{
    if sounds.len() == 0 {
        Seq::empty()
    } else {
        let rest = named(sounds.drop_last());
        match sounds.last() {
            Some(s) => rest.push(s),
            None => rest,
        }
    }
}

impl Entry {
    /// Whether the entry does anything.
    pub fn live(&self) -> (r: bool)
        ensures
            r == (self.kind != 0),
    {
        self.kind != 0
    }

    /// The sounds it names, in order, without the empty slots.
    pub fn named_sounds(&self) -> (r: Vec<&str>)
        ensures
            r@.map_values(|s: &str| s@) == named(names_view(self.sounds@)),
    {
        let mut out: Vec<&str> = Vec::new();
        let mut i: usize = 0;
        while i < self.sounds.len()
            invariant
                i <= self.sounds@.len(),
                out@.map_values(|s: &str| s@) == named(names_view(self.sounds@.take(i as int))),
            decreases self.sounds@.len() - i,
        {
            let ghost before = out@;
            assert(names_view(self.sounds@.take(i + 1)).drop_last() =~= names_view(self.sounds@.take(i as int)));
            match &self.sounds[i] {
                Some(s) => {
                    out.push(s.as_str());
                    assert(out@.map_values(|s: &str| s@) =~= before.map_values(|s: &str| s@).push(s@));
                },
                None => {},
            }
            i += 1;
        }
        assert(self.sounds@.take(i as int) =~= self.sounds@);
        out
    }
}

} // verus!
