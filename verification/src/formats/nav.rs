//! `.NAV`: a level's mission, as the list of navigation points the player is
//! sent to in turn.
//!
//! The reader is `0x470bd0`. It is `fscanf` driven, and a block that starts
//! with `!`, `@` or `;` is optional: the loader peeks at the first character
//! of the next line and fills in a default when the block is absent.

use vstd::prelude::*;
use crate::bytes::{chars_of, string_of};
use crate::text_core::{trim, first_word, first_word_chars, parse_int};
use crate::formats::text::{lines, line_count, integer, ints, line_at, line_or_empty, views, text_lines, parse_ints, optional, optional_name, line_int};
use crate::formats::{Error, Result};

verus! {

/// What a navigation point asks of the player. The number is the record's
/// first line.
#[derive(Debug, Clone, Copy, PartialEq, Eq, Hash)]
pub enum Kind {
    /// 0: destroy every placement in the list. "Destroy Target".
    Destroy,
    /// 1: fly underground within 40 units of it. "Enter Tunnel".
    EnterTunnel,
    /// 2: fly within 40 units of it. "Fly to Checkpoint".
    Checkpoint,
    /// 3: fly into it to leave the level. "Fly to Jump Zone".
    JumpZone,
    /// 4: fly above ground within 40 units of it. "Exit Tunnel".
    ExitTunnel,
    /// 5: a boss, with its own music and, optionally, placements that keep it
    /// whole while they stand.
    Guardian,
    /// 6: where the player starts, and facing which way.
    Start,
    /// 7: reached once every required point before it is done.
    Sync,
    /// 8: drop a rescue beacon within 8 units of it.
    DropBeacon,
    /// 9: the end of the list.
    End,
    /// 10: fly within 30 units of it to be moved somewhere else.
    Warp,
    /// 11: a beacon the player dropped. Never in a file.
    Beacon,
    /// 12: see a placement to where it is going. "Escort Ship".
    Escort,
    /// 13: collect a pod. "Pick up Message Pod".
    MessagePod,
    /// 14: destroy one placement. "Destroy Target".
    Kill,
}

/// The kind a file's number names.
pub open spec fn kind_of(code: int) -> Option<Kind> {
    if code == 0 { Some(Kind::Destroy) }
    else if code == 1 { Some(Kind::EnterTunnel) }
    else if code == 2 { Some(Kind::Checkpoint) }
    else if code == 3 { Some(Kind::JumpZone) }
    else if code == 4 { Some(Kind::ExitTunnel) }
    else if code == 5 { Some(Kind::Guardian) }
    else if code == 6 { Some(Kind::Start) }
    else if code == 7 { Some(Kind::Sync) }
    else if code == 8 { Some(Kind::DropBeacon) }
    else if code == 9 { Some(Kind::End) }
    else if code == 10 { Some(Kind::Warp) }
    else if code == 11 { Some(Kind::Beacon) }
    else if code == 12 { Some(Kind::Escort) }
    else if code == 13 { Some(Kind::MessagePod) }
    else if code == 14 { Some(Kind::Kill) }
    else { None }
}

/// The number a kind is written as.
pub open spec fn code_of(k: Kind) -> i64 {
    match k {
        Kind::Destroy => 0,
        Kind::EnterTunnel => 1,
        Kind::Checkpoint => 2,
        Kind::JumpZone => 3,
        Kind::ExitTunnel => 4,
        Kind::Guardian => 5,
        Kind::Start => 6,
        Kind::Sync => 7,
        Kind::DropBeacon => 8,
        Kind::End => 9,
        Kind::Warp => 10,
        Kind::Beacon => 11,
        Kind::Escort => 12,
        Kind::MessagePod => 13,
        Kind::Kill => 14,
    }
}

/// The HUD's three letters for a kind.
pub open spec fn abbreviation_of(k: Kind) -> Option<Seq<char>> {
    match k {
        Kind::Destroy | Kind::Kill => Some(seq!['T', 'G', 'T']),
        Kind::EnterTunnel => Some(seq!['T', 'U', 'N']),
        Kind::Checkpoint => Some(seq!['C', 'H', 'K']),
        Kind::JumpZone => Some(seq!['J', 'M', 'P']),
        Kind::ExitTunnel => Some(seq!['E', 'X', 'T']),
        Kind::Guardian => Some(seq!['G', 'R', 'D']),
        Kind::Start => Some(seq!['S', 'T', 'R']),
        Kind::DropBeacon => Some(seq!['R', 'E', 'S']),
        Kind::Beacon => Some(seq!['B', 'C', 'N']),
        Kind::Escort => Some(seq!['E', 'S', 'T']),
        Kind::MessagePod => Some(seq!['M', 'S', 'G']),
        Kind::Sync | Kind::End | Kind::Warp => None,
    }
}

impl Kind {
    /// Every kind, in the order of its number.
    pub fn all() -> (r: [Kind; 15])
        ensures
            forall|i: int| 0 <= i < 15 ==> Some(#[trigger] r@[i]) == kind_of(i),
    {
        [
            Kind::Destroy, Kind::EnterTunnel, Kind::Checkpoint, Kind::JumpZone, Kind::ExitTunnel,
            Kind::Guardian, Kind::Start, Kind::Sync, Kind::DropBeacon, Kind::End, Kind::Warp,
            Kind::Beacon, Kind::Escort, Kind::MessagePod, Kind::Kill,
        ]
    }

    /// The number in the file. The loader stops with "Bad nav type!" on
    /// anything above 14.
    pub fn from_code(code: i64) -> (r: Option<Kind>)
        ensures
            r == kind_of(code as int),
    {
        if code < 0 || code > 14 {
            return None;
        }
        let all = Kind::all();
        Some(all[code as usize])
    }

    pub fn code(self) -> (r: i64)
        ensures
            r == code_of(self),
            kind_of(r as int) == Some(self),
    {
        match self {
            Kind::Destroy => 0,
            Kind::EnterTunnel => 1,
            Kind::Checkpoint => 2,
            Kind::JumpZone => 3,
            Kind::ExitTunnel => 4,
            Kind::Guardian => 5,
            Kind::Start => 6,
            Kind::Sync => 7,
            Kind::DropBeacon => 8,
            Kind::End => 9,
            Kind::Warp => 10,
            Kind::Beacon => 11,
            Kind::Escort => 12,
            Kind::MessagePod => 13,
            Kind::Kill => 14,
        }
    }

    /// The three letters the HUD's objective box shows for this kind - the
    /// jump table at `0x44ead0` - or nothing for the four that fall through.
    pub fn abbreviation(self) -> (r: Option<&'static str>)
        ensures
            match abbreviation_of(self) {
                Some(a) => r matches Some(s) && s@ == a,
                None => r is None,
            },
    {
        proof {
            reveal_strlit("TGT");
            reveal_strlit("TUN");
            reveal_strlit("CHK");
            reveal_strlit("JMP");
            reveal_strlit("EXT");
            reveal_strlit("GRD");
            reveal_strlit("STR");
            reveal_strlit("RES");
            reveal_strlit("BCN");
            reveal_strlit("EST");
            reveal_strlit("MSG");
        }
        match self {
            Kind::Destroy | Kind::Kill => Some("TGT"),
            Kind::EnterTunnel => Some("TUN"),
            Kind::Checkpoint => Some("CHK"),
            Kind::JumpZone => Some("JMP"),
            Kind::ExitTunnel => Some("EXT"),
            Kind::Guardian => Some("GRD"),
            Kind::Start => Some("STR"),
            Kind::DropBeacon => Some("RES"),
            Kind::Beacon => Some("BCN"),
            Kind::Escort => Some("EST"),
            Kind::MessagePod => Some("MSG"),
            Kind::Sync | Kind::End | Kind::Warp => None,
        }
    }
}

/// What follows the display text, which depends on the kind.
#[derive(Debug, Clone, PartialEq, Eq)]
pub enum Data {
    /// Nothing follows the text.
    Nothing,
    /// [`Kind::Destroy`]: a count, then that many placement indices.
    Targets(Vec<usize>),
    /// [`Kind::Guardian`]: the boss's placement, the music module that plays
    /// while it is the current point, and the placements that shield it.
    Guardian { actor: usize, music: String, shields: Vec<usize> },
    /// [`Kind::Start`]: pitch, roll and heading, in the 16-bit circle.
    Start { angles: [i32; 3] },
    /// [`Kind::Warp`]: where to, and a name the engine reads and does not use.
    Warp { to: [i32; 3], name: String },
    /// [`Kind::Escort`] and [`Kind::Kill`]: a placement index.
    Actor(usize),
    /// [`Kind::MessagePod`]: an index into the level's pods.
    Pod(usize),
}

#[derive(Debug, Clone, PartialEq, Eq)]
pub struct Nav {
    pub kind: Kind,
    /// 16.16 world coordinates.
    pub position: [i32; 3],
    /// 0 is a required point and 1 an optional one; without the block it is 1.
    pub priority: i32,
    /// A time limit in 16.16 seconds, 0 for none.
    pub time: i32,
    /// Played when the point is done.
    pub completion_sound: Option<String>,
    /// Played once, the first time the player comes within 80 units.
    pub proximity_sound: Option<String>,
    /// The line shown for the objective, at most 78 characters.
    pub text: String,
    pub data: Data,
}

impl Nav {
    pub fn required(&self) -> (r: bool)
        ensures
            r == (self.priority == 0),
    {
        self.priority == 0
    }
}

// ---------------------------------------------------------------------------
// What a record is, as a function of the file's lines.

pub enum DataView {
    Nothing,
    Targets(Seq<usize>),
    Guardian { actor: usize, music: Seq<char>, shields: Seq<usize> },
    Start { angles: [i32; 3] },
    Warp { to: [i32; 3], name: Seq<char> },
    Actor(usize),
    Pod(usize),
}

pub struct NavView {
    pub kind: Kind,
    pub position: [i32; 3],
    pub priority: i32,
    pub time: i32,
    pub completion_sound: Option<Seq<char>>,
    pub proximity_sound: Option<Seq<char>>,
    pub text: Seq<char>,
    pub data: DataView,
}

pub open spec fn opt_view(o: Option<String>) -> Option<Seq<char>> {
    match o {
        Some(s) => Some(s@),
        None => None,
    }
}

pub open spec fn data_view(d: Data) -> DataView {
    match d {
        Data::Nothing => DataView::Nothing,
        Data::Targets(v) => DataView::Targets(v@),
        Data::Guardian { actor, music, shields } => DataView::Guardian { actor, music: music@, shields: shields@ },
        Data::Start { angles } => DataView::Start { angles },
        Data::Warp { to, name } => DataView::Warp { to, name: name@ },
        Data::Actor(a) => DataView::Actor(a),
        Data::Pod(p) => DataView::Pod(p),
    }
}

pub open spec fn nav_view(n: Nav) -> NavView {
    NavView {
        kind: n.kind,
        position: n.position,
        priority: n.priority,
        time: n.time,
        completion_sound: opt_view(n.completion_sound),
        proximity_sound: opt_view(n.proximity_sound),
        text: n.text@,
        data: data_view(n.data),
    }
}

pub open spec fn starts_with(ls: Seq<Seq<char>>, at: int, c: char) -> bool {
    0 <= at < ls.len() && ls[at].len() > 0 && ls[at][0] == c
}

pub open spec fn int_in(ls: Seq<Seq<char>>, at: int) -> Option<i64> {
    if 0 <= at < ls.len() { parse_int(trim(ls[at])) } else { None }
}

/// A placement or pod index: a whole number a `usize` holds.
pub open spec fn index_in(ls: Seq<Seq<char>>, at: int) -> Option<usize> {
    match int_in(ls, at) {
        Some(v) => if 0 <= v <= usize::MAX { Some(v as usize) } else { None },
        None => None,
    }
}

/// Three comma-separated numbers, each taken as an `i32`.
pub open spec fn triple_in(ls: Seq<Seq<char>>, at: int) -> Option<[i32; 3]> {
    if 0 <= at < ls.len() {
        match parse_ints(ls[at]) {
            Some(v) => if v.len() == 3 { Some([v[0] as i32, v[1] as i32, v[2] as i32]) } else { None },
            None => None,
        }
    } else {
        None
    }
}

pub open spec fn token_in(ls: Seq<Seq<char>>, at: int) -> Option<Seq<char>> {
    if 0 <= at < ls.len() { first_word(ls[at]) } else { None }
}

/// `n` indices, one a line from `start`; the first line that is not one
/// when one is not.
pub open spec fn indices_in(ls: Seq<Seq<char>>, start: int, n: nat, what: Seq<char>) -> core::result::Result<Seq<usize>, (int, Seq<char>)>
    decreases n,
{
    if n == 0 {
        Ok(Seq::empty())
    } else {
        match indices_in(ls, start, (n - 1) as nat, what) {
            Err(f) => Err(f),
            Ok(s) => match index_in(ls, start + n - 1) {
                Some(v) => Ok(s.push(v)),
                None => Err((start + n - 1, what)),
            },
        }
    }
}

/// The display text: the line, cut to 78 characters when it is 79 bytes or
/// more.
pub open spec fn display_text(line: Seq<char>) -> Seq<char> {
    if (vstd::utf8::encode_utf8(line).len() as usize) >= 79 && line.len() > 78 { line.take(78) } else { line }
}

/// One record from line `at`: the navigation point and the line after it,
/// or the line the reader stopped at.
#[verifier::opaque]
pub open spec fn nav_record(ls: Seq<Seq<char>>, at: int) -> core::result::Result<(NavView, int), (int, Seq<char>)> {
    match int_in(ls, at) {
        None => Err((at, "NAV type"@)),
        Some(code) => match kind_of(code as int) {
            None => Err((at, "NAV type"@)),
            Some(kind) => match triple_in(ls, at + 1) {
                None => Err((at + 1, "NAV position"@)),
                Some(position) => nav_after_position(ls, at + 2, kind, position),
            },
        },
    }
}

#[verifier::opaque]
pub open spec fn nav_after_position(ls: Seq<Seq<char>>, at: int, kind: Kind, position: [i32; 3]) -> core::result::Result<(NavView, int), (int, Seq<char>)> {
    let pt: core::result::Result<(i32, i32, int), (int, Seq<char>)> = if starts_with(ls, at, '!') {
        if 0 <= at + 1 < ls.len() {
            match parse_ints(ls[at + 1]) {
                Some(v) => if v.len() == 2 { Ok((v[0] as i32, v[1] as i32, at + 2)) } else { Err((at + 1, "NAV priority,time"@)) },
                None => Err((at + 1, "NAV priority,time"@)),
            }
        } else {
            Err((at + 1, "NAV priority,time"@))
        }
    } else {
        Ok((1i32, 0i32, at))
    };
    match pt {
        Err(f) => Err(f),
        Ok((priority, time, at1)) => {
            let cs: core::result::Result<(Option<Seq<char>>, int), (int, Seq<char>)> = if starts_with(ls, at1, '@') {
                match token_in(ls, at1 + 1) {
                    Some(t) => Ok((optional(t), at1 + 3)),
                    None => Err((at1 + 1, "NAV name"@)),
                }
            } else {
                Ok((None, at1))
            };
            match cs {
                Err(f) => Err(f),
                Ok((completion_sound, at2)) => {
                    let ps: core::result::Result<(Option<Seq<char>>, int), (int, Seq<char>)> = if starts_with(ls, at2, ';') {
                        match token_in(ls, at2 + 1) {
                            Some(t) => Ok((optional(t), at2 + 2)),
                            None => Err((at2 + 1, "NAV name"@)),
                        }
                    } else {
                        Ok((None, at2))
                    };
                    match ps {
                        Err(f) => Err(f),
                        Ok((proximity_sound, at3)) => {
                            let text = display_text(line_or_empty_v(ls, at3));
                            match nav_data(ls, at3 + 1, kind) {
                                Err(f) => Err(f),
                                Ok((data, at4)) => {
                                    let next = if starts_with(ls, at4, '-') { at4 + 1 } else { at4 };
                                    Ok((NavView { kind, position, priority, time, completion_sound, proximity_sound, text, data }, next))
                                },
                            }
                        },
                    }
                },
            }
        },
    }
}

pub open spec fn line_or_empty_v(ls: Seq<Seq<char>>, at: int) -> Seq<char> {
    if 0 <= at < ls.len() { ls[at] } else { Seq::empty() }
}

pub open spec fn nav_data(ls: Seq<Seq<char>>, at: int, kind: Kind) -> core::result::Result<(DataView, int), (int, Seq<char>)> {
    match kind {
        Kind::Destroy => match index_in(ls, at) {
            None => Err((at, "NAV target count"@)),
            Some(n) => match indices_in(ls, at + 1, n as nat, "NAV target"@) {
                Err(f) => Err(f),
                Ok(targets) => Ok((DataView::Targets(targets), at + 1 + n)),
            },
        },
        Kind::Guardian => match index_in(ls, at) {
            None => Err((at, "NAV guardian"@)),
            Some(actor) => match token_in(ls, at + 1) {
                None => Err((at + 1, "NAV name"@)),
                Some(music) => {
                    let b = at + 3;
                    if starts_with(ls, b, '!') {
                        match index_in(ls, b + 1) {
                            None => Err((b + 1, "NAV shield count"@)),
                            Some(n) => match indices_in(ls, b + 2, n as nat, "NAV shield"@) {
                                Err(f) => Err(f),
                                Ok(shields) => Ok((DataView::Guardian { actor, music, shields }, b + 2 + n)),
                            },
                        }
                    } else {
                        Ok((DataView::Guardian { actor, music, shields: Seq::empty() }, b))
                    }
                },
            },
        },
        Kind::Start => match triple_in(ls, at) {
            None => Err((at, "NAV start angles"@)),
            Some(angles) => Ok((DataView::Start { angles }, at + 1)),
        },
        Kind::Warp => match triple_in(ls, at) {
            None => Err((at, "NAV warp"@)),
            Some(to) => match token_in(ls, at + 1) {
                None => Err((at + 1, "NAV name"@)),
                Some(name) => Ok((DataView::Warp { to, name }, at + 2)),
            },
        },
        Kind::Escort | Kind::Kill => match index_in(ls, at) {
            None => Err((at, "NAV actor"@)),
            Some(a) => Ok((DataView::Actor(a), at + 1)),
        },
        Kind::MessagePod => match index_in(ls, at) {
            None => Err((at, "NAV pod"@)),
            Some(p) => Ok((DataView::Pod(p), at + 1)),
        },
        _ => Ok((DataView::Nothing, at)),
    }
}

/// `n` records from line `at`.
pub open spec fn nav_records(ls: Seq<Seq<char>>, at: int, n: nat) -> core::result::Result<(Seq<NavView>, int), (int, Seq<char>)>
    decreases n,
{
    if n == 0 {
        Ok((Seq::empty(), at))
    } else {
        match nav_records(ls, at, (n - 1) as nat) {
            Err(f) => Err(f),
            Ok((s, next)) => match nav_record(ls, next) {
                Err(f) => Err(f),
                Ok((nav, after)) => Ok((s.push(nav), after)),
            },
        }
    }
}

/// A whole file: the count on the first line (none when it is negative),
/// then that many records; or the line the reader stopped at.
pub open spec fn navs_of(data: Seq<u8>) -> core::result::Result<Seq<NavView>, (int, Seq<char>)> {
    let ls = text_lines(data);
    match int_in(ls, 0) {
        None => Err((0, "NAV count"@)),
        Some(count) => match nav_records(ls, 1, if count < 0 { 0 } else { count as nat }) {
            Err(f) => Err(f),
            Ok((s, _)) => Ok(s),
        },
    }
}

// ---------------------------------------------------------------------------
// The reader.

/// The refusal for line `at`: what was being read, the line's number and
/// what it held.
pub open spec fn refused_at(e: Error, ls: Seq<Seq<char>>, at: int, what: Seq<char>) -> bool {
    e matches Error::BadLine { what: w, line, saw } && w@ == what && line == at + 1 && saw@ == line_or_empty_v(ls, at)
}

fn starts(lines: &[String], at: usize, c: char) -> (r: bool)
    ensures
        r == starts_with(views(lines@), at as int, c),
{
    if at < lines.len() {
        let l = chars_of(lines[at].as_str());
        proof {
            assert(views(lines@)[at as int] == lines@[at as int]@);
        }
        l.len() > 0 && l[0] == c
    } else {
        false
    }
}

/// `%s` reads up to the first blank.
fn token(lines: &[String], at: usize) -> (r: Result<String>)
    requires
        at < usize::MAX,
    ensures
        match token_in(views(lines@), at as int) {
            Some(t) => r matches Ok(s) && s@ == t,
            None => r matches Err(e) && refused_at(e, views(lines@), at as int, "NAV name"@),
        },
{
    if at < lines.len() {
        let l = chars_of(lines[at].as_str());
        proof {
            assert(views(lines@)[at as int] == lines@[at as int]@);
        }
        if let Some(w) = first_word_chars(l.as_slice()) {
            return Ok(string_of(w.as_slice()));
        }
    }
    Err(Error::BadLine { what: "NAV name", line: at + 1, saw: line_at(lines, at) })
}

fn index(lines: &[String], at: usize, what: &'static str) -> (r: Result<usize>)
    requires
        at < usize::MAX,
    ensures
        match index_in(views(lines@), at as int) {
            Some(v) => r == Ok::<usize, Error>(v),
            None => r matches Err(e) && refused_at(e, views(lines@), at as int, what@),
        },
{
    proof {
        if at < lines@.len() {
            assert(views(lines@)[at as int] == lines@[at as int]@);
        }
    }
    match integer(lines, at, what) {
        Ok(v) => {
            if v >= 0 && v as u64 <= usize::MAX as u64 {
                Ok(v as usize)
            } else {
                Err(Error::BadLine { what, line: at + 1, saw: lines[at].clone() })
            }
        },
        Err(e) => Err(e),
    }
}

fn triple(lines: &[String], at: usize, what: &'static str) -> (r: Result<[i32; 3]>)
    requires
        at < usize::MAX,
    ensures
        match triple_in(views(lines@), at as int) {
            Some(t) => r == Ok::<[i32; 3], Error>(t),
            None => r matches Err(e) && refused_at(e, views(lines@), at as int, what@),
        },
{
    proof {
        if at < lines@.len() {
            assert(views(lines@)[at as int] == lines@[at as int]@);
        }
    }
    match ints(lines, at, what) {
        Ok(v) => {
            if v.len() == 3 {
                Ok([#[verifier::truncate] (v[0] as i32), #[verifier::truncate] (v[1] as i32), #[verifier::truncate] (v[2] as i32)])
            } else {
                Err(Error::BadLine { what, line: at + 1, saw: lines[at].clone() })
            }
        },
        Err(e) => Err(e),
    }
}

/// `n` indices, one a line from `start`.
fn indices(lines: &[String], start: usize, n: usize, what: &'static str) -> (r: Result<Vec<usize>>)
    requires
        start <= lines@.len() + 3,
        lines@.len() <= isize::MAX,
    ensures
        match indices_in(views(lines@), start as int, n as nat, what@) {
            Ok(s) => r matches Ok(v) && v@ == s,
            Err(f) => r matches Err(e) && refused_at(e, views(lines@), f.0, f.1),
        },
{
    let mut out: Vec<usize> = Vec::new();
    let mut i: usize = 0;
    while i < n
        invariant
            i <= n,
            start <= lines@.len() + 3,
            lines@.len() <= isize::MAX,
            start + i <= lines@.len() + 3,
            indices_in(views(lines@), start as int, i as nat, what@) == Ok::<Seq<usize>, (int, Seq<char>)>(out@),
        decreases n - i,
    {
        let v = match index(lines, start + i, what) {
            Ok(v) => v,
            Err(e) => {
                proof {
                    lemma_indices_stay_failed(views(lines@), start as int, (i + 1) as nat, n as nat, what@);
                }
                return Err(e);
            },
        };
        out.push(v);
        proof {
            assert(index_in(views(lines@), start + i) is Some);
            // A line that holds an index exists.
            assert(start + i < lines@.len());
        }
        i += 1;
    }
    Ok(out)
}

/// Once a run of indices fails, a longer run fails at the same line.
proof fn lemma_indices_stay_failed(ls: Seq<Seq<char>>, start: int, i: nat, n: nat, what: Seq<char>)
    requires
        i <= n,
        indices_in(ls, start, i, what) is Err,
    ensures
        indices_in(ls, start, n, what) == indices_in(ls, start, i, what),
    decreases n - i,
{
    if i < n {
        lemma_indices_stay_failed(ls, start, i, (n - 1) as nat, what);
    }
}

/// The count on the first line, then that many records, each ending with a
/// line of dashes.
pub fn navs(data: &[u8]) -> (r: Result<Vec<Nav>>)
    ensures
        match navs_of(data@) {
            Ok(s) => r matches Ok(v) && v@.map_values(|n: Nav| nav_view(n)) == s,
            Err(f) => r matches Err(e) && refused_at(e, text_lines(data@), f.0, f.1),
        },
{
    let lines = lines(data);
    let ghost ls = views(lines@);
    let total = line_count(lines.as_slice());
    let count = match integer(lines.as_slice(), 0, "NAV count") {
        Ok(v) => v,
        Err(e) => {
            proof {
                if lines@.len() > 0 {
                    assert(ls[0] == lines@[0]@);
                }
            }
            return Err(e);
        },
    };
    proof {
        assert(ls[0] == lines@[0]@);
        assert(int_in(ls, 0) == Some(count));
    }
    let n: u64 = if count < 0 { 0 } else { count as u64 };
    let mut at: usize = 1;
    let mut out: Vec<Nav> = Vec::new();
    let mut k: u64 = 0;
    assert(out@.map_values(|n: Nav| nav_view(n)) =~= Seq::<NavView>::empty());
    while k < n
        invariant
            ls == views(lines@),
            lines@.len() <= isize::MAX,
            ls == text_lines(data@),
            k <= n,
            1 <= at <= lines@.len() + 3,
            int_in(ls, 0) == Some(count),
            n as nat == (if count < 0 { 0 } else { count as nat }),
            nav_records(ls, 1, k as nat) == Ok::<(Seq<NavView>, int), (int, Seq<char>)>((out@.map_values(|n: Nav| nav_view(n)), at as int)),
        decreases n - k,
    {
        let ghost before = out@;
        match record(lines.as_slice(), at) {
            Ok((nav, next)) => {
                out.push(nav);
                at = next;
                proof {
                    assert(out@.map_values(|n: Nav| nav_view(n)) =~= before.map_values(|n: Nav| nav_view(n)).push(nav_view(nav)));
                }
            },
            Err(e) => {
                proof {
                    assert(nav_records(ls, 1, (k + 1) as nat) is Err);
                    lemma_records_stay_failed(ls, 1, (k + 1) as nat, n as nat);
                    assert(int_in(ls, 0) == Some(count));
                    assert((if count < 0 { 0 } else { count as nat }) == n as nat);
                    assert(nav_records(ls, 1, n as nat) == nav_records(ls, 1, (k + 1) as nat));
                }
                return Err(e);
            },
        }
        k += 1;
    }
    Ok(out)
}

proof fn lemma_records_stay_failed(ls: Seq<Seq<char>>, at: int, i: nat, n: nat)
    requires
        i <= n,
        nav_records(ls, at, i) is Err,
    ensures
        nav_records(ls, at, n) == nav_records(ls, at, i),
    decreases n - i,
{
    if i < n {
        lemma_records_stay_failed(ls, at, i, (n - 1) as nat);
    }
}

/// One record from line `at`.
fn record(lines: &[String], at: usize) -> (r: Result<(Nav, usize)>)
    requires
        1 <= at <= lines@.len() + 3,
        lines@.len() <= isize::MAX,
    ensures
        match nav_record(views(lines@), at as int) {
            Ok((v, next)) => r matches Ok((nav, n)) && nav_view(nav) == v && n == next && 1 <= n <= lines@.len() + 3,
            Err(f) => r matches Err(e) && refused_at(e, views(lines@), f.0, f.1),
        },
{
    let ghost ls = views(lines@);
    proof {
        reveal(nav_record);
        reveal(nav_after_position);
    }
    let code = match integer(lines, at, "NAV type") {
        Ok(v) => v,
        Err(e) => return Err(e),
    };
    proof {
        assert(ls[at as int] == lines@[at as int]@);
    }
    let kind = match Kind::from_code(code) {
        Some(k) => k,
        None => return Err(Error::BadLine { what: "NAV type", line: at + 1, saw: lines[at].clone() }),
    };
    let position = match triple(lines, at + 1, "NAV position") {
        Ok(p) => p,
        Err(e) => return Err(e),
    };
    let mut at = at + 2;
    let mut priority: i32 = 1;
    let mut time: i32 = 0;
    if starts(lines, at, '!') {
        proof {
            if at + 1 < lines@.len() {
                assert(ls[at + 1] == lines@[at + 1]@);
            }
        }
        match ints(lines, at + 1, "NAV priority,time") {
            Ok(v) => {
                if v.len() == 2 {
                    priority = #[verifier::truncate] (v[0] as i32);
                    time = #[verifier::truncate] (v[1] as i32);
                } else {
                    return Err(Error::BadLine { what: "NAV priority,time", line: at + 2, saw: lines[at + 1].clone() });
                }
            },
            Err(e) => return Err(e),
        }
        at += 2;
    }
    let ghost at1 = at;
    let mut completion_sound: Option<String> = None;
    if starts(lines, at, '@') {
        let t = match token(lines, at + 1) {
            Ok(t) => t,
            Err(e) => return Err(e),
        };
        completion_sound = match optional_name(t.as_str()) {
            Some(s) => Some(s.to_owned()),
            None => None,
        };
        at += 3;
    }
    let ghost at2 = at;
    let mut proximity_sound: Option<String> = None;
    if starts(lines, at, ';') {
        let t = match token(lines, at + 1) {
            Ok(t) => t,
            Err(e) => return Err(e),
        };
        proximity_sound = match optional_name(t.as_str()) {
            Some(s) => Some(s.to_owned()),
            None => None,
        };
        at += 2;
    }
    let line = line_at(lines, at);
    proof {
        if at < lines@.len() {
            assert(ls[at as int] == lines@[at as int]@);
        }
        assert(line@ == line_or_empty_v(ls, at as int));
    }
    let text_str = line.as_str();
    let bytes = text_str.len();
    proof {
        assert(text_str@ == line@);
        assert(bytes == vstd::utf8::encode_utf8(line@).len() as usize);
    }
    let text = if bytes >= 79 {
        let c = chars_of(line.as_str());
        if c.len() > 78 {
            let t = string_of(&c.as_slice()[0..78]);
            assert(t@ =~= c@.take(78));
            t
        } else {
            line
        }
    } else {
        line
    };
    proof {
        assert(text@ == display_text(line_or_empty_v(ls, at as int)));
    }
    at += 1;
    let (data, next) = match data_of(lines, at, kind) {
        Ok(d) => d,
        Err(e) => return Err(e),
    };
    let at = if starts(lines, next, '-') { next + 1 } else { next };
    Ok((Nav { kind, position, priority, time, completion_sound, proximity_sound, text, data }, at))
}

fn data_of(lines: &[String], at: usize, kind: Kind) -> (r: Result<(Data, usize)>)
    requires
        1 <= at <= lines@.len() + 2,
        lines@.len() <= isize::MAX,
    ensures
        match nav_data(views(lines@), at as int, kind) {
            Ok((d, next)) => r matches Ok((data, n)) && data_view(data) == d && n == next && n <= lines@.len() + 2,
            Err(f) => r matches Err(e) && refused_at(e, views(lines@), f.0, f.1),
        },
{
    match kind {
        Kind::Destroy => {
            let n = match index(lines, at, "NAV target count") {
                Ok(n) => n,
                Err(e) => return Err(e),
            };
            let targets = match indices(lines, at + 1, n, "NAV target") {
                Ok(t) => t,
                Err(e) => return Err(e),
            };
            Ok((Data::Targets(targets), at + 1 + n))
        },
        Kind::Guardian => {
            let actor = match index(lines, at, "NAV guardian") {
                Ok(a) => a,
                Err(e) => return Err(e),
            };
            let music = match token(lines, at + 1) {
                Ok(m) => m,
                Err(e) => return Err(e),
            };
            let b = at + 3;
            if starts(lines, b, '!') {
                let n = match index(lines, b + 1, "NAV shield count") {
                    Ok(n) => n,
                    Err(e) => return Err(e),
                };
                let shields = match indices(lines, b + 2, n, "NAV shield") {
                    Ok(s) => s,
                    Err(e) => return Err(e),
                };
                Ok((Data::Guardian { actor, music, shields }, b + 2 + n))
            } else {
                Ok((Data::Guardian { actor, music, shields: Vec::new() }, b))
            }
        },
        Kind::Start => {
            let angles = match triple(lines, at, "NAV start angles") {
                Ok(a) => a,
                Err(e) => return Err(e),
            };
            Ok((Data::Start { angles }, at + 1))
        },
        Kind::Warp => {
            let to = match triple(lines, at, "NAV warp") {
                Ok(t) => t,
                Err(e) => return Err(e),
            };
            let name = match token(lines, at + 1) {
                Ok(n) => n,
                Err(e) => return Err(e),
            };
            Ok((Data::Warp { to, name }, at + 2))
        },
        Kind::Escort | Kind::Kill => {
            let a = match index(lines, at, "NAV actor") {
                Ok(a) => a,
                Err(e) => return Err(e),
            };
            Ok((Data::Actor(a), at + 1))
        },
        Kind::MessagePod => {
            let p = match index(lines, at, "NAV pod") {
                Ok(p) => p,
                Err(e) => return Err(e),
            };
            Ok((Data::Pod(p), at + 1))
        },
        _ => Ok((Data::Nothing, at)),
    }
}

} // verus!
