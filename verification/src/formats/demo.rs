//! `DEMO\*.DMO`: a recorded flight, for the attract mode.
//!
//! CRLF text. A record count, the level, then that many tagged records. A
//! record's first line is `tag,time`; tag 0 is a pose and is followed by a
//! position line and an angle line, tag 1 is a key press and is followed by
//! one line holding the key's scan code.

use vstd::prelude::*;
use crate::text_core::{trim, trim_chars, parse_usize, parse_usize_chars};
use crate::formats::text::{lines, views, text_lines, line_count, line_at, line_or_empty, line_chars, line_or_blank,
    LineFault, refused_as, row_of, row_values};
use crate::formats::{Error, Result};

verus! {

#[derive(Debug, Clone, Copy, PartialEq, Eq)]
pub struct Pose {
    /// 16.16 seconds since the demo started.
    pub time: i32,
    /// 16.16 world position, in the world's signed centred coordinates.
    pub x: i32,
    pub y: i32,
    pub z: i32,
    /// Pitch, roll and heading in the engine's 16-bit circle, and whether the
    /// fire button is held (0 or 1, `0x44d3f4`).
    pub angles: [i32; 4],
}

#[derive(Debug, Clone, Copy, PartialEq, Eq)]
pub struct KeyPress {
    pub time: i32,
    /// A PC scan code. 57 is the space bar.
    pub scan_code: i32,
}

#[derive(Debug, Clone, Copy, PartialEq, Eq)]
pub enum Record {
    Pose(Pose),
    Key(KeyPress),
}

/// Where a playback has got to: its clock (16.16 seconds from the level's
/// start) and the records whose keys are still to be pressed.
#[derive(Debug, Clone, Copy, Default, PartialEq, Eq)]
pub struct Player {
    pub clock: i32,
    from: usize,
    to: usize,
}

/// What a frame of playback does.
#[derive(Debug, Clone, PartialEq, Eq)]
pub struct Frame {
    pub pose: Pose,
    pub fire: bool,
    /// Scan codes pressed this frame.
    pub keys: Vec<i32>,
}

#[derive(Debug, Clone)]
pub struct Demo {
    /// The `.LVL` it was recorded on.
    pub level: String,
    pub records: Vec<Record>,
}

// ---------------------------------------------------------------------------
// The format, as values.

/// Exactly `want` comma-separated `i32` on line `at`.
pub open spec fn values_at(ls: Seq<Seq<char>>, at: int, want: nat) -> core::result::Result<Seq<i32>, LineFault> {
    if at < 0 || at >= ls.len() {
        Err(LineFault { what: "DMO record", line: at + 1, saw: Seq::empty() })
    } else {
        match row_of(ls[at]) {
            Some(v) => if v.len() == want { Ok(v) } else { Err(LineFault { what: "DMO record", line: at + 1, saw: ls[at] }) },
            None => Err(LineFault { what: "DMO record", line: at + 1, saw: ls[at] }),
        }
    }
}

/// Where and why a demo's reading stops: a line, or a record's tag.
pub enum DemoFault {
    Line(LineFault),
    Tag { tag: i32, at: int },
}

/// A record from its head line at `at`; the line after it.
pub open spec fn record_at(ls: Seq<Seq<char>>, at: int) -> core::result::Result<(Record, int), DemoFault> {
    match values_at(ls, at, 2) {
        Err(f) => Err(DemoFault::Line(f)),
        Ok(head) => if head[0] == 0 {
            match values_at(ls, at + 1, 3) {
                Err(f) => Err(DemoFault::Line(f)),
                Ok(p) => match values_at(ls, at + 2, 4) {
                    Err(f) => Err(DemoFault::Line(f)),
                    Ok(a) => Ok((
                        Record::Pose(Pose { time: head[1], x: p[0], y: p[1], z: p[2], angles: [a[0], a[1], a[2], a[3]] }),
                        at + 3,
                    )),
                },
            }
        } else if head[0] == 1 {
            match values_at(ls, at + 1, 1) {
                Err(f) => Err(DemoFault::Line(f)),
                Ok(k) => Ok((Record::Key(KeyPress { time: head[1], scan_code: k[0] }), at + 2)),
            }
        } else {
            Err(DemoFault::Tag { tag: head[0], at })
        },
    }
}

pub open spec fn records_at(ls: Seq<Seq<char>>, at: int, n: nat) -> core::result::Result<(Seq<Record>, int), DemoFault>
    decreases n,
{
    if n == 0 {
        Ok((Seq::empty(), at))
    } else {
        match records_at(ls, at, (n - 1) as nat) {
            Err(f) => Err(f),
            Ok((s, next)) => match record_at(ls, next) {
                Err(f) => Err(f),
                Ok((r, after)) => Ok((s.push(r), after)),
            },
        }
    }
}

/// A demo file: the count, the level, then that many records from the third
/// line.
pub open spec fn demo_of(data: Seq<u8>) -> core::result::Result<(Seq<char>, Seq<Record>), DemoFault> {
    let ls = text_lines(data);
    match (if ls.len() > 0 { parse_usize(trim(ls[0])) } else { None }) {
        None => Err(DemoFault::Line(LineFault { what: "DMO count", line: 1, saw: line_or_blank(ls, 0) })),
        Some(count) => match records_at(ls, 2, count as nat) {
            Err(f) => Err(f),
            Ok((records, _)) => Ok((line_or_blank(ls, 1), records)),
        },
    }
}

/// The error each fault is given as.
pub open spec fn demo_error(e: Error, f: DemoFault) -> bool {
    match f {
        DemoFault::Line(l) => refused_as(e, l),
        DemoFault::Tag { tag, at } => e matches Error::BadTag { what, tag: t, at: a } && what == "DMO record"
            && t == tag as u32 && a == at,
    }
}

// ---------------------------------------------------------------------------
// The reader.

fn values(lines: &[String], at: usize, want: usize) -> (r: Result<Vec<i32>>)
    requires
        at < usize::MAX,
    ensures
        match values_at(views(lines@), at as int, want as nat) {
            Ok(v) => r matches Ok(w) && w@ == v && at < lines@.len(),
            Err(f) => r matches Err(e) && refused_as(e, f),
        },
{
    if at >= lines.len() {
        return Err(Error::BadLine { what: "DMO record", line: at + 1, saw: String::new() });
    }
    proof {
        assert(views(lines@)[at as int] == lines@[at as int]@);
    }
    let c = line_chars(lines, at);
    match row_values(c.as_slice()) {
        Some(v) => if v.len() == want {
            Ok(v)
        } else {
            Err(Error::BadLine { what: "DMO record", line: at + 1, saw: lines[at].clone() })
        },
        None => Err(Error::BadLine { what: "DMO record", line: at + 1, saw: lines[at].clone() }),
    }
}

fn record(lines: &[String], at: usize) -> (r: Result<(Record, usize)>)
    requires
        at <= lines@.len(),
        lines@.len() <= isize::MAX,
    ensures
        match record_at(views(lines@), at as int) {
            Ok((v, next)) => r == Ok::<(Record, usize), Error>((v, next as usize)) && next <= lines@.len(),
            Err(f) => r matches Err(e) && demo_error(e, f),
        },
{
    let head = match values(lines, at, 2) { Ok(v) => v, Err(e) => return Err(e) };
    if head[0] == 0 {
        let p = match values(lines, at + 1, 3) { Ok(v) => v, Err(e) => return Err(e) };
        let a = match values(lines, at + 2, 4) { Ok(v) => v, Err(e) => return Err(e) };
        Ok((Record::Pose(Pose { time: head[1], x: p[0], y: p[1], z: p[2], angles: [a[0], a[1], a[2], a[3]] }), at + 3))
    } else if head[0] == 1 {
        let k = match values(lines, at + 1, 1) { Ok(v) => v, Err(e) => return Err(e) };
        Ok((Record::Key(KeyPress { time: head[1], scan_code: k[0] }), at + 2))
    } else {
        Err(Error::BadTag { what: "DMO record", tag: head[0] as u32, at })
    }
}

proof fn lemma_records_stay_failed(ls: Seq<Seq<char>>, at: int, i: nat, n: nat)
    requires
        i <= n,
        records_at(ls, at, i) is Err,
    ensures
        records_at(ls, at, n) == records_at(ls, at, i),
    decreases n - i,
{
    if i < n {
        lemma_records_stay_failed(ls, at, i, (n - 1) as nat);
    }
}

impl Demo {
    /// Reads a demo: the record count, the level's name, then that many
    /// records, each a `tag,time` line and the lines its tag calls for.
    pub fn parse(data: &[u8]) -> (r: Result<Demo>)
        ensures
            match demo_of(data@) {
                Ok((level, records)) => r matches Ok(d) && d.level@ == level && d.records@ == records,
                Err(f) => r matches Err(e) && demo_error(e, f),
            },
    {
        let l = lines(data);
        let ghost ls = views(l@);
        let _ = line_count(l.as_slice());
        let first = line_chars(l.as_slice(), 0);
        let t = trim_chars(first.as_slice());
        let parsed = if l.len() > 0 { parse_usize_chars(t.as_slice()) } else { None };
        let count = match parsed {
            Some(c) => c,
            None => {
                let saw = line_at(l.as_slice(), 0);
                proof {
                    if l@.len() > 0 {
                        assert(ls[0] == l@[0]@);
                    }
                }
                return Err(Error::BadLine { what: "DMO count", line: 1, saw });
            },
        };
        let level = line_at(l.as_slice(), 1);
        proof {
            if l@.len() > 1 {
                assert(ls[1] == l@[1]@);
            }
        }
        let mut records: Vec<Record> = Vec::new();
        let mut at: usize = 2;
        let mut k: usize = 0;
        while k < count
            invariant
                ls == views(l@),
                ls == text_lines(data@),
                l@.len() <= isize::MAX,
                ls.len() > 0,
                parse_usize(trim(ls[0])) == Some(count),
                k <= count,
                2 <= at <= l@.len() + 2,
                k > 0 ==> at <= l@.len(),
                records_at(ls, 2, k as nat) == Ok::<(Seq<Record>, int), DemoFault>((records@, at as int)),
            decreases count - k,
        {
            if at > l.len() {
                proof {
                    assert(values_at(ls, at as int, 2) is Err);
                    assert(records_at(ls, 2, (k + 1) as nat) is Err);
                    lemma_records_stay_failed(ls, 2, (k + 1) as nat, count as nat);
                }
                return Err(Error::BadLine { what: "DMO record", line: at + 1, saw: String::new() });
            }
            match record(l.as_slice(), at) {
                Ok((r, next)) => {
                    records.push(r);
                    at = next;
                },
                Err(e) => {
                    proof {
                        assert(records_at(ls, 2, (k + 1) as nat) is Err);
                        lemma_records_stay_failed(ls, 2, (k + 1) as nat, count as nat);
                    }
                    return Err(e);
                },
            }
            k += 1;
        }
        Ok(Demo { level, records })
    }
}

// ---------------------------------------------------------------------------
// Playback.

/// The poses among some records, in order.
pub open spec fn poses_of(records: Seq<Record>) -> Seq<Pose>
    decreases records.len(),
{
    if records.len() == 0 {
        Seq::empty()
    } else {
        let rest = poses_of(records.drop_last());
        match records.last() {
            Record::Pose(p) => rest.push(p),
            Record::Key(_) => rest,
        }
    }
}

/// The key presses among some records, in order.
pub open spec fn keys_of(records: Seq<Record>) -> Seq<KeyPress>
    decreases records.len(),
{
    if records.len() == 0 {
        Seq::empty()
    } else {
        let rest = keys_of(records.drop_last());
        match records.last() {
            Record::Key(k) => rest.push(k),
            Record::Pose(_) => rest,
        }
    }
}

/// The first record from `i` on that is a pose after `time`, if any.
pub open spec fn next_pose(records: Seq<Record>, time: i32, i: int) -> Option<int>
    decreases records.len() - i,
{
    if i < 0 || i >= records.len() {
        None
    } else if records[i] matches Record::Pose(p) && p.time > time {
        Some(i)
    } else {
        next_pose(records, time, i + 1)
    }
}

/// The last pose before record `k`, if any.
pub open spec fn last_pose_before(records: Seq<Record>, k: int) -> Option<Pose>
    decreases k,
{
    if k <= 0 || k > records.len() {
        None
    } else {
        match records[k - 1] {
            Record::Pose(p) => Some(p),
            Record::Key(_) => last_pose_before(records, k - 1),
        }
    }
}

/// The pose played from toward record `next`: the last pose before it, or
/// else the first record at time zero, or else all zeros.
pub open spec fn pose_before(records: Seq<Record>, next: int) -> Pose {
    match last_pose_before(records, next) {
        Some(p) => p,
        None => match records[0] {
            Record::Pose(p) => Pose { time: 0, ..p },
            Record::Key(_) => Pose { time: 0, x: 0, y: 0, z: 0, angles: [0, 0, 0, 0] },
        },
    }
}

/// Division rounding toward zero, as `idiv` does, by a positive divisor.
pub open spec fn tdiv(x: int, y: int) -> int {
    if x >= 0 { x / y } else { -((-x) / y) }
}

/// The time between two poses, at least one.
pub open spec fn span_of(a: Pose, b: Pose) -> int {
    if b.time - a.time > 1 { b.time - a.time } else { 1 }
}

/// A value moved from `from` by `d` times the time since over the span.
pub open spec fn stepped(from: i32, d: int, since: int, span: int) -> int {
    from + (tdiv(d * since, span) as i32)
}

/// The short way round from one angle to another, as `shl 16; sar 16` takes
/// it.
pub open spec fn turn_of(from: i32, to: i32) -> int {
    (to - from) as i16 as int
}

/// Whether moving `from` by `d` over the span stays in the integers the
/// engine does it in.
pub open spec fn step_fits(from: i32, d: int, since: int, span: int) -> bool {
    &&& i32::MIN <= d <= i32::MAX
    &&& i64::MIN < d * since <= i64::MAX
    &&& i32::MIN <= stepped(from, d, since, span) <= i32::MAX
}

/// Whether interpolating between two poses at `time` stays in the integers
/// the engine does it in.
pub open spec fn fits(a: Pose, b: Pose, time: i32) -> bool {
    let since = time - a.time;
    let span = span_of(a, b);
    &&& i32::MIN <= b.time - a.time <= i32::MAX
    &&& i32::MIN <= since <= i32::MAX
    &&& step_fits(a.x, b.x - a.x, since, span)
    &&& step_fits(a.y, b.y - a.y, since, span)
    &&& step_fits(a.z, b.z - a.z, since, span)
    &&& i32::MIN <= b.angles[0] - a.angles[0] <= i32::MAX
    &&& i32::MIN <= b.angles[1] - a.angles[1] <= i32::MAX
    &&& i32::MIN <= b.angles[2] - a.angles[2] <= i32::MAX
    &&& step_fits(a.angles[0], turn_of(a.angles[0], b.angles[0]), since, span)
    &&& step_fits(a.angles[1], turn_of(a.angles[1], b.angles[1]), since, span)
    &&& step_fits(a.angles[2], turn_of(a.angles[2], b.angles[2]), since, span)
}

/// The pose at `time` between two recorded ones: each value the first's plus
/// the difference times the time since over the time between, rounded toward
/// zero; the angles the short way round and back into the circle; the fourth
/// value the second pose's.
pub open spec fn interpolate(a: Pose, b: Pose, time: i32) -> Pose {
    let since = time - a.time;
    let span = span_of(a, b);
    Pose {
        time,
        x: stepped(a.x, b.x - a.x, since, span) as i32,
        y: stepped(a.y, b.y - a.y, since, span) as i32,
        z: stepped(a.z, b.z - a.z, since, span) as i32,
        angles: [
            (stepped(a.angles[0], turn_of(a.angles[0], b.angles[0]), since, span) % 65536) as i32,
            (stepped(a.angles[1], turn_of(a.angles[1], b.angles[1]), since, span) % 65536) as i32,
            (stepped(a.angles[2], turn_of(a.angles[2], b.angles[2]), since, span) % 65536) as i32,
            b.angles[3],
        ],
    }
}

/// The pose a recording gives at `time`, if it has not run out.
pub open spec fn pose_at_of(records: Seq<Record>, time: i32) -> Option<Pose> {
    match next_pose(records, time, 0) {
        None => None,
        Some(n) => match records[n] {
            Record::Pose(b) => Some(interpolate(pose_before(records, n), b, time)),
            Record::Key(_) => None,
        },
    }
}

/// Whether playing a recording at `time` stays in the engine's integers.
pub open spec fn playable(records: Seq<Record>, time: i32) -> bool {
    match next_pose(records, time, 0) {
        None => true,
        Some(n) => match records[n] {
            Record::Pose(b) => fits(pose_before(records, n), b, time),
            Record::Key(_) => true,
        },
    }
}

proof fn lemma_next_pose(records: Seq<Record>, time: i32, i: int)
    requires
        0 <= i,
    ensures
        next_pose(records, time, i) matches Some(n) ==> (i <= n < records.len() && (records[n] matches Record::Pose(p) && p.time > time)),
    decreases records.len() - i,
{
    if i < records.len() && !(records[i] matches Record::Pose(p) && p.time > time) {
        lemma_next_pose(records, time, i + 1);
    }
}

fn trunc_div(x: i64, y: i64) -> (q: i64)
    requires
        y > 0,
        x > i64::MIN,
    ensures
        q == tdiv(x as int, y as int),
{
    if x >= 0 { x / y } else { -((-x) / y) }
}

fn step(from: i32, d: i64, since: i64, span: i64) -> (r: i32)
    requires
        span >= 1,
        i64::MIN < d * since <= i64::MAX,
        i32::MIN <= stepped(from, d as int, since as int, span as int) <= i32::MAX,
    ensures
        r == stepped(from, d as int, since as int, span as int),
{
    let q = trunc_div(d * since, span);
    from + #[verifier::truncate] (q as i32)
}

fn circle(v: i32) -> (r: i32)
    ensures
        r == v % 65536,
{
    let w = v as i64 + 0x8000_0000;
    let m = w % 65536;
    proof {
        vstd::arithmetic::div_mod::lemma_fundamental_div_mod(v as int, 65536);
        vstd::arithmetic::div_mod::lemma_fundamental_div_mod(w as int, 65536);
        vstd::arithmetic::div_mod::lemma_mod_bound(v as int, 65536);
        vstd::arithmetic::div_mod::lemma_fundamental_div_mod_converse(w as int, 65536, v as int / 65536 + 32768, v as int % 65536);
    }
    m as i32
}

impl Player {
    /// The records whose keys are still to be pressed: from, to.
    pub closed spec fn pending(&self) -> (usize, usize) {
        (self.from, self.to)
    }

    /// The clock, 16.16 seconds.
    pub closed spec fn time(&self) -> i32 {
        self.clock
    }
}

impl Demo {
    /// The poses, in order.
    pub fn poses(&self) -> (r: Vec<Pose>)
        ensures
            r@ == poses_of(self.records@),
    {
        let mut out: Vec<Pose> = Vec::new();
        let mut i: usize = 0;
        while i < self.records.len()
            invariant
                i <= self.records@.len(),
                out@ == poses_of(self.records@.take(i as int)),
            decreases self.records@.len() - i,
        {
            assert(self.records@.take(i + 1).drop_last() =~= self.records@.take(i as int));
            match self.records[i] {
                Record::Pose(p) => out.push(p),
                Record::Key(_) => {},
            }
            i += 1;
        }
        assert(self.records@.take(i as int) =~= self.records@);
        out
    }

    /// The key presses, in order.
    pub fn keys(&self) -> (r: Vec<KeyPress>)
        ensures
            r@ == keys_of(self.records@),
    {
        let mut out: Vec<KeyPress> = Vec::new();
        let mut i: usize = 0;
        while i < self.records.len()
            invariant
                i <= self.records@.len(),
                out@ == keys_of(self.records@.take(i as int)),
            decreases self.records@.len() - i,
        {
            assert(self.records@.take(i + 1).drop_last() =~= self.records@.take(i as int));
            match self.records[i] {
                Record::Key(k) => out.push(k),
                Record::Pose(_) => {},
            }
            i += 1;
        }
        assert(self.records@.take(i as int) =~= self.records@);
        out
    }

    /// The record the engine plays toward at `time` (16.16 seconds): the
    /// first pose after it, or `None` once the recording has run out.
    fn next(&self, time: i32) -> (r: Option<usize>)
        ensures
            match next_pose(self.records@, time, 0) {
                Some(n) => r == Some(n as usize) && 0 <= n < self.records@.len() && n <= usize::MAX,
                None => r is None,
            },
    {
        proof {
            lemma_next_pose(self.records@, time, 0);
        }
        let mut i: usize = 0;
        while i < self.records.len()
            invariant
                i <= self.records@.len(),
                next_pose(self.records@, time, 0) == next_pose(self.records@, time, i as int),
            decreases self.records@.len() - i,
        {
            if let Record::Pose(p) = self.records[i] {
                if p.time > time {
                    return Some(i);
                }
            }
            i += 1;
        }
        None
    }

    /// The pose played from toward record `next`.
    fn before(&self, next: usize) -> (r: Pose)
        requires
            0 < self.records@.len(),
            next <= self.records@.len(),
        ensures
            r == pose_before(self.records@, next as int),
    {
        let mut k = next;
        while k > 0
            invariant
                k <= next <= self.records@.len(),
                last_pose_before(self.records@, next as int) == last_pose_before(self.records@, k as int),
            decreases k,
        {
            if let Record::Pose(p) = self.records[k - 1] {
                return p;
            }
            k -= 1;
        }
        match self.records[0] {
            Record::Pose(p) => Pose { time: 0, ..p },
            Record::Key(_) => Pose { time: 0, x: 0, y: 0, z: 0, angles: [0, 0, 0, 0] },
        }
    }

    /// The pose at `time` (16.16 seconds) between the recorded ones either
    /// side.
    fn between(&self, time: i32, next: usize) -> (r: Pose)
        requires
            next < self.records@.len(),
            self.records@[next as int] is Pose,
            fits(pose_before(self.records@, next as int), self.records@[next as int]->Pose_0, time),
        ensures
            r == interpolate(pose_before(self.records@, next as int), self.records@[next as int]->Pose_0, time),
    {
        let b = match self.records[next] {
            Record::Pose(b) => b,
            Record::Key(_) => Pose { time: 0, x: 0, y: 0, z: 0, angles: [0, 0, 0, 0] },
        };
        let a = self.before(next);
        let since = (time - a.time) as i64;
        let gap = (b.time - a.time) as i64;
        let span = if gap > 1 { gap } else { 1 };
        let x = step(a.x, (b.x - a.x) as i64, since, span);
        let y = step(a.y, (b.y - a.y) as i64, since, span);
        let z = step(a.z, (b.z - a.z) as i64, since, span);
        let t0 = ((b.angles[0] - a.angles[0]) as i16) as i64;
        let t1 = ((b.angles[1] - a.angles[1]) as i16) as i64;
        let t2 = ((b.angles[2] - a.angles[2]) as i16) as i64;
        let h0 = circle(step(a.angles[0], t0, since, span));
        let h1 = circle(step(a.angles[1], t1, since, span));
        let h2 = circle(step(a.angles[2], t2, since, span));
        Pose { time, x, y, z, angles: [h0, h1, h2, b.angles[3]] }
    }

    /// The pose at `time` (16.16 seconds), as the engine plays it back; `None`
    /// once the recording has run out.
    pub fn pose_at_time(&self, time: i32) -> (r: Option<Pose>)
        requires
            playable(self.records@, time),
        ensures
            r == pose_at_of(self.records@, time),
    {
        proof {
            lemma_next_pose(self.records@, time, 0);
        }
        let found = self.next(time);
        match found {
            Some(n) => {
                proof {
                    match next_pose(self.records@, time, 0) {
                        Some(m) => {
                            assert(m == n);
                        },
                        None => {},
                    }
                }
                Some(self.between(time, n))
            },
            None => None,
        }
    }
}

/// The scan codes of the key records among some records, in order.
pub open spec fn key_codes(records: Seq<Record>) -> Seq<i32> {
    keys_of(records).map_values(|k: KeyPress| k.scan_code)
}

/// What a frame of playback gives: the pose at the player's clock, the fire
/// button from that pose, and the keys pressed - those between the poses
/// played toward before, once the pose played toward moves on.
pub open spec fn frame_of(records: Seq<Record>, clock: i32, from: usize, to: usize) -> Option<(Pose, Seq<i32>, usize, usize)> {
    match next_pose(records, clock, 0) {
        None => None,
        Some(n) => match records[n] {
            Record::Pose(b) => {
                let pose = interpolate(pose_before(records, n), b, clock);
                if to != n {
                    let keys = if to > from { key_codes(records.subrange(from as int, to as int)) } else { Seq::empty() };
                    Some((pose, keys, to, n as usize))
                } else {
                    Some((pose, Seq::empty(), from, to))
                }
            },
            Record::Key(_) => None,
        },
    }
}

impl Demo {
    /// One frame of playback: the pose at the player's clock, whether the
    /// fire button is held - the next pose's fourth value - and the keys
    /// pressed this frame. `None` once the recording has run out.
    ///
    /// The key records lag a pose: when the pose being played toward moves
    /// on, the key records between the two before it are pressed.
    pub fn play(&self, player: &mut Player) -> (r: Option<Frame>)
        requires
            old(player).pending().1 <= self.records@.len(),
            playable(self.records@, old(player).time()),
        ensures
            match frame_of(self.records@, old(player).time(), old(player).pending().0, old(player).pending().1) {
                None => r is None && *final(player) == *old(player),
                Some((pose, keys, from, to)) => r matches Some(f) && f.pose == pose && f.fire == (pose.angles[3] != 0)
                    && f.keys@ == keys && final(player).time() == old(player).time() && final(player).pending() == (from, to),
            },
    {
        proof {
            lemma_next_pose(self.records@, player.clock, 0);
        }
        let found = self.next(player.clock);
        let next = match found {
            Some(n) => n,
            None => return None,
        };
        proof {
            match next_pose(self.records@, player.clock, 0) {
                Some(m) => {
                    assert(m == next);
                },
                None => {},
            }
        }
        let pose = self.between(player.clock, next);
        let mut keys: Vec<i32> = Vec::new();
        if player.to != next {
            if player.to > player.from {
                let ghost part = self.records@.subrange(player.from as int, player.to as int);
                let mut i = player.from;
                while i < player.to
                    invariant
                        player.from <= i <= player.to <= self.records@.len(),
                        part == self.records@.subrange(player.from as int, player.to as int),
                        keys@ == key_codes(part.take(i - player.from)),
                    decreases player.to - i,
                {
                    assert(part.take(i + 1 - player.from).drop_last() =~= part.take(i - player.from));
                    assert(part[i - player.from] == self.records@[i as int]);
                    let ghost before = keys@;
                    match self.records[i] {
                        Record::Key(k) => {
                            keys.push(k.scan_code);
                            assert(keys@ =~= key_codes(part.take(i + 1 - player.from)));
                        },
                        Record::Pose(_) => {
                            assert(keys@ =~= key_codes(part.take(i + 1 - player.from)));
                        },
                    }
                    i += 1;
                }
                assert(part.take(player.to - player.from) =~= part);
            }
            player.from = player.to;
            player.to = next;
        }
        let fire = pose.angles[3] != 0;
        Some(Frame { pose, fire, keys })
    }
}

} // verus!
