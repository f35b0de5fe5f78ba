//! `.CRS`: the paths enemies follow, named by line 15 of a `.DEF` record.
//!
//! Two variants share one container. Both start with a course count and
//! separate courses with a line of asterisks; the line after the separator
//! says which variant this course is.

use vstd::prelude::*;
use crate::bytes::chars_of;
use crate::text_core::{split, split_chars, trim, trim_chars, parse_i32, parse_i32_chars, parse_usize, parse_usize_chars};
use crate::formats::text::{lines, views, text_lines, line_at, line_or_empty, line_count, LineFault, refused_as, line_or_none,
    line_or_blank, starts_with, starts_with_chars, line_chars};
use crate::formats::{Error, Result};

verus! {

/// A world position in 16.16 fixed point: the world is 1024 units square,
/// centred on the origin.
#[derive(Debug, Clone, Copy, PartialEq, Eq, Default)]
pub struct Point {
    pub x: i32,
    pub y: i32,
    pub z: i32,
}

#[derive(Debug, Clone)]
pub enum Course {
    /// `numPoints,groundCourse,periodic` then that many points.
    Points {
        /// Non-zero when the course is meant to be followed along the ground.
        ground: i32,
        /// Non-zero when the course loops back to its first point.
        periodic: i32,
        points: Vec<Point>,
    },
    /// `[Course N] ID,numSegs,direction` then that many `Course type` /
    /// `Course start` / `Course end` blocks.
    Segments {
        id: i32,
        direction: i32,
        segments: Vec<Segment>,
    },
}

#[derive(Debug, Clone, Copy)]
pub struct Segment {
    pub kind: i32,
    pub start: Point,
    pub end: Point,
}

pub enum CourseView {
    Points { ground: i32, periodic: i32, points: Seq<Point> },
    Segments { id: i32, direction: i32, segments: Seq<Segment> },
}

pub open spec fn course_view(c: Course) -> CourseView {
    match c {
        Course::Points { ground, periodic, points } => CourseView::Points { ground, periodic, points: points@ },
        Course::Segments { id, direction, segments } => CourseView::Segments { id, direction, segments: segments@ },
    }
}

/// Every point a course visits: its points, or the first segment's start and
/// then each segment's end.
pub open spec fn course_points(c: CourseView) -> Seq<Point> {
    match c {
        CourseView::Points { points, .. } => points,
        CourseView::Segments { segments, .. } => if segments.len() == 0 {
            Seq::empty()
        } else {
            seq![segments[0].start] + segments.map_values(|s: Segment| s.end)
        },
    }
}

impl Course {
    /// Every point the course visits, whichever variant it is.
    pub fn points(&self) -> (r: Vec<Point>)
        ensures
            r@ == course_points(course_view(*self)),
    {
        match self {
            Course::Points { points, .. } => {
                let mut out: Vec<Point> = Vec::new();
                let mut i: usize = 0;
                while i < points.len()
                    invariant
                        i <= points@.len(),
                        out@ =~= points@.take(i as int),
                    decreases points@.len() - i,
                {
                    out.push(points[i]);
                    i += 1;
                }
                assert(points@.take(i as int) =~= points@);
                out
            },
            Course::Segments { segments, .. } => {
                let mut out: Vec<Point> = Vec::new();
                let mut i: usize = 0;
                while i < segments.len()
                    invariant
                        i <= segments@.len(),
                        i == 0 ==> out@.len() == 0,
                        i > 0 ==> out@ =~= seq![segments@[0].start] + segments@.take(i as int).map_values(|s: Segment| s.end),
                    decreases segments@.len() - i,
                {
                    if i == 0 {
                        out.push(segments[0].start);
                    }
                    out.push(segments[i].end);
                    i += 1;
                }
                assert(segments@.take(i as int) =~= segments@);
                out
            },
        }
    }
}

// ---------------------------------------------------------------------------
// The format, as values.

/// The comma-separated pieces that read as `i32`, in order; the others are
/// passed over.
pub open spec fn valid_ints(pieces: Seq<Seq<char>>) -> Seq<i32>
    decreases pieces.len(),
{
    if pieces.len() == 0 {
        Seq::empty()
    } else {
        let rest = valid_ints(pieces.drop_last());
        match parse_i32(trim(pieces.last())) {
            Some(v) => rest.push(v),
            None => rest,
        }
    }
}

/// The numbers on the line at `at`; none past the end.
pub open spec fn numbers_at(ls: Seq<Seq<char>>, at: int) -> Seq<i32> {
    match line_or_none(ls, at) {
        Some(l) => valid_ints(split(l, ',')),
        None => Seq::empty(),
    }
}

pub open spec fn point_at(ls: Seq<Seq<char>>, at: int) -> core::result::Result<Point, LineFault> {
    let p = numbers_at(ls, at);
    if p.len() != 3 {
        Err(LineFault { what: "CRS point", line: at + 1, saw: line_or_blank(ls, at) })
    } else {
        Ok(Point { x: p[0], y: p[1], z: p[2] })
    }
}

/// A point line `a,b,c` is the point `(a, b, c)`: the numbers in the order
/// they stand on the line, x, then height, then depth.
pub proof fn law_a_point_is_its_numbers_in_order(ls: Seq<Seq<char>>, at: int, a: i32, b: i32, c: i32)
    requires
        0 <= at < ls.len(),
        split(ls[at], ',').len() == 3,
        parse_i32(trim(split(ls[at], ',')[0])) == Some(a),
        parse_i32(trim(split(ls[at], ',')[1])) == Some(b),
        parse_i32(trim(split(ls[at], ',')[2])) == Some(c),
    ensures
        point_at(ls, at) == Ok::<Point, LineFault>(Point { x: a, y: b, z: c }),
{
    let pieces = split(ls[at], ',');
    assert(line_or_none(ls, at) == Some(ls[at]));
    assert(pieces.drop_last().drop_last().drop_last() =~= Seq::<Seq<char>>::empty());
    assert(pieces.drop_last().drop_last().last() == pieces[0]);
    assert(pieces.drop_last().last() == pieces[1]);
    assert(valid_ints(pieces.drop_last().drop_last().drop_last()) == Seq::<i32>::empty());
    assert(valid_ints(pieces.drop_last().drop_last()) == seq![a]);
    assert(valid_ints(pieces.drop_last()) == seq![a, b]);
    assert(valid_ints(pieces) == seq![a, b, c]);
}

pub open spec fn header_at(ls: Seq<Seq<char>>, at: int, want: nat) -> core::result::Result<Seq<i32>, LineFault> {
    let p = numbers_at(ls, at);
    if p.len() != want {
        Err(LineFault { what: "CRS header", line: at + 1, saw: line_or_blank(ls, at) })
    } else {
        Ok(p)
    }
}

/// `n` points, one a line from `at`.
pub open spec fn points_at(ls: Seq<Seq<char>>, at: int, n: nat) -> core::result::Result<Seq<Point>, LineFault>
    decreases n,
{
    if n == 0 {
        Ok(Seq::empty())
    } else {
        match points_at(ls, at, (n - 1) as nat) {
            Err(f) => Err(f),
            Ok(s) => match point_at(ls, at + n - 1) {
                Err(f) => Err(f),
                Ok(p) => Ok(s.push(p)),
            },
        }
    }
}

/// A segment's seven lines from `at`: a separator, a label and the type, a
/// label and the start, a label and the end.
pub open spec fn segment_at(ls: Seq<Seq<char>>, at: int) -> core::result::Result<Segment, LineFault> {
    match header_at(ls, at + 2, 1) {
        Err(f) => Err(f),
        Ok(k) => match point_at(ls, at + 4) {
            Err(f) => Err(f),
            Ok(start) => match point_at(ls, at + 6) {
                Err(f) => Err(f),
                Ok(end) => Ok(Segment { kind: k[0], start, end }),
            },
        },
    }
}

pub open spec fn segments_at(ls: Seq<Seq<char>>, at: int, n: nat) -> core::result::Result<Seq<Segment>, LineFault>
    decreases n,
{
    if n == 0 {
        Ok(Seq::empty())
    } else {
        match segments_at(ls, at, (n - 1) as nat) {
            Err(f) => Err(f),
            Ok(s) => match segment_at(ls, at + 7 * (n - 1)) {
                Err(f) => Err(f),
                Ok(p) => Ok(s.push(p)),
            },
        }
    }
}

pub open spec fn is_separator(ls: Seq<Seq<char>>, at: int) -> bool {
    0 <= at < ls.len() && ls[at].len() > 0 && ls[at][0] == '*'
}

pub open spec fn floor0(v: i32) -> int {
    if v < 0 { 0 } else { v as int }
}

/// A course from its separator line at `at`; the line after it.
pub open spec fn course_at(ls: Seq<Seq<char>>, at: int) -> core::result::Result<(CourseView, int), LineFault> {
    if !is_separator(ls, at) {
        Err(LineFault { what: "CRS separator", line: at + 1, saw: line_or_blank(ls, at) })
    } else {
        let head = line_or_blank(ls, at + 1);
        if starts_with(head, "numPoints"@) {
            match header_at(ls, at + 2, 3) {
                Err(f) => Err(f),
                Ok(h) => {
                    let n = floor0(h[0]);
                    match points_at(ls, at + 3, n as nat) {
                        Err(f) => Err(f),
                        Ok(points) => Ok((CourseView::Points { ground: h[1], periodic: h[2], points }, at + 3 + n)),
                    }
                },
            }
        } else if starts_with(head, "[Course"@) {
            match header_at(ls, at + 2, 3) {
                Err(f) => Err(f),
                Ok(h) => {
                    let n = floor0(h[1]);
                    match segments_at(ls, at + 3, n as nat) {
                        Err(f) => Err(f),
                        Ok(segments) => Ok((CourseView::Segments { id: h[0], direction: h[2], segments }, at + 3 + 7 * n)),
                    }
                },
            }
        } else {
            Err(LineFault { what: "CRS course header", line: at + 2, saw: head })
        }
    }
}

pub open spec fn courses_at(ls: Seq<Seq<char>>, at: int, n: nat) -> core::result::Result<(Seq<CourseView>, int), LineFault>
    decreases n,
{
    if n == 0 {
        Ok((Seq::empty(), at))
    } else {
        match courses_at(ls, at, (n - 1) as nat) {
            Err(f) => Err(f),
            Ok((s, next)) => match course_at(ls, next) {
                Err(f) => Err(f),
                Ok((c, after)) => Ok((s.push(c), after)),
            },
        }
    }
}

/// A course file: nothing when it is empty, else the count on its first line
/// and that many courses.
pub open spec fn courses_of(data: Seq<u8>) -> core::result::Result<Seq<CourseView>, LineFault> {
    let ls = text_lines(data);
    if ls.len() == 0 {
        Ok(Seq::empty())
    } else {
        match parse_usize(trim(ls[0])) {
            None => Err(LineFault { what: "CRS count", line: 1, saw: ls[0] }),
            Some(count) => match courses_at(ls, 1, count as nat) {
                Err(f) => Err(f),
                Ok((s, _)) => Ok(s),
            },
        }
    }
}

// ---------------------------------------------------------------------------
// The reader.

fn numbers(lines: &[String], at: usize) -> (r: Vec<i32>)
    ensures
        r@ == numbers_at(views(lines@), at as int),
{
    if at >= lines.len() {
        return Vec::new();
    }
    let line = line_chars(lines, at);
    let pieces = split_chars(line.as_slice(), ',');
    let ghost ps = split(line@, ',');
    let mut out: Vec<i32> = Vec::new();
    let mut i: usize = 0;
    while i < pieces.len()
        invariant
            i <= pieces@.len(),
            ps == split(line@, ','),
            pieces@.len() == ps.len(),
            forall|k: int| 0 <= k < pieces@.len() ==> #[trigger] pieces@[k]@ == ps[k],
            out@ == valid_ints(ps.take(i as int)),
        decreases pieces@.len() - i,
    {
        assert(ps.take(i + 1).drop_last() =~= ps.take(i as int));
        let t = trim_chars(pieces[i].as_slice());
        if let Some(v) = parse_i32_chars(t.as_slice()) {
            out.push(v);
        }
        i += 1;
    }
    assert(ps.take(i as int) =~= ps);
    out
}

fn point(lines: &[String], at: usize) -> (r: Result<Point>)
    requires
        at < usize::MAX,
    ensures
        match point_at(views(lines@), at as int) {
            Ok(p) => r matches Ok(q) && q == p,
            Err(f) => r matches Err(e) && refused_as(e, f),
        },
{
    let p = numbers(lines, at);
    if p.len() != 3 {
        let saw = line_at(lines, at);
        proof {
            if at < lines@.len() {
                assert(views(lines@)[at as int] == lines@[at as int]@);
            }
        }
        return Err(Error::BadLine { what: "CRS point", line: at + 1, saw });
    }
    Ok(Point { x: p[0], y: p[1], z: p[2] })
}

fn header(lines: &[String], at: usize, want: usize) -> (r: Result<Vec<i32>>)
    requires
        at < usize::MAX,
    ensures
        match header_at(views(lines@), at as int, want as nat) {
            Ok(p) => r matches Ok(v) && v@ == p,
            Err(f) => r matches Err(e) && refused_as(e, f),
        },
{
    let p = numbers(lines, at);
    if p.len() != want {
        let saw = line_at(lines, at);
        proof {
            if at < lines@.len() {
                assert(views(lines@)[at as int] == lines@[at as int]@);
            }
        }
        return Err(Error::BadLine { what: "CRS header", line: at + 1, saw });
    }
    Ok(p)
}

fn points(lines: &[String], at: usize, n: usize) -> (r: Result<Vec<Point>>)
    requires
        at <= lines@.len(),
        lines@.len() <= isize::MAX,
    ensures
        match points_at(views(lines@), at as int, n as nat) {
            Ok(p) => r matches Ok(v) && v@ == p && at + n <= lines@.len(),
            Err(f) => r matches Err(e) && refused_as(e, f),
        },
{
    let ghost ls = views(lines@);
    let mut out: Vec<Point> = Vec::new();
    let mut k: usize = 0;
    while k < n
        invariant
            ls == views(lines@),
            at <= lines@.len() <= isize::MAX,
            k <= n,
            at + k <= lines@.len(),
            points_at(ls, at as int, k as nat) == Ok::<Seq<Point>, LineFault>(out@),
        decreases n - k,
    {
        match point(lines, at + k) {
            Ok(p) => {
                out.push(p);
                proof {
                    assert(numbers_at(ls, at + k).len() == 3);
                    assert(at + k < lines@.len());
                }
            },
            Err(e) => {
                proof {
                    lemma_points_stay_failed(ls, at as int, (k + 1) as nat, n as nat);
                }
                return Err(e);
            },
        }
        k += 1;
    }
    Ok(out)
}

proof fn lemma_points_stay_failed(ls: Seq<Seq<char>>, at: int, i: nat, n: nat)
    requires
        i <= n,
        points_at(ls, at, i) is Err,
    ensures
        points_at(ls, at, n) == points_at(ls, at, i),
    decreases n - i,
{
    if i < n {
        lemma_points_stay_failed(ls, at, i, (n - 1) as nat);
    }
}

fn segment(lines: &[String], at: usize) -> (r: Result<Segment>)
    requires
        at <= lines@.len(),
        lines@.len() <= isize::MAX,
    ensures
        match segment_at(views(lines@), at as int) {
            Ok(p) => r matches Ok(v) && v == p && at + 7 <= lines@.len(),
            Err(f) => r matches Err(e) && refused_as(e, f),
        },
{
    let k = match header(lines, at + 2, 1) {
        Ok(k) => k,
        Err(e) => return Err(e),
    };
    let start = match point(lines, at + 4) {
        Ok(p) => p,
        Err(e) => return Err(e),
    };
    let end = match point(lines, at + 6) {
        Ok(p) => p,
        Err(e) => return Err(e),
    };
    proof {
        assert(numbers_at(views(lines@), at + 6).len() == 3);
    }
    Ok(Segment { kind: k[0], start, end })
}

fn segments(lines: &[String], at: usize, n: usize) -> (r: Result<Vec<Segment>>)
    requires
        at <= lines@.len(),
        lines@.len() <= isize::MAX,
    ensures
        match segments_at(views(lines@), at as int, n as nat) {
            Ok(p) => r matches Ok(v) && v@ == p && at + 7 * n <= lines@.len(),
            Err(f) => r matches Err(e) && refused_as(e, f),
        },
{
    let ghost ls = views(lines@);
    let mut out: Vec<Segment> = Vec::new();
    let mut a = at;
    let mut k: usize = 0;
    while k < n
        invariant
            ls == views(lines@),
            at <= lines@.len() <= isize::MAX,
            k <= n,
            a == at + 7 * k,
            a <= lines@.len(),
            segments_at(ls, at as int, k as nat) == Ok::<Seq<Segment>, LineFault>(out@),
        decreases n - k,
    {
        match segment(lines, a) {
            Ok(p) => {
                out.push(p);
            },
            Err(e) => {
                proof {
                    lemma_segments_stay_failed(ls, at as int, (k + 1) as nat, n as nat);
                }
                return Err(e);
            },
        }
        a = a + 7;
        k += 1;
    }
    Ok(out)
}

proof fn lemma_segments_stay_failed(ls: Seq<Seq<char>>, at: int, i: nat, n: nat)
    requires
        i <= n,
        segments_at(ls, at, i) is Err,
    ensures
        segments_at(ls, at, n) == segments_at(ls, at, i),
    decreases n - i,
{
    if i < n {
        lemma_segments_stay_failed(ls, at, i, (n - 1) as nat);
    }
}

fn floored(v: i32) -> (r: usize)
    ensures
        r == floor0(v),
{
    if v < 0 { 0 } else { v as usize }
}

fn course(lines: &[String], at: usize) -> (r: Result<(Course, usize)>)
    requires
        at <= lines@.len(),
        lines@.len() <= isize::MAX,
    ensures
        match course_at(views(lines@), at as int) {
            Ok((c, next)) => r matches Ok((v, n)) && course_view(v) == c && n == next && next <= lines@.len(),
            Err(f) => r matches Err(e) && refused_as(e, f),
        },
{
    let sep = line_chars(lines, at);
    if !(at < lines.len() && sep.len() > 0 && sep[0] == '*') {
        let saw = line_at(lines, at);
        proof {
            if at < lines@.len() {
                assert(views(lines@)[at as int] == lines@[at as int]@);
            }
        }
        return Err(Error::BadLine { what: "CRS separator", line: at + 1, saw });
    }
    let head = line_chars(lines, at + 1);
    let points_word = chars_of("numPoints");
    let course_word = chars_of("[Course");
    if starts_with_chars(head.as_slice(), points_word.as_slice()) {
        let h = match header(lines, at + 2, 3) {
            Ok(h) => h,
            Err(e) => return Err(e),
        };
        proof {
            assert(numbers_at(views(lines@), at + 2).len() == 3);
        }
        let n = floored(h[0]);
        let pts = match points(lines, at + 3, n) {
            Ok(p) => p,
            Err(e) => return Err(e),
        };
        Ok((Course::Points { ground: h[1], periodic: h[2], points: pts }, at + 3 + n))
    } else if starts_with_chars(head.as_slice(), course_word.as_slice()) {
        let h = match header(lines, at + 2, 3) {
            Ok(h) => h,
            Err(e) => return Err(e),
        };
        proof {
            assert(numbers_at(views(lines@), at + 2).len() == 3);
        }
        let n = floored(h[1]);
        let segs = match segments(lines, at + 3, n) {
            Ok(p) => p,
            Err(e) => return Err(e),
        };
        Ok((Course::Segments { id: h[0], direction: h[2], segments: segs }, at + 3 + 7 * n))
    } else {
        let saw = line_at(lines, at + 1);
        proof {
            if at + 1 < lines@.len() {
                assert(views(lines@)[at + 1] == lines@[at + 1]@);
            }
        }
        Err(Error::BadLine { what: "CRS course header", line: at + 2, saw })
    }
}

/// Reads a course file: the count on the first line (an empty file holds
/// none), then that many courses, each after a line of asterisks and headed
/// by the line that says its variant.
pub fn parse(data: &[u8]) -> (r: Result<Vec<Course>>)
    ensures
        match courses_of(data@) {
            Ok(s) => r matches Ok(v) && v@.map_values(|c: Course| course_view(c)) == s,
            Err(f) => r matches Err(e) && refused_as(e, f),
        },
{
    let l = lines(data);
    let ghost ls = views(l@);
    let total = line_count(l.as_slice());
    if total == 0 {
        let out: Vec<Course> = Vec::new();
        assert(out@.map_values(|c: Course| course_view(c)) =~= Seq::empty());
        return Ok(out);
    }
    let first = line_chars(l.as_slice(), 0);
    proof {
        assert(ls[0] == l@[0]@);
    }
    let t = trim_chars(first.as_slice());
    let count = match parse_usize_chars(t.as_slice()) {
        Some(c) => c,
        None => return Err(Error::BadLine { what: "CRS count", line: 1, saw: l[0].clone() }),
    };
    let mut out: Vec<Course> = Vec::new();
    assert(out@.map_values(|c: Course| course_view(c)) =~= Seq::empty());
    let mut i: usize = 1;
    let mut k: usize = 0;
    while k < count
        invariant
            ls == views(l@),
            ls == text_lines(data@),
            l@.len() <= isize::MAX,
            k <= count,
            ls.len() > 0,
            parse_usize(trim(ls[0])) == Some(count),
            1 <= i <= l@.len(),
            courses_at(ls, 1, k as nat) == Ok::<(Seq<CourseView>, int), LineFault>((out@.map_values(|c: Course| course_view(c)), i as int)),
        decreases count - k,
    {
        let ghost before = out@;
        match course(l.as_slice(), i) {
            Ok((c, next)) => {
                out.push(c);
                i = next;
                assert(out@.map_values(|c: Course| course_view(c)) =~= before.map_values(|c: Course| course_view(c)).push(course_view(c)));
            },
            Err(e) => {
                proof {
                    assert(courses_at(ls, 1, (k + 1) as nat) is Err);
                    lemma_courses_stay_failed(ls, 1, (k + 1) as nat, count as nat);
                }
                return Err(e);
            },
        }
        k += 1;
    }
    Ok(out)
}

proof fn lemma_courses_stay_failed(ls: Seq<Seq<char>>, at: int, i: nat, n: nat)
    requires
        i <= n,
        courses_at(ls, at, i) is Err,
    ensures
        courses_at(ls, at, n) == courses_at(ls, at, i),
    decreases n - i,
{
    if i < n {
        lemma_courses_stay_failed(ls, at, i, (n - 1) as nat);
    }
}

} // verus!
