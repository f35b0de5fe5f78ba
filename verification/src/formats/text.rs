//! The level text formats: CRLF, positional, with punctuation sentinels.
//!
//! All of Hellbender's text data shares one design - a count on the first
//! line, fixed-length positional records after it, and blocks appended over
//! the project's life headed by a line starting with `;`, `!`, `@`, `=` or
//! `{`. The sentinels are a version history written into every file, and a
//! parser that checks them catches a misaligned read immediately.

use vstd::prelude::*;
use crate::bytes::{lossy_string, utf8_lossy, chars_of, string_of, decimal, decimal_chars};
use crate::chars::lower_seq;
use crate::text_core::{split, split_bytes, split_chars, trim, trim_chars, trim_bounds, parse_int, parse_i64_chars, lemma_split_nonempty};
use crate::formats::{Error, Result};
use vstd::string::StrSliceExecFns;

verus! {

/// A line without the carriage return before its newline.
pub open spec fn strip_cr(l: Seq<u8>) -> Seq<u8> {
    if l.len() > 0 && l.last() == 13 { l.drop_last() } else { l }
}

/// The text split at each newline, a carriage return before a newline
/// dropped with it.
pub open spec fn raw_lines(data: Seq<u8>) -> Seq<Seq<u8>> {
    let p = split(data, 10u8);
    Seq::new(p.len(), |i: int| if i < p.len() - 1 { strip_cr(p[i]) } else { p[i] })
}

/// Without the empty lines at the end.
pub open spec fn drop_blank_tail(ls: Seq<Seq<u8>>) -> Seq<Seq<u8>>
    decreases ls.len(),
{
    if ls.len() > 0 && ls.last().len() == 0 {
        drop_blank_tail(ls.drop_last())
    } else {
        ls
    }
}

/// A text file's lines, as bytes.
pub open spec fn byte_lines(data: Seq<u8>) -> Seq<Seq<u8>> {
    drop_blank_tail(raw_lines(data))
}

/// A text file's lines: each line's bytes as `String::from_utf8_lossy` reads
/// them.
pub open spec fn text_lines(data: Seq<u8>) -> Seq<Seq<char>> {
    byte_lines(data).map_values(|l: Seq<u8>| utf8_lossy(l))
}

pub open spec fn views(lines: Seq<String>) -> Seq<Seq<char>> {
    lines.map_values(|l: String| l@)
}

/// Split a CRLF (or LF) text file into lines, dropping trailing empty lines.
pub fn lines(data: &[u8]) -> (r: Vec<String>)
    ensures
        views(r@) == text_lines(data@),
{
    let pieces = split_bytes(data, 10);
    proof {
        lemma_split_nonempty(data@, 10u8);
    }
    let ghost raw = raw_lines(data@);
    // Strip the carriage returns, then count the lines that stay.
    let mut keep: usize = pieces.len();
    assert(raw.take(keep as int) =~= raw);
    while keep > 0 && line_is_blank(&pieces, keep - 1)
        invariant
            keep <= pieces@.len(),
            raw == raw_lines(data@),
            pieces@.len() == split(data@, 10u8).len(),
            pieces@.len() == raw.len(),
            forall|i: int| 0 <= i < pieces@.len() ==> #[trigger] pieces@[i]@ == split(data@, 10u8)[i],
            drop_blank_tail(raw) == drop_blank_tail(raw.take(keep as int)),
        decreases keep,
    {
        proof {
            assert(raw.take(keep as int).drop_last() =~= raw.take(keep - 1));
            assert(raw.take(keep as int).last() == raw[keep - 1]);
            assert(raw[keep - 1] == (if keep - 1 < pieces@.len() - 1 { strip_cr(pieces@[keep - 1]@) } else { pieces@[keep - 1]@ }));
        }
        keep -= 1;
    }
    proof {
        if keep > 0 {
            assert(raw.take(keep as int).last() == raw[keep - 1]);
            assert(raw[keep - 1] == (if keep - 1 < pieces@.len() - 1 { strip_cr(pieces@[keep - 1]@) } else { pieces@[keep - 1]@ }));
        }
        assert(keep == 0 || raw.take(keep as int).last().len() > 0);
        assert(drop_blank_tail(raw.take(keep as int)) == raw.take(keep as int));
    }
    let mut out: Vec<String> = Vec::new();
    let mut i: usize = 0;
    while i < keep
        invariant
            i <= keep <= pieces@.len(),
            raw == raw_lines(data@),
            pieces@.len() == split(data@, 10u8).len(),
            pieces@.len() == raw.len(),
            forall|k: int| 0 <= k < pieces@.len() ==> #[trigger] pieces@[k]@ == split(data@, 10u8)[k],
            drop_blank_tail(raw) == raw.take(keep as int),
            out@.len() == i,
            forall|k: int| 0 <= k < i ==> #[trigger] out@[k]@ == utf8_lossy(raw[k]),
        decreases keep - i,
    {
        let p = pieces[i].as_slice();
        let line = if i < pieces.len() - 1 && p.len() > 0 && p[p.len() - 1] == 13 {
            &p[0..p.len() - 1]
        } else {
            p
        };
        proof {
            assert(raw[i as int] == (if i < pieces@.len() - 1 { strip_cr(pieces@[i as int]@) } else { pieces@[i as int]@ }));
            assert(line@ == raw[i as int]) by {
                if i < pieces.len() - 1 && p@.len() > 0 && p@[p@.len() - 1] == 13 {
                    assert(line@ =~= p@.drop_last());
                }
            }
        }
        out.push(lossy_string(line));
        i += 1;
    }
    proof {
        assert(views(out@) =~= text_lines(data@));
    }
    out
}

/// Whether piece `i` is a blank line once its carriage return is gone.
fn line_is_blank(pieces: &Vec<Vec<u8>>, i: usize) -> (r: bool)
    requires
        i < pieces@.len(),
    ensures
        r == (({
            let p = pieces@[i as int]@;
            if i < pieces@.len() - 1 { strip_cr(p) } else { p }
        }).len() == 0),
{
    let p = pieces[i].as_slice();
    if i < pieces.len() - 1 {
        p.len() == 0 || (p.len() == 1 && p[0] == 13)
    } else {
        p.len() == 0
    }
}

/// The characters that head an appended block.
pub open spec fn sentinel_char(c: char) -> bool {
    c == ';' || c == '!' || c == '@' || c == '=' || c == '{' || c == '#' || c == '%' || c == ':'
}

pub open spec fn is_sentinel_line(line: Seq<char>) -> bool {
    line.len() > 0 && sentinel_char(line[0])
}

/// True if the line is one of the format's appended-block markers.
pub fn is_sentinel(line: &str) -> (r: bool)
    ensures
        r == is_sentinel_line(line@),
{
    let c = chars_of(line);
    c.len() > 0 && (c[0] == ';' || c[0] == '!' || c[0] == '@' || c[0] == '=' || c[0] == '{'
        || c[0] == '#' || c[0] == '%' || c[0] == ':')
}

/// How many lines there are. A slice of non-empty values is never more than
/// `isize::MAX` bytes long (`<[T]>::len`, with that bound from the slice
/// documentation), so neither is its length.
#[verifier::external_body]
pub fn line_count(lines: &[String]) -> (n: usize)
    ensures
        n == lines@.len(),
        n <= isize::MAX,
{
    lines.len()
}

/// The line at `at`, or nothing past the end.
pub open spec fn line_or_empty(lines: Seq<String>, at: int) -> Seq<char> {
    if 0 <= at < lines.len() { lines[at]@ } else { Seq::empty() }
}

/// A clone of the line at `at`, or an empty string.
pub fn line_at(lines: &[String], at: usize) -> (r: String)
    ensures
        r@ == line_or_empty(lines@, at as int),
{
    if at < lines.len() {
        lines[at].clone()
    } else {
        String::new()
    }
}

/// The refusal a text reader gives for the line at `at`.
pub open spec fn bad_line_at(e: Error, what: &'static str, lines: Seq<String>, at: int) -> bool {
    e matches Error::BadLine { what: w, line, saw } && w == what && line == at + 1 && saw@
        == line_or_empty(lines, at)
}

pub fn expect_sentinel(lines: &[String], at: usize, what: &'static str) -> (r: Result<()>)
    requires
        at < usize::MAX,
    ensures
        r is Ok <==> at < lines@.len() && is_sentinel_line(lines@[at as int]@),
        r matches Err(e) ==> bad_line_at(e, what, lines@, at as int),
{
    if at < lines.len() && is_sentinel(lines[at].as_str()) {
        Ok(())
    } else {
        Err(Error::BadLine { what, line: at + 1, saw: line_at(lines, at) })
    }
}

/// The whole number on line `at`, surrounded by any whitespace.
pub open spec fn line_int(lines: Seq<String>, at: int) -> Option<i64> {
    if 0 <= at < lines.len() { parse_int(trim(lines[at]@)) } else { None }
}

pub fn integer(lines: &[String], at: usize, what: &'static str) -> (r: Result<i64>)
    requires
        at < usize::MAX,
    ensures
        match line_int(lines@, at as int) {
            Some(v) => r == Ok::<i64, Error>(v),
            None => r matches Err(e) && bad_line_at(e, what, lines@, at as int),
        },
{
    if at < lines.len() {
        let c = chars_of(lines[at].as_str());
        let t = trim_chars(c.as_slice());
        if let Some(v) = parse_i64_chars(t.as_slice()) {
            return Ok(v);
        }
    }
    Err(Error::BadLine { what, line: at + 1, saw: line_at(lines, at) })
}

/// Every comma-separated piece of a line read as a whole number, or `None` if
/// any is not one.
pub open spec fn parse_ints(line: Seq<char>) -> Option<Seq<i64>> {
    let pieces = split(line, ',');
    if forall|i: int| 0 <= i < pieces.len() ==> parse_int(trim(#[trigger] pieces[i])) is Some {
        Some(Seq::new(pieces.len(), |i: int| parse_int(trim(pieces[i]))->0))
    } else {
        None
    }
}

/// Parse every piece of a comma-separated line.
pub fn ints_of(line: &[char]) -> (r: Option<Vec<i64>>)
    ensures
        match parse_ints(line@) {
            Some(vs) => r matches Some(v) && v@ == vs,
            None => r is None,
        },
{
    let pieces = split_chars(line, ',');
    let mut out: Vec<i64> = Vec::new();
    let mut i: usize = 0;
    while i < pieces.len()
        invariant
            i <= pieces@.len(),
            pieces@.len() == split(line@, ',').len(),
            forall|k: int| 0 <= k < pieces@.len() ==> #[trigger] pieces@[k]@ == split(line@, ',')[k],
            out@.len() == i,
            forall|k: int| 0 <= k < i ==> parse_int(trim(split(line@, ',')[k])) == Some(#[trigger] out@[k]),
        decreases pieces@.len() - i,
    {
        let t = trim_chars(pieces[i].as_slice());
        match parse_i64_chars(t.as_slice()) {
            Some(v) => out.push(v),
            None => {
                proof {
                    let ps = split(line@, ',');
                    assert(parse_int(trim(ps[i as int])) is None);
                    assert(!(forall|k: int| 0 <= k < ps.len() ==> parse_int(trim(#[trigger] ps[k])) is Some));
                }
                return None;
            },
        }
        i += 1;
    }
    proof {
        let ps = split(line@, ',');
        assert forall|k: int| 0 <= k < ps.len() implies parse_int(trim(#[trigger] ps[k])) is Some by {
            assert(parse_int(trim(ps[k])) == Some(out@[k]));
        }
        let vs = Seq::new(pieces@.len(), |k: int| parse_int(trim(split(line@, ',')[k]))->0);
        assert(out@ =~= vs);
    }
    Some(out)
}

/// A comma-separated list of integers, as every numeric line in these files is.
pub fn ints(lines: &[String], at: usize, what: &'static str) -> (r: Result<Vec<i64>>)
    requires
        at < usize::MAX,
    ensures
        at >= lines@.len() ==> (r matches Err(e) && bad_line_at(e, what, lines@, at as int)),
        at < lines@.len() ==> match parse_ints(lines@[at as int]@) {
            Some(vs) => r matches Ok(v) && v@ == vs,
            None => r matches Err(e) && bad_line_at(e, what, lines@, at as int),
        },
{
    if at >= lines.len() {
        return Err(Error::BadLine { what, line: at + 1, saw: String::new() });
    }
    let c = chars_of(lines[at].as_str());
    match ints_of(c.as_slice()) {
        Some(v) => Ok(v),
        None => Err(Error::BadLine { what, line: at + 1, saw: lines[at].clone() }),
    }
}

pub open spec fn null_word() -> Seq<char> {
    seq!['n', 'u', 'l', 'l']
}

/// `null` in a filename slot means the slot is unused: the line trimmed, or
/// nothing when that is empty or `null` in any case.
pub open spec fn optional(line: Seq<char>) -> Option<Seq<char>> {
    let t = trim(line);
    if t.len() == 0 || lower_seq(t) == null_word() { None } else { Some(t) }
}

pub fn optional_name(line: &str) -> (r: Option<&str>)
    ensures
        match optional(line@) {
            Some(t) => r matches Some(s) && s@ == t,
            None => r is None,
        },
{
    let c = chars_of(line);
    let (a, b) = trim_bounds(c.as_slice());
    if a >= b {
        return None;
    }
    let t = line.substring_char(a, b);
    if b - a == 4 && is_null(&c.as_slice()[a..b]) {
        proof {
            assert(trim(line@) =~= c@.subrange(a as int, b as int));
        }
        return None;
    }
    proof {
        assert(trim(line@) =~= t@);
        if lower_seq(t@) == null_word() {
            assert(lower_seq(t@).len() == 4);
        }
    }
    Some(t)
}

/// Whether four characters spell `null`, in any case.
fn is_null(c: &[char]) -> (r: bool)
    requires
        c@.len() == 4,
    ensures
        r == (lower_seq(c@) == null_word()),
{
    let l = crate::chars::lower_chars(c);
    let r = l[0] == 'n' && l[1] == 'u' && l[2] == 'l' && l[3] == 'l';
    proof {
        if r {
            assert(l@ =~= null_word());
        } else {
            assert(l@ != null_word()) by {
                if l@ == null_word() {
                    assert(l@[0] == 'n' && l@[1] == 'u' && l@[2] == 'l' && l@[3] == 'l');
                }
            }
        }
    }
    r
}

} // verus!

verus! {

/// The number on a file's first line, if it is one.
pub open spec fn first_int(data: Seq<u8>) -> Option<i64> {
    let ls = text_lines(data);
    if ls.len() > 0 { parse_int(trim(ls[0])) } else { None }
}

/// `declared {count}, have {have}`.
pub open spec fn declared_have(count: nat, have: nat) -> Seq<char> {
    seq!['d', 'e', 'c', 'l', 'a', 'r', 'e', 'd', ' '] + decimal(count) + seq![',', ' ', 'h', 'a', 'v', 'e', ' ']
        + decimal(have)
}

pub fn push_all(out: &mut Vec<char>, more: &[char])
    ensures
        final(out)@ == old(out)@ + more@,
{
    let mut i: usize = 0;
    while i < more.len()
        invariant
            i <= more@.len(),
            out@ == old(out)@ + more@.take(i as int),
        decreases more@.len() - i,
    {
        out.push(more[i]);
        i += 1;
        assert(more@.take(i as int) =~= more@.take(i - 1).push(more@[i - 1]));
    }
    assert(more@.take(i as int) =~= more@);
}

/// Copies of `lines[from..to]`.
pub fn clone_lines(lines: &[String], from: usize, to: usize) -> (r: Vec<String>)
    requires
        from <= to <= lines@.len(),
    ensures
        views(r@) == views(lines@).subrange(from as int, to as int),
{
    let mut out: Vec<String> = Vec::new();
    let mut i = from;
    while i < to
        invariant
            from <= i <= to <= lines@.len(),
            views(out@) == views(lines@).subrange(from as int, i as int),
        decreases to - i,
    {
        let c = lines[i].clone();
        let ghost before = out@;
        out.push(c);
        proof {
            assert(out@ == before.push(c));
            assert(views(out@) =~= views(before).push(c@));
        }
        i += 1;
        assert(views(out@) =~= views(lines@).subrange(from as int, i as int));
    }
    out
}

/// `.TEX`: a count, then that many texture filenames.
/// What reading a name list gives: the names, or why not.
pub open spec fn names_read(data: Seq<u8>, what: &'static str, r: Result<Vec<String>>) -> bool {
    let ls = text_lines(data);
    match first_int(data) {
        None => r matches Err(Error::BadLine { what: w, line, saw }) && w == what && line == 1
            && saw@ == (if ls.len() > 0 { ls[0] } else { Seq::empty() }),
        Some(v) => {
            let count = v as usize;
            if ls.len() < count + 1 {
                &&& r matches Err(Error::BadLine { what: w, line, saw })
                &&& w == what && line == ls.len()
                &&& saw@ == declared_have(count as nat, (if ls.len() >= 1 { ls.len() - 1 } else { 0 }) as nat)
            } else {
                r matches Ok(names) && views(names@) == ls.subrange(1, count + 1)
            }
        },
    }
}

pub fn name_list(data: &[u8], what: &'static str) -> (r: Result<Vec<String>>)
    requires
        first_int(data@) matches Some(v) ==> (v as usize) < usize::MAX,
    ensures
        names_read(data@, what, r),
{
    let lines = lines(data);
    let count = match integer(lines.as_slice(), 0, what) {
        Ok(v) => #[verifier::truncate] (v as usize),
        Err(e) => return Err(e),
    };
    if lines.len() < count + 1 {
        let have: usize = if lines.len() >= 1 { lines.len() - 1 } else { 0 };
        let mut saw: Vec<char> = Vec::new();
        let head = ['d', 'e', 'c', 'l', 'a', 'r', 'e', 'd', ' '];
        push_all(&mut saw, &head);
        let n1 = decimal_chars(count as u128);
        push_all(&mut saw, n1.as_slice());
        let mid = [',', ' ', 'h', 'a', 'v', 'e', ' '];
        push_all(&mut saw, &mid);
        let n2 = decimal_chars(have as u128);
        push_all(&mut saw, n2.as_slice());
        proof {
            assert(saw@ =~= declared_have(count as nat, have as nat));
        }
        return Err(Error::BadLine { what, line: lines.len(), saw: string_of(saw.as_slice()) });
    }
    Ok(clone_lines(lines.as_slice(), 1, count + 1))
}

/// `.DEF`: a count, then that many 25-line records.
pub const DEF_RECORD_LINES: usize = 25;

#[derive(Debug, Clone)]
pub struct EnemyDef {
    /// The six integers of the record's first line. Fields 1, 3 and 5 are zero
    /// in every one of the 1,848 shipped records; field 0 is a class of some
    /// kind and field 2 is large and varied.
    pub fields: [i64; 6],
    /// The intact model.
    pub model: String,
    /// The wrecked model. `wbunker.bin` pairs with `wbnkruin.bin`; everything
    /// else pairs with `cube.bin`.
    pub wreck: String,
    pub name: String,
    /// Course id from the level's `.CRS`, or `-1` for none.
    pub course: i64,
    /// Damage multipliers in 16.16: cannon, laser, missile.
    pub damage: [i64; 3],
    pub friendly: bool,
    /// The record verbatim, so nothing is lost while fields are still unnamed.
    pub raw: Vec<String>,
}

/// The record lines that must hold a sentinel, in the order they are checked.
pub open spec fn def_sentinel(k: int) -> int {
    if k == 0 { 4 } else if k == 1 { 6 } else if k == 2 { 9 } else if k == 3 { 11 }
    else if k == 4 { 16 } else if k == 5 { 20 } else { 22 }
}

/// What is wrong with a 25-line record, if anything: the first sentinel line
/// (by its place in the check order) that is not one, or a first line that is
/// not eight comma-separated fields.
pub enum DefFault {
    Sentinel(int),
    Head,
}

pub open spec fn first_missing_sentinel(rec: Seq<Seq<char>>, k: int) -> int
    decreases 7 - k,
{
    if k < 0 || k >= 7 {
        7
    } else if !is_sentinel_line(rec[def_sentinel(k)]) {
        k
    } else {
        first_missing_sentinel(rec, k + 1)
    }
}

pub open spec fn def_fault(rec: Seq<Seq<char>>) -> Option<DefFault> {
    let k = first_missing_sentinel(rec, 0);
    if k < 7 {
        Some(DefFault::Sentinel(k))
    } else if split(rec[0], ',').len() != 8 {
        Some(DefFault::Head)
    } else {
        None
    }
}

pub open spec fn def_record(ls: Seq<Seq<char>>, r: int) -> Seq<Seq<char>> {
    ls.subrange(1 + 25 * r, 26 + 25 * r)
}

/// The first record from `r` on that is missing or faulty, or `count`.
pub open spec fn first_bad_def(ls: Seq<Seq<char>>, count: int, r: int) -> int
    decreases count - r,
{
    if r < 0 || r >= count {
        count
    } else if 26 + 25 * r > ls.len() || def_fault(def_record(ls, r)) is Some {
        r
    } else {
        first_bad_def(ls, count, r + 1)
    }
}

pub open spec fn or_default(o: Option<i64>, d: i64) -> i64 {
    match o {
        Some(v) => v,
        None => d,
    }
}

/// An enemy definition read from a sound record.
pub open spec fn def_matches(e: EnemyDef, rec: Seq<Seq<char>>) -> bool {
    let head = split(rec[0], ',');
    &&& forall|i: int| 0 <= i < 6 ==> #[trigger] e.fields@[i] == or_default(parse_int(trim(head[i])), 0i64)
    &&& e.model@ == trim(head[6])
    &&& e.wreck@ == trim(head[7])
    &&& e.name@ == rec[8]
    &&& e.course == or_default(parse_int(trim(rec[15])), -1i64)
    &&& e.damage@ == seq![
        or_default(parse_int(trim(rec[17])), 0i64),
        or_default(parse_int(trim(rec[18])), 0i64),
        or_default(parse_int(trim(rec[19])), 0i64),
    ]
    &&& e.friendly == (trim(rec[21]) != seq!['0'])
    &&& views(e.raw@) == rec
}

/// `declared {count} records, ran out at {r}`.
pub open spec fn ran_out(count: nat, r: nat) -> Seq<char> {
    seq!['d', 'e', 'c', 'l', 'a', 'r', 'e', 'd', ' '] + decimal(count) + seq![
        ' ', 'r', 'e', 'c', 'o', 'r', 'd', 's', ',', ' ', 'r', 'a', 'n', ' ', 'o', 'u', 't', ' ', 'a', 't', ' '
    ] + decimal(r)
}

/// What reading a `.DEF`'s type table gives: the records, or the first fault.
pub open spec fn defs_read(data: Seq<u8>, r: Result<Vec<EnemyDef>>) -> bool {
    let ls = text_lines(data);
    match first_int(data) {
        None => r matches Err(Error::BadLine { what, line, saw }) && what@ == "DEF count"@ && line == 1 && saw@ == (
        if ls.len() > 0 { ls[0] } else { Seq::empty() }),
        Some(v) => {
            let count = (v as usize) as int;
            let bad = first_bad_def(ls, count, 0);
            if bad == count {
                &&& r matches Ok(defs)
                &&& defs@.len() == count
                &&& forall|i: int| 0 <= i < count ==> def_matches(#[trigger] defs@[i], def_record(ls, i))
            } else if 26 + 25 * bad > ls.len() {
                &&& r matches Err(Error::BadLine { what, line, saw })
                &&& what@ == "DEF record"@
                &&& line == 2 + 25 * bad
                &&& saw@ == ran_out(count as nat, bad as nat)
            } else {
                let rec = def_record(ls, bad);
                match def_fault(rec) {
                    Some(DefFault::Sentinel(k)) => r matches Err(Error::BadLine { what, line, saw })
                        && line == def_sentinel(k) + 1 && saw@ == rec[def_sentinel(k)] && what@ == def_sentinel_what(k),
                    _ => r matches Err(Error::BadLine { what, line, saw }) && line == 2 + 25 * bad
                        && saw@ == rec[0] && what@ == "DEF first line"@,
                }
            }
        },
    }
}

pub fn enemy_defs(data: &[u8]) -> (r: Result<Vec<EnemyDef>>)
    ensures
        defs_read(data@, r),
{
    let lines = lines(data);
    let ghost ls = text_lines(data@);
    let ghost v_count = first_int(data@)->0;
    let count = match integer(lines.as_slice(), 0, "DEF count") {
        Ok(v) => {
            assert(views(lines@)[0] == lines@[0]@);
            assert(first_int(data@) == Some(v));
            #[verifier::truncate] (v as usize)
        },
        Err(e) => {
            proof {
                if lines@.len() > 0 {
                    assert(views(lines@)[0] == lines@[0]@);
                }
            }
            return Err(e);
        },
    };
    let mut out: Vec<EnemyDef> = Vec::new();
    let mut r: usize = 0;
    while r < count
        invariant
            views(lines@) == ls,
            ls == text_lines(data@),
            first_int(data@) == Some(v_count),
            count == v_count as usize,
            r <= count,
            25 * r <= lines@.len(),
            first_bad_def(ls, count as int, 0) == first_bad_def(ls, count as int, r as int),
            out@.len() == r,
            forall|i: int| 0 <= i < r ==> def_matches(#[trigger] out@[i], def_record(ls, i)),
        decreases count - r,
    {
        if lines.len() - r * DEF_RECORD_LINES < 26 {
            let base = 1 + r * DEF_RECORD_LINES;
            let mut saw: Vec<char> = Vec::new();
            let head = ['d', 'e', 'c', 'l', 'a', 'r', 'e', 'd', ' '];
            push_all(&mut saw, &head);
            let n1 = decimal_chars(count as u128);
            push_all(&mut saw, n1.as_slice());
            let mid = [' ', 'r', 'e', 'c', 'o', 'r', 'd', 's', ',', ' ', 'r', 'a', 'n', ' ', 'o', 'u', 't', ' ', 'a', 't', ' '];
            push_all(&mut saw, &mid);
            let n2 = decimal_chars(r as u128);
            push_all(&mut saw, n2.as_slice());
            proof {
                assert(saw@ =~= ran_out(count as nat, r as nat));
            }
            return Err(Error::BadLine { what: "DEF record", line: base + 1, saw: string_of(saw.as_slice()) });
        }
        let base = 1 + r * DEF_RECORD_LINES;
        let record = &lines.as_slice()[base..base + DEF_RECORD_LINES];
        let ghost rec = def_record(ls, r as int);
        assert(views(record@) =~= rec);
        match check_sentinels(record) {
            Ok(()) => {},
            Err(e) => return Err(e),
        }
        let line0 = chars_of(record[0].as_str());
        let head = split_chars(line0.as_slice(), ',');
        if head.len() != 8 {
            return Err(Error::BadLine { what: "DEF first line", line: base + 1, saw: record[0].clone() });
        }
        let mut fields = [0i64; 6];
        let mut i: usize = 0;
        while i < 6
            invariant
                i <= 6,
                head@.len() == 8,
                forall|k: int| 0 <= k < 8 ==> #[trigger] head@[k]@ == split(rec[0], ',')[k],
                forall|k: int| 0 <= k < i ==> #[trigger] fields@[k] == or_default(parse_int(trim(split(rec[0], ',')[k])), 0i64),
            decreases 6 - i,
        {
            fields[i] = int_or(head[i].as_slice(), 0);
            i += 1;
        }
        let model = string_of(trim_chars(head[6].as_slice()).as_slice());
        let wreck = string_of(trim_chars(head[7].as_slice()).as_slice());
        let damage = [
            int_or(chars_of(record[17].as_str()).as_slice(), 0),
            int_or(chars_of(record[18].as_str()).as_slice(), 0),
            int_or(chars_of(record[19].as_str()).as_slice(), 0),
        ];
        let course = int_or(chars_of(record[15].as_str()).as_slice(), -1);
        let f = trim_chars(chars_of(record[21].as_str()).as_slice());
        let friendly = !(f.len() == 1 && f[0] == '0');
        proof {
            assert(damage@ =~= seq![
                or_default(parse_int(trim(rec[17])), 0i64),
                or_default(parse_int(trim(rec[18])), 0i64),
                or_default(parse_int(trim(rec[19])), 0i64),
            ]);
            if f@ == seq!['0'] {
                assert(f@.len() == 1 && f@[0] == '0');
            }
            if f@.len() == 1 && f@[0] == '0' {
                assert(f@ =~= seq!['0']);
            }
        }
        let e = EnemyDef {
            fields,
            model,
            wreck,
            name: record[8].clone(),
            course,
            damage,
            friendly,
            raw: clone_lines(record, 0, DEF_RECORD_LINES),
        };
        proof {
            assert(views(e.raw@) =~= rec);
        }
        out.push(e);
        r += 1;
    }
    Ok(out)
}

/// The whole number a piece of text is once trimmed, or `default`.
fn int_or(s: &[char], default: i64) -> (r: i64)
    ensures
        r == or_default(parse_int(trim(s@)), default),
{
    let t = trim_chars(s);
    match parse_i64_chars(t.as_slice()) {
        Some(v) => v,
        None => default,
    }
}

/// What each sentinel check reports itself as.
pub open spec fn def_sentinel_what(k: int) -> Seq<char> {
    if k == 0 { "DEF ;NewHit"@ } else if k == 1 { "DEF !NewAtakRet"@ } else if k == 2 { "DEF #New2ndweapon"@ }
    else if k == 3 { "DEF %SFX"@ } else if k == 4 { "DEF = damage"@ } else if k == 5 { "DEF @ friendly"@ }
    else { "DEF { sounds"@ }
}

/// The seven sentinel checks of a definition record, in order.
fn check_sentinels(record: &[String]) -> (r: Result<()>)
    requires
        record@.len() == 25,
    ensures
        ({
            let k = first_missing_sentinel(views(record@), 0);
            if k < 7 {
                r matches Err(Error::BadLine { what, line, saw }) && line == def_sentinel(k) + 1
                    && saw@ == record@[def_sentinel(k)]@ && what@ == def_sentinel_what(k)
            } else {
                r is Ok
            }
        }),
{
    let ghost rec = views(record@);
    proof {
        reveal_with_fuel(first_missing_sentinel, 8);
    }
    match expect_sentinel(record, 4, "DEF ;NewHit") { Ok(()) => {}, Err(e) => return Err(e) }
    match expect_sentinel(record, 6, "DEF !NewAtakRet") { Ok(()) => {}, Err(e) => return Err(e) }
    match expect_sentinel(record, 9, "DEF #New2ndweapon") { Ok(()) => {}, Err(e) => return Err(e) }
    match expect_sentinel(record, 11, "DEF %SFX") { Ok(()) => {}, Err(e) => return Err(e) }
    match expect_sentinel(record, 16, "DEF = damage") { Ok(()) => {}, Err(e) => return Err(e) }
    match expect_sentinel(record, 20, "DEF @ friendly") { Ok(()) => {}, Err(e) => return Err(e) }
    match expect_sentinel(record, 22, "DEF { sounds") { Ok(()) => {}, Err(e) => return Err(e) }
    Ok(())
}

/// Where and why a text reader stops: what it was reading, the line's
/// number, and what the line held.
pub struct LineFault {
    pub what: &'static str,
    pub line: int,
    pub saw: Seq<char>,
}

/// The error a reader gives for a fault.
pub open spec fn refused_as(e: Error, f: LineFault) -> bool {
    e matches Error::BadLine { what, line, saw } && what == f.what && line == f.line && saw@ == f.saw
}

/// The line at `at`, or nothing past the end.
pub open spec fn line_or_none(ls: Seq<Seq<char>>, at: int) -> Option<Seq<char>> {
    if 0 <= at < ls.len() { Some(ls[at]) } else { None }
}

/// The line at `at`, or an empty one past the end.
pub open spec fn line_or_blank(ls: Seq<Seq<char>>, at: int) -> Seq<char> {
    if 0 <= at < ls.len() { ls[at] } else { Seq::empty() }
}

/// Whether `line` begins with `prefix`.
pub open spec fn starts_with(line: Seq<char>, prefix: Seq<char>) -> bool {
    line.len() >= prefix.len() && line.take(prefix.len() as int) == prefix
}

pub fn starts_with_chars(line: &[char], prefix: &[char]) -> (r: bool)
    ensures
        r == starts_with(line@, prefix@),
{
    if line.len() < prefix.len() {
        return false;
    }
    let mut i: usize = 0;
    while i < prefix.len()
        invariant
            i <= prefix@.len() <= line@.len(),
            forall|k: int| 0 <= k < i ==> line@[k] == prefix@[k],
        decreases prefix@.len() - i,
    {
        if line[i] != prefix[i] {
            assert(line@.take(prefix@.len() as int)[i as int] != prefix@[i as int]);
            return false;
        }
        i += 1;
    }
    assert(line@.take(prefix@.len() as int) =~= prefix@);
    true
}

/// The line at `at`, or an empty one.
pub fn line_chars(lines: &[String], at: usize) -> (r: Vec<char>)
    ensures
        r@ == line_or_blank(views(lines@), at as int),
{
    if at < lines.len() {
        proof {
            assert(views(lines@)[at as int] == lines@[at as int]@);
        }
        chars_of(lines[at].as_str())
    } else {
        Vec::new()
    }
}

/// Every comma-separated value of a line as an `i32`, or `None` if any is not
/// one.
pub open spec fn row_of(line: Seq<char>) -> Option<Seq<i32>> {
    match parse_ints(line) {
        Some(vs) => if forall|i: int| 0 <= i < vs.len() ==> i32::MIN <= #[trigger] vs[i] <= i32::MAX {
            Some(Seq::new(vs.len(), |i: int| vs[i] as i32))
        } else {
            None
        },
        None => None,
    }
}

/// A line's numbers, each an `i32`.
pub fn row_values(line: &[char]) -> (r: Option<Vec<i32>>)
    ensures
        match row_of(line@) {
            Some(v) => r matches Some(w) && w@ == v && v.len() >= 1,
            None => r is None,
        },
{
    proof {
        lemma_split_nonempty(line@, ',');
    }
    let vs = match ints_of(line) {
        Some(vs) => vs,
        None => return None,
    };
    let mut out: Vec<i32> = Vec::new();
    let mut i: usize = 0;
    while i < vs.len()
        invariant
            i <= vs@.len(),
            parse_ints(line@) == Some(vs@),
            out@.len() == i,
            forall|k: int| 0 <= k < i ==> i32::MIN <= #[trigger] vs@[k] <= i32::MAX && out@[k] == vs@[k] as i32,
        decreases vs@.len() - i,
    {
        let v = vs[i];
        if v < i32::MIN as i64 || v > i32::MAX as i64 {
            proof {
                if let Some(ws) = parse_ints(line@) {
                    assert(ws[i as int] == v);
                }
            }
            return None;
        }
        out.push(v as i32);
        i += 1;
    }
    assert(out@ =~= Seq::new(vs@.len(), |k: int| vs@[k] as i32));
    Some(out)
}

} // verus!
