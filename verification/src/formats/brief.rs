//! The mission briefing: `DATA\<stem>.TXT`, named by line 0 of the `.LVL`.
//!
//! Two file names and some prose:
//!
//! ```text
//! Globe.Bin                     a model, turned on the briefing screen
//! Morbos00.Raw                  the texture it wears - the planet's surface
//! PLANET: Morbos                the briefing itself, as many lines as it
//! MISSION: Counterstrike        likes
//! ...
//! .                             a line holding one dot ends it
//! ```

use vstd::prelude::*;
use crate::bytes::{lossy_string, utf8_lossy, chars_of, string_of};
use crate::chars::index_from;
use crate::text_core::{split, split_chars, trim, trim_end, trim_chars, trim_end_chars, trim_bounds, lemma_split_nonempty};
use crate::formats::text::{starts_with, starts_with_chars};
use crate::formats::{Error, Result};
use vstd::string::StrSliceExecFns;

verus! {

/// The screen every briefing is drawn on, 320x200 in `ART\BRIEF.ACT`.
pub const BACKDROP: &'static str = "brief.raw";

/// The dark panel in the upper half of that screen, in its own 320x200:
/// x, y, width, height.
pub const PANEL: [usize; 4] = [40, 26, 238, 86];

#[derive(Debug, Clone, PartialEq, Eq)]
pub struct Brief {
    /// The model the briefing screen turns.
    pub model: String,
    /// The texture it wears: the planet, 64x64, in a palette of its own.
    pub texture: String,
    /// The prose, one entry a line, with the blank lines kept - they are the
    /// paragraph breaks.
    pub lines: Vec<String>,
}

pub struct BriefView {
    pub model: Seq<char>,
    pub texture: Seq<char>,
    pub lines: Seq<Seq<char>>,
}

/// A line without the carriage returns at its end.
pub open spec fn strip_crs(l: Seq<char>) -> Seq<char>
    decreases l.len(),
{
    if l.len() > 0 && l.last() == '\r' { strip_crs(l.drop_last()) } else { l }
}

/// The text's lines as `str::lines` gives them, each without the carriage
/// returns at its end: split at each newline, with no line after a final
/// one.
pub open spec fn text_lines_of(t: Seq<char>) -> Seq<Seq<char>> {
    let p = split(t, '\n');
    let p = if p.len() > 0 && p.last().len() == 0 { p.drop_last() } else { p };
    p.map_values(|l: Seq<char>| strip_crs(l))
}

/// The line that ends the prose.
pub open spec fn is_end(l: Seq<char>) -> bool {
    trim(l) == seq!['.']
}

/// How many lines from `from` come before the end line, or all that are left.
pub open spec fn prose_len(ls: Seq<Seq<char>>, from: int) -> int
    decreases ls.len() - from,
{
    if from >= ls.len() || from < 0 || is_end(ls[from]) { 0 } else { 1 + prose_len(ls, from + 1) }
}

/// Without the blank lines at the start.
pub open spec fn drop_leading_blanks(s: Seq<Seq<char>>) -> Seq<Seq<char>>
    decreases s.len(),
{
    if s.len() > 0 && s[0].len() == 0 { drop_leading_blanks(s.skip(1)) } else { s }
}

/// Without the blank lines at the end.
pub open spec fn drop_trailing_blanks(s: Seq<Seq<char>>) -> Seq<Seq<char>>
    decreases s.len(),
{
    if s.len() > 0 && s.last().len() == 0 { drop_trailing_blanks(s.drop_last()) } else { s }
}

/// What a briefing says: the model and texture lines trimmed, then the prose
/// up to the line holding one dot, each line without its trailing
/// whitespace, and without the blank lines it starts and ends with.
pub open spec fn brief_of(data: Seq<u8>) -> core::result::Result<BriefView, int> {
    let ls = text_lines_of(utf8_lossy(data));
    if ls.len() < 1 {
        Err(0)
    } else if ls.len() < 2 {
        Err(1)
    } else {
        let prose = ls.subrange(2, 2 + prose_len(ls, 2)).map_values(|l: Seq<char>| trim_end(l));
        Ok(BriefView {
            model: trim(ls[0]),
            texture: trim(ls[1]),
            lines: drop_trailing_blanks(drop_leading_blanks(prose)),
        })
    }
}

/// The refusal for a briefing that ends before its model (0) or its texture
/// (1) line.
pub open spec fn short_error(e: Error, missing: int) -> bool {
    e matches Error::Truncated { what, at, need, have } && at == 0 && need == 1 && have == 0
        && what == (if missing == 0 { "briefing model" } else { "briefing texture" })
}

fn strip_crs_chars(l: &[char]) -> (r: &[char])
    ensures
        r@ == strip_crs(l@),
{
    let mut n = l.len();
    assert(l@.take(n as int) =~= l@);
    while n > 0 && l[n - 1] == '\r'
        invariant
            n <= l@.len(),
            strip_crs(l@) == strip_crs(l@.take(n as int)),
        decreases n,
    {
        assert(l@.take(n as int).drop_last() =~= l@.take(n - 1));
        n -= 1;
    }
    assert(strip_crs(l@.take(n as int)) == l@.take(n as int));
    let r = &l[0..n];
    assert(r@ =~= l@.take(n as int));
    r
}

fn text_lines(t: &[char]) -> (r: Vec<Vec<char>>)
    ensures
        r@.len() == text_lines_of(t@).len(),
        forall|i: int| 0 <= i < r@.len() ==> #[trigger] r@[i]@ == text_lines_of(t@)[i],
{
    let pieces = split_chars(t, '\n');
    proof {
        lemma_split_nonempty(t@, '\n');
    }
    let ghost p = split(t@, '\n');
    let mut n = pieces.len();
    if n > 0 && pieces[n - 1].len() == 0 {
        n -= 1;
    }
    let ghost q = if p.len() > 0 && p.last().len() == 0 { p.drop_last() } else { p };
    assert(q.len() == n);
    let mut out: Vec<Vec<char>> = Vec::new();
    let mut i: usize = 0;
    while i < n
        invariant
            i <= n <= pieces@.len(),
            p == split(t@, '\n'),
            pieces@.len() == p.len(),
            forall|k: int| 0 <= k < pieces@.len() ==> #[trigger] pieces@[k]@ == p[k],
            q == (if p.len() > 0 && p.last().len() == 0 { p.drop_last() } else { p }),
            q.len() == n,
            out@.len() == i,
            forall|k: int| 0 <= k < i ==> #[trigger] out@[k]@ == strip_crs(q[k]),
        decreases n - i,
    {
        let l = strip_crs_chars(pieces[i].as_slice());
        out.push(vstd::slice::slice_to_vec(l));
        i += 1;
    }
    out
}

impl Brief {
    /// Reads a briefing: the model line and the texture line, trimmed, then
    /// the prose up to a line holding one dot, each line without its trailing
    /// whitespace, and without the blank lines it starts and ends with. The
    /// text is read as UTF-8, with replacement.
    pub fn parse(data: &[u8]) -> (r: Result<Brief>)
        ensures
            match brief_of(data@) {
                Ok(b) => r matches Ok(v) && v.model@ == b.model && v.texture@ == b.texture
                    && v.lines@.map_values(|l: String| l@) == b.lines,
                Err(missing) => r matches Err(e) && short_error(e, missing),
            },
    {
        let text = lossy_string(data);
        let chars = chars_of(text.as_str());
        let ls = text_lines(chars.as_slice());
        let ghost lv = text_lines_of(utf8_lossy(data@));
        if ls.len() < 1 {
            return Err(Error::Truncated { what: "briefing model", at: 0, need: 1, have: 0 });
        }
        if ls.len() < 2 {
            return Err(Error::Truncated { what: "briefing texture", at: 0, need: 1, have: 0 });
        }
        let model = string_of(trim_chars(ls[0].as_slice()).as_slice());
        let texture = string_of(trim_chars(ls[1].as_slice()).as_slice());
        let mut prose: Vec<Vec<char>> = Vec::new();
        let mut i: usize = 2;
        let mut ended = false;
        while i < ls.len() && !ended
            invariant
                2 <= i <= ls@.len(),
                ls@.len() == lv.len(),
                forall|k: int| 0 <= k < ls@.len() ==> #[trigger] ls@[k]@ == lv[k],
                prose_len(lv, 2) == (i - 2) + prose_len(lv, i as int),
                ended ==> i < lv.len() && is_end(lv[i as int]),
                prose@.len() == i - 2,
                forall|k: int| 0 <= k < prose@.len() ==> #[trigger] prose@[k]@ == trim_end(lv[k + 2]),
            decreases ls@.len() - i + (if ended { 0int } else { 1 }),
        {
            let t = trim_chars(ls[i].as_slice());
            if t.len() == 1 && t[0] == '.' {
                assert(trim(lv[i as int]) =~= seq!['.']);
                ended = true;
            } else {
                proof {
                    if is_end(lv[i as int]) {
                        assert(trim(lv[i as int]).len() == 1);
                        assert(trim(lv[i as int])[0] == '.');
                    }
                }
                prose.push(trim_end_chars(ls[i].as_slice()));
                i += 1;
            }
        }
        let ghost want = lv.subrange(2, 2 + prose_len(lv, 2)).map_values(|l: Seq<char>| trim_end(l));
        assert(prose_len(lv, i as int) == 0);
        assert(forall|k: int| 0 <= k < prose@.len() ==> #[trigger] prose@[k]@ == want[k]);
        // Without the blank lines at either end.
        let mut a: usize = 0;
        let mut b: usize = prose.len();
        let ghost pv = prose@.map_values(|l: Vec<char>| l@);
        assert(pv =~= want);
        assert(pv.subrange(0, b as int) =~= pv);
        while a < b && prose[a].len() == 0
            invariant
                a <= b == prose@.len(),
                pv == prose@.map_values(|l: Vec<char>| l@),
                drop_leading_blanks(pv) == drop_leading_blanks(pv.subrange(a as int, b as int)),
            decreases b - a,
        {
            assert(pv.subrange(a as int, b as int).skip(1) =~= pv.subrange(a + 1, b as int));
            a += 1;
        }
        assert(drop_leading_blanks(pv.subrange(a as int, b as int)) == pv.subrange(a as int, b as int));
        let ghost lead = pv.subrange(a as int, b as int);
        assert(lead.subrange(0, (b - a) as int) =~= lead);
        while b > a && prose[b - 1].len() == 0
            invariant
                a <= b <= prose@.len(),
                pv == prose@.map_values(|l: Vec<char>| l@),
                lead == pv.subrange(a as int, prose@.len() as int),
                drop_trailing_blanks(lead) == drop_trailing_blanks(pv.subrange(a as int, b as int)),
            decreases b - a,
        {
            assert(pv.subrange(a as int, b as int).drop_last() =~= pv.subrange(a as int, b - 1));
            b -= 1;
        }
        assert(drop_trailing_blanks(pv.subrange(a as int, b as int)) == pv.subrange(a as int, b as int));
        let mut lines: Vec<String> = Vec::new();
        let mut k = a;
        while k < b
            invariant
                a <= k <= b <= prose@.len(),
                pv == prose@.map_values(|l: Vec<char>| l@),
                lines@.map_values(|l: String| l@) =~= pv.subrange(a as int, k as int),
            decreases b - k,
        {
            let ghost before = lines@;
            let s = string_of(prose[k].as_slice());
            lines.push(s);
            assert(lines@.map_values(|l: String| l@) =~= before.map_values(|l: String| l@).push(s@));
            k += 1;
        }
        Ok(Brief { model, texture, lines })
    }
}

// ---------------------------------------------------------------------------
// The headline.

/// `char::to_ascii_uppercase`.
pub open spec fn upper(c: char) -> char {
    if 'a' <= c <= 'z' { ((c as u32) - 32) as char } else { c }
}

pub open spec fn upper_seq(s: Seq<char>) -> Seq<char> {
    s.map_values(|c: char| upper(c))
}

/// The first line whose upper case starts with `prefix`, if any.
pub open spec fn first_labelled(lines: Seq<Seq<char>>, prefix: Seq<char>, from: int) -> int
    decreases lines.len() - from,
{
    if from < 0 || from >= lines.len() {
        lines.len() as int
    } else if starts_with(upper_seq(lines[from]), prefix) {
        from
    } else {
        first_labelled(lines, prefix, from + 1)
    }
}

/// What follows the label on the first line that carries it: the rest after
/// its first colon, trimmed. `None` when no line carries the label, or the
/// first that does has no colon.
pub open spec fn after_label(lines: Seq<Seq<char>>, prefix: Seq<char>) -> Option<Seq<char>> {
    let i = first_labelled(lines, prefix, 0);
    if i >= lines.len() {
        None
    } else {
        let l = lines[i];
        let c = index_from(l, ':', 0);
        if c >= l.len() { None } else { Some(trim(l.skip(c + 1))) }
    }
}

fn upper_chars(s: &[char]) -> (r: Vec<char>)
    ensures
        r@ == upper_seq(s@),
{
    let mut out: Vec<char> = Vec::new();
    let mut i: usize = 0;
    while i < s.len()
        invariant
            i <= s@.len(),
            out@ =~= upper_seq(s@.take(i as int)),
        decreases s@.len() - i,
    {
        let c = s[i];
        let u = if 'a' <= c && c <= 'z' { ((c as u32) - 32) as u8 as char } else { c };
        assert(u == upper(c));
        out.push(u);
        i += 1;
        assert(upper_seq(s@.take(i as int)) =~= upper_seq(s@.take(i - 1)).push(upper(c)));
    }
    assert(s@.take(i as int) =~= s@);
    out
}

impl Brief {
    fn after(&self, prefix: &str) -> (r: Option<&str>)
        ensures
            match after_label(self.lines@.map_values(|l: String| l@), prefix@) {
                Some(t) => r matches Some(s) && s@ == t,
                None => r is None,
            },
    {
        let ghost lv = self.lines@.map_values(|l: String| l@);
        let p = chars_of(prefix);
        let mut i: usize = 0;
        while i < self.lines.len()
            invariant
                i <= self.lines@.len(),
                lv == self.lines@.map_values(|l: String| l@),
                p@ == prefix@,
                first_labelled(lv, prefix@, 0) == first_labelled(lv, prefix@, i as int),
            decreases self.lines@.len() - i,
        {
            assert(lv[i as int] == self.lines@[i as int]@);
            let c = chars_of(self.lines[i].as_str());
            let u = upper_chars(c.as_slice());
            assert(c@ == lv[i as int]);
            assert(p@ == prefix@);
            if starts_with_chars(u.as_slice(), p.as_slice()) {
                assert(starts_with(upper_seq(lv[i as int]), prefix@));
                assert(first_labelled(lv, prefix@, i as int) == i);
                let line = self.lines[i].as_str();
                let colon = crate::chars::find_char(c.as_slice(), ':', 0);
                if colon >= c.len() {
                    return None;
                }
                let rest = line.substring_char(colon + 1, c.len());
                let rc = chars_of(rest);
                let (x, y) = trim_bounds(rc.as_slice());
                if x >= y {
                    let empty = rest.substring_char(0, 0);
                    proof {
                        assert(rest@ =~= lv[i as int].skip(colon + 1));
                        assert(trim(rest@).len() == 0);
                        assert(empty@ =~= trim(rest@));
                    }
                    return Some(empty);
                }
                let t = rest.substring_char(x, y);
                proof {
                    assert(rest@ =~= lv[i as int].skip(colon + 1));
                    assert(trim(rest@) =~= t@);
                }
                return Some(t);
            }
            i += 1;
        }
        None
    }

    /// The planet and the mission: what follows `PLANET` and `MISSION` (in
    /// any case) on the first lines that begin with them, after the colon,
    /// trimmed.
    pub fn headline(&self) -> (r: (Option<&str>, Option<&str>))
        ensures
            match after_label(self.lines@.map_values(|l: String| l@), "PLANET"@) {
                Some(t) => r.0 matches Some(s) && s@ == t,
                None => r.0 is None,
            },
            match after_label(self.lines@.map_values(|l: String| l@), "MISSION"@) {
                Some(t) => r.1 matches Some(s) && s@ == t,
                None => r.1 is None,
            },
    {
        (self.after("PLANET"), self.after("MISSION"))
    }
}

} // verus!
