//! `STARTUP\FONT.BIN` and `FONT.NDX`: the front end's typeface.
//!
//! 95 glyphs, one per printable ASCII character from space to `~`, each a
//! bitmap of its own width and a common height of 23. The `.NDX` is the width
//! list as text; the `.BIN` is the pixels, glyph after glyph, row major.

use vstd::prelude::*;
use crate::bytes::{chars_of, decimal, decimal_chars, string_of, wanted, wanted_bytes};
use crate::text_core::{trim, trim_chars, parse_usize, parse_usize_chars};
use crate::formats::text::{lines, views, text_lines, push_all, line_count};
use crate::formats::{Error, Result};

verus! {

pub const FIRST: u8 = 32;
pub const GLYPHS: usize = 95;
pub const HEIGHT: usize = 23;

#[derive(Debug, Clone)]
pub struct Font {
    pub widths: Vec<usize>,
    /// Where each glyph starts in `pixels`.
    offsets: Vec<usize>,
    pub pixels: Vec<u8>,
}

/// The widths an index lists: its lines that are not blank, each read as a
/// whole number, or 0 where it is not one.
pub open spec fn widths_of(lines: Seq<Seq<char>>) -> Seq<usize>
    decreases lines.len(),
{
    if lines.len() == 0 {
        Seq::empty()
    } else {
        let rest = widths_of(lines.drop_last());
        let t = trim(lines.last());
        if t.len() == 0 {
            rest
        } else {
            rest.push(match parse_usize(t) {
                Some(w) => w,
                None => 0,
            })
        }
    }
}

/// The sum of the first `n` widths.
pub open spec fn width_sum(widths: Seq<usize>, n: int) -> int
    decreases n,
{
    if n <= 0 || n > widths.len() { 0 } else { width_sum(widths, n - 1) + widths[n - 1] }
}

/// Where glyph `i` starts among the pixels: the glyphs before it, each its
/// width by the height.
pub open spec fn glyph_start(widths: Seq<usize>, i: int) -> int {
    width_sum(widths, i) * HEIGHT
}

/// `{n} widths`.
pub open spec fn wanted_widths(n: nat) -> Seq<char> {
    decimal(n) + seq![' ', 'w', 'i', 'd', 't', 'h', 's']
}

/// Why a font does not read: the index's count of widths, or the bitmap's
/// size against what the widths call for.
pub enum FontFault {
    Index { have: int },
    Bitmap { want: int, have: int },
}

/// The font a `.NDX` and `.BIN` make, as its widths, or why not.
pub open spec fn font_of(index: Seq<u8>, bitmap: Seq<u8>) -> core::result::Result<Seq<usize>, FontFault> {
    let widths = widths_of(text_lines(index));
    if widths.len() != GLYPHS {
        Err(FontFault::Index { have: widths.len() as int })
    } else if width_sum(widths, GLYPHS as int) * HEIGHT != bitmap.len() {
        Err(FontFault::Bitmap { want: width_sum(widths, GLYPHS as int) * HEIGHT, have: bitmap.len() as int })
    } else {
        Ok(widths)
    }
}

pub open spec fn font_error(e: Error, f: FontFault) -> bool {
    match f {
        FontFault::Index { have } => e matches Error::WrongSize { what, want, have: h } && what == "font index"
            && want@ == wanted_widths(GLYPHS as nat) && h == have,
        FontFault::Bitmap { want, have } => e matches Error::WrongSize { what, want: w, have: h } && what == "font bitmap"
            && w@ == wanted_bytes(want as nat) && h == have,
    }
}

proof fn lemma_sum_grows(widths: Seq<usize>, i: int, n: int)
    requires
        0 <= i <= n <= widths.len(),
    ensures
        0 <= width_sum(widths, i) <= width_sum(widths, n),
    decreases n - i,
{
    if i < n {
        lemma_sum_grows(widths, i, n - 1);
    } else {
        lemma_sum_nonneg(widths, i);
    }
}

proof fn lemma_sum_nonneg(widths: Seq<usize>, i: int)
    ensures
        0 <= width_sum(widths, i),
    decreases i,
{
    if i > 0 {
        lemma_sum_nonneg(widths, i - 1);
    }
}

impl Font {
    /// The widths, as values.
    pub closed spec fn widths_seq(&self) -> Seq<usize> {
        self.widths@
    }

    /// The pixels, as values.
    pub closed spec fn pixels_seq(&self) -> Seq<u8> {
        self.pixels@
    }

    /// Whether the glyph offsets are the running sums of the widths and the
    /// pixels are exactly as many as they call for.
    pub closed spec fn well_formed(&self) -> bool {
        &&& self.widths_seq().len() == GLYPHS
        &&& self.offsets@.len() == GLYPHS + 1
        &&& forall|i: int| 0 <= i <= GLYPHS ==> #[trigger] self.offsets@[i] == glyph_start(self.widths_seq(), i)
        &&& glyph_start(self.widths_seq(), GLYPHS as int) == self.pixels_seq().len()
    }

    /// The widths on the index's non-blank lines, 0 where one is not a
    /// number.
    fn widths_in(index: &[u8]) -> (widths: Vec<usize>)
        ensures
            widths@ == widths_of(text_lines(index@)),
    {
        let ls = lines(index);
        let ghost lv = views(ls@);
        let mut widths: Vec<usize> = Vec::new();
        let mut i: usize = 0;
        while i < ls.len()
            invariant
                i <= ls@.len(),
                lv == views(ls@),
                widths@ == widths_of(lv.take(i as int)),
            decreases ls@.len() - i,
        {
            assert(lv.take(i + 1).drop_last() =~= lv.take(i as int));
            assert(lv[i as int] == ls@[i as int]@);
            let c = chars_of(ls[i].as_str());
            let t = trim_chars(c.as_slice());
            if t.len() > 0 {
                let w = match parse_usize_chars(t.as_slice()) {
                    Some(w) => w,
                    None => 0,
                };
                widths.push(w);
            }
            i += 1;
        }
        assert(lv.take(i as int) =~= lv);
        widths
    }

    /// Reads a font as [`Font::parse`] does, first making sure that the
    /// bitmap size the widths call for fits a `usize`: `None` where it does
    /// not.
    pub fn parse_checked(index: &[u8], bitmap: &[u8]) -> (r: Option<Result<Font>>)
        ensures
            ({
                let w = widths_of(text_lines(index@));
                if w.len() == GLYPHS && width_sum(w, GLYPHS as int) * HEIGHT > usize::MAX {
                    r is None
                } else {
                    r matches Some(res) && match font_of(index@, bitmap@) {
                        Ok(widths) => res matches Ok(f) && f.widths_seq() == widths && f.pixels_seq() == bitmap@ && f.well_formed(),
                        Err(fault) => res matches Err(e) && font_error(e, fault),
                    }
                }
            }),
    {
        let widths = Self::widths_in(index);
        if widths.len() == GLYPHS {
            let mut total: u128 = 0;
            let mut k: usize = 0;
            while k < GLYPHS
                invariant
                    k <= GLYPHS,
                    widths@.len() == GLYPHS,
                    total == width_sum(widths@, k as int),
                    total <= k * 0xffff_ffff_ffff_ffffu128,
                decreases GLYPHS - k,
            {
                total = total + widths[k] as u128;
                k += 1;
            }
            if total * (HEIGHT as u128) > usize::MAX as u128 {
                return None;
            }
        }
        Some(Self::parse(index, bitmap))
    }

    /// `index` is the `.NDX` text, `bitmap` the `.BIN` bytes: the index's
    /// non-blank lines are the widths (0 where one is not a number), 95 of
    /// them, and the bitmap is their sum times the height in bytes.
    pub fn parse(index: &[u8], bitmap: &[u8]) -> (r: Result<Font>)
        requires
            widths_of(text_lines(index@)).len() == GLYPHS ==> width_sum(widths_of(text_lines(index@)), GLYPHS as int) * HEIGHT <= usize::MAX,
        ensures
            match font_of(index@, bitmap@) {
                Ok(widths) => r matches Ok(f) && f.widths_seq() == widths && f.pixels_seq() == bitmap@ && f.well_formed(),
                Err(fault) => r matches Err(e) && font_error(e, fault),
            },
    {
        let widths = Self::widths_in(index);
        if widths.len() != GLYPHS {
            let mut want = decimal_chars(GLYPHS as u128);
            let unit = [' ', 'w', 'i', 'd', 't', 'h', 's'];
            push_all(&mut want, &unit);
            assert(unit@ =~= seq![' ', 'w', 'i', 'd', 't', 'h', 's']);
            return Err(Error::WrongSize { what: "font index", want: string_of(want.as_slice()), have: widths.len() });
        }
        let mut offsets: Vec<usize> = Vec::new();
        let mut at: usize = 0;
        let mut k: usize = 0;
        while k < GLYPHS
            invariant
                k <= GLYPHS,
                widths@.len() == GLYPHS,
                width_sum(widths@, GLYPHS as int) * HEIGHT <= usize::MAX,
                at == glyph_start(widths@, k as int),
                offsets@.len() == k,
                forall|j: int| 0 <= j < k ==> #[trigger] offsets@[j] == glyph_start(widths@, j),
            decreases GLYPHS - k,
        {
            proof {
                lemma_sum_grows(widths@, (k + 1) as int, GLYPHS as int);
                assert(width_sum(widths@, (k + 1) as int) * HEIGHT <= width_sum(widths@, GLYPHS as int) * HEIGHT) by (nonlinear_arith)
                    requires width_sum(widths@, (k + 1) as int) <= width_sum(widths@, GLYPHS as int);
            }
            offsets.push(at);
            at = at + widths[k] * HEIGHT;
            k += 1;
        }
        offsets.push(at);
        if bitmap.len() != at {
            return Err(Error::WrongSize { what: "font bitmap", want: wanted(at as u128), have: bitmap.len() });
        }
        let f = Font { widths, offsets, pixels: vstd::slice::slice_to_vec(bitmap) };
        assert(f.well_formed());
        Ok(f)
    }

    /// Which glyph a character is: space to `~`.
    fn slot(&self, ch: char) -> (r: Option<usize>)
        ensures
            match r {
                Some(i) => 32 <= ch as u32 && (ch as u32) < 32 + GLYPHS && i == ch as u32 - 32,
                None => !(32 <= ch as u32 && (ch as u32) < 32 + GLYPHS),
            },
    {
        let byte = ch as u32;
        if byte < FIRST as u32 || byte >= FIRST as u32 + GLYPHS as u32 {
            return None;
        }
        Some((byte - FIRST as u32) as usize)
    }

    /// A character's width: its glyph's, or 0 for one the font lacks.
    pub fn width_of(&self, ch: char) -> (r: usize)
        requires
            self.well_formed(),
        ensures
            r == char_width(self.widths_seq(), ch),
    {
        match self.slot(ch) {
            Some(i) => self.widths[i],
            None => 0,
        }
    }

    /// A string's width: the sum of its characters'.
    pub fn measure(&self, text: &str) -> (r: usize)
        requires
            self.well_formed(),
            text_width(self.widths_seq(), text@) <= usize::MAX,
        ensures
            r == text_width(self.widths_seq(), text@),
    {
        let chars = chars_of(text);
        let mut total: usize = 0;
        let mut i: usize = 0;
        while i < chars.len()
            invariant
                self.well_formed(),
                chars@ == text@,
                i <= chars@.len(),
                text_width(self.widths@, text@) <= usize::MAX,
                total == text_width(self.widths@, chars@.take(i as int)),
            decreases chars@.len() - i,
        {
            assert(chars@.take(i + 1).drop_last() =~= chars@.take(i as int));
            proof {
                lemma_text_width_grows(self.widths@, chars@, i + 1, chars@.len() as int);
                assert(chars@.take(chars@.len() as int) =~= chars@);
            }
            total = total + self.width_of(chars[i]);
            i += 1;
        }
        assert(chars@.take(i as int) =~= chars@);
        total
    }

    /// The glyph's pixels, row major, `width_of(ch)` wide and [`HEIGHT`] tall.
    pub fn glyph(&self, ch: char) -> (r: Option<(&[u8], usize)>)
        requires
            self.well_formed(),
        ensures
            match r {
                Some((pixels, w)) => 32 <= ch as u32 && (ch as u32) < 32 + GLYPHS && w == self.widths_seq()[ch as u32 - 32]
                    && pixels@.len() == w * HEIGHT
                    && pixels@ == self.pixels_seq().subrange(glyph_start(self.widths_seq(), ch as u32 - 32), glyph_start(self.widths_seq(), ch as u32 - 32) + w * HEIGHT),
                None => !(32 <= ch as u32 && (ch as u32) < 32 + GLYPHS),
            },
    {
        let i = match self.slot(ch) {
            Some(i) => i,
            None => return None,
        };
        proof {
            lemma_sum_grows(self.widths@, i as int, (i + 1) as int);
            lemma_sum_grows(self.widths@, (i + 1) as int, GLYPHS as int);
            assert(width_sum(self.widths@, (i + 1) as int) * HEIGHT <= width_sum(self.widths@, GLYPHS as int) * HEIGHT) by (nonlinear_arith)
                requires width_sum(self.widths@, (i + 1) as int) <= width_sum(self.widths@, GLYPHS as int);
            assert(self.offsets@[i as int] == glyph_start(self.widths@, i as int));
            assert(self.offsets@[i + 1] == glyph_start(self.widths@, i + 1));
        }
        let (from, to) = (self.offsets[i], self.offsets[i + 1]);
        let pixels = &self.pixels.as_slice()[from..to];
        Some((pixels, self.widths[i]))
    }
}

/// A character's width in a font: its glyph's, or 0 for one it lacks.
pub open spec fn char_width(widths: Seq<usize>, ch: char) -> int {
    if 32 <= ch as u32 && (ch as u32) < 32 + GLYPHS { widths[ch as u32 - 32] as int } else { 0 }
}

/// A string's width: the sum of its characters'.
pub open spec fn text_width(widths: Seq<usize>, text: Seq<char>) -> int
    decreases text.len(),
{
    if text.len() == 0 { 0 } else { text_width(widths, text.drop_last()) + char_width(widths, text.last()) }
}

/// Measuring two strings one after the other is measuring each and adding:
/// the width of `a` then `b` is the width of `a` and the width of `b`.
pub proof fn law_width_adds(widths: Seq<usize>, a: Seq<char>, b: Seq<char>)
    ensures
        text_width(widths, a + b) == text_width(widths, a) + text_width(widths, b),
        text_width(widths, Seq::empty()) == 0,
    decreases b.len(),
{
    if b.len() == 0 {
        assert(a + b =~= a);
    } else {
        law_width_adds(widths, a, b.drop_last());
        assert((a + b).drop_last() =~= a + b.drop_last());
        assert((a + b).last() == b.last());
    }
}

proof fn lemma_text_width_grows(widths: Seq<usize>, text: Seq<char>, i: int, n: int)
    requires
        0 <= i <= n <= text.len(),
    ensures
        text_width(widths, text.take(i)) <= text_width(widths, text.take(n)),
    decreases n - i,
{
    if i < n {
        lemma_text_width_grows(widths, text, i, n - 1);
        assert(text.take(n).drop_last() =~= text.take(n - 1));
    }
}

/// Whether a character has a glyph: space to `~`.
pub open spec fn has_glyph(ch: char) -> bool {
    32 <= ch as u32 && (ch as u32) < 32 + GLYPHS
}

/// What a glyph `w` wide, with its pen at column `pen` and its top at row
/// `y`, puts on pixel `p` of a target `stride` by `height`: the glyph's
/// pixel there where it is not zero.
pub open spec fn cell_value(glyph: Seq<u8>, w: int, pen: int, y: int, stride: int, height: int, p: int) -> Option<u8> {
    let ty = p / stride;
    let row = ty - y;
    let col = p % stride - pen;
    if stride > 0 && p >= 0 && ty < height && 0 <= row < HEIGHT && 0 <= col < w && glyph[row * w + col] != 0 {
        Some(glyph[row * w + col])
    } else {
        None
    }
}

/// What character `k` of a text puts on pixel `p`: its glyph's pixel, the
/// pen moved on by the widths of the characters before it.
pub open spec fn char_ink(widths: Seq<usize>, pixels: Seq<u8>, text: Seq<char>, x: int, y: int, stride: int, height: int, k: int, p: int) -> Option<u8> {
    if 0 <= k < text.len() && has_glyph(text[k]) {
        let i = text[k] as u32 - 32;
        let w = widths[i] as int;
        let start = glyph_start(widths, i);
        cell_value(pixels.subrange(start, start + w * HEIGHT), w, x + text_width(widths, text.take(k)), y, stride, height, p)
    } else {
        None
    }
}

/// Every pixel a text inks lies inside the `stride` by `height` target: a
/// target at least that long takes any text, wherever it is put.
pub proof fn law_ink_stays_inside(
    widths: Seq<usize>,
    pixels: Seq<u8>,
    text: Seq<char>,
    x: int,
    y: int,
    stride: int,
    height: int,
    k: int,
    p: int,
)
    requires
        char_ink(widths, pixels, text, x, y, stride, height, k, p) is Some,
    ensures
        0 <= p < stride * height,
{
    let q = p / stride;
    let m = p % stride;
    vstd::arithmetic::div_mod::lemma_fundamental_div_mod(p, stride);
    vstd::arithmetic::div_mod::lemma_mod_bound(p, stride);
    assert(p < stride * height) by (nonlinear_arith)
        requires
            stride > 0,
            q < height,
            p == stride * q + m,
            m < stride;
}

/// The colour a drawn pixel takes: `recolour`, or the glyph's own.
pub open spec fn painted(recolour: Option<u8>, v: u8) -> u8 {
    match recolour {
        Some(c) => c,
        None => v,
    }
}

/// Put one glyph into the target, its pen at `pen` and its top at `y`.
fn draw_cell(target: &mut [u8], glyph: &[u8], w: usize, stride: usize, height: usize, pen: isize, y: isize, recolour: Option<u8>)
    requires
        glyph@.len() == w * HEIGHT,
        stride <= isize::MAX,
        height <= isize::MAX,
        pen + w <= isize::MAX,
        y + HEIGHT <= isize::MAX,
        forall|p: int| #[trigger] cell_value(glyph@, w as int, pen as int, y as int, stride as int, height as int, p) is Some ==> p < old(target)@.len(),
    ensures
        final(target)@.len() == old(target)@.len(),
        forall|p: int| 0 <= p < old(target)@.len() ==> #[trigger] final(target)@[p] == match cell_value(glyph@, w as int, pen as int, y as int, stride as int, height as int, p) {
            Some(v) => painted(recolour, v),
            None => old(target)@[p],
        },
{
    let ghost before = target@;
    let ghost (pi, yi, si, hi) = (pen as int, y as int, stride as int, height as int);
    let n = target.len();
    let glen = glyph.len();
    let mut gy: usize = 0;
    while gy < HEIGHT
        invariant
            glyph@.len() == w * HEIGHT,
            glen == glyph@.len(),
            target@.len() == before.len(),
            n == before.len(),
            pi == pen && yi == y && si == stride && hi == height,
            stride <= isize::MAX && height <= isize::MAX,
            pen + w <= isize::MAX,
            y + HEIGHT <= isize::MAX,
            forall|p: int| #[trigger] cell_value(glyph@, w as int, pi, yi, si, hi, p) is Some ==> p < before.len(),
            gy <= HEIGHT,
            forall|p: int| 0 <= p < before.len() ==> #[trigger] target@[p] == match cell_value(glyph@, w as int, pi, yi, si, hi, p) {
                Some(v) => if p / si - yi < gy { painted(recolour, v) } else { before[p] },
                None => before[p],
            },
        decreases HEIGHT - gy,
    {
        let ty = y + gy as isize;
        let mut gx: usize = 0;
        while gx < w
            invariant
                glyph@.len() == w * HEIGHT,
                glen == glyph@.len(),
                target@.len() == before.len(),
                n == before.len(),
                pi == pen && yi == y && si == stride && hi == height,
                stride <= isize::MAX && height <= isize::MAX,
                pen + w <= isize::MAX,
                forall|p: int| #[trigger] cell_value(glyph@, w as int, pi, yi, si, hi, p) is Some ==> p < before.len(),
                gy < HEIGHT,
                ty == y + gy,
                gx <= w,
                forall|p: int| 0 <= p < before.len() ==> #[trigger] target@[p] == match cell_value(glyph@, w as int, pi, yi, si, hi, p) {
                    Some(v) => if p / si - yi < gy || (p / si - yi == gy && p % si - pi < gx) { painted(recolour, v) } else { before[p] },
                    None => before[p],
                },
            decreases w - gx,
        {
            assert(gy * w + gx < w * HEIGHT) by (nonlinear_arith)
                requires gy < 23, gx < w;
            assert(gx <= isize::MAX);
            let tx = pen + gx as isize;
            let value = glyph[gy * w + gx];
            if ty >= 0 && ty < height as isize && tx >= 0 && tx < stride as isize && value != 0 {
                let ghost q = ty * si + tx;
                proof {
                    crate::render::hud::lemma_place(q, si, ty as int, tx as int);
                    assert(cell_value(glyph@, w as int, pi, yi, si, hi, q) == Some(value));
                    assert(0 <= ty * si) by (nonlinear_arith) requires ty >= 0, si >= 0;
                }
                let at = ty as usize * stride + tx as usize;
                let colour = match recolour {
                    Some(c) => c,
                    None => value,
                };
                proof {
                    assert forall|p: int| 0 <= p < before.len() && p != q implies
                        (cell_value(glyph@, w as int, pi, yi, si, hi, p) is Some && p / si - yi == gy && p % si - pi == gx) == false by {
                        if cell_value(glyph@, w as int, pi, yi, si, hi, p) is Some && p / si - yi == gy && p % si - pi == gx {
                            vstd::arithmetic::div_mod::lemma_fundamental_div_mod(p, si);
                            vstd::arithmetic::mul::lemma_mul_is_commutative(si, ty as int);
                        }
                    }
                }
                target[at] = colour;
            } else {
                proof {
                    assert forall|p: int| 0 <= p < before.len() implies
                        (cell_value(glyph@, w as int, pi, yi, si, hi, p) is Some && p / si - yi == gy && p % si - pi == gx) == false by {
                        if cell_value(glyph@, w as int, pi, yi, si, hi, p) is Some && p / si - yi == gy && p % si - pi == gx {
                            vstd::arithmetic::div_mod::lemma_fundamental_div_mod(p, si);
                            vstd::arithmetic::div_mod::lemma_mod_bound(p, si);
                            vstd::arithmetic::mul::lemma_mul_is_commutative(si, ty as int);
                        }
                    }
                }
            }
            gx += 1;
        }
        gy += 1;
    }
}

/// Where a character's glyph ends, its pen moved on by its width, lies no
/// further than where any later character's glyph begins.
proof fn lemma_pens_apart(widths: Seq<usize>, text: Seq<char>, j: int, k: int)
    requires
        0 <= j < k <= text.len(),
    ensures
        text_width(widths, text.take(j)) + char_width(widths, text[j]) <= text_width(widths, text.take(k)),
{
    lemma_text_width_grows(widths, text, j + 1, k);
    assert(text.take(j + 1).drop_last() =~= text.take(j));
}

impl Font {
    /// Draw into an 8-bit buffer, treating index 0 as transparent: every
    /// non-zero pixel of every glyph that lands inside the target takes its
    /// value, or `recolour` where there is one, and nothing else changes. The
    /// pen moves on by each glyph's width; the result is how far it went.
    pub fn draw(&self, target: &mut [u8], stride: usize, height: usize, x: isize, y: isize, text: &str, recolour: Option<u8>) -> (r: usize)
        requires
            self.well_formed(),
            stride <= isize::MAX,
            height <= isize::MAX,
            x + text_width(self.widths_seq(), text@) <= isize::MAX,
            text_width(self.widths_seq(), text@) <= isize::MAX,
            y + HEIGHT <= isize::MAX,
            forall|k: int, p: int| #[trigger] char_ink(self.widths_seq(), self.pixels_seq(), text@, x as int, y as int, stride as int, height as int, k, p) is Some ==> p < old(target)@.len(),
        ensures
            r == text_width(self.widths_seq(), text@),
            final(target)@.len() == old(target)@.len(),
            forall|k: int, p: int| 0 <= p < old(target)@.len() && #[trigger] char_ink(self.widths_seq(), self.pixels_seq(), text@, x as int, y as int, stride as int, height as int, k, p) is Some
                ==> final(target)@[p] == painted(recolour, char_ink(self.widths_seq(), self.pixels_seq(), text@, x as int, y as int, stride as int, height as int, k, p)->0),
            forall|p: int| 0 <= p < old(target)@.len() && (forall|k: int| #[trigger] char_ink(self.widths_seq(), self.pixels_seq(), text@, x as int, y as int, stride as int, height as int, k, p) is None)
                ==> final(target)@[p] == old(target)@[p],
    {
        let ghost ws = self.widths@;
        let ghost px = self.pixels@;
        let ghost before = target@;
        let ghost t = text@;
        let ghost (xi, yi, si, hi) = (x as int, y as int, stride as int, height as int);
        let chars = chars_of(text);
        let mut pen = x;
        let mut k: usize = 0;
        while k < chars.len()
            invariant
                self.well_formed(),
                ws == self.widths_seq() && px == self.pixels_seq(),
                chars@ == t,
                t == text@,
                target@.len() == before.len(),
                xi == x && yi == y && si == stride && hi == height,
                stride <= isize::MAX && height <= isize::MAX,
                x + text_width(ws, t) <= isize::MAX,
                text_width(ws, t) <= isize::MAX,
                y + HEIGHT <= isize::MAX,
                forall|j: int, p: int| #[trigger] char_ink(ws, px, t, xi, yi, si, hi, j, p) is Some ==> p < before.len(),
                k <= chars@.len(),
                pen == x + text_width(ws, t.take(k as int)),
                forall|j: int, p: int| 0 <= j < k && 0 <= p < before.len() && #[trigger] char_ink(ws, px, t, xi, yi, si, hi, j, p) is Some
                    ==> target@[p] == painted(recolour, char_ink(ws, px, t, xi, yi, si, hi, j, p)->0),
                forall|p: int| 0 <= p < before.len() && (forall|j: int| 0 <= j < k ==> #[trigger] char_ink(ws, px, t, xi, yi, si, hi, j, p) is None)
                    ==> target@[p] == before[p],
            decreases chars@.len() - k,
        {
            proof {
                lemma_text_width_grows(ws, t, k + 1, t.len() as int);
                assert(t.take(t.len() as int) =~= t);
                assert(t.take(k + 1).drop_last() =~= t.take(k as int));
                lemma_text_width_grows(ws, t, 0, k as int);
                assert(t.take(0) =~= Seq::<char>::empty());
            }
            let c = chars[k];
            match self.glyph(c) {
                None => {
                    proof {
                        assert(t.take(k + 1).last() == c);
                        assert(char_width(ws, c) == 0);
                        assert forall|p: int| 0 <= p < before.len() && (forall|j: int| 0 <= j < k + 1 ==> #[trigger] char_ink(ws, px, t, xi, yi, si, hi, j, p) is None)
                            implies target@[p] == before[p] by {
                            assert forall|j: int| 0 <= j < k implies #[trigger] char_ink(ws, px, t, xi, yi, si, hi, j, p) is None by {
                                assert(0 <= j < k + 1);
                            }
                        }
                    }
                },
                Some((glyph, w)) => {
                    let ghost mid = target@;
                    proof {
                        assert(t.take(k + 1).last() == c);
                        assert forall|p: int| #[trigger] cell_value(glyph@, w as int, pen as int, yi, si, hi, p) is Some implies p < mid.len() by {
                            assert(char_ink(ws, px, t, xi, yi, si, hi, k as int, p) is Some);
                        }
                        assert(w * HEIGHT == glyph@.len());
                        assert(char_width(ws, c) == w);
                    }
                    let glen = glyph.len();
                    assert(w <= isize::MAX);
                    draw_cell(target, glyph, w, stride, height, pen, y, recolour);
                    proof {
                        assert forall|j: int, p: int| 0 <= j < k + 1 && 0 <= p < before.len() && #[trigger] char_ink(ws, px, t, xi, yi, si, hi, j, p) is Some
                            implies target@[p] == painted(recolour, char_ink(ws, px, t, xi, yi, si, hi, j, p)->0) by {
                            if j < k {
                                lemma_pens_apart(ws, t, j, k as int);
                                assert(cell_value(glyph@, w as int, pen as int, yi, si, hi, p) is None);
                            } else {
                                assert(char_ink(ws, px, t, xi, yi, si, hi, j, p) == cell_value(glyph@, w as int, pen as int, yi, si, hi, p));
                            }
                        }
                        assert forall|p: int| 0 <= p < before.len() && (forall|j: int| 0 <= j < k + 1 ==> #[trigger] char_ink(ws, px, t, xi, yi, si, hi, j, p) is None)
                            implies target@[p] == before[p] by {
                            assert(char_ink(ws, px, t, xi, yi, si, hi, k as int, p) is None);
                            assert forall|j: int| 0 <= j < k implies #[trigger] char_ink(ws, px, t, xi, yi, si, hi, j, p) is None by {
                                assert(0 <= j < k + 1);
                            }
                        }
                    }
                    pen += w as isize;
                },
            }
            k += 1;
        }
        proof {
            assert(t.take(k as int) =~= t);
            lemma_text_width_grows(ws, t, 0, t.len() as int);
            assert(t.take(0) =~= Seq::<char>::empty());
            assert forall|j: int, p: int| 0 <= p < before.len() && #[trigger] char_ink(ws, px, t, xi, yi, si, hi, j, p) is Some
                implies target@[p] == painted(recolour, char_ink(ws, px, t, xi, yi, si, hi, j, p)->0) by {
                assert(0 <= j < k);
            }
            assert forall|p: int| 0 <= p < before.len() && (forall|j: int| #[trigger] char_ink(ws, px, t, xi, yi, si, hi, j, p) is None)
                implies target@[p] == before[p] by {
                assert forall|j: int| 0 <= j < k implies #[trigger] char_ink(ws, px, t, xi, yi, si, hi, j, p) is None by {}
            }
        }
        (pen - x) as usize
    }
}

} // verus!
