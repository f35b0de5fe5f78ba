//! The readouts, gauges and labels the engine paints over the cockpit.
//!
//! The layout is a table of twelve boxes at `0x5052d0`, four values each -
//! x, y, width, height - in the 640x480 the HUD is designed for. Every use
//! scales them to the view it is drawing into, so the same numbers serve all
//! three of the game's screen sizes.

use vstd::prelude::*;
use crate::bytes::{chars_of, string_of, signed_decimal, signed_decimal_chars};
use crate::formats::hud_font::{glyphs_view, text_width, inked, glyphs_whole, GlyphView, HudFont, LINE, ROWS};
use crate::formats::raw::Image;
use crate::render::raster::{toward_zero, plot, plotted, inside, lemma_pixel_in};
use crate::text_core::{words, words_chars};

verus! {

/// The twelve boxes, in 640x480. 3 and 5 are dead.
pub const BOXES: [[isize; 4]; 12] = [
    [312, 3, 80, 17],
    [140, 36, 110, 17],
    [312, 24, 80, 17],
    [514, 96, 88, 17],
    [140, 13, 110, 17],
    [310, 7, 70, 17],
    [50, 373, 14, 50],
    [21, 373, 14, 50],
    [79, 373, 14, 50],
    [547, 373, 14, 50],
    [576, 373, 14, 50],
    [605, 373, 14, 50],
];

pub const OBJECTIVE: usize = 0;
pub const AMMO: usize = 1;
pub const DISTANCE: usize = 2;
pub const WEAPON: usize = 4;

/// What the objective line says, by the mission point's kind (`0x505478`).
pub const OBJECTIVES: [&'static str; 12] = [
    "TGT", "TUN", "CHK", "JMP", "EXT", "GRD", "STR", "EST", "MSG", "RES", "PLY", "BCN",
];

/// The gauges, in the order the routine draws them: which box, where its
/// palette ramp starts, and how many bands it has.
pub const GAUGES: [(usize, u8, isize); 6] =
    [(6, 0x61, 14), (7, 0x81, 14), (8, 0x21, 30), (9, 0x91, 10), (10, 0xa1, 14), (11, 0xb1, 14)];

/// What each gauge is called, in [`GAUGES`] order.
pub const GAUGE_NAMES: [&'static str; 6] = [
    "Speed",
    "Hull Integrity",
    "Turbo Fuel",
    "Weapon Energy",
    "Ship Energy",
    "Shield Energy",
];

/// What the readouts are written in (`0x44e6f4`).
pub const INK: u8 = 0x2f;

/// What a gauge's empty part is filled with (`0x44e59c`).
pub const EMPTY: u8 = 1;

/// The radar: a square at 507, 6 in 640x480, 101 on a side.
pub const RADAR: [isize; 4] = [507, 6, 101, 101];

/// What the objective arrow is drawn in, ahead and behind.
pub const ARROW_AHEAD: u8 = 101;
pub const ARROW_BEHIND: u8 = 152;

/// What a blip is drawn in when its class is one the guns count as a target,
/// and when it is not.
pub const BLIP_TARGET: u8 = 0x3f;
pub const BLIP_OTHER: u8 = 0x94;

/// The classes the engine counts as targets (`0x40dc00`).
pub open spec fn target_class(class: i64) -> bool {
    class == 0 || class == 1 || class == 3 || class == 5 || class == 6 || (9 <= class <= 15)
        || (19 <= class <= 24) || class == 27 || class == 30 || class == 31 || class == 33 || class == 34
        || class == 36 || class == 37 || class == 41 || class == 42 || class == 45 || class == 47
        || class == 61 || class == 62
}

/// Whether the guns count a class as a target.
pub fn is_target(class: i64) -> (r: bool)
    ensures
        r == target_class(class),
{
    class == 0 || class == 1 || class == 3 || class == 5 || class == 6 || (9 <= class && class <= 15)
        || (19 <= class && class <= 24) || class == 27 || class == 30 || class == 31 || class == 33 || class == 34
        || class == 36 || class == 37 || class == 41 || class == 42 || class == 45 || class == 47
        || class == 61 || class == 62
}

/// A cockpit label: where its callout is in 640x480, what it says, whether its
/// boxes hang to the left of the callout, and the box its leader points at.
#[derive(Debug, Clone, Copy)]
pub struct Label {
    pub at: (isize, isize),
    pub text: &'static str,
    pub right: bool,
    pub leader: Option<usize>,
}

/// The labels, in the order `0x44f000` draws them. The three on the right of
/// the screen hang their boxes to the left of the callout; the rest run right
/// from it.
pub open spec fn label_table() -> Seq<Label> {
    seq![
        Label { at: (23isize, 250isize), text: "Hull Integrity", right: false, leader: Some(7usize) },
        Label { at: (51, 290), text: "Speed", right: false, leader: Some(6) },
        Label { at: (81, 330), text: "Turbo Fuel", right: false, leader: Some(8) },
        Label { at: (562, 330), text: "Weapon Energy", right: true, leader: Some(9) },
        Label { at: (590, 290), text: "Ship Energy", right: true, leader: Some(10) },
        Label { at: (621, 250), text: "Shield Energy", right: true, leader: Some(11) },
        Label { at: (380, 135), text: "Objective Direction", right: false, leader: None },
        Label { at: (200, 77), text: "Objective Abbreviation", right: false, leader: None },
        Label { at: (200, 77), text: "Distance to Objective", right: false, leader: None },
        Label { at: (20, 85), text: "Current Weapon", right: false, leader: None },
        Label { at: (20, 85), text: "Shots left", right: false, leader: None },
    ]
}

/// The labels, in the order `0x44f000` draws them.
pub fn labels() -> (r: [Label; 11])
    ensures
        r@ == label_table(),
{
    let r = [
        Label { at: (23, 250), text: "Hull Integrity", right: false, leader: Some(7) },
        Label { at: (51, 290), text: "Speed", right: false, leader: Some(6) },
        Label { at: (81, 330), text: "Turbo Fuel", right: false, leader: Some(8) },
        Label { at: (562, 330), text: "Weapon Energy", right: true, leader: Some(9) },
        Label { at: (590, 290), text: "Ship Energy", right: true, leader: Some(10) },
        Label { at: (621, 250), text: "Shield Energy", right: true, leader: Some(11) },
        Label { at: (380, 135), text: "Objective Direction", right: false, leader: None },
        Label { at: (200, 77), text: "Objective Abbreviation", right: false, leader: None },
        Label { at: (200, 77), text: "Distance to Objective", right: false, leader: None },
        Label { at: (20, 85), text: "Current Weapon", right: false, leader: None },
        Label { at: (20, 85), text: "Shots left", right: false, leader: None },
    ];
    assert(r@ =~= label_table());
    r
}

/// A box of the layout scaled into a view: each coordinate times the view's
/// width over 640 or height over 480, rounded down.
pub open spec fn scaled_box(b: Seq<isize>, width: int, height: int) -> (isize, isize, isize, isize) {
    ((b[0] * width / 640) as isize, (b[1] * height / 480) as isize, (b[2] * width / 640) as isize, (b[3] * height / 480) as isize)
}

/// One box, scaled into a view of this size.
pub fn box_of(slot: usize, width: usize, height: usize) -> (r: (isize, isize, isize, isize))
    requires
        slot < 12,
        BOXES[slot as int][0] * width <= isize::MAX,
        BOXES[slot as int][1] * height <= isize::MAX,
        BOXES[slot as int][2] * width <= isize::MAX,
        BOXES[slot as int][3] * height <= isize::MAX,
    ensures
        r == scaled_box(BOXES[slot as int]@, width as int, height as int),
{
    let b = BOXES[slot];
    assert(0 <= b[0] <= 640 && 0 <= b[1] <= 480 && 0 <= b[2] <= 640 && 0 <= b[3] <= 480);
    assert(b[0] >= 21 && b[1] >= 3);
    assert(width <= isize::MAX) by (nonlinear_arith)
        requires b[0] >= 1, b[0] * width <= isize::MAX, width >= 0;
    assert(height <= isize::MAX) by (nonlinear_arith)
        requires b[1] >= 1, b[1] * height <= isize::MAX, height >= 0;
    let (w, h) = (width as isize, height as isize);
    assert(0 <= b[0] * w && 0 <= b[1] * h && 0 <= b[2] * w && 0 <= b[3] * h) by (nonlinear_arith)
        requires 0 <= b[0], 0 <= b[1], 0 <= b[2], 0 <= b[3], 0 <= w, 0 <= h;
    (b[0] * w / 640, b[1] * h / 480, b[2] * w / 640, b[3] * h / 480)
}

/// The rows a rectangle covers inside a frame: from the larger of `y` and 0
/// to the smaller of `y + h` and the height; likewise the columns.
pub open spec fn span_from(v: int) -> int {
    if v > 0 { v } else { 0 }
}

pub open spec fn span_to(v: int, n: int) -> int {
    if v < n { v } else { n }
}

/// Whether pixel `p` of a frame `width` across is inside the rectangle, once
/// it is cut to the frame.
pub open spec fn covers(p: int, width: int, height: int, x: int, y: int, w: int, h: int) -> bool {
    &&& width > 0
    &&& 0 <= p
    &&& span_from(y) <= p / width < span_to(y + h, height)
    &&& span_from(x) <= p % width < span_to(x + w, width)
}

/// A frame with a rectangle filled, cut to the frame.
pub open spec fn filled(frame: Seq<u8>, width: int, height: int, x: int, y: int, w: int, h: int, colour: u8) -> Seq<u8> {
    Seq::new(frame.len(), |p: int| if covers(p, width, height, x, y, w, h) { colour } else { frame[p] })
}

/// Whether a filled rectangle, cut to the frame, lies inside the buffer and
/// its edges stay in an `isize`.
pub open spec fn fill_fits(len: int, width: int, height: int, x: int, y: int, w: int, h: int) -> bool {
    &&& width <= isize::MAX && height <= isize::MAX
    &&& isize::MIN <= x + w <= isize::MAX && isize::MIN <= y + h <= isize::MAX
    &&& (span_from(y) < span_to(y + h, height) && span_from(x) < span_to(x + w, width))
        ==> (span_to(y + h, height) - 1) * width + span_to(x + w, width) <= len
}

pub proof fn lemma_place(p: int, width: int, row: int, col: int)
    requires
        width > 0,
        0 <= col < width,
        p == row * width + col,
    ensures
        p / width == row,
        p % width == col,
{
    vstd::arithmetic::div_mod::lemma_fundamental_div_mod_converse(p, width, row, col);
}

/// Fill a rectangle of a frame `width` by `height`, cut to the frame.
pub fn fill(frame: &mut [u8], width: usize, height: usize, x: isize, y: isize, w: isize, h: isize, colour: u8)
    requires
        fill_fits(old(frame)@.len() as int, width as int, height as int, x as int, y as int, w as int, h as int),
    ensures
        final(frame)@ == filled(old(frame)@, width as int, height as int, x as int, y as int, w as int, h as int, colour),
{
    let ghost before = frame@;
    let n = frame.len();
    let y0: isize = if y > 0 { y } else { 0 };
    let y1: isize = if y + h < height as isize { y + h } else { height as isize };
    let x0: isize = if x > 0 { x } else { 0 };
    let x1: isize = if x + w < width as isize { x + w } else { width as isize };
    let mut py = y0;
    while py < y1
        invariant
            fill_fits(before.len() as int, width as int, height as int, x as int, y as int, w as int, h as int),
            y0 == span_from(y as int),
            y1 == span_to(y + h, height as int),
            x0 == span_from(x as int),
            x1 == span_to(x + w, width as int),
            n == before.len(),
            y0 <= py,
            py <= y1 || y1 < y0,
            frame@.len() == before.len(),
            forall|p: int| 0 <= p < before.len() ==> #[trigger] frame@[p] == (
                if covers(p, width as int, height as int, x as int, y as int, w as int, h as int) && p / (width as int) < py {
                    colour
                } else {
                    before[p]
                }
            ),
        decreases y1 - py,
    {
        let mut px = x0;
        while px < x1
            invariant
                fill_fits(before.len() as int, width as int, height as int, x as int, y as int, w as int, h as int),
                y0 == span_from(y as int),
                y1 == span_to(y + h, height as int),
                x0 == span_from(x as int),
                x1 == span_to(x + w, width as int),
                n == before.len(),
                y0 <= py < y1,
                x0 <= px,
                px <= x1 || x1 < x0,
                frame@.len() == before.len(),
                forall|p: int| 0 <= p < before.len() ==> #[trigger] frame@[p] == (
                    if covers(p, width as int, height as int, x as int, y as int, w as int, h as int)
                        && (p / (width as int) < py || (p / (width as int) == py && p % (width as int) < px)) {
                        colour
                    } else {
                        before[p]
                    }
                ),
            decreases x1 - px,
        {
            let ghost at = py * width as int + px;
            assert(py * width as int + px <= (y1 - 1) * width as int + x1 - 1) by (nonlinear_arith)
                requires py <= y1 - 1, px <= x1 - 1, width >= 0;
            assert(0 <= py * width as int) by (nonlinear_arith) requires py >= 0, width >= 0;
            let i = py as usize * width + px as usize;
            proof {
                lemma_place(at, width as int, py as int, px as int);
                assert forall|p: int| 0 <= p < before.len() && p != at implies (
                    covers(p, width as int, height as int, x as int, y as int, w as int, h as int)
                        && (p / (width as int) < py || (p / (width as int) == py && p % (width as int) < px + 1)))
                    == (covers(p, width as int, height as int, x as int, y as int, w as int, h as int)
                        && (p / (width as int) < py || (p / (width as int) == py && p % (width as int) < px))) by {
                    if p / (width as int) == py && p % (width as int) == px {
                        vstd::arithmetic::div_mod::lemma_fundamental_div_mod(p, width as int);
                        vstd::arithmetic::mul::lemma_mul_is_commutative(width as int, py as int);
                    }
                }
            }
            frame[i] = colour;
            px += 1;
        }
        proof {
            assert forall|p: int| 0 <= p < before.len() implies (
                covers(p, width as int, height as int, x as int, y as int, w as int, h as int)
                    && (p / (width as int) < py || (p / (width as int) == py && p % (width as int) < px)))
                == (covers(p, width as int, height as int, x as int, y as int, w as int, h as int) && p / (width as int) < py + 1) by {
            }
        }
        py += 1;
    }
    assert(frame@ =~= filled(before, width as int, height as int, x as int, y as int, w as int, h as int, colour));
}

/// The five rectangles of a framed box: the inside, then the four lines a
/// pixel outside it - top, bottom, left, right.
pub open spec fn frame_parts(b: (isize, isize, isize, isize)) -> Seq<(int, int, int, int)> {
    let (x, y, w, h) = b;
    seq![
        (x as int, y as int, w as int, h as int),
        (x - 1, y - 1, w + 2, 1),
        (x - 1, y + h, w + 2, 1),
        (x - 1, y - 1, 1, h + 2),
        (x + w, y - 1, 1, h + 2),
    ]
}

/// A box filled with `inside` and ringed with `border`.
pub open spec fn framed(buffer: Seq<u8>, width: int, height: int, b: (isize, isize, isize, isize), inside: u8, border: u8) -> Seq<u8> {
    let p = frame_parts(b);
    let f0 = filled(buffer, width, height, p[0].0, p[0].1, p[0].2, p[0].3, inside);
    let f1 = filled(f0, width, height, p[1].0, p[1].1, p[1].2, p[1].3, border);
    let f2 = filled(f1, width, height, p[2].0, p[2].1, p[2].2, p[2].3, border);
    let f3 = filled(f2, width, height, p[3].0, p[3].1, p[3].2, p[3].3, border);
    filled(f3, width, height, p[4].0, p[4].1, p[4].2, p[4].3, border)
}

/// A filled box with a line around it, which is `0x44e2a0`: the rectangle in
/// `inside`, then four lines a pixel outside it in `border`.
pub fn frame(buffer: &mut [u8], width: usize, height: usize, b: (isize, isize, isize, isize), inside: u8, border: u8)
    requires
        isize::MIN < b.0 && isize::MIN < b.1,
        b.2 + 2 <= isize::MAX && b.3 + 2 <= isize::MAX,
        isize::MIN <= b.0 + b.2 <= isize::MAX && isize::MIN <= b.1 + b.3 <= isize::MAX,
        forall|i: int| 0 <= i < 5 ==> #[trigger] fill_fits(old(buffer)@.len() as int, width as int, height as int,
            frame_parts(b)[i].0, frame_parts(b)[i].1, frame_parts(b)[i].2, frame_parts(b)[i].3),
    ensures
        final(buffer)@ == framed(old(buffer)@, width as int, height as int, b, inside, border),
{
    let (x, y, w, h) = b;
    let ghost p = frame_parts(b);
    assert(fill_fits(buffer@.len() as int, width as int, height as int, p[0].0, p[0].1, p[0].2, p[0].3));
    assert(fill_fits(buffer@.len() as int, width as int, height as int, p[1].0, p[1].1, p[1].2, p[1].3));
    assert(fill_fits(buffer@.len() as int, width as int, height as int, p[2].0, p[2].1, p[2].2, p[2].3));
    assert(fill_fits(buffer@.len() as int, width as int, height as int, p[3].0, p[3].1, p[3].2, p[3].3));
    assert(fill_fits(buffer@.len() as int, width as int, height as int, p[4].0, p[4].1, p[4].2, p[4].3));
    fill(buffer, width, height, x, y, w, h, inside);
    fill(buffer, width, height, x - 1, y - 1, w + 2, 1, border);
    fill(buffer, width, height, x - 1, y + h, w + 2, 1, border);
    fill(buffer, width, height, x - 1, y - 1, 1, h + 2, border);
    fill(buffer, width, height, x + w, y - 1, 1, h + 2, border);
}

/// A row with a word added: after a space, unless the row is empty.
pub open spec fn joined(row: Seq<char>, word: Seq<char>) -> Seq<char> {
    if row.len() == 0 { word } else { row + seq![' '] + word }
}

/// The rows that words from `k` on make, starting on `row`: a word goes on
/// the row where the row is empty or stays within `width` with it, and
/// otherwise starts the next; the last row ends them.
pub open spec fn wrap_words(glyphs: Seq<GlyphView>, ws: Seq<Seq<char>>, k: nat, width: int, row: Seq<char>) -> Seq<Seq<char>>
    decreases ws.len() - k,
{
    if k >= ws.len() {
        seq![row]
    } else {
        let candidate = joined(row, ws[k as int]);
        if text_width(glyphs, candidate) <= width || row.len() == 0 {
            wrap_words(glyphs, ws, k + 1, width, candidate)
        } else {
            seq![row] + wrap_words(glyphs, ws, k + 1, width, ws[k as int])
        }
    }
}

/// The rows of the first `n` lines, each wrapped on its own.
pub open spec fn wrap_lines(glyphs: Seq<GlyphView>, lines: Seq<Seq<char>>, width: int, n: nat) -> Seq<Seq<char>>
    decreases n,
{
    if n == 0 || n > lines.len() {
        Seq::empty()
    } else {
        wrap_lines(glyphs, lines, width, (n - 1) as nat) + wrap_words(glyphs, words(lines[n - 1]), 0, width, Seq::empty())
    }
}

/// Lines broken to a pixel width on their whitespace.
pub open spec fn wrapped(glyphs: Seq<GlyphView>, lines: Seq<Seq<char>>, width: int) -> Seq<Seq<char>> {
    wrap_lines(glyphs, lines, width, lines.len())
}

/// The characters of each string.
pub open spec fn texts(lines: Seq<String>) -> Seq<Seq<char>> {
    lines.map_values(|l: String| l@)
}

/// A copy of some characters with more after them.
fn with_more(front: &[char], space: bool, back: &[char]) -> (r: Vec<char>)
    ensures
        r@ == (if space { front@ + seq![' '] + back@ } else { front@ + back@ }),
{
    let mut out = vstd::slice::slice_to_vec(front);
    if space {
        out.push(' ');
    }
    let ghost start = out@;
    let mut i: usize = 0;
    while i < back.len()
        invariant
            i <= back@.len(),
            out@ == start + back@.take(i as int),
        decreases back@.len() - i,
    {
        out.push(back[i]);
        i += 1;
        proof {
            assert(out@ =~= start + back@.take(i as int));
        }
    }
    proof {
        assert(back@.take(i as int) =~= back@);
    }
    out
}

/// Break lines to a pixel width, on spaces, the way the engine's own wrap does
/// (`0x484920`): a word that does not fit starts the next line.
pub fn wrap(font: &HudFont, lines: &[String], width: usize) -> (r: Vec<String>)
    ensures
        texts(r@) == wrapped(glyphs_view(*font), texts(lines@), width as int),
{
    let ghost gs = glyphs_view(*font);
    let ghost lv = texts(lines@);
    let mut out: Vec<String> = Vec::new();
    let mut i: usize = 0;
    while i < lines.len()
        invariant
            gs == glyphs_view(*font),
            lv == texts(lines@),
            i <= lines@.len(),
            texts(out@) == wrap_lines(gs, lv, width as int, i as nat),
        decreases lines@.len() - i,
    {
        let chars = chars_of(lines[i].as_str());
        let ws = words_chars(chars.as_slice());
        let ghost wv = words(lv[i as int]);
        let ghost before = texts(out@);
        let mut row: Vec<char> = Vec::new();
        let mut k: usize = 0;
        while k < ws.len()
            invariant
                gs == glyphs_view(*font),
                ws@.len() == wv.len(),
                forall|j: int| 0 <= j < ws@.len() ==> #[trigger] ws@[j]@ == wv[j],
                k <= ws@.len(),
                texts(out@) + wrap_words(gs, wv, k as nat, width as int, row@) == before + wrap_words(gs, wv, 0, width as int, Seq::empty()),
            decreases ws@.len() - k,
        {
            let candidate = with_more(row.as_slice(), row.len() > 0, ws[k].as_slice());
            if font.fits(candidate.as_slice(), width) || row.len() == 0 {
                row = candidate;
            } else {
                let ghost was = texts(out@);
                out.push(string_of(row.as_slice()));
                proof {
                    assert(texts(out@) =~= was + seq![row@]);
                }
                row = vstd::slice::slice_to_vec(ws[k].as_slice());
            }
            k += 1;
            proof {
                assert(texts(out@) + wrap_words(gs, wv, k as nat, width as int, row@) =~= before + wrap_words(gs, wv, 0, width as int, Seq::empty()));
            }
        }
        let ghost was = texts(out@);
        out.push(string_of(row.as_slice()));
        proof {
            assert(texts(out@) =~= was + seq![row@]);
            assert(wrap_words(gs, wv, k as nat, width as int, row@) == seq![row@]);
        }
        i += 1;
        proof {
            assert(texts(out@) =~= wrap_lines(gs, lv, width as int, i as nat));
        }
    }
    proof {
        assert(lv.len() == lines@.len());
    }
    out
}


/// The colour of the cockpit labels' frames and leaders.
pub const BORDER: u8 = 0x97;

/// A frame `width` by `height` holds whole rows: the filled part of any
/// rectangle, cut to the frame, lies inside the buffer.
pub proof fn lemma_fill_fits(len: int, width: int, height: int, x: int, y: int, w: int, h: int)
    requires
        0 <= width <= isize::MAX,
        0 <= height <= isize::MAX,
        width * height <= len,
        isize::MIN <= x + w <= isize::MAX,
        isize::MIN <= y + h <= isize::MAX,
    ensures
        fill_fits(len, width, height, x, y, w, h),
{
    if span_from(y) < span_to(y + h, height) && span_from(x) < span_to(x + w, width) {
        let (r, c) = (span_to(y + h, height), span_to(x + w, width));
        assert((r - 1) * width + c <= width * height) by (nonlinear_arith)
            requires 1 <= r <= height, c <= width, 0 <= width;
    }
}

/// A frame with a line of text drawn into it in `colour`.
pub open spec fn written(glyphs: Seq<GlyphView>, frame: Seq<u8>, text: Seq<char>, x: int, y: int, width: int, height: int, colour: u8) -> Seq<u8> {
    Seq::new(frame.len(), |p: int| if inked(glyphs, text, x, y, width, height, p) { colour } else { frame[p] })
}

/// Whether text can be written at `(x, y)` with a font: its glyphs are whole
/// and the pen and the rows stay in an `isize`.
pub open spec fn writable_at(font: HudFont, text: Seq<char>, x: int, y: int) -> bool {
    &&& glyphs_whole(glyphs_view(font))
    &&& x + text_width(glyphs_view(font), text) <= isize::MAX
    &&& y + ROWS <= isize::MAX
}

/// Ink only lands inside the frame.
proof fn lemma_inked_inside(glyphs: Seq<GlyphView>, text: Seq<char>, x: int, y: int, width: int, height: int, p: int)
    requires
        inked(glyphs, text, x, y, width, height, p),
    ensures
        0 <= p < width * height,
{
    let k = choose|k: int| crate::formats::hud_font::glyph_inks(glyphs, text, x, y, width, height, k, p);
    assert(width > 0 && 0 <= p / width < height);
    vstd::arithmetic::div_mod::lemma_fundamental_div_mod(p, width);
    vstd::arithmetic::div_mod::lemma_mod_bound(p, width);
    let (r, c) = (p / width, p % width);
    assert(width * r + c < width * height) by (nonlinear_arith)
        requires 0 <= r < height, 0 <= c < width;
}

/// Text into a frame: the font's ink in `colour`.
fn write(frame: &mut [u8], width: usize, height: usize, font: &HudFont, x: isize, y: isize, text: &str, colour: u8)
    requires
        width * height <= old(frame)@.len(),
        width <= isize::MAX && height <= isize::MAX,
        writable_at(*font, text@, x as int, y as int),
    ensures
        final(frame)@ == written(glyphs_view(*font), old(frame)@, text@, x as int, y as int, width as int, height as int, colour),
{
    let ghost before = frame@;
    proof {
        assert forall|p: int| #[trigger] inked(glyphs_view(*font), text@, x as int, y as int, width as int, height as int, p)
            implies p < before.len() by {
            lemma_inked_inside(glyphs_view(*font), text@, x as int, y as int, width as int, height as int, p);
        }
    }
    font.draw(frame, width, height, x, y, text, colour);
    assert(frame@ =~= written(glyphs_view(*font), before, text@, x as int, y as int, width as int, height as int, colour));
}

/// Where a message goes in a view: centred across, three eighths down, at
/// most 240 pixels wide.
pub open spec fn message_at(glyphs: Seq<GlyphView>, text: Seq<char>, width: int, height: int) -> (int, int, int) {
    let tw = text_width(glyphs, text);
    let w = if tw < 240 { tw } else { 240 };
    (toward_zero(width - w, 2), height * 3 / 8, w)
}

/// A view with a message in it: a box from three pixels left and two above
/// the text to one past its right and bottom, cleared, and the text.
pub open spec fn messaged(glyphs: Seq<GlyphView>, frame: Seq<u8>, width: int, height: int, text: Seq<char>) -> Seq<u8> {
    let (x, y, w) = message_at(glyphs, text, width, height);
    written(glyphs, filled(frame, width, height, x - 3, y - 2, w + 5, LINE + 3, 0), text, x, y, width, height, INK)
}

/// A message, where `0x481030` puts one: word-wrapped to 240 pixels, centred
/// in the view, three eighths of the way down, on a filled box that runs
/// three pixels left and two above the text to one past its right and bottom.
pub fn message(frame: &mut [u8], width: usize, height: usize, font: &HudFont, text: &str)
    requires
        width * height <= old(frame)@.len(),
        width <= isize::MAX && height <= isize::MAX / 3,
        glyphs_whole(glyphs_view(*font)),
        text_width(glyphs_view(*font), text@) <= isize::MAX / 2,
    ensures
        final(frame)@ == messaged(glyphs_view(*font), old(frame)@, width as int, height as int, text@),
{
    let tw = font.width(text);
    let w = if tw < 240 { tw } else { 240 };
    let x = (width as isize - w as isize) / 2;
    let y = (height * 3 / 8) as isize;
    proof {
        lemma_fill_fits(frame@.len() as int, width as int, height as int, x - 3, y - 2, w + 5, LINE + 3);
    }
    fill(frame, width, height, x - 3, y - 2, w as isize + 5, LINE as isize + 3, 0);
    write(frame, width, height, font, x, y, text, INK);
}

/// What a blip puts at an offset from its centre: a three-pixel bar in its
/// colour, outlined in the paper colour 0, with a pixel of colour above and
/// below the middle, outlined too - or, for something below the player, the
/// bar alone with the paper colour above and below it.
pub open spec fn blip_ink(dx: int, dy: int, colour: u8, below: bool) -> Option<u8> {
    if dy == 0 && -1 <= dx <= 1 {
        Some(colour)
    } else if (dy == -1 || dy == 1) && (dx == -1 || dx == 1) {
        Some(0u8)
    } else if dy == 0 && (dx == -2 || dx == 2) {
        Some(0u8)
    } else if dx == 0 && (dy == -1 || dy == 1) {
        Some(if below { 0u8 } else { colour })
    } else if dx == 0 && (dy == -2 || dy == 2) && !below {
        Some(0u8)
    } else {
        None
    }
}

/// A frame with a blip drawn centred on `(x, y)`, cut to the frame.
pub open spec fn marked(frame: Seq<u8>, width: int, height: int, x: int, y: int, colour: u8, below: bool) -> Seq<u8> {
    Seq::new(frame.len(), |p: int| {
        let (row, col) = (p / width, p % width);
        if width > 0 && 0 <= p && row < height && blip_ink(col - x, row - y, colour, below) is Some {
            blip_ink(col - x, row - y, colour, below)->0
        } else {
            frame[p]
        }
    })
}

/// What plotting one pixel does to a pixel, by its row and column.
proof fn lemma_plotted_at(s: Seq<u8>, width: int, height: int, x: int, y: int, index: u8, p: int)
    requires
        width * height <= s.len(),
        0 <= p < s.len(),
        width > 0,
    ensures
        plotted(s, width, height, x, y, index).len() == s.len(),
        plotted(s, width, height, x, y, index)[p]
            == (if p / width < height && p / width == y && p % width == x && 0 <= x { index } else { s[p] }),
{
    vstd::arithmetic::div_mod::lemma_fundamental_div_mod(p, width);
    vstd::arithmetic::div_mod::lemma_mod_bound(p, width);
    if inside(width, height, x, y) {
        lemma_pixel_in(width, height, x, y, s.len() as int);
        if p / width == y && p % width == x {
            assert(p == y * width + x) by (nonlinear_arith)
                requires p == width * (p / width) + p % width, p / width == y, p % width == x;
        }
    }
}

/// One blip, the shape `0x4746a0` draws: a three-pixel bar with a pixel
/// above and below it, outlined in the paper colour - and for something
/// below the player, the bar alone.
pub fn mark(frame: &mut [u8], width: usize, height: usize, x: isize, y: isize, colour: u8, below: bool)
    requires
        width * height <= old(frame)@.len(),
        isize::MIN + 2 <= x <= isize::MAX - 2,
        isize::MIN + 2 <= y <= isize::MAX - 2,
    ensures
        final(frame)@ == marked(old(frame)@, width as int, height as int, x as int, y as int, colour, below),
{
    let ghost s0 = frame@;
    plot(frame, width, height, x - 1, y - 1, 0);
    let ghost s1 = frame@;
    plot(frame, width, height, x + 1, y - 1, 0);
    let ghost s2 = frame@;
    plot(frame, width, height, x - 2, y, 0);
    let ghost s3 = frame@;
    plot(frame, width, height, x + 2, y, 0);
    let ghost s4 = frame@;
    plot(frame, width, height, x - 1, y + 1, 0);
    let ghost s5 = frame@;
    plot(frame, width, height, x + 1, y + 1, 0);
    let ghost s6 = frame@;
    plot(frame, width, height, x - 1, y, colour);
    let ghost s7 = frame@;
    plot(frame, width, height, x, y, colour);
    let ghost s8 = frame@;
    plot(frame, width, height, x + 1, y, colour);
    let ghost s9 = frame@;
    let (upper, lower): (u8, u8) = if below { (0, 0) } else { (colour, colour) };
    if !below {
        plot(frame, width, height, x, y - 2, 0);
        plot(frame, width, height, x, y + 2, 0);
    }
    let ghost s11 = frame@;
    plot(frame, width, height, x, y - 1, upper);
    let ghost s12 = frame@;
    plot(frame, width, height, x, y + 1, lower);
    proof {
        let (w, h) = (width as int, height as int);
        let (xi, yi) = (x as int, y as int);
        assert forall|p: int| 0 <= p < s0.len() implies #[trigger] frame@[p]
            == marked(s0, w, h, xi, yi, colour, below)[p] by {
            if w > 0 {
                lemma_plotted_at(s0, w, h, xi - 1, yi - 1, 0, p);
                lemma_plotted_at(s1, w, h, xi + 1, yi - 1, 0, p);
                lemma_plotted_at(s2, w, h, xi - 2, yi, 0, p);
                lemma_plotted_at(s3, w, h, xi + 2, yi, 0, p);
                lemma_plotted_at(s4, w, h, xi - 1, yi + 1, 0, p);
                lemma_plotted_at(s5, w, h, xi + 1, yi + 1, 0, p);
                lemma_plotted_at(s6, w, h, xi - 1, yi, colour, p);
                lemma_plotted_at(s7, w, h, xi, yi, colour, p);
                lemma_plotted_at(s8, w, h, xi + 1, yi, colour, p);
                if !below {
                    let s10 = plotted(s9, w, h, xi, yi - 2, 0);
                    lemma_plotted_at(s9, w, h, xi, yi - 2, 0, p);
                    lemma_plotted_at(s10, w, h, xi, yi + 2, 0, p);
                }
                lemma_plotted_at(s11, w, h, xi, yi - 1, upper, p);
                lemma_plotted_at(s12, w, h, xi, yi + 1, lower, p);
                vstd::arithmetic::div_mod::lemma_mod_bound(p, w);
            }
        }
        assert(frame@ =~= marked(s0, w, h, xi, yi, colour, below));
    }
}

/// Where the countdown's box goes: its right edge two pixels in from the
/// view's, its top nine up from the bottom, as wide as the number.
pub open spec fn countdown_box(glyphs: Seq<GlyphView>, width: int, height: int, seconds: int) -> (isize, isize, isize, isize) {
    let tw = text_width(glyphs, signed_decimal(seconds));
    ((width - tw - 2) as isize, (height - 9) as isize, tw as isize, LINE as isize)
}

/// A view with the countdown in it: the number on a framed box.
pub open spec fn counted(glyphs: Seq<GlyphView>, frame: Seq<u8>, width: int, height: int, seconds: int) -> Seq<u8> {
    let b = countdown_box(glyphs, width, height, seconds);
    written(glyphs, framed(frame, width, height, b, 8, 0x10), signed_decimal(seconds), b.0 as int, b.1 as int, width, height, INK)
}

/// The countdown, where `0x44e9b8` puts it: the seconds as a bare number in
/// the bottom right corner, on a framed box.
pub fn countdown(frame: &mut [u8], width: usize, height: usize, font: &HudFont, seconds: i32)
    requires
        width * height <= old(frame)@.len(),
        width <= isize::MAX / 4 && height <= isize::MAX / 4,
        glyphs_whole(glyphs_view(*font)),
        text_width(glyphs_view(*font), signed_decimal(seconds as int)) <= isize::MAX / 4,
    ensures
        final(frame)@ == counted(glyphs_view(*font), old(frame)@, width as int, height as int, seconds as int),
{
    let chars = signed_decimal_chars(seconds);
    let text = string_of(chars.as_slice());
    assert(text@ == signed_decimal(seconds as int));
    let tw = font.width(text.as_str()) as isize;
    let x = width as isize - tw - 2;
    let y = height as isize - 9;
    let b = (x, y, tw, LINE as isize);
    proof {
        let n = frame@.len() as int;
        let p = frame_parts(b);
        lemma_fill_fits(n, width as int, height as int, p[0].0, p[0].1, p[0].2, p[0].3);
        lemma_fill_fits(n, width as int, height as int, p[1].0, p[1].1, p[1].2, p[1].3);
        lemma_fill_fits(n, width as int, height as int, p[2].0, p[2].1, p[2].2, p[2].3);
        lemma_fill_fits(n, width as int, height as int, p[3].0, p[3].1, p[3].2, p[3].3);
        lemma_fill_fits(n, width as int, height as int, p[4].0, p[4].1, p[4].2, p[4].3);
        assert forall|i: int| 0 <= i < 5 implies #[trigger] fill_fits(n, width as int, height as int,
            p[i].0, p[i].1, p[i].2, p[i].3) by {}
    }
    self::frame(frame, width, height, b, 8, 0x10);
    write(frame, width, height, font, x, y, text.as_str(), INK);
}

/// The row where band `i` of a gauge `h` high in `steps` bands begins,
/// counting from the bottom.
pub open spec fn band_edge(y: int, h: int, steps: int, i: int) -> int {
    y + h - toward_zero(i * h, steps)
}

/// Whether a value is small enough that a few of them, or one times a
/// 16-bit count, stay in an `isize`.
pub open spec fn modest(v: int) -> bool {
    -(isize::MAX / 0x1_0000) <= v <= isize::MAX / 0x1_0000
}

/// A band's edge lies within the box.
proof fn lemma_band_within(i: int, h: int, steps: int)
    requires
        0 <= i <= steps,
        steps >= 1,
    ensures
        -(if h >= 0 { h } else { -h }) <= toward_zero(i * h, steps) <= (if h >= 0 { h } else { -h }),
{
    let m = if h >= 0 { h } else { -h };
    let a = if i * h >= 0 { i * h } else { -(i * h) };
    assert(0 <= a <= steps * m) by (nonlinear_arith)
        requires 0 <= i <= steps, m == (if h >= 0 { h } else { -h }), a == (if i * h >= 0 { i * h } else { -(i * h) });
    vstd::arithmetic::div_mod::lemma_div_is_ordered(a, steps * m, steps);
    vstd::arithmetic::div_mod::lemma_div_multiples_vanish(m, steps);
    vstd::arithmetic::div_mod::lemma_div_pos_is_pos(a, steps);
    vstd::arithmetic::mul::lemma_mul_is_commutative(steps, m);
}

/// A gauge with its empty part drawn and its first `n` bands.
pub open spec fn gauged(frame: Seq<u8>, width: int, height: int, b: (isize, isize, isize, isize), ramp: u8, steps: int, full: int, n: nat) -> Seq<u8>
    decreases n,
{
    let (x, y, w, h) = (b.0 as int, b.1 as int, b.2 as int, b.3 as int);
    if n == 0 {
        filled(frame, width, height, x, y, w, h - full, EMPTY)
    } else {
        let before = gauged(frame, width, height, b, ramp, steps, full, (n - 1) as nat);
        let i = n - 1;
        let level = y + h - full;
        let top = if band_edge(y, h, steps, i + 1) > level { band_edge(y, h, steps, i + 1) } else { level };
        let bottom = if band_edge(y, h, steps, i) > level { band_edge(y, h, steps, i) } else { level };
        if bottom > top {
            filled(before, width, height, x, top, w, bottom - top, ((ramp + i) % 256) as u8)
        } else {
            before
        }
    }
}

/// A gauge: the part above the level in [`EMPTY`], the rest in `steps` bands
/// of the ramp that starts at `ramp`, bottom first. `full` is how many of the
/// box's rows the level fills.
pub fn gauge(frame: &mut [u8], width: usize, height: usize, b: (isize, isize, isize, isize), ramp: u8, steps: isize, full: isize)
    requires
        width * height <= old(frame)@.len(),
        width <= isize::MAX && height <= isize::MAX,
        0 < steps <= 0x1_0000,
        modest(b.0 as int) && modest(b.1 as int) && modest(b.2 as int) && modest(b.3 as int) && modest(full as int),
    ensures
        final(frame)@ == gauged(old(frame)@, width as int, height as int, b, ramp, steps as int, full as int, steps as nat),
{
    let ghost before = frame@;
    let (x, y, w, h) = b;
    proof {
        lemma_fill_fits(frame@.len() as int, width as int, height as int, x as int, y as int, w as int, h - full);
    }
    fill(frame, width, height, x, y, w, h - full, EMPTY);
    let level = y + h - full;
    let mut i: isize = 0;
    while i < steps
        invariant
            b == (x, y, w, h),
            0 < steps <= 0x1_0000,
            modest(x as int) && modest(y as int) && modest(w as int) && modest(h as int) && modest(full as int),
            level == y + h - full,
            width * height <= frame@.len(),
            width <= isize::MAX && height <= isize::MAX,
            frame@.len() == before.len(),
            0 <= i <= steps,
            frame@ == gauged(before, width as int, height as int, b, ramp, steps as int, full as int, i as nat),
        decreases steps - i,
    {
        let ghost m = isize::MAX / 0x1_0000;
        assert(-(m * 0x1_0000) <= (i + 1) * h <= m * 0x1_0000) by (nonlinear_arith)
            requires 0 <= i < steps <= 0x1_0000, -m <= h <= m, m >= 0;
        assert(-(m * 0x1_0000) <= i * h <= m * 0x1_0000) by (nonlinear_arith)
            requires 0 <= i < steps <= 0x1_0000, -m <= h <= m, m >= 0;
        let q1 = (i + 1) * h / steps;
        let q0 = i * h / steps;
        proof {
            lemma_band_within(i + 1, h as int, steps as int);
            lemma_band_within(i as int, h as int, steps as int);
        }
        let edge1 = y + h - q1;
        let edge0 = y + h - q0;
        let top = if edge1 > level { edge1 } else { level };
        let bottom = if edge0 > level { edge0 } else { level };
        if bottom > top {
            proof {
                lemma_fill_fits(frame@.len() as int, width as int, height as int, x as int, top as int, w as int, bottom - top);
            }
            fill(frame, width, height, x, top, w, bottom - top, ramp.wrapping_add(i as u8));
            assert(ramp.wrapping_add(i as u8) == ((ramp + i) % 256) as u8) by (bit_vector)
                requires 0 <= i < 0x1_0000;
        }
        i += 1;
    }
}

/// Whether a view is small enough for the layout's arithmetic: a
/// coordinate of the 640x480 layout, or of a label's callout, times its
/// size stays in an `isize`.
pub open spec fn view_fits(width: int, height: int) -> bool {
    0 <= width <= isize::MAX / 0x1_0000 && 0 <= height <= isize::MAX / 0x1_0000
}

/// A box of the layout in a view that fits.
proof fn lemma_box_fits(slot: int, width: int, height: int)
    requires
        0 <= slot < 12,
        view_fits(width, height),
    ensures
        BOXES[slot][0] * width <= isize::MAX,
        BOXES[slot][1] * height <= isize::MAX,
        BOXES[slot][2] * width <= isize::MAX,
        BOXES[slot][3] * height <= isize::MAX,
        0 <= scaled_box(BOXES[slot]@, width, height).0 <= width,
        0 <= scaled_box(BOXES[slot]@, width, height).1 <= height,
        0 <= scaled_box(BOXES[slot]@, width, height).2 <= width,
        0 <= scaled_box(BOXES[slot]@, width, height).3 <= height,
{
    let b = BOXES[slot];
    assert(0 <= b[0] <= 640 && 0 <= b[1] <= 480 && 0 <= b[2] <= 640 && 0 <= b[3] <= 480);
    let m = isize::MAX / 0x1_0000;
    assert(b[0] * width <= 640 * m && b[2] * width <= 640 * m) by (nonlinear_arith)
        requires 0 <= b[0] <= 640, 0 <= b[2] <= 640, 0 <= width <= m;
    assert(b[1] * height <= 480 * m && b[3] * height <= 480 * m) by (nonlinear_arith)
        requires 0 <= b[1] <= 480, 0 <= b[3] <= 480, 0 <= height <= m;
    assert(0 <= b[0] * width / 640 <= width && 0 <= b[2] * width / 640 <= width) by (nonlinear_arith)
        requires 0 <= b[0] <= 640, 0 <= b[2] <= 640, 0 <= width;
    assert(0 <= b[1] * height / 480 <= height && 0 <= b[3] * height / 480 <= height) by (nonlinear_arith)
        requires 0 <= b[1] <= 480, 0 <= b[3] <= 480, 0 <= height;
}

/// A view with one readout line in a box of the layout: the box cleared and
/// the text centred in it.
pub open spec fn lined(glyphs: Seq<GlyphView>, frame: Seq<u8>, width: int, height: int, slot: int, text: Seq<char>) -> Seq<u8> {
    let b = scaled_box(BOXES[slot]@, width, height);
    let (bx, by, bw, bh) = (b.0 as int, b.1 as int, b.2 as int, b.3 as int);
    let x = bx + toward_zero(bw - text_width(glyphs, text), 2);
    let y = by + toward_zero(bh - LINE, 2);
    written(glyphs, filled(frame, width, height, bx, by, bw, bh, 0), text, x, y, width, height, INK)
}

/// One line, centred in its box on a cleared background.
pub fn line(frame: &mut [u8], width: usize, height: usize, font: &HudFont, slot: usize, text: &str)
    requires
        width * height <= old(frame)@.len(),
        view_fits(width as int, height as int),
        slot < 12,
        glyphs_whole(glyphs_view(*font)),
        text_width(glyphs_view(*font), text@) <= isize::MAX / 4,
    ensures
        final(frame)@ == lined(glyphs_view(*font), old(frame)@, width as int, height as int, slot as int, text@),
{
    proof {
        lemma_box_fits(slot as int, width as int, height as int);
    }
    let (bx, by, bw, bh) = box_of(slot, width, height);
    proof {
        lemma_fill_fits(frame@.len() as int, width as int, height as int, bx as int, by as int, bw as int, bh as int);
    }
    fill(frame, width, height, bx, by, bw, bh, 0);
    let tw = font.width(text) as isize;
    let x = bx + (bw - tw) / 2;
    let y = by + (bh - LINE as isize) / 2;
    write(frame, width, height, font, x, y, text, INK);
}

/// Where a label's callout lands in a view: its 640x480 point scaled, each
/// coordinate rounded toward zero.
pub open spec fn callout(l: Label, width: int, height: int) -> (int, int) {
    (toward_zero(l.at.0 * width, 640), toward_zero(l.at.1 * height, 480))
}

/// The box a label is written on: as wide as the text and four pixels more,
/// seventeen 480ths of the view high, a pixel below the callout and hanging
/// left of it when the callout is its right edge.
pub open spec fn label_box(glyphs: Seq<GlyphView>, l: Label, width: int, height: int) -> (isize, isize, isize, isize) {
    let (cx, cy) = callout(l, width, height);
    let w = text_width(glyphs, l.text@) + 4;
    let h = 17 * height / 480;
    ((if l.right { cx - w } else { cx }) as isize, (cy + 1) as isize, w as isize, h as isize)
}

/// A view with a label's leader drawn, if it has one: a line a pixel wide
/// from the callout down to a row above the box it points at, six 640ths of
/// the view in from the box's left.
pub open spec fn led(frame: Seq<u8>, l: Label, width: int, height: int) -> Seq<u8> {
    match l.leader {
        Some(slot) => {
            let b = scaled_box(BOXES[slot as int]@, width, height);
            let (cx, cy) = callout(l, width, height);
            filled(frame, width, height, b.0 + 6 * width / 640, cy, 1, b.1 - 1 - cy, BORDER)
        },
        None => frame,
    }
}

/// A view with a label in it: the leader, the framed box and the text two
/// pixels in and centred down it, a row low.
pub open spec fn labelled(glyphs: Seq<GlyphView>, frame: Seq<u8>, width: int, height: int, l: Label) -> Seq<u8> {
    let b = label_box(glyphs, l, width, height);
    let boxed = framed(led(frame, l, width, height), width, height, b, 0, BORDER);
    let text_y = b.1 + toward_zero(b.3 - LINE, 2) + 1;
    written(glyphs, boxed, l.text@, b.0 + 2, text_y, width, height, INK)
}

/// Whether a label can be drawn: its callout is a point of the 640x480
/// layout, give or take, and any leader points at a box of the layout.
pub open spec fn label_ok(l: Label) -> bool {
    &&& -0x1_0000 <= l.at.0 <= 0x1_0000 && -0x1_0000 <= l.at.1 <= 0x1_0000
    &&& l.leader matches Some(slot) ==> slot < 12
}

/// One cockpit label, the way `0x44ee10` draws one: a box as wide as the
/// text and four pixels more, framed, with the text two pixels in. When the
/// callout is a right edge the box hangs to the left of it instead
/// (`0x44eec0`). A gauge's label first gets a line down to it.
#[verifier::spinoff_prover]
#[verifier::rlimit(50)]
pub fn label(frame: &mut [u8], width: usize, height: usize, font: &HudFont, l: &Label)
    requires
        width * height <= old(frame)@.len(),
        view_fits(width as int, height as int),
        label_ok(*l),
        glyphs_whole(glyphs_view(*font)),
        text_width(glyphs_view(*font), l.text@) <= isize::MAX / 4,
    ensures
        final(frame)@ == labelled(glyphs_view(*font), old(frame)@, width as int, height as int, *l),
{
    let ghost gs = glyphs_view(*font);
    let ghost before = frame@;
    let (vw, vh) = (width as isize, height as isize);
    let m = isize::MAX / 0x1_0000;
    assert(-0x1_0000 * m <= l.at.0 * vw <= 0x1_0000 * m) by (nonlinear_arith)
        requires -0x1_0000 <= l.at.0 <= 0x1_0000, 0 <= vw <= m;
    assert(-0x1_0000 * m <= l.at.1 * vh <= 0x1_0000 * m) by (nonlinear_arith)
        requires -0x1_0000 <= l.at.1 <= 0x1_0000, 0 <= vh <= m;
    let cx = l.at.0 * vw / 640;
    let cy = l.at.1 * vh / 480;
    proof {
        crate::render::raster::lemma_quot_within(l.at.0 * vw, 640);
        crate::render::raster::lemma_quot_within(l.at.1 * vh, 480);
    }
    assert(-(0x1_0000 * m) / 640 <= cx <= (0x1_0000 * m) / 640) by (nonlinear_arith)
        requires cx == toward_zero(l.at.0 * vw, 640), -0x1_0000 * m <= l.at.0 * vw <= 0x1_0000 * m, m >= 0;
    assert(-(0x1_0000 * m) / 480 <= cy <= (0x1_0000 * m) / 480) by (nonlinear_arith)
        requires cy == toward_zero(l.at.1 * vh, 480), -0x1_0000 * m <= l.at.1 * vh <= 0x1_0000 * m, m >= 0;
    match l.leader {
        Some(slot) => {
            proof {
                lemma_box_fits(slot as int, width as int, height as int);
            }
            let (bx, by, _, _) = box_of(slot, width, height);
            assert(0 <= 6 * vw <= 6 * m) by (nonlinear_arith) requires 0 <= vw <= m;
            let x = bx + 6 * vw / 640;
            proof {
                lemma_fill_fits(frame@.len() as int, width as int, height as int, x as int, cy as int, 1, by - 1 - cy);
            }
            fill(frame, width, height, x, cy, 1, by - 1 - cy, BORDER);
        },
        None => {},
    }
    assert(frame@ == led(before, *l, width as int, height as int));
    let tw = font.width(l.text) as isize + 4;
    assert(0 <= 17 * vh <= 17 * m) by (nonlinear_arith) requires 0 <= vh <= m;
    let bh = 17 * vh / 480;
    let x = if l.right { cx - tw } else { cx };
    let y = cy + 1;
    let b = (x, y, tw, bh);
    assert(b == label_box(gs, *l, width as int, height as int));
    proof {
        let n = frame@.len() as int;
        let p = frame_parts(b);
        lemma_fill_fits(n, width as int, height as int, p[0].0, p[0].1, p[0].2, p[0].3);
        lemma_fill_fits(n, width as int, height as int, p[1].0, p[1].1, p[1].2, p[1].3);
        lemma_fill_fits(n, width as int, height as int, p[2].0, p[2].1, p[2].2, p[2].3);
        lemma_fill_fits(n, width as int, height as int, p[3].0, p[3].1, p[3].2, p[3].3);
        lemma_fill_fits(n, width as int, height as int, p[4].0, p[4].1, p[4].2, p[4].3);
        assert forall|i: int| 0 <= i < 5 implies #[trigger] fill_fits(n, width as int, height as int,
            p[i].0, p[i].1, p[i].2, p[i].3) by {}
    }
    self::frame(frame, width, height, b, 0, BORDER);
    let text_y = y + (bh - LINE as isize) / 2 + 1;
    write(frame, width, height, font, x + 2, text_y, l.text, INK);
}

/// A view with the first `n` cockpit labels drawn, in order.
pub open spec fn legend_upto(glyphs: Seq<GlyphView>, frame: Seq<u8>, width: int, height: int, n: nat) -> Seq<u8>
    decreases n,
{
    if n == 0 || n > 11 {
        frame
    } else {
        labelled(glyphs, legend_upto(glyphs, frame, width, height, (n - 1) as nat), width, height, label_table()[n - 1])
    }
}

/// Every cockpit label at once, which is what `keyCockpitLabel` turns on.
pub fn legend(frame: &mut [u8], width: usize, height: usize, font: &HudFont)
    requires
        width * height <= old(frame)@.len(),
        view_fits(width as int, height as int),
        glyphs_whole(glyphs_view(*font)),
        forall|i: int| 0 <= i < 11 ==> text_width(glyphs_view(*font), #[trigger] label_table()[i].text@) <= isize::MAX / 4,
    ensures
        final(frame)@ == legend_upto(glyphs_view(*font), old(frame)@, width as int, height as int, 11),
{
    let all = labels();
    let mut i: usize = 0;
    while i < 11
        invariant
            all@ == label_table(),
            i <= 11,
            width * height <= frame@.len(),
            view_fits(width as int, height as int),
            glyphs_whole(glyphs_view(*font)),
            forall|k: int| 0 <= k < 11 ==> text_width(glyphs_view(*font), #[trigger] label_table()[k].text@) <= isize::MAX / 4,
            frame@ == legend_upto(glyphs_view(*font), old(frame)@, width as int, height as int, i as nat),
        decreases 11 - i,
    {
        assert(label_ok(label_table()[i as int]));
        label(frame, width, height, font, &all[i]);
        i += 1;
    }
}

/// Where the weapon's picture goes: 14, 3, 63 by 56 in the same 640x480
/// (`0x41f8fa` builds it out of the view's size). That is the left end of
/// the top-left panel, with the weapon and ammunition lines to its right -
/// and the message panel, 16, 3, 236 by 56, covers it, which is why those
/// lines step aside for a message too.
pub const WEAPON_ICON: [isize; 4] = [14, 3, 63, 56];

/// The twelve pictures (`0x501838`), each a 64x64 `.RAW` in the art.
pub const ICONS: [&'static str; 12] = [
    "valk", "d4s", "skl", "f6rfl1", "dom4s", "c4s", "vip4s", "cls4s", "m4s", "mg4s", "f6mine1",
    "f6super",
];

/// Which picture each weapon row uses (`0x501868`, read with the row as the
/// index). A row with none of its own gets the first, the Valkyrie's, and
/// `0x420e8e` treats anything outside 0..12 as an error.
pub const WEAPON_ICONS: [usize; 31] = [
    0, 2, 1, 3, 0, 0, 0, 0, 0, 0, 0, 0, 0, 0, 0, 0, 0, 0, 4, 6, 0, 0, 0, 0, 5, 7, 8, 9, 10, 0, 11,
];

/// The weapon picture's box in a view.
pub open spec fn icon_box(width: int, height: int) -> (int, int, int, int) {
    (14 * width / 640, 3 * height / 480, 63 * width / 640, 56 * height / 480)
}

/// The picture's pixel that a place in its box shows: the box's column and
/// row scaled to the picture, rounded down and kept inside it.
pub open spec fn icon_pixel(image: Image, bw: int, bh: int, bx: int, by: int) -> u8 {
    let (sw, sh) = (image.shape.width as int, image.shape.height as int);
    let sx = if bx * sw / bw < sw - 1 { bx * sw / bw } else { sw - 1 };
    let sy = if by * sh / bh < sh - 1 { by * sh / bh } else { sh - 1 };
    image.pixels@[sy * sw + sx]
}

/// What a pixel of the view shows once the picture is in its box: the
/// picture's pixel where the place is in the box and that pixel is not 0,
/// and otherwise what was there.
pub open spec fn icon_at(under: Seq<u8>, width: int, height: int, image: Image, p: int) -> u8 {
    let (x0, y0, bw, bh) = icon_box(width, height);
    let (bx, by) = (p % width - x0, p / width - y0);
    if width > 0 && 0 <= p && p / width < height && 0 <= bx < bw && 0 <= by < bh
        && icon_pixel(image, bw, bh, bx, by) != 0 {
        icon_pixel(image, bw, bh, bx, by)
    } else {
        under[p]
    }
}

/// A view with the weapon's picture in its box: the box cleared one pixel
/// in and two short, then the picture scaled into the whole box, its index
/// 0 letting what is under it through.
pub open spec fn iconed(frame: Seq<u8>, width: int, height: int, image: Image) -> Seq<u8> {
    let (x0, y0, bw, bh) = icon_box(width, height);
    let cleared = filled(frame, width, height, x0 + 1, y0 + 1, bw - 3, bh - 3, 0);
    if image.shape.width == 0 || image.shape.height == 0 || bw <= 0 || bh <= 0 {
        cleared
    } else {
        Seq::new(frame.len(), |p: int| icon_at(cleared, width, height, image, p))
    }
}

/// The weapon's picture, scaled into its box. The engine gets there the long
/// way - it sets the viewport to the box, hangs the picture on a quad as a
/// texture and draws it (`0x420e70`) - which comes to the same thing.
pub fn icon(frame: &mut [u8], width: usize, height: usize, image: &Image)
    requires
        width * height <= old(frame)@.len(),
        view_fits(width as int, height as int),
        crate::render::raster::whole(*image),
        image.shape.width <= 0x1_0000 && image.shape.height <= 0x1_0000,
    ensures
        final(frame)@ == iconed(old(frame)@, width as int, height as int, *image),
{
    let ghost before = frame@;
    let (w, h) = (width as isize, height as isize);
    let m = isize::MAX / 0x1_0000;
    assert(0 <= 14 * w <= 14 * m && 0 <= 63 * w <= 63 * m && 0 <= 3 * h <= 3 * m && 0 <= 56 * h <= 56 * m) by (nonlinear_arith)
        requires 0 <= w <= m, 0 <= h <= m;
    let (x0, y0) = (14 * w / 640, 3 * h / 480);
    let (bw, bh) = (63 * w / 640, 56 * h / 480);
    assert(x0 + bw <= w && y0 + bh <= h) by (nonlinear_arith)
        requires x0 == 14 * w / 640, bw == 63 * w / 640, y0 == 3 * h / 480, bh == 56 * h / 480, 0 <= w, 0 <= h;
    proof {
        lemma_fill_fits(frame@.len() as int, width as int, height as int, x0 + 1, y0 + 1, bw - 3, bh - 3);
    }
    fill(frame, width, height, x0 + 1, y0 + 1, bw - 3, bh - 3, 0);
    let ghost cleared = frame@;
    let (sw, sh) = (image.shape.width, image.shape.height);
    if sw == 0 || sh == 0 || bw <= 0 || bh <= 0 {
        return;
    }
    let (bwu, bhu) = (bw as usize, bh as usize);
    let mut y: usize = 0;
    while y < bhu
        invariant
            cleared.len() == before.len(),
            frame@.len() == before.len(),
            width * height <= before.len(),
            crate::render::raster::whole(*image),
            sw == image.shape.width && sh == image.shape.height,
            1 <= sw <= 0x1_0000 && 1 <= sh <= 0x1_0000,
            view_fits(width as int, height as int),
            cleared == filled(before, width as int, height as int, x0 + 1, y0 + 1, bw - 3, bh - 3, 0),
            icon_box(width as int, height as int) == (x0 as int, y0 as int, bw as int, bh as int),
            0 <= x0 && 0 <= y0 && 1 <= bw && 1 <= bh,
            x0 + bw <= width && y0 + bh <= height,
            bwu == bw && bhu == bh,
            y <= bhu,
            forall|p: int| 0 <= p < before.len() ==> #[trigger] frame@[p] == (
                if width > 0 && p / (width as int) < y0 + y { icon_at(cleared, width as int, height as int, *image, p) } else { cleared[p] }
            ),
        decreases bhu - y,
    {
        let mut x: usize = 0;
        while x < bwu
            invariant
                cleared.len() == before.len(),
                frame@.len() == before.len(),
                width * height <= before.len(),
                crate::render::raster::whole(*image),
                sw == image.shape.width && sh == image.shape.height,
                1 <= sw <= 0x1_0000 && 1 <= sh <= 0x1_0000,
                view_fits(width as int, height as int),
                icon_box(width as int, height as int) == (x0 as int, y0 as int, bw as int, bh as int),
                0 <= x0 && 0 <= y0 && 1 <= bw && 1 <= bh,
                x0 + bw <= width && y0 + bh <= height,
                bwu == bw && bhu == bh,
                y < bhu,
                x <= bwu,
                forall|p: int| 0 <= p < before.len() ==> #[trigger] frame@[p] == (
                    if width > 0 && (p / (width as int) < y0 + y || (p / (width as int) == y0 + y && p % (width as int) < x0 + x)) {
                        icon_at(cleared, width as int, height as int, *image, p)
                    } else {
                        cleared[p]
                    }
                ),
            decreases bwu - x,
        {
            assert(x * sw <= 0x1_0000 * bwu && y * sh <= 0x1_0000 * bhu) by (nonlinear_arith)
                requires x < bwu, y < bhu, sw <= 0x1_0000, sh <= 0x1_0000;
            assert(0x1_0000 * bwu <= 0x1_0000 * width && 0x1_0000 * bhu <= 0x1_0000 * height) by (nonlinear_arith)
                requires bwu <= width, bhu <= height;
            assert(0x1_0000 * width <= usize::MAX && 0x1_0000 * height <= usize::MAX) by (nonlinear_arith)
                requires width <= isize::MAX / 0x1_0000, height <= isize::MAX / 0x1_0000;
            let sx0 = x * sw / bwu;
            let sy0 = y * sh / bhu;
            let sx = if sx0 < sw - 1 { sx0 } else { sw - 1 };
            let sy = if sy0 < sh - 1 { sy0 } else { sh - 1 };
            let ghost want = icon_pixel(*image, bw as int, bh as int, x as int, y as int);
            proof {
                assert(sy * sw + sx < sw * sh) by (nonlinear_arith)
                    requires sx < sw, sy < sh;
                assert(0 <= sy * sw) by (nonlinear_arith) requires 0 <= sy, 0 <= sw;
                assert(image.pixels@.len() == image.pixels.len());
                lemma_pixel_in(width as int, height as int, (x0 + x) as int, (y0 + y) as int, before.len() as int);
            }
            let n = frame.len();
            let index = image.pixels[sy * sw + sx];
            assert(index == want);
            let at = (y0 as usize + y) * width + x0 as usize + x;
            if index != 0 {
                frame[at] = index;
            }
            proof {
                let wi = width as int;
                assert forall|p: int| 0 <= p < before.len() implies #[trigger] frame@[p] == (
                    if width > 0 && (p / wi < y0 + y || (p / wi == y0 + y && p % wi < x0 + x + 1)) {
                        icon_at(cleared, width as int, height as int, *image, p)
                    } else {
                        cleared[p]
                    }) by {
                    if p == at {
                    } else if width > 0 && p / wi == y0 + y && p % wi == x0 + x {
                        vstd::arithmetic::div_mod::lemma_fundamental_div_mod(p, wi);
                        assert(p == (y0 + y) * wi + x0 + x) by (nonlinear_arith)
                            requires p == wi * (p / wi) + p % wi, p / wi == y0 + y, p % wi == x0 + x;
                    }
                }
            }
            x += 1;
        }
        proof {
            let wi = width as int;
            assert forall|p: int| 0 <= p < before.len() implies #[trigger] frame@[p] == (
                if width > 0 && p / wi < y0 + y + 1 {
                    icon_at(cleared, width as int, height as int, *image, p)
                } else {
                    cleared[p]
                }) by {
                if width > 0 && p / wi == y0 + y && p % wi >= x0 + bw {
                    vstd::arithmetic::div_mod::lemma_mod_bound(p, wi);
                }
                if width > 0 && p / wi == y0 + y && p % wi < x0 {
                    vstd::arithmetic::div_mod::lemma_mod_bound(p, wi);
                }
            }
        }
        y += 1;
    }
    proof {
        let wi = width as int;
        assert forall|p: int| 0 <= p < before.len() implies #[trigger] frame@[p]
            == iconed(before, width as int, height as int, *image)[p] by {
            if width > 0 {
                vstd::arithmetic::div_mod::lemma_mod_bound(p, wi);
                vstd::arithmetic::div_mod::lemma_div_pos_is_pos(p, wi);
            }
        }
    }
    assert(frame@ =~= iconed(before, width as int, height as int, *image));
}

/// The top-left panel, which is the other place the game writes to you:
/// 16, 3, 236 by 56 in 640x480 (`0x420080` builds it out of the view's
/// size), cleared and written seven pixels a line. While something is in
/// it, the weapon and ammunition lines stand aside, because it is the same
/// strip of screen and the weapon's picture is under it too.
pub const PANEL: [isize; 4] = [16, 3, 236, 56];

/// The panel in a view.
pub open spec fn panel_box(width: int, height: int) -> (int, int, int, int) {
    (16 * width / 640, 3 * height / 480, 236 * width / 640, 56 * height / 480)
}

/// The rows the panel holds at once, and at least one.
pub open spec fn panel_rows(height: int) -> int {
    let r = panel_box(0, height).3 / LINE as int;
    if r >= 1 { r } else { 1 }
}

/// The width the panel wraps to: four pixels short of the panel, and at
/// least eight.
pub open spec fn panel_limit(width: int) -> int {
    let w = panel_box(width, 0).2 - 4;
    if w >= 8 { w } else { 8 }
}

/// The rows the panel shows: the lines wrapped to it, the last that fit.
pub open spec fn panel_text(glyphs: Seq<GlyphView>, lines: Seq<Seq<char>>, width: int, height: int) -> Seq<Seq<char>> {
    let all = wrapped(glyphs, lines, panel_limit(width));
    let rows = panel_rows(height);
    if all.len() > rows { all.subrange(all.len() - rows, all.len() as int) } else { all }
}

/// A view with the first `n` of some rows written a line apart from `(x, y)`.
pub open spec fn rows_written(glyphs: Seq<GlyphView>, frame: Seq<u8>, rows: Seq<Seq<char>>, x: int, y: int, width: int, height: int, n: nat) -> Seq<u8>
    decreases n,
{
    if n == 0 || n > rows.len() {
        frame
    } else {
        let k = n - 1;
        written(glyphs, rows_written(glyphs, frame, rows, x, y, width, height, k as nat), rows[k], x, y + k * LINE, width, height, INK)
    }
}

/// A view with the panel written: cleared, and its rows two pixels in.
pub open spec fn paneled(glyphs: Seq<GlyphView>, frame: Seq<u8>, width: int, height: int, lines: Seq<Seq<char>>) -> Seq<u8> {
    let (x, y, pw, ph) = panel_box(width, height);
    let rows = panel_text(glyphs, lines, width, height);
    rows_written(glyphs, filled(frame, width, height, x, y, pw, ph, 0), rows, x + 2, y, width, height, rows.len())
}

/// Write into the panel, most recent line last. More than fit and the
/// oldest fall off the top.
pub fn panel(frame: &mut [u8], width: usize, height: usize, font: &HudFont, lines: &[String])
    requires
        width * height <= old(frame)@.len(),
        view_fits(width as int, height as int),
        glyphs_whole(glyphs_view(*font)),
        forall|i: int| 0 <= i < wrapped(glyphs_view(*font), texts(lines@), panel_limit(width as int)).len()
            ==> text_width(glyphs_view(*font), #[trigger] wrapped(glyphs_view(*font), texts(lines@), panel_limit(width as int))[i]) <= isize::MAX / 4,
    ensures
        final(frame)@ == paneled(glyphs_view(*font), old(frame)@, width as int, height as int, texts(lines@)),
{
    let ghost gs = glyphs_view(*font);
    let ghost before = frame@;
    let (w, h) = (width as isize, height as isize);
    let m = isize::MAX / 0x1_0000;
    assert(0 <= 16 * w <= 16 * m && 0 <= 236 * w <= 236 * m && 0 <= 3 * h <= 3 * m && 0 <= 56 * h <= 56 * m) by (nonlinear_arith)
        requires 0 <= w <= m, 0 <= h <= m;
    let (x, y) = (16 * w / 640, 3 * h / 480);
    let (pw, ph) = (236 * w / 640, 56 * h / 480);
    assert(x + pw <= w && y + ph <= h) by (nonlinear_arith)
        requires x == 16 * w / 640, pw == 236 * w / 640, y == 3 * h / 480, ph == 56 * h / 480, 0 <= w, 0 <= h;
    proof {
        lemma_fill_fits(frame@.len() as int, width as int, height as int, x as int, y as int, pw as int, ph as int);
    }
    fill(frame, width, height, x, y, pw, ph, 0);
    let ghost cleared = frame@;
    let rows_fit = ph / LINE as isize;
    let rows: usize = if rows_fit >= 1 { rows_fit as usize } else { 1 };
    let limit: usize = if pw - 4 >= 8 { (pw - 4) as usize } else { 8 };
    assert(rows == panel_rows(height as int) && limit == panel_limit(width as int));
    let all = wrap(font, lines, limit);
    let ghost shown = panel_text(gs, texts(lines@), width as int, height as int);
    let from = if all.len() > rows { all.len() - rows } else { 0 };
    assert(texts(all@).subrange(from as int, all@.len() as int) =~= shown);
    let mut i = from;
    while i < all.len()
        invariant
            gs == glyphs_view(*font),
            glyphs_whole(gs),
            from <= i <= all@.len(),
            texts(all@) == wrapped(gs, texts(lines@), limit as int),
            texts(all@).subrange(from as int, all@.len() as int) == shown,
            all@.len() - from <= rows,
            rows == panel_rows(height as int),
            0 <= x <= w && 0 <= y && y + ph <= h,
            ph == 56 * h / 480,
            view_fits(width as int, height as int),
            w == width && h == height,
            width * height <= frame@.len(),
            forall|k: int| 0 <= k < texts(all@).len() ==> text_width(gs, #[trigger] texts(all@)[k]) <= isize::MAX / 4,
            frame@ == rows_written(gs, cleared, shown, x + 2, y as int, width as int, height as int, (i - from) as nat),
        decreases all@.len() - i,
    {
        assert(texts(all@)[i as int] == all@[i as int]@);
        assert(shown[i - from] == all@[i as int]@);
        let k = (i - from) as isize;
        assert(k * 7 <= 7 * (ph / 7) + 7) by (nonlinear_arith)
            requires 0 <= k < rows, rows == (if ph / 7 >= 1 { ph / 7 } else { 1 }), ph >= 0;
        let row_y = y + k * LINE as isize;
        write(frame, width, height, font, x + 2, row_y, all[i].as_str(), INK);
        i += 1;
    }
}

} // verus!
