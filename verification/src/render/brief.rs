//! The briefing screen: a level's `.TXT` typed into the panel of
//! `BRIEF.RAW`, in the HUD's font.
//!
//! Every briefing is drawn on the same backdrop; the name in the file is the
//! texture the globe wears. `FONT.BIN` is 23 pixels a line and a briefing runs
//! to seventeen lines, which does not fit a 200-line screen, so the text is in
//! the small font. Which font the engine uses here is not read.

use vstd::prelude::*;
use crate::bytes::{chars_of, string_of};
use crate::formats::act::Palette;
use crate::formats::brief::PANEL;
use crate::formats::hud_font::{glyphs_view, glyphs_whole, inked, text_width, HudFont, LINE, ROWS};
use crate::render::hud::{texts, wrap, wrapped};

verus! {

/// How bright a palette entry is: its three channels summed.
pub open spec fn brightness(c: [u8; 3]) -> int {
    c[0] + c[1] + c[2]
}

/// Whether entry `i` is the ink: none is brighter, and none after it is as
/// bright.
pub open spec fn is_ink(colours: Seq<[u8; 3]>, i: int) -> bool {
    &&& 0 <= i < 256
    &&& forall|j: int| 0 <= j < 256 ==> brightness(#[trigger] colours[j]) <= brightness(colours[i])
    &&& forall|j: int| i < j < 256 ==> brightness(#[trigger] colours[j]) < brightness(colours[i])
}

/// The ink: the brightest entry of the briefing's palette, the last of them
/// where several are as bright.
pub fn ink(palette: &Palette) -> (r: u8)
    ensures
        is_ink(palette.colours@, r as int),
{
    let ghost cs = palette.colours@;
    let mut best: u8 = 0;
    let first = palette.rgb(0);
    let mut best_sum: u32 = first[0] as u32 + first[1] as u32 + first[2] as u32;
    let mut i: u32 = 1;
    while i < 256
        invariant
            cs == palette.colours@,
            cs.len() == 256,
            1 <= i <= 256,
            best < i,
            best_sum == brightness(cs[best as int]),
            forall|j: int| 0 <= j < i ==> brightness(#[trigger] cs[j]) <= best_sum,
            forall|j: int| best < j < i ==> brightness(#[trigger] cs[j]) < best_sum,
        decreases 256 - i,
    {
        let c = palette.rgb(i as u8);
        let sum = c[0] as u32 + c[1] as u32 + c[2] as u32;
        if sum >= best_sum {
            best = i as u8;
            best_sum = sum;
        }
        i += 1;
    }
    best
}

/// How many rows of text the panel holds.
pub fn rows() -> (r: usize)
    ensures
        r == PANEL[3] / LINE,
        r == 12,
{
    PANEL[3] / LINE
}

/// The rows shown from row `k` on with `left` characters still to type: each
/// row up to what is left, and a row's end costs one more.
pub open spec fn shown_from(rows: Seq<Seq<char>>, k: nat, left: nat) -> Seq<Seq<char>>
    decreases rows.len() - k,
{
    if k >= rows.len() || left == 0 {
        Seq::empty()
    } else {
        let row = rows[k as int];
        let take: nat = if left <= row.len() { left } else { row.len() };
        let after: nat = if left - take >= 1 { (left - take - 1) as nat } else { 0 };
        seq![row.take(take as int)] + shown_from(rows, k + 1, after)
    }
}

/// What the panel shows once `revealed` characters have been typed: the rows
/// typed so far, the last twelve of them.
pub open spec fn typed_rows(rows: Seq<Seq<char>>, revealed: nat) -> Seq<Seq<char>> {
    let shown = shown_from(rows, 0, revealed);
    let from = if shown.len() >= 12 { shown.len() - 12 } else { 0 };
    shown.subrange(from, shown.len() as int)
}

/// The rows showing once `revealed` characters have been typed: the text
/// wrapped to the panel, cut where the typing has got to - a line break costs
/// a character, so a blank line takes time too - and scrolled so the last
/// thing typed is in view.
pub fn typed(font: &HudFont, lines: &[String], revealed: usize) -> (r: Vec<String>)
    ensures
        texts(r@) == typed_rows(wrapped(glyphs_view(*font), texts(lines@), PANEL[2] as int), revealed as nat),
{
    let all = wrap(font, lines, PANEL[2]);
    let ghost rv = texts(all@);
    let mut left = revealed;
    let mut shown: Vec<String> = Vec::new();
    let mut k: usize = 0;
    while k < all.len()
        invariant
            rv == texts(all@),
            k <= all@.len(),
            texts(shown@) + shown_from(rv, k as nat, left as nat) == shown_from(rv, 0, revealed as nat),
        ensures
            k >= all@.len() || left == 0,
            texts(shown@) + shown_from(rv, k as nat, left as nat) == shown_from(rv, 0, revealed as nat),
        decreases all@.len() - k,
    {
        if left == 0 {
            break;
        }
        let chars = chars_of(all[k].as_str());
        let take = if left <= chars.len() { left } else { chars.len() };
        let ghost was = texts(shown@);
        shown.push(string_of(&chars.as_slice()[0..take]));
        left = if left - take >= 1 { left - take - 1 } else { 0 };
        proof {
            assert(texts(shown@) =~= was + seq![rv[k as int].take(take as int)]);
            assert(texts(shown@) + shown_from(rv, (k + 1) as nat, left as nat) =~= shown_from(rv, 0, revealed as nat));
        }
        k += 1;
    }
    proof {
        assert(shown_from(rv, k as nat, left as nat) =~= Seq::empty());
        assert(texts(shown@) =~= shown_from(rv, 0, revealed as nat));
    }
    let count = shown.len();
    let from = if count >= 12 { count - 12 } else { 0 };
    let out = shown.split_off(from);
    proof {
        assert(texts(out@) =~= texts(shown@ + out@).subrange(from as int, count as int));
    }
    out
}

/// How many of the rows the panel shows: twelve at most.
pub open spec fn fitting(rows: Seq<String>) -> int {
    if rows.len() < 12 { rows.len() as int } else { 12 }
}

/// Whether pixel `p` takes ink from one of the first `n` rows, each a line
/// below the last from the panel's corner.
pub open spec fn rows_ink(font: HudFont, rows: Seq<String>, n: int, width: int, height: int, p: int) -> bool {
    exists|i: int| 0 <= i < n && #[trigger] inked(glyphs_view(font), rows[i]@, PANEL[0] as int, PANEL[1] + i * LINE, width, height, p)
}

/// Draw rows into the panel of a backdrop `width` pixels across, as many as
/// fit from the first.
pub fn draw(pixels: &mut [u8], width: usize, height: usize, font: &HudFont, rows: &[String], ink: u8)
    requires
        glyphs_whole(glyphs_view(*font)),
        width <= isize::MAX,
        height <= isize::MAX,
        forall|i: int| 0 <= i < rows@.len() && i < 12 ==> PANEL[0] + text_width(glyphs_view(*font), (#[trigger] rows@[i])@) <= isize::MAX,
        forall|p: int| #[trigger] rows_ink(*font, rows@, fitting(rows@), width as int, height as int, p) ==> p < old(pixels)@.len(),
    ensures
        final(pixels)@.len() == old(pixels)@.len(),
        forall|p: int| 0 <= p < old(pixels)@.len() ==> #[trigger] final(pixels)@[p] == (
            if rows_ink(*font, rows@, fitting(rows@), width as int, height as int, p) { ink } else { old(pixels)@[p] }
        ),
{
    let ghost before = pixels@;
    let ghost n: int = fitting(rows@);
    let px = PANEL[0];
    let py = PANEL[1];
    let fit = self::rows();
    let shown = if rows.len() < fit { rows.len() } else { fit };
    let mut i: usize = 0;
    while i < shown
        invariant
            glyphs_whole(glyphs_view(*font)),
            width <= isize::MAX,
            height <= isize::MAX,
            shown == n,
            n <= rows@.len(),
            n <= 12,
            i <= shown,
            px == PANEL[0] && py == PANEL[1],
            pixels@.len() == before.len(),
            forall|j: int| 0 <= j < rows@.len() && j < 12 ==> PANEL[0] + text_width(glyphs_view(*font), (#[trigger] rows@[j])@) <= isize::MAX,
            forall|p: int| #[trigger] rows_ink(*font, rows@, n, width as int, height as int, p) ==> p < before.len(),
            forall|p: int| 0 <= p < before.len() ==> #[trigger] pixels@[p] == (
                if rows_ink(*font, rows@, i as int, width as int, height as int, p) { ink } else { before[p] }
            ),
        decreases shown - i,
    {
        let ghost mid = pixels@;
        let ghost row = rows@[i as int]@;
        proof {
            assert forall|p: int| #[trigger] inked(glyphs_view(*font), rows[i as int]@, px as int, (py + i * LINE) as int, width as int, height as int, p) implies p < mid.len() by {
                assert(rows_ink(*font, rows@, n, width as int, height as int, p));
            }
            assert(PANEL[0] + text_width(glyphs_view(*font), rows@[i as int]@) <= isize::MAX);
        }
        font.draw(pixels, width, height, px as isize, (py + i * LINE) as isize, rows[i].as_str(), ink);
        proof {
            assert forall|p: int| 0 <= p < before.len() implies #[trigger] pixels@[p] == (
                if rows_ink(*font, rows@, i + 1, width as int, height as int, p) { ink } else { before[p] }
            ) by {
                if inked(glyphs_view(*font), rows@[i as int]@, PANEL[0] as int, PANEL[1] + i * LINE, width as int, height as int, p) {
                    assert(rows_ink(*font, rows@, i + 1, width as int, height as int, p));
                } else if rows_ink(*font, rows@, i + 1, width as int, height as int, p) {
                    let j = choose|j: int| 0 <= j < i + 1 && #[trigger] inked(glyphs_view(*font), rows@[j]@, PANEL[0] as int, PANEL[1] + j * LINE, width as int, height as int, p);
                    assert(j != i);
                    assert(rows_ink(*font, rows@, i as int, width as int, height as int, p));
                } else {
                    if rows_ink(*font, rows@, i as int, width as int, height as int, p) {
                        let j = choose|j: int| 0 <= j < i && #[trigger] inked(glyphs_view(*font), rows@[j]@, PANEL[0] as int, PANEL[1] + j * LINE, width as int, height as int, p);
                        assert(rows_ink(*font, rows@, i + 1, width as int, height as int, p));
                    }
                }
            }
        }
        i += 1;
    }
}

} // verus!
