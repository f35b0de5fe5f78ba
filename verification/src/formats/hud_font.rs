//! The small font the HUD is written in, which lives in the executable.
//!
//! Not the `FONT.BIN` of the front end: every line the game draws over the
//! cockpit is in this one, five pixels tall in a six-row cell, with a
//! seven-pixel line height.
//!
//! It is a table at virtual address `0x50f530`, 48 bytes a character for
//! characters 0x20 to 0xff. The first byte is the glyph's width; the rest is
//! one byte a pixel, `width` across and six down, 1 where the pixel is set.
//! The width routine (`0x485a00`) adds one to each width for the gap between
//! letters.
//!
//! [`HudFont::table`] writes the table back out on its own, which is how a
//! player can keep the port running from a directory with no executable in
//! it.

use vstd::prelude::*;
use crate::bytes::{le_u16, le_u32, wanted, wanted_bytes};
use crate::formats::{Error, Result};

verus! {

/// Where the table is, as a virtual address in the retail 1.00 image.
pub const TABLE: u32 = 0x50f530;

/// Bytes a character.
pub const STRIDE: usize = 48;

/// Rows in a glyph's cell. A descender uses the last of them.
pub const ROWS: usize = 6;

/// What one line of text takes, from `0x4810a2`: `lines * 7`.
pub const LINE: usize = 7;

/// The first character in the table; below it the engine draws nothing.
pub const FIRST: usize = 0x20;

/// The whole table, 256 characters of [`STRIDE`] bytes.
pub const TABLE_BYTES: usize = 12288;

#[derive(Debug, Clone)]
pub struct Glyph {
    pub width: usize,
    /// `width * ROWS` bytes, a row at a time, 1 where the pixel is set.
    pub pixels: Vec<u8>,
}

#[derive(Debug, Clone)]
pub struct HudFont {
    /// Indexed by character code; entries below [`FIRST`] are empty.
    pub glyphs: Vec<Glyph>,
}

pub struct GlyphView {
    pub width: usize,
    pub pixels: Seq<u8>,
}

pub open spec fn glyph_view(g: Glyph) -> GlyphView {
    GlyphView { width: g.width, pixels: g.pixels@ }
}

pub open spec fn glyphs_view(f: HudFont) -> Seq<GlyphView> {
    f.glyphs@.map_values(|g: Glyph| glyph_view(g))
}

/// The glyph for `code` in a table: none below [`FIRST`], nor where the width
/// is zero or its pixels would not fit the record; else the width and the
/// `width * ROWS` bytes after it.
pub open spec fn glyph_in(table: Seq<u8>, code: int) -> GlyphView {
    let at = code * STRIDE;
    let width = table[at] as int;
    if code < FIRST || width == 0 || width * ROWS > STRIDE - 1 {
        GlyphView { width: 0, pixels: Seq::empty() }
    } else {
        GlyphView { width: width as usize, pixels: table.subrange(at + 1, at + 1 + width * ROWS) }
    }
}

/// A table's 256 glyphs.
pub open spec fn glyphs_in(table: Seq<u8>) -> Seq<GlyphView> {
    Seq::new(256, |code: int| glyph_in(table, code))
}

/// The table a set of glyphs writes: each glyph's record holds its width and
/// its pixels, and every other byte is zero.
pub open spec fn table_of(glyphs: Seq<GlyphView>) -> Seq<u8> {
    Seq::new(
        TABLE_BYTES as nat,
        |i: int| {
            let code = i / STRIDE as int;
            let off = i % STRIDE as int;
            if code < glyphs.len() && glyphs[code].width != 0 {
                if off == 0 {
                    glyphs[code].width as u8
                } else if off - 1 < glyphs[code].pixels.len() {
                    glyphs[code].pixels[off - 1]
                } else {
                    0
                }
            } else {
                0
            }
        },
    )
}

/// Whether a font's table can be written: every glyph with a width is one of
/// the 256 and its pixels fit its record.
pub open spec fn writable(glyphs: Seq<GlyphView>) -> bool {
    forall|code: int| 0 <= code < glyphs.len() && glyphs[code].width != 0 ==> code < 256 && glyphs[code].pixels.len() <= STRIDE - 1
}

impl HudFont {
    /// Read the table on its own, as [`HudFont::table`] writes it: 256
    /// glyphs, each a width byte and `width * ROWS` pixel bytes, none below
    /// [`FIRST`] and none whose width is zero or too wide for its record.
    pub fn parse(table: &[u8]) -> (r: Result<HudFont>)
        ensures
            table@.len() < TABLE_BYTES ==> (r matches Err(Error::WrongSize { what, want, have })
                && want@ == wanted_bytes(TABLE_BYTES as nat) && have == table@.len()),
            table@.len() >= TABLE_BYTES ==> (r matches Ok(f) && glyphs_view(f) == glyphs_in(table@)),
    {
        if table.len() < TABLE_BYTES {
            return Err(Error::WrongSize { what: "HUD font table", want: wanted(TABLE_BYTES as u128), have: table.len() });
        }
        let mut glyphs: Vec<Glyph> = Vec::new();
        let mut code: usize = 0;
        while code < 256
            invariant
                code <= 256,
                table@.len() >= TABLE_BYTES,
                glyphs@.len() == code,
                forall|k: int| 0 <= k < code ==> #[trigger] glyph_view(glyphs@[k]) == glyph_in(table@, k),
            decreases 256 - code,
        {
            let at = code * STRIDE;
            let width = table[at] as usize;
            if code < FIRST || width == 0 || width * ROWS > STRIDE - 1 {
                glyphs.push(Glyph { width: 0, pixels: Vec::new() });
            } else {
                let pixels = vstd::slice::slice_to_vec(&table[at + 1..at + 1 + width * ROWS]);
                assert(pixels@ =~= table@.subrange(at + 1, at + 1 + width * ROWS));
                glyphs.push(Glyph { width, pixels });
            }
            code += 1;
        }
        let f = HudFont { glyphs };
        assert(glyphs_view(f) =~= glyphs_in(table@));
        Ok(f)
    }

    /// The table again, byte for byte where a glyph is one the engine has.
    pub fn table(&self) -> (r: Vec<u8>)
        requires
            writable(glyphs_view(*self)),
        ensures
            r@ == table_of(glyphs_view(*self)),
    {
        let ghost gs = glyphs_view(*self);
        let mut out: Vec<u8> = Vec::new();
        let mut i: usize = 0;
        while i < TABLE_BYTES
            invariant
                i <= TABLE_BYTES,
                out@.len() == i,
                forall|k: int| 0 <= k < i ==> #[trigger] out@[k] == 0u8,
            decreases TABLE_BYTES - i,
        {
            out.push(0);
            i += 1;
        }
        let mut code: usize = 0;
        while code < self.glyphs.len()
            invariant
                gs == glyphs_view(*self),
                writable(gs),
                code <= self.glyphs@.len(),
                out@.len() == TABLE_BYTES,
                forall|k: int| 0 <= k < TABLE_BYTES ==> #[trigger] out@[k] == (
                    if k / (STRIDE as int) < code { table_of(gs)[k] } else { 0u8 }
                ),
            decreases self.glyphs@.len() - code,
        {
            let g = &self.glyphs[code];
            if g.width != 0 {
                assert(gs[code as int].width != 0);
                let at = code * STRIDE;
                out.set(at, #[verifier::truncate] (g.width as u8));
                let mut j: usize = 0;
                while j < g.pixels.len()
                    invariant
                        gs == glyphs_view(*self),
                        writable(gs),
                        code < self.glyphs@.len(),
                        code < 256,
                        at == code * STRIDE,
                        *g == self.glyphs@[code as int],
                        g.width != 0,
                        g.pixels@.len() <= STRIDE - 1,
                        j <= g.pixels@.len(),
                        out@.len() == TABLE_BYTES,
                        forall|k: int| 0 <= k < TABLE_BYTES ==> #[trigger] out@[k] == (
                            if k / (STRIDE as int) < code { table_of(gs)[k] }
                            else if k == at { g.width as u8 }
                            else if at + 1 <= k < at + 1 + j { g.pixels@[k - at - 1] }
                            else { 0u8 }
                        ),
                    decreases g.pixels@.len() - j,
                {
                    out.set(at + 1 + j, g.pixels[j]);
                    j += 1;
                }
                assert forall|k: int| 0 <= k < TABLE_BYTES implies #[trigger] out@[k] == (
                    if k / (STRIDE as int) < code + 1 { table_of(gs)[k] } else { 0u8 }
                ) by {
                    if k / (STRIDE as int) == code {
                        assert(k % (STRIDE as int) == k - at);
                    }
                }
            } else {
                assert forall|k: int| 0 <= k < TABLE_BYTES implies #[trigger] out@[k] == (
                    if k / (STRIDE as int) < code + 1 { table_of(gs)[k] } else { 0u8 }
                ) by {
                }
            }
            code += 1;
        }
        assert forall|k: int| 0 <= k < TABLE_BYTES implies #[trigger] out@[k] == table_of(gs)[k] by {
            if k / (STRIDE as int) >= code {
                assert(k / (STRIDE as int) >= gs.len());
            }
        }
        assert(out@ =~= table_of(gs));
        out
    }
}

/// A table read in can be written back out: every glyph it gives fits.
pub proof fn lemma_read_table_writable(table: Seq<u8>)
    requires
        table.len() >= TABLE_BYTES,
    ensures
        writable(glyphs_in(table)),
{
}

/// Writing a font's table and reading it back gives the same glyphs, for
/// every font read from a table.
pub proof fn law_table_round_trip(table: Seq<u8>)
    requires
        table.len() >= TABLE_BYTES,
    ensures
        glyphs_in(table_of(glyphs_in(table))) == glyphs_in(table),
{
    let g = glyphs_in(table);
    let t = table_of(g);
    assert forall|code: int| 0 <= code < 256 implies #[trigger] glyph_in(t, code) == g[code] by {
        let at = code * STRIDE;
        assert(at / (STRIDE as int) == code);
        assert(at % (STRIDE as int) == 0);
        if g[code].width != 0 {
            let w = g[code].width as int;
            assert(t[at] == w as u8);
            assert(glyph_in(t, code).pixels =~= g[code].pixels) by {
                assert forall|k: int| 0 <= k < w * ROWS implies #[trigger] t[at + 1 + k] == g[code].pixels[k] by {
                    assert((at + 1 + k) / (STRIDE as int) == code);
                    assert((at + 1 + k) % (STRIDE as int) == 1 + k);
                }
            }
        }
    }
    assert(glyphs_in(t) =~= g);
}

/// The table written from a font read in matches the original byte for byte
/// on every record of a glyph the engine has: its width and its pixels.
pub proof fn lemma_table_keeps_glyph_bytes(table: Seq<u8>, code: int, k: int)
    requires
        table.len() >= TABLE_BYTES,
        0 <= code < 256,
        glyphs_in(table)[code].width != 0,
        0 <= k <= glyphs_in(table)[code].width * ROWS,
    ensures
        table_of(glyphs_in(table))[code * STRIDE + k] == table[code * STRIDE + k],
{
    let at = code * STRIDE;
    assert((at + k) / (STRIDE as int) == code);
    assert((at + k) % (STRIDE as int) == k);
}

/// Whether a character has a glyph to draw.
pub open spec fn present(glyphs: Seq<GlyphView>, c: char) -> bool {
    (c as int) < glyphs.len() && glyphs[c as int].width > 0
}

/// How far the pen moves for a character: its width and one for the gap, or
/// nothing for one without a glyph.
pub open spec fn advance(glyphs: Seq<GlyphView>, c: char) -> int {
    if present(glyphs, c) { glyphs[c as int].width + 1 } else { 0 }
}

/// How wide a string is, the engine's way.
pub open spec fn text_width(glyphs: Seq<GlyphView>, text: Seq<char>) -> int
    decreases text.len(),
{
    if text.len() == 0 { 0 } else { text_width(glyphs, text.drop_last()) + advance(glyphs, text.last()) }
}

/// Measuring two strings one after the other is measuring each and adding.
pub proof fn law_hud_width_adds(glyphs: Seq<GlyphView>, a: Seq<char>, b: Seq<char>)
    ensures
        text_width(glyphs, a + b) == text_width(glyphs, a) + text_width(glyphs, b),
    decreases b.len(),
{
    if b.len() == 0 {
        assert(a + b =~= a);
    } else {
        law_hud_width_adds(glyphs, a, b.drop_last());
        assert((a + b).drop_last() =~= a + b.drop_last());
        assert((a + b).last() == b.last());
    }
}

impl HudFont {
    /// The glyph for a character, where it has one with a width.
    pub fn glyph(&self, c: char) -> (r: Option<&Glyph>)
        ensures
            match r {
                Some(g) => present(glyphs_view(*self), c) && glyph_view(*g) == glyphs_view(*self)[c as int],
                None => !present(glyphs_view(*self), c),
            },
    {
        let code = c as u32 as usize;
        if code < self.glyphs.len() && self.glyphs[code].width > 0 {
            Some(&self.glyphs[code])
        } else {
            None
        }
    }

    /// How wide a string is, the engine's way: each glyph's width plus one
    /// (`0x485a31`); characters without a glyph take no room.
    pub fn width(&self, text: &str) -> (r: usize)
        requires
            text_width(glyphs_view(*self), text@) <= usize::MAX,
        ensures
            r == text_width(glyphs_view(*self), text@),
    {
        let chars = crate::bytes::chars_of(text);
        let ghost gs = glyphs_view(*self);
        let mut total: usize = 0;
        let mut i: usize = 0;
        while i < chars.len()
            invariant
                gs == glyphs_view(*self),
                chars@ == text@,
                i <= chars@.len(),
                text_width(gs, text@) <= usize::MAX,
                total == text_width(gs, chars@.take(i as int)),
            decreases chars@.len() - i,
        {
            assert(chars@.take(i + 1).drop_last() =~= chars@.take(i as int));
            proof {
                lemma_width_grows(gs, chars@, i + 1, chars@.len() as int);
            }
            assert(chars@.take(chars@.len() as int) =~= chars@);
            match self.glyph(chars[i]) {
                Some(g) => {
                    total = total + g.width + 1;
                },
                None => {},
            }
            i += 1;
        }
        assert(chars@.take(i as int) =~= chars@);
        total
    }
}

impl HudFont {
    /// Whether characters are no wider than `limit`, the engine's way.
    pub fn fits(&self, text: &[char], limit: usize) -> (r: bool)
        ensures
            r == (text_width(glyphs_view(*self), text@) <= limit),
    {
        let ghost gs = glyphs_view(*self);
        let mut total: u128 = 0;
        let mut i: usize = 0;
        while i < text.len()
            invariant
                gs == glyphs_view(*self),
                i <= text@.len(),
                total == text_width(gs, text@.take(i as int)),
                total <= limit,
            decreases text@.len() - i,
        {
            proof {
                assert(text@.take(i + 1).drop_last() =~= text@.take(i as int));
            }
            match self.glyph(text[i]) {
                Some(g) => {
                    total = total + g.width as u128 + 1;
                },
                None => {},
            }
            if total > limit as u128 {
                proof {
                    lemma_width_grows(gs, text@, i + 1, text@.len() as int);
                    assert(text@.take(text@.len() as int) =~= text@);
                }
                return false;
            }
            i += 1;
        }
        proof {
            assert(text@.take(i as int) =~= text@);
        }
        true
    }
}

/// A string's width only grows as it goes on.
pub proof fn lemma_width_grows(glyphs: Seq<GlyphView>, text: Seq<char>, i: int, n: int)
    requires
        0 <= i <= n <= text.len(),
    ensures
        text_width(glyphs, text.take(i)) <= text_width(glyphs, text.take(n)),
    decreases n - i,
{
    if i < n {
        lemma_width_grows(glyphs, text, i, n - 1);
        assert(text.take(n).drop_last() =~= text.take(n - 1));
    }
}

// ---------------------------------------------------------------------------
// Finding the table in the executable.

/// Why a virtual address could not be placed in the file.
pub enum PeFault {
    /// A `BadTag` with this message.
    Bad { what: &'static str },
    /// A header field runs past the end: where, and its size.
    Short { at: int, need: int },
    /// The table runs past the end of the file from `at`.
    TableShort { at: int },
    /// An address or offset overflows the arithmetic that reads it.
    Overflow,
}

pub open spec fn mz() -> Seq<u8> {
    seq![0x4du8, 0x5a]
}

pub open spec fn pe_signature() -> Seq<u8> {
    seq![0x50u8, 0x45, 0, 0]
}

/// A `u32` header field, or how it runs short.
pub open spec fn field32(exe: Seq<u8>, at: int) -> core::result::Result<u32, PeFault> {
    if at + 4 > usize::MAX {
        Err(PeFault::Overflow)
    } else if at + 4 <= exe.len() {
        Ok(le_u32(exe, at))
    } else {
        Err(PeFault::Short { at, need: 4 })
    }
}

pub open spec fn field16(exe: Seq<u8>, at: int) -> core::result::Result<u16, PeFault> {
    if at + 2 > usize::MAX {
        Err(PeFault::Overflow)
    } else if at + 2 <= exe.len() {
        Ok(le_u16(exe, at))
    } else {
        Err(PeFault::Short { at, need: 2 })
    }
}

/// The section table from entry `i` on: the first section that holds the
/// address gives its file offset.
pub open spec fn section_scan(exe: Seq<u8>, va: u32, table: int, base: u32, i: int, n: int) -> core::result::Result<int, PeFault>
    decreases n - i,
{
    if i >= n {
        Err(PeFault::Bad { what: "address is in no section" })
    } else {
        let entry = table + 40 * i;
        match field32(exe, entry + 12) {
            Err(f) => Err(f),
            Ok(s) => if s + base > u32::MAX {
                Err(PeFault::Overflow)
            } else {
                let start = s + base;
                match field32(exe, entry + 16) {
                    Err(f) => Err(f),
                    Ok(size) => match field32(exe, entry + 20) {
                        Err(f) => Err(f),
                        Ok(raw) => if va >= start {
                            if start + size > u32::MAX {
                                Err(PeFault::Overflow)
                            } else if va < start + size {
                                if raw + (va - start) > usize::MAX { Err(PeFault::Overflow) } else { Ok(raw + (va - start)) }
                            } else {
                                section_scan(exe, va, table, base, i + 1, n)
                            }
                        } else {
                            section_scan(exe, va, table, base, i + 1, n)
                        },
                    },
                }
            },
        }
    }
}

/// Where a virtual address lands in the file, through the PE section table.
pub open spec fn file_offset(exe: Seq<u8>, va: u32) -> core::result::Result<int, PeFault> {
    if exe.len() < 2 || exe.subrange(0, 2) != mz() {
        Err(PeFault::Bad { what: "not a PE image" })
    } else {
        match field32(exe, 0x3c) {
            Err(f) => Err(f),
            Ok(pe) => if pe + 4 > exe.len() || exe.subrange(pe as int, pe + 4) != pe_signature() {
                Err(PeFault::Bad { what: "no PE header" })
            } else {
                match field16(exe, pe + 6) {
                    Err(f) => Err(f),
                    Ok(sections) => match field16(exe, pe + 20) {
                        Err(f) => Err(f),
                        Ok(optional) => match field32(exe, pe + 52) {
                            Err(f) => Err(f),
                            Ok(base) => section_scan(exe, va, pe + 24 + optional, base, 0, sections as int),
                        },
                    },
                }
            },
        }
    }
}

/// The error each fault is given as.
pub open spec fn pe_error(e: Error, f: PeFault, exe: Seq<u8>, va: u32) -> bool {
    match f {
        PeFault::Bad { what } => e matches Error::BadTag { what: w, tag, at } && w == what && tag == va && at == 0,
        PeFault::Short { at, need } => e matches Error::Truncated { what, at: a, need: n, have }
            && what == "PE header" && a == at && n == need && have == exe.len(),
        PeFault::TableShort { at } => e matches Error::Truncated { what, at: a, need, have }
            && what == "HUD font table" && a == at && need == TABLE_BYTES
            && have == (if exe.len() > at { exe.len() - at } else { 0 }),
        PeFault::Overflow => false,
    }
}

fn pe_field32(exe: &[u8], at: u64, va: u32) -> (r: Result<u32>)
    requires
        !(field32(exe@, at as int) is Err && field32(exe@, at as int)->Err_0 is Overflow),
    ensures
        match field32(exe@, at as int) {
            Ok(v) => r == Ok::<u32, Error>(v),
            Err(f) => r matches Err(e) && pe_error(e, f, exe@, va),
        },
{
    let len = exe.len();
    if at + 4 <= len as u64 {
        Ok(crate::bytes::u32_at(exe, at as usize))
    } else {
        Err(Error::Truncated { what: "PE header", at: at as usize, need: 4, have: len })
    }
}

fn pe_field16(exe: &[u8], at: u64, va: u32) -> (r: Result<u16>)
    requires
        !(field16(exe@, at as int) is Err && field16(exe@, at as int)->Err_0 is Overflow),
    ensures
        match field16(exe@, at as int) {
            Ok(v) => r == Ok::<u16, Error>(v),
            Err(f) => r matches Err(e) && pe_error(e, f, exe@, va),
        },
{
    let len = exe.len();
    if at + 2 <= len as u64 {
        Ok(crate::bytes::u16_at(exe, at as usize))
    } else {
        Err(Error::Truncated { what: "PE header", at: at as usize, need: 2, have: len })
    }
}

pub open spec fn is_overflow(r: core::result::Result<int, PeFault>) -> bool {
    r is Err && r->Err_0 is Overflow
}

fn tag_at(exe: &[u8], at: u64, tag: &[u8]) -> (r: bool)
    requires
        tag@.len() <= 4,
    ensures
        r == (at + tag@.len() <= exe@.len() && exe@.subrange(at as int, at + tag@.len()) == tag@),
{
    let len = exe.len();
    if at > len as u64 || tag.len() as u64 > len as u64 - at {
        return false;
    }
    let a = at as usize;
    let mut i: usize = 0;
    while i < tag.len()
        invariant
            len == exe@.len(),
            i <= tag@.len() <= 4,
            a == at,
            a + tag@.len() <= exe@.len(),
            forall|k: int| 0 <= k < i ==> exe@[a + k] == tag@[k],
        decreases tag@.len() - i,
    {
        if exe[a + i] != tag[i] {
            assert(exe@.subrange(a as int, a + tag@.len())[i as int] != tag@[i as int]);
            return false;
        }
        i += 1;
    }
    assert(exe@.subrange(a as int, a + tag@.len()) =~= tag@);
    true
}

/// Where a virtual address lands in the file, through the PE section table.
fn offset_of(exe: &[u8], va: u32) -> (r: Result<usize>)
    requires
        !is_overflow(file_offset(exe@, va)),
    ensures
        match file_offset(exe@, va) {
            Ok(o) => r == Ok::<usize, Error>(o as usize) && 0 <= o <= usize::MAX,
            Err(f) => r matches Err(e) && pe_error(e, f, exe@, va),
        },
{
    let mz_tag: [u8; 2] = [0x4d, 0x5a];
    assert(mz_tag@ =~= mz());
    if exe.len() < 2 || !tag_at(exe, 0, &mz_tag) {
        return Err(Error::BadTag { what: "not a PE image", tag: va, at: 0 });
    }
    let pe = match pe_field32(exe, 0x3c, va) { Ok(v) => v as u64, Err(e) => return Err(e) };
    let sig: [u8; 4] = [0x50, 0x45, 0, 0];
    assert(sig@ =~= pe_signature());
    if !tag_at(exe, pe, &sig) {
        return Err(Error::BadTag { what: "no PE header", tag: va, at: 0 });
    }
    let sections = match pe_field16(exe, pe + 6, va) { Ok(v) => v as u64, Err(e) => return Err(e) };
    let optional = match pe_field16(exe, pe + 20, va) { Ok(v) => v as u64, Err(e) => return Err(e) };
    let base = match pe_field32(exe, pe + 52, va) { Ok(v) => v as u64, Err(e) => return Err(e) };
    let table = pe + 24 + optional;
    let ghost n = sections as int;
    let mut i: u64 = 0;
    while i < sections
        invariant
            i <= sections <= 0xffff,
            table <= 0x1_0001_0017,
            base <= u32::MAX,
            file_offset(exe@, va) == section_scan(exe@, va, table as int, base as u32, i as int, sections as int),
            !is_overflow(section_scan(exe@, va, table as int, base as u32, i as int, sections as int)),
        decreases sections - i,
    {
        let entry = table + i * 40;
        let s = match pe_field32(exe, entry + 12, va) { Ok(v) => v as u64, Err(e) => return Err(e) };
        let start = s + base;
        let size = match pe_field32(exe, entry + 16, va) { Ok(v) => v as u64, Err(e) => return Err(e) };
        let raw = match pe_field32(exe, entry + 20, va) { Ok(v) => v as u64, Err(e) => return Err(e) };
        if va as u64 >= start && (va as u64) < start + size {
            return Ok((raw + (va as u64 - start)) as usize);
        }
        i += 1;
    }
    Err(Error::BadTag { what: "address is in no section", tag: va, at: 0 })
}

/// What reading the table out of an executable gives: its file offset, then
/// the table's bytes from there, or why not.
pub open spec fn read_of(exe: Seq<u8>) -> core::result::Result<Seq<u8>, PeFault> {
    match file_offset(exe, TABLE) {
        Err(f) => Err(f),
        Ok(at) => if at + TABLE_BYTES > usize::MAX {
            Err(PeFault::Overflow)
        } else if at + TABLE_BYTES > exe.len() {
            Err(PeFault::TableShort { at })
        } else {
            Ok(exe.subrange(at, at + TABLE_BYTES))
        },
    }
}

impl HudFont {
    /// Read the table out of a PE image: find where [`TABLE`] lands through
    /// the section table, then read the 256 records from there.
    pub fn read(exe: &[u8]) -> (r: Result<HudFont>)
        requires
            !(read_of(exe@) is Err && read_of(exe@)->Err_0 is Overflow),
        ensures
            match read_of(exe@) {
                Ok(t) => r matches Ok(f) && glyphs_view(f) == glyphs_in(t),
                Err(f) => r matches Err(e) && pe_error(e, f, exe@, TABLE),
            },
    {
        let at = match offset_of(exe, TABLE) { Ok(a) => a, Err(e) => return Err(e) };
        assert(file_offset(exe@, TABLE) == Ok::<int, PeFault>(at as int));
        let len = exe.len();
        if at > len || TABLE_BYTES > len - at {
            let have = if len > at { len - at } else { 0 };
            return Err(Error::Truncated { what: "HUD font table", at, need: TABLE_BYTES, have });
        }
        let table = &exe[at..at + TABLE_BYTES];
        assert(table@ =~= exe@.subrange(at as int, at + TABLE_BYTES));
        HudFont::parse(table)
    }
}

// ---------------------------------------------------------------------------
// Drawing.

/// Where the pen is for character `k`: `x`, moved on by the characters
/// before it.
pub open spec fn pen_at(glyphs: Seq<GlyphView>, text: Seq<char>, x: int, k: int) -> int {
    x + text_width(glyphs, text.take(k))
}

/// Whether a glyph with its pen at column `pen` and its top at row `y` puts
/// ink on pixel `p` of a frame `width` by `height`: the row and column of the
/// cell that land on `p` are in the glyph, and that pixel of it is set.
pub open spec fn cell_inks(g: GlyphView, pen: int, y: int, width: int, height: int, p: int) -> bool {
    let py = p / width;
    let row = py - y;
    let col = p % width - pen;
    &&& width > 0 && 0 <= p
    &&& 0 <= py < height
    &&& 0 <= row < ROWS
    &&& 0 <= col < g.width
    &&& g.pixels[row * g.width + col] != 0
}

/// Whether character `k` of the text puts ink on pixel `p`.
pub open spec fn glyph_inks(glyphs: Seq<GlyphView>, text: Seq<char>, x: int, y: int, width: int, height: int, k: int, p: int) -> bool {
    &&& 0 <= k < text.len()
    &&& present(glyphs, text[k])
    &&& cell_inks(glyphs[text[k] as int], pen_at(glyphs, text, x, k), y, width, height, p)
}

/// Whether any character of the text puts ink on pixel `p`.
pub open spec fn inked(glyphs: Seq<GlyphView>, text: Seq<char>, x: int, y: int, width: int, height: int, p: int) -> bool {
    exists|k: int| glyph_inks(glyphs, text, x, y, width, height, k, p)
}

/// Whether every glyph with a width has its pixels: `width * ROWS` of them.
pub open spec fn glyphs_whole(glyphs: Seq<GlyphView>) -> bool {
    forall|c: int| 0 <= c < glyphs.len() && glyphs[c].width > 0 ==> #[trigger] glyphs[c].pixels.len() == glyphs[c].width * ROWS
}

/// The pen after character `k` is the pen before it moved on by the
/// character's advance, and never passes the end of the line.
proof fn lemma_pen_step(glyphs: Seq<GlyphView>, text: Seq<char>, x: int, k: int)
    requires
        0 <= k < text.len(),
    ensures
        pen_at(glyphs, text, x, k + 1) == pen_at(glyphs, text, x, k) + advance(glyphs, text[k]),
        pen_at(glyphs, text, x, k + 1) <= x + text_width(glyphs, text),
{
    lemma_width_grows(glyphs, text, k + 1, text.len() as int);
    assert(text.take(text.len() as int) =~= text);
    assert(text.take(k + 1).drop_last() =~= text.take(k));
    assert(text.take(k + 1).last() == text[k]);
}

/// A glyph that is present has all its pixels, where every glyph does.
proof fn lemma_present_whole(glyphs: Seq<GlyphView>, c: char)
    requires
        glyphs_whole(glyphs),
        present(glyphs, c),
    ensures
        glyphs[c as int].pixels.len() == glyphs[c as int].width * ROWS,
{
    let ci = c as int;
    assert(glyphs[ci].pixels.len() == glyphs[ci].width * ROWS);
}

/// Put one glyph into the frame with its pen at `pen` and its top at `y`.
fn draw_cell(frame: &mut [u8], g: &Glyph, width: usize, height: usize, pen: isize, y: isize, colour: u8)
    requires
        g.pixels@.len() == g.width * ROWS,
        width <= isize::MAX,
        height <= isize::MAX,
        pen + g.width <= isize::MAX,
        y + ROWS <= isize::MAX,
        forall|p: int| #[trigger] cell_inks(glyph_view(*g), pen as int, y as int, width as int, height as int, p) ==> p < old(frame)@.len(),
    ensures
        final(frame)@.len() == old(frame)@.len(),
        forall|p: int| 0 <= p < old(frame)@.len() ==> #[trigger] final(frame)@[p] == (
            if cell_inks(glyph_view(*g), pen as int, y as int, width as int, height as int, p) { colour } else { old(frame)@[p] }
        ),
{
    let ghost gv = glyph_view(*g);
    let ghost before = frame@;
    let ghost (pi, yi, wi, hi) = (pen as int, y as int, width as int, height as int);
    let n = frame.len();
    let w = g.width;
    let plen = g.pixels.len();
    let mut row: usize = 0;
    while row < ROWS
        invariant
            gv == glyph_view(*g),
            w == g.width,
            plen == g.pixels@.len(),
            plen == w * ROWS,
            frame@.len() == before.len(),
            n == before.len(),
            pi == pen && yi == y && wi == width && hi == height,
            width <= isize::MAX && height <= isize::MAX,
            pen + w <= isize::MAX,
            y + ROWS <= isize::MAX,
            forall|p: int| #[trigger] cell_inks(gv, pi, yi, wi, hi, p) ==> p < before.len(),
            row <= ROWS,
            forall|p: int| 0 <= p < before.len() ==> #[trigger] frame@[p] == (
                if cell_inks(gv, pi, yi, wi, hi, p) && p / wi - yi < row { colour } else { before[p] }
            ),
        decreases ROWS - row,
    {
        let py = y + row as isize;
        let mut column: usize = 0;
        while column < w
            invariant
                gv == glyph_view(*g),
                w == g.width,
                plen == g.pixels@.len(),
                plen == w * ROWS,
                frame@.len() == before.len(),
                n == before.len(),
                pi == pen && yi == y && wi == width && hi == height,
                width <= isize::MAX && height <= isize::MAX,
                pen + w <= isize::MAX,
                forall|p: int| #[trigger] cell_inks(gv, pi, yi, wi, hi, p) ==> p < before.len(),
                row < ROWS,
                py == y + row,
                column <= w,
                forall|p: int| 0 <= p < before.len() ==> #[trigger] frame@[p] == (
                    if cell_inks(gv, pi, yi, wi, hi, p)
                        && (p / wi - yi < row || (p / wi - yi == row && p % wi - pi < column)) { colour } else { before[p] }
                ),
            decreases w - column,
        {
            assert(row * w + column < plen) by (nonlinear_arith)
                requires row < 6, column < w, plen == w * 6;
            let set = g.pixels[row * w + column] != 0;
            let px = pen + column as isize;
            if set && py >= 0 && py < height as isize && px >= 0 && px < width as isize {
                let ghost q = py * wi + px;
                proof {
                    crate::render::hud::lemma_place(q, wi, py as int, px as int);
                    assert(cell_inks(gv, pi, yi, wi, hi, q));
                    assert(0 <= py * wi) by (nonlinear_arith) requires py >= 0, wi >= 0;
                }
                let i = py as usize * width + px as usize;
                proof {
                    assert forall|p: int| 0 <= p < before.len() && p != q implies
                        (cell_inks(gv, pi, yi, wi, hi, p)
                            && (p / wi - yi < row || (p / wi - yi == row && p % wi - pi < column + 1)))
                        == (cell_inks(gv, pi, yi, wi, hi, p)
                            && (p / wi - yi < row || (p / wi - yi == row && p % wi - pi < column))) by {
                        if cell_inks(gv, pi, yi, wi, hi, p) && p / wi - yi == row && p % wi - pi == column {
                            vstd::arithmetic::div_mod::lemma_fundamental_div_mod(p, wi);
                            vstd::arithmetic::mul::lemma_mul_is_commutative(wi, py as int);
                        }
                    }
                }
                frame[i] = colour;
            } else {
                proof {
                    assert forall|p: int| 0 <= p < before.len() implies
                        (cell_inks(gv, pi, yi, wi, hi, p)
                            && (p / wi - yi < row || (p / wi - yi == row && p % wi - pi < column + 1)))
                        == (cell_inks(gv, pi, yi, wi, hi, p)
                            && (p / wi - yi < row || (p / wi - yi == row && p % wi - pi < column))) by {
                        if cell_inks(gv, pi, yi, wi, hi, p) && p / wi - yi == row && p % wi - pi == column {
                            vstd::arithmetic::div_mod::lemma_fundamental_div_mod(p, wi);
                            vstd::arithmetic::div_mod::lemma_mod_bound(p, wi);
                        }
                    }
                }
            }
            column += 1;
        }
        row += 1;
    }
}

impl HudFont {
    /// Draw a line into an 8-bit frame: every set pixel of every glyph that
    /// lands inside the frame takes `colour`, and nothing else changes. The
    /// pen moves on by a glyph's width and one for each character that has
    /// one.
    pub fn draw(&self, frame: &mut [u8], width: usize, height: usize, x: isize, y: isize, text: &str, colour: u8)
        requires
            glyphs_whole(glyphs_view(*self)),
            width <= isize::MAX,
            height <= isize::MAX,
            x + text_width(glyphs_view(*self), text@) <= isize::MAX,
            y + ROWS <= isize::MAX,
            forall|p: int| #[trigger] inked(glyphs_view(*self), text@, x as int, y as int, width as int, height as int, p) ==> p < old(frame)@.len(),
        ensures
            final(frame)@.len() == old(frame)@.len(),
            forall|p: int| 0 <= p < old(frame)@.len() ==> #[trigger] final(frame)@[p] == (
                if inked(glyphs_view(*self), text@, x as int, y as int, width as int, height as int, p) { colour } else { old(frame)@[p] }
            ),
    {
        let ghost gs = glyphs_view(*self);
        let ghost before = frame@;
        let ghost t = text@;
        let ghost (xi, yi, wi, hi) = (x as int, y as int, width as int, height as int);
        let chars = crate::bytes::chars_of(text);
        let mut pen = x;
        let mut k: usize = 0;
        while k < chars.len()
            invariant
                gs == glyphs_view(*self),
                glyphs_whole(gs),
                chars@ == t,
                t == text@,
                frame@.len() == before.len(),
                xi == x && yi == y && wi == width && hi == height,
                width <= isize::MAX && height <= isize::MAX,
                x + text_width(gs, t) <= isize::MAX,
                y + ROWS <= isize::MAX,
                forall|p: int| #[trigger] inked(gs, t, xi, yi, wi, hi, p) ==> p < before.len(),
                k <= chars@.len(),
                pen == pen_at(gs, t, xi, k as int),
                forall|p: int| 0 <= p < before.len() ==> #[trigger] frame@[p] == (
                    if exists|j: int| 0 <= j < k && glyph_inks(gs, t, xi, yi, wi, hi, j, p) { colour } else { before[p] }
                ),
            decreases chars@.len() - k,
        {
            proof {
                lemma_pen_step(gs, t, xi, k as int);
            }
            let c = chars[k];
            let ghost mid = frame@;
            match self.glyph(c) {
                None => {},
                Some(g) => {
                    proof {
                        lemma_present_whole(gs, c);
                        assert(g.pixels@.len() == g.width * ROWS);
                        assert forall|p: int| #[trigger] cell_inks(glyph_view(*g), pen as int, yi, wi, hi, p) implies p < mid.len() by {
                            assert(glyph_inks(gs, t, xi, yi, wi, hi, k as int, p));
                            assert(inked(gs, t, xi, yi, wi, hi, p));
                        }
                    }
                    let plen = g.pixels.len();
                    assert(g.width <= isize::MAX);
                    draw_cell(frame, g, width, height, pen, y, colour);
                    pen = pen + g.width as isize + 1;
                },
            }
            proof {
                assert forall|p: int| 0 <= p < before.len() implies #[trigger] frame@[p] == (
                    if exists|j: int| 0 <= j < k + 1 && glyph_inks(gs, t, xi, yi, wi, hi, j, p) { colour } else { before[p] }
                ) by {
                    if exists|j: int| 0 <= j < k + 1 && glyph_inks(gs, t, xi, yi, wi, hi, j, p) {
                        let j = choose|j: int| 0 <= j < k + 1 && glyph_inks(gs, t, xi, yi, wi, hi, j, p);
                        if j < k {
                            assert(exists|j: int| 0 <= j < k && glyph_inks(gs, t, xi, yi, wi, hi, j, p));
                        }
                    }
                    if glyph_inks(gs, t, xi, yi, wi, hi, k as int, p) {
                        assert(exists|j: int| 0 <= j < k + 1 && glyph_inks(gs, t, xi, yi, wi, hi, j, p));
                    }
                }
            }
            k += 1;
        }
        proof {
            assert forall|p: int| 0 <= p < before.len() implies #[trigger] frame@[p] == (
                if inked(gs, t, xi, yi, wi, hi, p) { colour } else { before[p] }
            ) by {
                if inked(gs, t, xi, yi, wi, hi, p) {
                    let j = choose|j: int| glyph_inks(gs, t, xi, yi, wi, hi, j, p);
                    assert(0 <= j < k);
                }
            }
        }
    }
}

} // verus!
