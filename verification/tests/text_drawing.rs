//! Text on screen: the HUD's font, its line breaking, the briefing panel, and
//! the front end's typeface, on fonts built here.

use hellbender::formats::act::Palette;
use hellbender::formats::font::Font;
use hellbender::formats::hud_font::{HudFont, STRIDE, TABLE_BYTES};
use hellbender::render::brief::{self, ink, rows, typed};
use hellbender::render::hud::wrap;

/// A HUD font with `A` two wide and all set, `B` one wide with only its top
/// pixel set, and a space one wide with nothing set.
fn hud_font() -> HudFont {
    let mut table = vec![0u8; TABLE_BYTES];
    let a = 0x41 * STRIDE;
    table[a] = 2;
    for i in 0..12 {
        table[a + 1 + i] = 1;
    }
    let b = 0x42 * STRIDE;
    table[b] = 1;
    table[b + 1] = 1;
    table[0x20 * STRIDE] = 1;
    HudFont::parse(&table).ok().unwrap()
}

#[test]
fn a_hud_font_table_must_be_whole() {
    assert!(HudFont::parse(&[0; 100]).is_err());
    let font = hud_font();
    assert_eq!(font.glyph('A').unwrap().width, 2);
    assert!(font.glyph('C').is_none(), "no width, no glyph");
    assert!(font.glyph('\u{100}').is_none());
    // The table written back is the table read.
    let again = HudFont::parse(&font.table()).ok().unwrap();
    assert_eq!(again.table(), font.table());
}

#[test]
fn width_is_each_glyph_and_a_gap() {
    let font = hud_font();
    assert_eq!(font.width("A"), 3);
    assert_eq!(font.width("AB A"), 3 + 2 + 2 + 3);
    assert_eq!(font.width("CCC"), 0, "characters without a glyph take no room");
    assert!(font.fits(&['A', 'A'], 6));
    assert!(!font.fits(&['A', 'A'], 5));
}

#[test]
fn drawing_sets_the_glyph_pixels_and_nothing_else() {
    let font = hud_font();
    let (w, h) = (8usize, 8usize);
    let mut frame = vec![0u8; w * h];
    font.draw(&mut frame, w, h, 1, 1, "BA", 9);
    for y in 0..h {
        for x in 0..w {
            let b = x == 1 && y == 1;
            let a = (3..5).contains(&x) && (1..7).contains(&y);
            assert_eq!(frame[y * w + x], if a || b { 9 } else { 0 }, "({x}, {y})");
        }
    }
    // Off the edge is cut, not wrapped.
    let mut frame = vec![0u8; w * h];
    font.draw(&mut frame, w, h, 7, -3, "A", 5);
    let set: Vec<usize> = (0..w * h).filter(|&i| frame[i] == 5).collect();
    assert_eq!(set, vec![7, 15, 23]);
}

#[test]
fn a_word_that_does_not_fit_starts_the_next_line() {
    let font = hud_font();
    // "AA AA" is 3 + 3 + 2 + 3 + 3 = 14 wide.
    let lines = vec!["AA  AA\tAA".to_string(), String::new(), "AAAAAAAAAA".to_string()];
    let wrapped = wrap(&font, &lines, 14);
    assert_eq!(wrapped, vec!["AA AA", "AA", "", "AAAAAAAAAA"]);
    // One word a line when nothing fits.
    assert_eq!(wrap(&font, &["A B".to_string()], 0), vec!["A", "B"]);
}

#[test]
fn the_panel_holds_twelve_rows() {
    assert_eq!(rows(), 12);
}

#[test]
fn the_ink_is_the_last_of_the_brightest() {
    let mut palette = Palette::default();
    for i in 0..256 {
        palette.colours[i] = [0, 0, 0];
    }
    palette.colours[10] = [200, 200, 200];
    palette.colours[20] = [250, 250, 100];
    palette.colours[30] = [100, 250, 250];
    assert_eq!(ink(&palette), 30);
    palette.colours[255] = [255, 255, 255];
    assert_eq!(ink(&palette), 255);
}

#[test]
fn typing_reveals_a_character_at_a_time_and_a_break_costs_one() {
    let font = hud_font();
    let lines = vec!["AB BA".to_string(), "B".to_string()];
    assert_eq!(typed(&font, &lines, 0), Vec::<String>::new());
    assert_eq!(typed(&font, &lines, 3), vec!["AB "]);
    assert_eq!(typed(&font, &lines, 5), vec!["AB BA"]);
    // The break after the first line is the sixth character, and shows
    // nothing of the next.
    assert_eq!(typed(&font, &lines, 6), vec!["AB BA"]);
    assert_eq!(typed(&font, &lines, 7), vec!["AB BA", "B"]);
    assert_eq!(typed(&font, &lines, 100), vec!["AB BA", "B"]);
}

#[test]
fn typing_scrolls_to_the_last_twelve_rows() {
    let font = hud_font();
    let lines: Vec<String> = (0..15).map(|_| "A".to_string()).collect();
    let shown = typed(&font, &lines, 1000);
    assert_eq!(shown.len(), 12);
}

#[test]
fn the_briefing_is_drawn_in_the_panel_a_line_apart() {
    let font = hud_font();
    let (w, h) = (320usize, 200usize);
    let mut pixels = vec![0u8; w * h];
    brief::draw(&mut pixels, w, h, &font, &["B".to_string(), "B".to_string()], 7);
    let set: Vec<usize> = (0..w * h).filter(|&i| pixels[i] == 7).collect();
    assert_eq!(set, vec![26 * w + 40, 33 * w + 40]);
}

/// The front end's font: every glyph `width` wide, the bitmap all `value`.
fn front_font(width: usize, value: u8) -> Font {
    let index: String = (0..95).map(|_| format!("{width}\r\n")).collect();
    let bitmap = vec![value; 95 * width * 23];
    Font::parse(index.as_bytes(), &bitmap).ok().unwrap()
}

#[test]
fn the_front_end_font_wants_95_widths_and_their_pixels() {
    assert!(Font::parse(b"1\r\n2\r\n", &[]).is_err());
    let index: String = (0..95).map(|_| "1\r\n".to_string()).collect();
    assert!(Font::parse(index.as_bytes(), &[0; 10]).is_err());
    let font = front_font(2, 1);
    assert_eq!(font.width_of('a'), 2);
    assert_eq!(font.width_of('\n'), 0);
    assert_eq!(font.measure("ab c"), 8);
    let (pixels, w) = font.glyph('~').unwrap();
    assert_eq!((pixels.len(), w), (46, 2));
}

#[test]
fn front_end_drawing_keeps_zero_transparent_and_can_recolour() {
    let font = front_font(1, 3);
    let (w, h) = (4usize, 30usize);
    let mut target = vec![0u8; w * h];
    let across = font.draw(&mut target, w, h, 1, 2, "ab", None);
    assert_eq!(across, 2);
    for y in 0..h {
        for x in 0..w {
            let inked = (1..3).contains(&x) && (2..25).contains(&y);
            assert_eq!(target[y * w + x], if inked { 3 } else { 0 }, "({x}, {y})");
        }
    }
    let mut target = vec![0u8; w * h];
    font.draw(&mut target, w, h, 3, 0, "ab", Some(8));
    assert_eq!(target[3], 8);
    assert_eq!(target[2], 0, "left of the pen is untouched");
    let clear = front_font(1, 0);
    let mut target = vec![4u8; w * h];
    clear.draw(&mut target, w, h, 0, 0, "abc", Some(8));
    assert!(target.iter().all(|&p| p == 4), "zero pixels draw nothing");
}

#[test]
fn a_font_whose_bitmap_size_cannot_be_counted_is_caught() {
    let mut index = String::new();
    for _ in 0..94 {
        index.push_str("1\r\n");
    }
    index.push_str("18446744073709551615\r\n");
    assert!(Font::parse_checked(index.as_bytes(), &[]).is_none());
    let small = "2\r\n".repeat(95);
    let font = Font::parse_checked(small.as_bytes(), &vec![1u8; 2 * 95 * 23]).unwrap().ok().unwrap();
    assert_eq!(font.measure("AB"), 4);
}
