//! The HUD's pictures and the frame's pixel drawing, on frames built here.

use hellbender::formats::act::Palette;
use hellbender::formats::hud_font::{HudFont, STRIDE, TABLE_BYTES};
use hellbender::formats::raw::{Image, Shape};
use hellbender::render::hud::{
    self as hud, countdown, gauge, icon, label, legend, mark, message, panel, Label, BORDER, EMPTY, INK,
};
use hellbender::render::raster::{self, overlay_at, plot, to_rgb};

/// A HUD font with `A` two wide and all set, `B` one wide with only its top
/// pixel set, `-` one wide with its top pixel set and `5` two wide and all
/// set.
fn hud_font() -> HudFont {
    let mut table = vec![0u8; TABLE_BYTES];
    for (code, width, all) in [(0x41usize, 2u8, true), (0x42, 1, false), (0x2d, 1, false), (0x35, 2, true)] {
        let at = code * STRIDE;
        table[at] = width;
        let n = if all { width as usize * 6 } else { 1 };
        for i in 0..n {
            table[at + 1 + i] = 1;
        }
    }
    HudFont::parse(&table).ok().unwrap()
}

fn at(frame: &[u8], width: usize, x: usize, y: usize) -> u8 {
    frame[y * width + x]
}

#[test]
fn a_blip_is_a_bar_with_a_pixel_above_and_below_outlined() {
    let (w, h) = (12usize, 12usize);
    let mut frame = vec![0xffu8; w * h];
    mark(&mut frame, w, h, 5, 5, 7, false);
    for x in 4..=6 {
        assert_eq!(at(&frame, w, x, 5), 7, "the bar");
    }
    assert_eq!(at(&frame, w, 5, 4), 7);
    assert_eq!(at(&frame, w, 5, 6), 7);
    for (x, y) in [(5, 3), (5, 7), (4, 4), (6, 4), (3, 5), (7, 5), (4, 6), (6, 6)] {
        assert_eq!(at(&frame, w, x, y), 0, "outline at ({x}, {y})");
    }
    let drawn = frame.iter().filter(|&&p| p != 0xff).count();
    assert_eq!(drawn, 13);
}

#[test]
fn a_blip_below_the_player_is_the_bar_alone() {
    let (w, h) = (12usize, 12usize);
    let mut frame = vec![0xffu8; w * h];
    mark(&mut frame, w, h, 5, 5, 7, true);
    assert_eq!(at(&frame, w, 5, 4), 0);
    assert_eq!(at(&frame, w, 5, 6), 0);
    assert_eq!(at(&frame, w, 5, 3), 0xff);
    assert_eq!(at(&frame, w, 5, 7), 0xff);
    assert_eq!(frame.iter().filter(|&&p| p == 7).count(), 3);
}

#[test]
fn a_blip_at_the_edge_is_cut() {
    let (w, h) = (4usize, 4usize);
    let mut frame = vec![0xffu8; w * h];
    mark(&mut frame, w, h, 0, 0, 7, false);
    assert_eq!(at(&frame, w, 0, 0), 7);
    assert_eq!(at(&frame, w, 1, 0), 7);
    assert_eq!(at(&frame, w, 2, 0), 0);
    assert_eq!(at(&frame, w, 0, 1), 7);
    assert_eq!(at(&frame, w, 1, 1), 0);
    assert_eq!(at(&frame, w, 0, 2), 0);
}

#[test]
fn a_gauge_fills_from_the_bottom_in_bands() {
    let (w, h) = (2usize, 10usize);
    let mut frame = vec![0xffu8; w * h];
    gauge(&mut frame, w, h, (0, 0, 2, 10), 0x10, 5, 4);
    for y in 0..6 {
        assert_eq!(at(&frame, w, 0, y), EMPTY, "row {y} is above the level");
    }
    assert_eq!(at(&frame, w, 1, 6), 0x11);
    assert_eq!(at(&frame, w, 1, 7), 0x11);
    assert_eq!(at(&frame, w, 0, 8), 0x10);
    assert_eq!(at(&frame, w, 0, 9), 0x10);
}

#[test]
fn a_full_gauge_shows_every_band() {
    let (w, h) = (1usize, 6usize);
    let mut frame = vec![0xffu8; w * h];
    gauge(&mut frame, w, h, (0, 0, 1, 6), 0x20, 3, 6);
    assert_eq!(frame, vec![0x22, 0x22, 0x21, 0x21, 0x20, 0x20]);
}

#[test]
fn the_countdown_is_a_framed_number_in_the_corner() {
    let font = hud_font();
    let (w, h) = (20usize, 20usize);
    let mut frame = vec![0xffu8; w * h];
    countdown(&mut frame, w, h, &font, -5);
    // "-5" is five pixels wide: the box is at 13, 11, five by seven.
    assert_eq!(at(&frame, w, 14, 12), 8, "the inside");
    assert_eq!(at(&frame, w, 12, 10), 0x10, "the border's corner");
    assert_eq!(at(&frame, w, 18, 18), 0x10);
    assert_eq!(at(&frame, w, 13, 11), INK, "the minus sign");
    for y in 11..17 {
        assert_eq!(at(&frame, w, 15, y), INK, "the five");
        assert_eq!(at(&frame, w, 16, y), INK);
    }
    assert_eq!(at(&frame, w, 11, 11), 0xff);
}

#[test]
fn a_message_is_centred_three_eighths_down_on_a_cleared_box() {
    let font = hud_font();
    let (w, h) = (40usize, 16usize);
    let mut frame = vec![0xffu8; w * h];
    message(&mut frame, w, h, &font, "A");
    assert_eq!(at(&frame, w, 18, 6), INK);
    assert_eq!(at(&frame, w, 19, 11), INK);
    assert_eq!(at(&frame, w, 15, 4), 0, "three left and two above");
    assert_eq!(at(&frame, w, 22, 13), 0, "one past the right and the bottom");
    assert_eq!(at(&frame, w, 14, 4), 0xff);
    assert_eq!(at(&frame, w, 23, 13), 0xff);
    assert_eq!(at(&frame, w, 15, 3), 0xff);
}

#[test]
fn a_readout_line_is_centred_in_its_box() {
    let font = hud_font();
    let (w, h) = (640usize, 480usize);
    let mut frame = vec![0xffu8; w * h];
    hud::line(&mut frame, w, h, &font, 0, "A");
    // Box 0 is 312, 3, 80 by 17: the text at 312 + 77 / 2 and 3 + 10 / 2.
    assert_eq!(at(&frame, w, 350, 8), INK);
    assert_eq!(at(&frame, w, 351, 13), INK);
    assert_eq!(at(&frame, w, 349, 8), 0);
    assert_eq!(at(&frame, w, 312, 3), 0);
    assert_eq!(at(&frame, w, 391, 19), 0);
    assert_eq!(at(&frame, w, 392, 3), 0xff);
    assert_eq!(at(&frame, w, 312, 20), 0xff);
}

#[test]
fn a_right_hand_label_hangs_left_of_its_callout() {
    let font = hud_font();
    let (w, h) = (640usize, 480usize);
    let mut frame = vec![0xffu8; w * h];
    let l = Label { at: (100, 200), text: "A", right: true, leader: None };
    label(&mut frame, w, h, &font, &l);
    // Seven wide (three of text, four more), seventeen high, at 93, 201.
    assert_eq!(at(&frame, w, 93, 201), 0, "inside");
    assert_eq!(at(&frame, w, 92, 200), BORDER);
    assert_eq!(at(&frame, w, 100, 218), BORDER);
    assert_eq!(at(&frame, w, 95, 207), INK);
    assert_eq!(at(&frame, w, 96, 212), INK);
    assert_eq!(at(&frame, w, 101, 201), 0xff);
}

#[test]
fn a_gauge_label_has_a_leader_down_to_its_gauge() {
    let font = hud_font();
    let (w, h) = (640usize, 480usize);
    let mut frame = vec![0xffu8; w * h];
    let l = Label { at: (51, 290), text: "B", right: false, leader: Some(6) };
    label(&mut frame, w, h, &font, &l);
    // Box 6 is at 50, 373: the leader runs down column 56 from the callout
    // to the row above the box.
    assert_eq!(at(&frame, w, 56, 320), BORDER);
    assert_eq!(at(&frame, w, 56, 371), BORDER);
    assert_eq!(at(&frame, w, 56, 372), 0xff);
    assert_eq!(at(&frame, w, 57, 320), 0xff);
}

#[test]
fn the_legend_draws_every_label() {
    let font = hud_font();
    let (w, h) = (640usize, 480usize);
    let mut frame = vec![0xffu8; w * h];
    legend(&mut frame, w, h, &font);
    // The hull's leader, down column 27 to box 7 at 373.
    assert_eq!(at(&frame, w, 27, 300), BORDER);
    // The objective's label box at 380, 136, framed a pixel outside.
    assert_eq!(at(&frame, w, 380, 136), 0);
    assert_eq!(at(&frame, w, 379, 136), BORDER);
}

#[test]
fn the_weapon_picture_is_scaled_into_its_box() {
    let (w, h) = (640usize, 480usize);
    let mut frame = vec![0xffu8; w * h];
    let image = Image { shape: Shape::new(2, 2), pixels: vec![1, 0, 3, 4] };
    icon(&mut frame, w, h, &image);
    // The box is 14, 3, 63 by 56; each picture pixel covers about half.
    assert_eq!(at(&frame, w, 14, 3), 1);
    assert_eq!(at(&frame, w, 46, 3), 0xff, "index 0 lets the frame through");
    assert_eq!(at(&frame, w, 46, 4), 0, "where the box was cleared");
    assert_eq!(at(&frame, w, 14, 31), 3);
    assert_eq!(at(&frame, w, 76, 58), 4);
    assert_eq!(at(&frame, w, 77, 58), 0xff);
}

#[test]
fn the_panel_keeps_the_last_lines_that_fit() {
    let font = hud_font();
    let (w, h) = (640usize, 480usize);
    let mut frame = vec![0xffu8; w * h];
    let lines: Vec<String> = (0..10).map(|i| if i % 2 == 0 { "A".to_string() } else { "B".to_string() }).collect();
    panel(&mut frame, w, h, &font, &lines);
    // Eight rows of seven fit in the 56 high panel at 16, 3: lines 2 to 9,
    // A first, written two pixels in.
    assert_eq!(at(&frame, w, 18, 3), INK);
    assert_eq!(at(&frame, w, 19, 8), INK, "an A is all set");
    assert_eq!(at(&frame, w, 18, 10), INK, "a B has its top pixel");
    assert_eq!(at(&frame, w, 18, 11), 0, "and nothing under it");
    assert_eq!(at(&frame, w, 16, 3), 0);
    assert_eq!(at(&frame, w, 15, 3), 0xff);
}

#[test]
fn a_pixel_off_the_frame_is_not_drawn() {
    let mut frame = vec![0u8; 6];
    plot(&mut frame, 3, 2, 2, 1, 9);
    plot(&mut frame, 3, 2, 3, 0, 9);
    plot(&mut frame, 3, 2, -1, 0, 9);
    assert_eq!(frame, vec![0, 0, 0, 0, 0, 9]);
}

#[test]
fn a_line_rounds_toward_its_start() {
    let mut frame = vec![0u8; 8];
    raster::line(&mut frame, 4, 2, (0, 0), (3, 1), 1);
    assert_eq!(frame, vec![1, 1, 1, 0, 0, 0, 0, 1]);
    let mut frame = vec![0u8; 8];
    raster::line(&mut frame, 4, 2, (3, 1), (0, 0), 1);
    assert_eq!(frame, vec![1, 0, 0, 0, 0, 1, 1, 1]);
    // A point is a line of one step.
    let mut frame = vec![0u8; 8];
    raster::line(&mut frame, 4, 2, (2, 1), (2, 1), 5);
    assert_eq!(frame, vec![0, 0, 0, 0, 0, 0, 5, 0]);
}

#[test]
fn an_overlay_lets_index_zero_through_and_is_cut_to_the_frame() {
    let mut frame = vec![9u8; 9];
    let image = Image { shape: Shape::new(2, 2), pixels: vec![1, 0, 3, 4] };
    overlay_at(&mut frame, 3, 3, &image, 2, 1);
    assert_eq!(frame, vec![9, 9, 9, 9, 9, 1, 9, 9, 3]);
}

#[test]
fn the_target_renders_through_a_palette() {
    let mut colour = vec![0u8; 2];
    colour[0] = 1;
    colour[1] = 2;
    let mut palette = Palette::default();
    palette.colours[1] = [10, 20, 30];
    palette.colours[2] = [40, 50, 60];
    assert_eq!(to_rgb(&colour, &palette), vec![10, 20, 30, 40, 50, 60]);
}
