//! The hand on the stick, and the rest of the cockpit art.
//!
//! `0x41f900` builds the cockpit for the mode the game is in: it scales every
//! position out of a 640x480 layout, loads `ckpt<h>.raw` and the 27 hands, and
//! computes where the hand goes.

use vstd::prelude::*;
use crate::bytes::{chars_of, decimal, decimal_chars, string_of};
use crate::formats::text::push_all;

verus! {

/// The three sets of nine hands. The weapon key held picks [`WEAPON`], the
/// fire key held picks [`FIRE`], and neither picks [`REST`].
pub const SETS: [&'static str; 3] = ["hn", "hp", "ht"];
/// The fire key's set - `hn`.
pub const FIRE: usize = 0;
/// Neither key's - `hp`.
pub const REST: usize = 1;
/// The weapon key's - `ht`.
pub const WEAPON: usize = 2;

/// The nine positions within a set: back, middle and forward crossed with
/// left, middle and right; the middle is 4.
pub const CELLS: [&'static str; 9] = ["bl", "bm", "br", "ml", "mm", "mr", "fl", "fm", "fr"];

/// `.raw`.
pub open spec fn raw_suffix() -> Seq<char> {
    seq!['.', 'r', 'a', 'w']
}

/// The file a set and a cell name in `ART`, for one of the three modes: the
/// set, the cell, the mode in decimal, `.raw`.
pub fn hand(set: usize, cell: usize, mode: u32) -> (r: String)
    requires
        set < 3,
        cell < 9,
    ensures
        r@ == SETS[set as int]@ + CELLS[cell as int]@ + decimal(mode as nat) + raw_suffix(),
{
    let mut out = chars_of(SETS[set]);
    let c = chars_of(CELLS[cell]);
    push_all(&mut out, c.as_slice());
    let d = decimal_chars(mode as u128);
    push_all(&mut out, d.as_slice());
    let suffix = ['.', 'r', 'a', 'w'];
    push_all(&mut out, &suffix);
    assert(suffix@ =~= raw_suffix());
    string_of(out.as_slice())
}

/// Where the hand is drawn, and how big it is, at this frame size: x, y,
/// width, height. The engine scales a 640x480 layout where the hand is 280 by
/// 110 with its left edge at 180 and its bottom on the bottom of the frame.
pub fn hand_box(width: usize, height: usize) -> (r: [usize; 4])
    requires
        280 * width <= usize::MAX,
        110 * height <= usize::MAX,
    ensures
        r@ == seq![
            (180 * width / 640) as usize,
            (if height >= 110 * height / 480 { height - 110 * height / 480 } else { 0 }) as usize,
            (280 * width / 640) as usize,
            (110 * height / 480) as usize,
        ],
{
    let w = 280 * width / 640;
    let h = 110 * height / 480;
    let r = [180 * width / 640, height.saturating_sub(h), w, h];
    assert(r@ =~= seq![
        (180 * width / 640) as usize,
        (if height >= 110 * height / 480 { height - 110 * height / 480 } else { 0 }) as usize,
        (280 * width / 640) as usize,
        (110 * height / 480) as usize,
    ]);
    r
}

/// The knob's size at this frame size: 12 by 17 of the 640x480 layout.
pub fn knob_size(width: usize, height: usize) -> (r: [usize; 2])
    requires
        12 * width <= usize::MAX,
        17 * height <= usize::MAX,
    ensures
        r@ == seq![(12 * width / 640) as usize, (17 * height / 480) as usize],
{
    let r = [12 * width / 640, 17 * height / 480];
    assert(r@ =~= seq![(12 * width / 640) as usize, (17 * height / 480) as usize]);
    r
}

} // verus!
