//! The frame's colour plane: an 8-bit indexed picture `width` by `height`,
//! row major, and what is drawn into it a pixel at a time. The depth that
//! goes with it, and the triangles drawn against that depth, are the float
//! side of the renderer and live with the program.

use vstd::prelude::*;
use crate::formats::act::Palette;
use crate::formats::raw::Image;

verus! {

/// Integer division that rounds toward zero, as Rust's `/` does.
pub open spec fn toward_zero(a: int, b: int) -> int {
    if a >= 0 { a / b } else { -((-a) / b) }
}

/// Whether a column and row are inside a frame `width` by `height`.
pub open spec fn inside(width: int, height: int, x: int, y: int) -> bool {
    0 <= x < width && 0 <= y < height
}

/// A frame with one pixel set, where the pixel is in the frame.
pub open spec fn plotted(frame: Seq<u8>, width: int, height: int, x: int, y: int, index: u8) -> Seq<u8> {
    if inside(width, height, x, y) { frame.update(y * width + x, index) } else { frame }
}

/// The pixel of a row and column inside the frame is in the buffer.
pub proof fn lemma_pixel_in(width: int, height: int, x: int, y: int, len: int)
    requires
        inside(width, height, x, y),
        width * height <= len,
    ensures
        0 <= y * width + x < len,
        (y * width + x) / width == y,
        (y * width + x) % width == x,
{
    assert(y * width + x < width * height) by (nonlinear_arith)
        requires 0 <= x < width, 0 <= y < height;
    assert(0 <= y * width) by (nonlinear_arith) requires 0 <= y, 0 <= width;
    vstd::arithmetic::div_mod::lemma_fundamental_div_mod_converse(y * width + x, width, y, x);
}

/// A quotient rounded toward zero is no further from zero than what was
/// divided.
pub proof fn lemma_quot_within(a: int, b: int)
    requires
        b >= 1,
    ensures
        -(if a >= 0 { a } else { -a }) <= toward_zero(a, b) <= (if a >= 0 { a } else { -a }),
{
    let m = if a >= 0 { a } else { -a };
    vstd::arithmetic::div_mod::lemma_div_pos_is_pos(m, b);
    vstd::arithmetic::div_mod::lemma_div_is_ordered_by_denominator(m, 1, b);
}

/// One pixel, if it is in the frame.
pub fn plot(frame: &mut [u8], width: usize, height: usize, x: isize, y: isize, index: u8)
    requires
        width * height <= old(frame)@.len(),
    ensures
        final(frame)@ == plotted(old(frame)@, width as int, height as int, x as int, y as int, index),
        final(frame)@.len() == old(frame)@.len(),
{
    let n = frame.len();
    if x >= 0 && y >= 0 && (x as usize) < width && (y as usize) < height {
        proof {
            lemma_pixel_in(width as int, height as int, x as int, y as int, frame@.len() as int);
            assert(0 <= (y as usize) * width <= (y as usize) * width + (x as usize) < frame@.len());
        }
        frame[y as usize * width + x as usize] = index;
    }
}

/// The `i`th point of a line of `steps` steps from `a` to `b`.
pub open spec fn line_point(a: (int, int), b: (int, int), steps: int, i: int) -> (int, int) {
    (a.0 + toward_zero((b.0 - a.0) * i, steps), a.1 + toward_zero((b.1 - a.1) * i, steps))
}

/// How many steps a line takes: its longer side, and at least one.
pub open spec fn line_steps(a: (int, int), b: (int, int)) -> int {
    let dx = if b.0 >= a.0 { b.0 - a.0 } else { a.0 - b.0 };
    let dy = if b.1 >= a.1 { b.1 - a.1 } else { a.1 - b.1 };
    let m = if dx >= dy { dx } else { dy };
    if m >= 1 { m } else { 1 }
}

/// A frame with the first `n` points of a line plotted, in order.
pub open spec fn lined(frame: Seq<u8>, width: int, height: int, a: (int, int), b: (int, int), n: nat, index: u8) -> Seq<u8>
    decreases n,
{
    if n == 0 {
        frame
    } else {
        let p = line_point(a, b, line_steps(a, b), n - 1);
        plotted(lined(frame, width, height, a, b, (n - 1) as nat, index), width, height, p.0, p.1, index)
    }
}

/// Whether a line's ends are near enough the frame that its arithmetic
/// stays in 64 bits.
pub open spec fn line_fits(a: (int, int), b: (int, int)) -> bool {
    &&& -0x1000_0000 <= a.0 <= 0x1000_0000 && -0x1000_0000 <= a.1 <= 0x1000_0000
    &&& -0x1000_0000 <= b.0 <= 0x1000_0000 && -0x1000_0000 <= b.1 <= 0x1000_0000
}

/// A line one pixel wide from `a` to `b`, clipped to the frame: as many
/// steps as its longer side, each point rounded toward the start.
pub fn line(frame: &mut [u8], width: usize, height: usize, a: (isize, isize), b: (isize, isize), index: u8)
    requires
        width * height <= old(frame)@.len(),
        line_fits((a.0 as int, a.1 as int), (b.0 as int, b.1 as int)),
    ensures
        final(frame)@ == lined(old(frame)@, width as int, height as int, (a.0 as int, a.1 as int),
            (b.0 as int, b.1 as int), (line_steps((a.0 as int, a.1 as int), (b.0 as int, b.1 as int)) + 1) as nat, index),
{
    let ghost (ai, bi) = ((a.0 as int, a.1 as int), (b.0 as int, b.1 as int));
    let (x0, y0) = a;
    let (x1, y1) = b;
    let dx = if x1 >= x0 { x1 - x0 } else { x0 - x1 };
    let dy = if y1 >= y0 { y1 - y0 } else { y0 - y1 };
    let m = if dx >= dy { dx } else { dy };
    let steps = if m >= 1 { m } else { 1 };
    assert(steps == line_steps(ai, bi));
    let mut i: isize = 0;
    while i <= steps
        invariant
            ai == (a.0 as int, a.1 as int) && bi == (b.0 as int, b.1 as int),
            (x0, y0) == a && (x1, y1) == b,
            line_fits(ai, bi),
            steps == line_steps(ai, bi),
            1 <= steps <= 0x2000_0000,
            0 <= i <= steps + 1,
            width * height <= frame@.len(),
            frame@ == lined(old(frame)@, width as int, height as int, ai, bi, i as nat, index),
        decreases steps + 1 - i,
    {
        assert(-0x2000_0000 <= x1 - x0 <= 0x2000_0000 && -0x2000_0000 <= y1 - y0 <= 0x2000_0000);
        assert(-0x4000_0000_0000_0000 <= (x1 - x0) * i <= 0x4000_0000_0000_0000) by (nonlinear_arith)
            requires -0x2000_0000 <= x1 - x0 <= 0x2000_0000, 0 <= i <= 0x2000_0001;
        assert(-0x4000_0000_0000_0000 <= (y1 - y0) * i <= 0x4000_0000_0000_0000) by (nonlinear_arith)
            requires -0x2000_0000 <= y1 - y0 <= 0x2000_0000, 0 <= i <= 0x2000_0001;
        let px = (x1 as i64 - x0 as i64) * i as i64;
        let py = (y1 as i64 - y0 as i64) * i as i64;
        let qx = px / steps as i64;
        let qy = py / steps as i64;
        proof {
            lemma_quot_within(px as int, steps as int);
            lemma_quot_within(py as int, steps as int);
        }
        let cx = x0 as i64 + qx;
        let cy = y0 as i64 + qy;
        let ghost pt = line_point(ai, bi, steps as int, i as int);
        assert(pt == (cx as int, cy as int));
        let n = frame.len();
        if cx >= 0 && cy >= 0 && (cx as u64) < width as u64 && (cy as u64) < height as u64 {
            proof {
                lemma_pixel_in(width as int, height as int, cx as int, cy as int, frame@.len() as int);
                assert(0 <= (cy as usize) * width <= (cy as usize) * width + (cx as usize) < frame@.len());
            }
            frame[cy as usize * width + cx as usize] = index;
        }
        i += 1;
    }
}

/// A frame with an image laid over it at `(at_x, at_y)`, index 0 of the image
/// letting the frame through, and the image cut to the frame.
pub open spec fn overlaid(frame: Seq<u8>, width: int, height: int, image: Image, at_x: int, at_y: int) -> Seq<u8> {
    let (sw, sh) = (image.shape.width as int, image.shape.height as int);
    Seq::new(frame.len(), |p: int| {
        let (row, col) = (p / width, p % width);
        let (ix, iy) = (col - at_x, row - at_y);
        if width > 0 && row < height && 0 <= ix < sw && 0 <= iy < sh && image.pixels@[iy * sw + ix] != 0 {
            image.pixels@[iy * sw + ix]
        } else {
            frame[p]
        }
    })
}

/// Whether an image holds a pixel for each place of its shape.
pub open spec fn whole(image: Image) -> bool {
    image.pixels@.len() == image.shape.width * image.shape.height
}

/// Lay an image over the frame with its top left at `(at_x, at_y)`,
/// treating index 0 as transparent.
pub fn overlay_at(frame: &mut [u8], width: usize, height: usize, image: &Image, at_x: usize, at_y: usize)
    requires
        width * height <= old(frame)@.len(),
        whole(*image),
    ensures
        final(frame)@ == overlaid(old(frame)@, width as int, height as int, *image, at_x as int, at_y as int),
{
    let ghost before = frame@;
    let sw = image.shape.width;
    let room_x = if width > at_x { width - at_x } else { 0 };
    let room_y = if height > at_y { height - at_y } else { 0 };
    let w = if sw < room_x { sw } else { room_x };
    let h = if image.shape.height < room_y { image.shape.height } else { room_y };
    let mut y: usize = 0;
    while y < h
        invariant
            before == old(frame)@,
            frame@.len() == before.len(),
            width * height <= before.len(),
            whole(*image),
            sw == image.shape.width,
            w <= sw && w + at_x <= width || w == 0,
            h <= image.shape.height && h + at_y <= height || h == 0,
            w == (if sw < room_x { sw } else { room_x }),
            room_x == (if width > at_x { width - at_x } else { 0 }),
            h == (if image.shape.height < room_y { image.shape.height } else { room_y }),
            room_y == (if height > at_y { height - at_y } else { 0 }),
            y <= h,
            forall|p: int| 0 <= p < before.len() ==> #[trigger] frame@[p] == (
                if width > 0 && p / (width as int) < at_y + y { overlaid(before, width as int, height as int, *image, at_x as int, at_y as int)[p] } else { before[p] }
            ),
        decreases h - y,
    {
        let mut x: usize = 0;
        while x < w
            invariant
                before == old(frame)@,
                frame@.len() == before.len(),
                width * height <= before.len(),
                whole(*image),
                sw == image.shape.width,
                w <= sw && w + at_x <= width || w == 0,
                h <= image.shape.height && h + at_y <= height,
                w == (if sw < room_x { sw } else { room_x }),
                room_x == (if width > at_x { width - at_x } else { 0 }),
                h == (if image.shape.height < room_y { image.shape.height } else { room_y }),
            room_y == (if height > at_y { height - at_y } else { 0 }),
                y < h,
                x <= w,
                forall|p: int| 0 <= p < before.len() ==> #[trigger] frame@[p] == (
                    if width > 0 && (p / (width as int) < at_y + y || (p / (width as int) == at_y + y && p % (width as int) < at_x + x)) {
                        overlaid(before, width as int, height as int, *image, at_x as int, at_y as int)[p]
                    } else {
                        before[p]
                    }
                ),
            decreases w - x,
        {
            proof {
                assert(y * sw + x < sw * image.shape.height) by (nonlinear_arith)
                    requires x < w <= sw, y < h <= image.shape.height;
                assert(0 <= y * sw) by (nonlinear_arith) requires 0 <= y, 0 <= sw;
                lemma_pixel_in(width as int, height as int, (at_x + x) as int, (at_y + y) as int, before.len() as int);
                assert(image.pixels@.len() == image.pixels.len());
                assert(0 <= y * sw <= y * sw + x < image.pixels@.len());
                assert(0 <= (at_y + y) * width <= (at_y + y) * width + at_x + x < before.len());
            }
            let n = frame.len();
            let index = image.pixels[y * sw + x];
            let at = (at_y + y) * width + at_x + x;
            if index != 0 {
                frame[at] = index;
            }
            proof {
                assert forall|p: int| 0 <= p < before.len() implies #[trigger] frame@[p] == (
                    if width > 0 && (p / (width as int) < at_y + y || (p / (width as int) == at_y + y && p % (width as int) < at_x + x + 1)) {
                        overlaid(before, width as int, height as int, *image, at_x as int, at_y as int)[p]
                    } else {
                        before[p]
                    }) by {
                    if p == at {
                    } else if width > 0 && p / (width as int) == at_y + y && p % (width as int) == at_x + x {
                        vstd::arithmetic::div_mod::lemma_fundamental_div_mod(p, width as int);
                        let wi = width as int;
                        assert(p == (at_y + y) * wi + at_x + x) by (nonlinear_arith)
                            requires p == wi * (p / wi) + p % wi, p / wi == at_y + y, p % wi == at_x + x;
                    }
                }
            }
            x += 1;
        }
        proof {
            assert forall|p: int| 0 <= p < before.len() implies #[trigger] frame@[p] == (
                if width > 0 && p / (width as int) < at_y + y + 1 {
                    overlaid(before, width as int, height as int, *image, at_x as int, at_y as int)[p]
                } else {
                    before[p]
                }) by {
                if width > 0 && p / (width as int) == at_y + y && p % (width as int) >= at_x + w {
                    let col = p % (width as int);
                    vstd::arithmetic::div_mod::lemma_mod_bound(p, width as int);
                    assert(col - at_x >= sw || col >= width);
                }
            }
        }
        y += 1;
    }
    proof {
        assert forall|p: int| 0 <= p < before.len() implies #[trigger] frame@[p]
            == overlaid(before, width as int, height as int, *image, at_x as int, at_y as int)[p] by {
            if width > 0 && p / (width as int) >= at_y + h {
                let row = p / (width as int);
                assert(row - at_y >= image.shape.height || row >= height);
            }
        }
    }
    assert(frame@ =~= overlaid(before, width as int, height as int, *image, at_x as int, at_y as int));
}

/// Lay an image over the frame from its top left corner.
pub fn overlay(frame: &mut [u8], width: usize, height: usize, image: &Image)
    requires
        width * height <= old(frame)@.len(),
        whole(*image),
    ensures
        final(frame)@ == overlaid(old(frame)@, width as int, height as int, *image, 0, 0),
{
    overlay_at(frame, width, height, image, 0, 0);
}

/// Each pixel's colour through a palette, three bytes a pixel.
pub fn to_rgb(frame: &[u8], palette: &Palette) -> (out: Vec<u8>)
    requires
        frame@.len() * 3 <= usize::MAX,
    ensures
        out@.len() == 3 * frame@.len(),
        forall|i: int, k: int|
            0 <= i < frame@.len() && 0 <= k < 3 ==> #[trigger] out@[3 * i + k] == palette.colours@[frame@[i] as int][k],
{
    let mut out: Vec<u8> = Vec::new();
    let mut i: usize = 0;
    while i < frame.len()
        invariant
            i <= frame@.len(),
            frame@.len() * 3 <= usize::MAX,
            out@.len() == 3 * i,
            forall|j: int, k: int|
                0 <= j < i && 0 <= k < 3 ==> #[trigger] out@[3 * j + k] == palette.colours@[frame@[j] as int][k],
        decreases frame@.len() - i,
    {
        let c = palette.rgb(frame[i]);
        out.push(c[0]);
        out.push(c[1]);
        out.push(c[2]);
        proof {
            assert forall|j: int, k: int| 0 <= j < i + 1 && 0 <= k < 3 implies #[trigger] out@[3 * j + k]
                == palette.colours@[frame@[j] as int][k] by {
                if j == i {
                    assert(out@[3 * j + k] == c[k]);
                }
            }
        }
        i += 1;
    }
    out
}

} // verus!
