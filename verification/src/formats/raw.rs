//! The `.RAW` image: 8-bit indexed pixels, no header at all.
//!
//! Dimensions are not in the file. They come from the slot the image is loaded
//! into, and the filename says which slot. `Shape::guess` covers every size
//! that appears in the shipped archives.

use vstd::prelude::*;
use crate::bytes::{wanted, wanted_bytes, string_of};
use crate::formats::act::Palette;
use crate::formats::{Error, Result};

verus! {

#[derive(Debug, Clone, Copy, PartialEq, Eq)]
pub struct Shape {
    pub width: usize,
    pub height: usize,
}

/// The shape each byte count in the archives is, where only one explains it.
pub open spec fn guessed(len: usize) -> Option<(usize, usize)> {
    if len == 4_096 { Some((64, 64)) }              // texture
    else if len == 16_384 { Some((128, 128)) }      // terrain grid
    else if len == 64_000 { Some((320, 200)) }      // full screen, mode 200
    else if len == 128_000 { Some((320, 400)) }     // full screen, mode 400
    else if len == 307_200 { Some((640, 480)) }     // full screen, mode 480
    else if len == 6_440 { Some((140, 46)) }        // cockpit hand, mode 200
    else if len == 12_880 { Some((140, 92)) }       // cockpit hand, mode 400
    else if len == 30_800 { Some((280, 110)) }      // cockpit hand, mode 480
    else if len == 42 { Some((6, 7)) }              // throttle knob, mode 200
    else if len == 84 { Some((6, 14)) }             // throttle knob, mode 400
    else if len == 204 { Some((12, 17)) }           // throttle knob, mode 480
    else { None }
}

/// Every guess explains its byte count exactly.
pub proof fn lemma_guessed_area(len: usize)
    ensures
        match guessed(len) {
            Some((w, h)) => w * h == len,
            None => true,
        },
{
}

impl Shape {
    pub fn new(width: usize, height: usize) -> (r: Shape)
        ensures
            r.width == width && r.height == height,
    {
        Shape { width, height }
    }

    /// The dimensions for a byte count, for every size present in GAME.POD and
    /// STARTUP.POD. Sizes that more than one shape could explain are not
    /// guessed; ask for the shape explicitly instead.
    pub fn guess(len: usize) -> (r: Option<Shape>)
        ensures
            match guessed(len) {
                Some((w, h)) => r == Some(Shape { width: w, height: h }),
                None => r is None,
            },
    {
        let (w, h) = match len {
            4_096 => (64, 64),
            16_384 => (128, 128),
            64_000 => (320, 200),
            128_000 => (320, 400),
            307_200 => (640, 480),
            6_440 => (140, 46),
            12_880 => (140, 92),
            30_800 => (280, 110),
            42 => (6, 7),
            84 => (6, 14),
            204 => (12, 17),
            _ => return None,
        };
        Some(Shape::new(w, h))
    }
}

#[derive(Debug, Clone)]
pub struct Image {
    pub shape: Shape,
    pub pixels: Vec<u8>,
}

/// How the guessed sizes are asked for.
pub open spec fn known_sizes() -> Seq<char> {
    seq!['o', 'n', 'e', ' ', 'o', 'f', ' ', 't', 'h', 'e', ' ', 'k', 'n', 'o', 'w', 'n', ' ', 'i', 'm',
    'a', 'g', 'e', ' ', 's', 'i', 'z', 'e', 's']
}

impl Image {
    /// Exactly `width * height` bytes, row major.
    pub fn parse(data: &[u8], shape: Shape) -> (r: Result<Image>)
        ensures
            (data@.len() == shape.width * shape.height) <==> r is Ok,
            r matches Ok(img) ==> img.shape == shape && img.pixels@ == data@,
            r matches Err(e) ==> e matches Error::WrongSize { what, want, have } && what@ == "RAW image"@ && have
                == data@.len() && want@ == wanted_bytes((shape.width * shape.height) as nat),
    {
        let (w, h) = (shape.width as u128, shape.height as u128);
        assert(w * h <= 0xffff_ffff_ffff_ffffu128 * 0xffff_ffff_ffff_ffffu128) by (nonlinear_arith)
            requires
                w <= 0xffff_ffff_ffff_ffffu128,
                h <= 0xffff_ffff_ffff_ffffu128,
        ;
        let want = w * h;
        if data.len() as u128 != want {
            return Err(Error::WrongSize { what: "RAW image", want: wanted(want), have: data.len() });
        }
        Ok(Image { shape, pixels: vstd::slice::slice_to_vec(data) })
    }

    /// Parse using `Shape::guess`. A zero-length entry - there are 21 - is not
    /// an error and yields `None`.
    pub fn parse_guessed(data: &[u8]) -> (r: Result<Option<Image>>)
        ensures
            data@.len() == 0 <==> r matches Ok(None),
            data@.len() != 0 ==> (guessed(data@.len() as usize) is Some <==> r is Ok),
            r matches Ok(Some(img)) ==> guessed(data@.len() as usize) == Some(
                (img.shape.width, img.shape.height),
            ) && img.pixels@ == data@,
            r matches Err(e) ==> e matches Error::WrongSize { what, want, have } && what@ == "RAW image"@ && have
                == data@.len() && want@ == known_sizes(),
    {
        if data.len() == 0 {
            return Ok(None);
        }
        proof {
            lemma_guessed_area(data@.len() as usize);
        }
        match Shape::guess(data.len()) {
            None => {
                let want = [
                    'o', 'n', 'e', ' ', 'o', 'f', ' ', 't', 'h', 'e', ' ', 'k', 'n', 'o', 'w', 'n',
                    ' ', 'i', 'm', 'a', 'g', 'e', ' ', 's', 'i', 'z', 'e', 's',
                ];
                let want = string_of(&want);
                proof {
                    assert(want@ =~= known_sizes());
                }
                Err(Error::WrongSize { what: "RAW image", want, have: data.len() })
            },
            Some(shape) => match Image::parse(data, shape) {
                Ok(img) => Ok(Some(img)),
                Err(e) => Err(e),
            },
        }
    }

    /// Each pixel's colour, three bytes a pixel.
    pub fn to_rgb(&self, palette: &Palette) -> (out: Vec<u8>)
        requires
            self.pixels@.len() * 3 <= usize::MAX,
        ensures
            out@.len() == 3 * self.pixels@.len(),
            forall|i: int, k: int|
                0 <= i < self.pixels@.len() && 0 <= k < 3 ==> #[trigger] out@[3 * i + k]
                    == palette.colours@[self.pixels@[i] as int][k],
    {
        let mut out: Vec<u8> = Vec::new();
        let mut i: usize = 0;
        while i < self.pixels.len()
            invariant
                i <= self.pixels@.len(),
                out@.len() == 3 * i,
                forall|j: int, k: int|
                    0 <= j < i && 0 <= k < 3 ==> #[trigger] out@[3 * j + k]
                        == palette.colours@[self.pixels@[j] as int][k],
            decreases self.pixels@.len() - i,
        {
            let c = palette.rgb(self.pixels[i]);
            out.push(c[0]);
            out.push(c[1]);
            out.push(c[2]);
            proof {
                assert forall|j: int, k: int|
                    0 <= j < i + 1 && 0 <= k < 3 implies #[trigger] out@[3 * j + k]
                    == palette.colours@[self.pixels@[j] as int][k] by {
                    if j == i {
                        assert(k == 0 || k == 1 || k == 2);
                    }
                }
            }
            i += 1;
        }
        out
    }
}

} // verus!
