//! Playing a cutscene: the decoded picture scaled to a window, the whole
//! soundtrack for the mixer, and the frames decoded up to a clock's frame.
//!
//! The clock itself, and finding the file on the disc, are the front end's.

use vstd::prelude::*;
use crate::audio::wav::Wav;
use crate::formats::smk::{
    header_fits, movie_matches, plays, smk_fault, step_of, trees_of, word, Movie, Player, Playing,
};

verus! {

/// Where the movies live on the disc.
pub const STORY: &'static str = "system/Story";

/// The four the engine plays before a game, in the order its three routines
/// name them (`0x45bbc9`, `0x45bbf9`, `0x45bc19`): Terminal Reality, the
/// title, Microsoft, and then the story.
pub const OPENING: [&'static str; 4] = ["tri.smk", "hell.smk", "mslogo.smk", "intro.smk"];

/// A player as it starts: the movie's trees, a black palette and picture, no
/// sound, and the first frame next.
pub open spec fn fresh(movie: Movie) -> Playing {
    Playing {
        trees: trees_of(movie.trees@).0,
        palette: Seq::new(256, |i: int| [0u8, 0, 0]),
        picture: Seq::new((movie.width * movie.height) as nat, |i: int| 0u8),
        sound: Seq::empty(),
        next: 0,
    }
}

/// Every frame's track-0 samples from state `s` on, in order, until a frame
/// does not decode.
pub open spec fn soundtrack(movie: Movie, s: Playing, data: Seq<u8>) -> Seq<i16>
    decreases movie.sizes@.len() - s.next,
{
    if s.next >= movie.sizes@.len() {
        Seq::empty()
    } else {
        let (ok, after) = step_of(movie, s, data);
        if !ok { Seq::empty() } else { after.sound + soundtrack(movie, after, data) }
    }
}

/// Decoding on from state `s` until frame `upto` is next: whether the movie
/// then still has a frame to show, and the state; false where a frame does
/// not decode.
pub open spec fn caught_up(movie: Movie, s: Playing, data: Seq<u8>, upto: nat) -> (bool, Playing)
    decreases movie.sizes@.len() - s.next,
{
    if s.next < upto && s.next < movie.sizes@.len() {
        let (ok, after) = step_of(movie, s, data);
        if !ok { (false, after) } else { caught_up(movie, after, data, upto) }
    } else {
        (s.next < movie.frames, s)
    }
}

/// The first source row (or column) of `m` that output row `i` of `n` stands
/// for.
pub open spec fn span_from(i: int, m: int, n: int) -> int {
    i * m / n
}

/// One past the last: up to where the next output row starts, rounded up,
/// never past the source and never empty.
pub open spec fn span_to(i: int, m: int, n: int) -> int {
    let up = (i + 1) * m / n + if ((i + 1) * m) % n != 0 { 1int } else { 0 };
    let to = if up < m { up } else { m };
    if to > span_from(i, m, n) + 1 { to } else { span_from(i, m, n) + 1 }
}

/// Channel `ch` of the palette colours of source row `sy`, columns `left` up
/// to `right`, summed.
pub open spec fn row_sum(picture: Seq<u8>, palette: Seq<[u8; 3]>, mw: int, sy: int, left: int, right: int, ch: int) -> int
    decreases right - left,
{
    if right <= left { 0 } else { row_sum(picture, palette, mw, sy, left, right - 1, ch) + palette[picture[sy * mw + right - 1] as int][ch] }
}

/// Channel `ch` summed over source rows `top` up to `bottom`.
pub open spec fn box_sum(picture: Seq<u8>, palette: Seq<[u8; 3]>, mw: int, top: int, bottom: int, left: int, right: int, ch: int) -> int
    decreases bottom - top,
{
    if bottom <= top { 0 } else { box_sum(picture, palette, mw, top, bottom - 1, left, right, ch) + row_sum(picture, palette, mw, bottom - 1, left, right, ch) }
}

/// An opaque `0xAARRGGBB` pixel.
pub open spec fn argb(r: int, g: int, b: int) -> u32 {
    (0xff00_0000 + r * 0x1_0000 + g * 0x100 + b) as u32
}

/// The window pixel at (`x`, `y`) of `width` by `height`: the average colour
/// of the movie pixels it covers.
pub open spec fn scaled_pixel(picture: Seq<u8>, palette: Seq<[u8; 3]>, mw: int, mh: int, width: int, height: int, x: int, y: int) -> u32 {
    let (top, bottom) = (span_from(y, mh, height), span_to(y, mh, height));
    let (left, right) = (span_from(x, mw, width), span_to(x, mw, width));
    let n = (bottom - top) * (right - left);
    argb(
        box_sum(picture, palette, mw, top, bottom, left, right, 0) / n,
        box_sum(picture, palette, mw, top, bottom, left, right, 1) / n,
        box_sum(picture, palette, mw, top, bottom, left, right, 2) / n,
    )
}

/// Whether two headers say the same of a movie's size, frames and trees.
pub open spec fn same_movie(a: Movie, b: Movie) -> bool {
    &&& a.width == b.width && a.height == b.height && a.frames == b.frames
    &&& a.first == b.first && a.sizes@ == b.sizes@ && a.kinds@ == b.kinds@ && a.trees@ == b.trees@
    &&& a.audio_rate@ == b.audio_rate@
}

proof fn lemma_same_track(a: Movie, b: Movie, s: Playing, data: Seq<u8>)
    requires
        same_movie(a, b),
    ensures
        soundtrack(a, s, data) == soundtrack(b, s, data),
    decreases a.sizes@.len() - s.next,
{
    assert(step_of(a, s, data) == step_of(b, s, data));
    if s.next < a.sizes@.len() {
        let (ok, after) = step_of(a, s, data);
        if ok {
            lemma_same_track(a, b, after, data);
        }
    }
}

proof fn lemma_same_plays(a: Movie, b: Movie, data: Seq<u8>)
    requires
        same_movie(a, b),
        plays(a, data),
    ensures
        plays(b, data),
{
    assert forall|n: nat| n <= b.sizes@.len() implies #[trigger] crate::formats::smk::offsets_fit(b, n)
        && !crate::formats::smk::empty_palette_frame(b, n, data) by {
        assert(crate::formats::smk::offsets_fit(a, n));
        assert(!crate::formats::smk::empty_palette_frame(a, n, data));
    }
}

/// Every frame's sound from where a player stands, in order, until a frame
/// does not decode.
fn collect_sound(player: &mut Player, data: &[u8]) -> (r: Vec<i16>)
    requires
        old(player).playable(),
        plays(old(player).movie, data@),
    ensures
        r@ == soundtrack(old(player).movie, old(player).playing(), data@),
{
    let ghost movie = player.movie;
    let ghost whole = soundtrack(movie, player.playing(), data@);
    let mut samples: Vec<i16> = Vec::new();
    loop
        invariant
            player.playable(),
            player.movie == movie,
            plays(movie, data@),
            whole == soundtrack(old(player).movie, old(player).playing(), data@),
            samples@ + soundtrack(movie, player.playing(), data@) == whole,
        ensures
            samples@ == whole,
            whole == soundtrack(old(player).movie, old(player).playing(), data@),
        decreases movie.sizes@.len() - player.next,
    {
        let ghost before = player.playing();
        if !player.step(data) {
            proof {
                assert(soundtrack(movie, before, data@) =~= Seq::empty());
                assert(samples@ =~= whole);
            }
            break;
        }
        let mut k: usize = 0;
        let ghost start = samples@;
        while k < player.sound.len()
            invariant
                k <= player.sound@.len(),
                samples@ == start + player.sound@.take(k as int),
            decreases player.sound@.len() - k,
        {
            samples.push(player.sound[k]);
            k += 1;
            proof {
                assert(samples@ =~= start + player.sound@.take(k as int));
            }
        }
        proof {
            assert(player.sound@.take(k as int) =~= player.sound@);
            assert(samples@ + soundtrack(movie, player.playing(), data@) =~= whole);
        }
    }
    samples
}

/// The average colour of a box of movie pixels, as an opaque pixel.
fn box_colour(picture: &[u8], palette: &[[u8; 3]], mw: usize, mh: usize, top: usize, bottom: usize, left: usize, right: usize) -> (r: u32)
    requires
        top < bottom <= mh,
        left < right <= mw,
        picture@.len() == mw * mh,
        palette@.len() == 256,
        mw * mh * 255 <= u64::MAX,
    ensures
        ({
            let n = (bottom - top) * (right - left);
            r == argb(
                box_sum(picture@, palette@, mw as int, top as int, bottom as int, left as int, right as int, 0) / n,
                box_sum(picture@, palette@, mw as int, top as int, bottom as int, left as int, right as int, 1) / n,
                box_sum(picture@, palette@, mw as int, top as int, bottom as int, left as int, right as int, 2) / n,
            )
        }),
{
    let ghost (pv, cv, w) = (picture@, palette@, mw as int);
    let plen = picture.len();
    let (mut r, mut g, mut b, mut n) = (0u64, 0u64, 0u64, 0u64);
    let width = right - left;
    assert((bottom - top) * width <= mw * mh) by (nonlinear_arith)
        requires bottom - top <= mh, width <= mw, width == right - left;
    let mut sy = top;
    while sy < bottom
        invariant
            top <= sy <= bottom <= mh,
            left < right <= mw,
            width == right - left,
            (bottom - top) * width <= mw * mh,
            picture@ == pv && palette@ == cv && w == mw,
            pv.len() == mw * mh,
            plen == pv.len(),
            cv.len() == 256,
            mw * mh * 255 <= u64::MAX,
            n == (sy - top) * width,
            r == box_sum(pv, cv, w, top as int, sy as int, left as int, right as int, 0),
            g == box_sum(pv, cv, w, top as int, sy as int, left as int, right as int, 1),
            b == box_sum(pv, cv, w, top as int, sy as int, left as int, right as int, 2),
            r <= 255 * n && g <= 255 * n && b <= 255 * n,
        decreases bottom - sy,
    {
        assert((sy - top + 1) * width <= (bottom - top) * width) by (nonlinear_arith)
            requires sy < bottom, width >= 0;
        assert((sy - top + 1) * width == (sy - top) * width + width) by (nonlinear_arith);
        let mut sx = left;
        while sx < right
            invariant
                top <= sy < bottom <= mh,
                left <= sx <= right <= mw,
                width == right - left,
                picture@ == pv && palette@ == cv && w == mw,
                pv.len() == mw * mh,
                plen == pv.len(),
                cv.len() == 256,
                mw * mh * 255 <= u64::MAX,
                (sy - top + 1) * width <= mw * mh,
                (sy - top + 1) * width == (sy - top) * width + width,
                n == (sy - top) * width + (sx - left),
                r == box_sum(pv, cv, w, top as int, sy as int, left as int, right as int, 0) + row_sum(pv, cv, w, sy as int, left as int, sx as int, 0),
                g == box_sum(pv, cv, w, top as int, sy as int, left as int, right as int, 1) + row_sum(pv, cv, w, sy as int, left as int, sx as int, 1),
                b == box_sum(pv, cv, w, top as int, sy as int, left as int, right as int, 2) + row_sum(pv, cv, w, sy as int, left as int, sx as int, 2),
                r <= 255 * n && g <= 255 * n && b <= 255 * n,
            decreases right - sx,
        {
            assert(sy * mw + sx < mw * mh) by (nonlinear_arith)
                requires sy < mh, sx < mw;
            let rgb = palette[picture[sy * mw + sx] as usize];
            r += rgb[0] as u64;
            g += rgb[1] as u64;
            b += rgb[2] as u64;
            n += 1;
            sx += 1;
        }
        sy += 1;
    }
    assert(n == (bottom - top) * (right - left));
    assert(n > 0) by (nonlinear_arith)
        requires n == (bottom - top) * (right - left), top < bottom, left < right;
    let (r64, g64, b64) = (r / n, g / n, b / n);
    assert(r64 <= 255 && g64 <= 255 && b64 <= 255) by (nonlinear_arith)
        requires r64 == r / n, g64 == g / n, b64 == b / n, r <= 255 * n, g <= 255 * n, b <= 255 * n, n > 0;
    let (rr, gg, bb) = (r64 as u32, g64 as u32, b64 as u32);
    let packed = 0xff00_0000 | rr << 16 | gg << 8 | bb;
    assert(packed == 0xff00_0000 + rr * 0x1_0000 + gg * 0x100 + bb) by (bit_vector)
        requires packed == 0xff00_0000 | rr << 16 | gg << 8 | bb, rr <= 255, gg <= 255, bb <= 255;
    packed
}

/// A movie being shown: the file, the player walking it, and its name.
pub struct Show {
    data: Vec<u8>,
    player: Player,
    pub name: String,
}

impl Show {
    /// The file, as values.
    pub closed spec fn bytes(&self) -> Seq<u8> {
        self.data@
    }

    /// The movie's header.
    pub closed spec fn movie(&self) -> Movie {
        self.player.movie_of()
    }

    /// The movie's name, as characters.
    pub closed spec fn title(&self) -> Seq<char> {
        self.name@
    }

    /// Where the picture stands.
    pub closed spec fn state(&self) -> Playing {
        self.player.playing()
    }

    /// What showing keeps: the header is the file's, every frame decodes, and
    /// the player is fit to play.
    pub closed spec fn showable(&self) -> bool {
        &&& smk_fault(self.data@) is None
        &&& header_fits(self.data@)
        &&& word(self.data@, 4) * word(self.data@, 8) <= usize::MAX
        &&& movie_matches(self.player.movie_of(), self.data@)
        &&& plays(self.player.movie_of(), self.data@)
        &&& self.player.playable()
    }

    /// A show of a movie's bytes, or none where they are not a movie.
    pub fn new(data: Vec<u8>, name: String) -> (r: Option<Show>)
        requires
            header_fits(data@),
            smk_fault(data@) is None ==> word(data@, 4) * word(data@, 8) <= usize::MAX,
            forall|m: Movie| movie_matches(m, data@) ==> plays(m, data@),
        ensures
            r is Some <==> smk_fault(data@) is None,
            r matches Some(s) ==> s.showable() && s.bytes() == data@ && s.title() == name@ && s.state() == fresh(s.movie()),
    {
        let player = match Player::new(data.as_slice()) {
            Ok(p) => p,
            Err(_) => return None,
        };
        let r = Show { data, player, name };
        proof {
            assert(r.state().palette =~= fresh(r.movie()).palette);
            assert(r.state().picture =~= fresh(r.movie()).picture);
        }
        Some(r)
    }

    /// The whole soundtrack, decoded ahead of the picture so it can be handed
    /// to the mixer in one piece: none where the first track has no rate or
    /// no samples. This walks its own player, so the picture's is untouched.
    pub fn sound(&self) -> (r: Option<Wav>)
        requires
            self.showable(),
        ensures
            ({
                let rate = self.movie().audio_rate@[0] & 0xff_ffff;
                let samples = soundtrack(self.movie(), fresh(self.movie()), self.bytes());
                &&& r is None <==> (rate == 0 || samples.len() == 0)
                &&& r matches Some(w) ==> w.rate == rate && w.channels == 1 && w.samples@ == samples
            }),
    {
        let mut player = match Player::new(self.data.as_slice()) {
            Ok(p) => p,
            Err(_) => return None,
        };
        proof {
            assert(player.playing().palette =~= fresh(self.movie()).palette);
            assert(player.playing().picture =~= fresh(self.movie()).picture);
        }
        let rate = player.movie.audio_rate[0] & 0xff_ffff;
        if rate == 0 {
            return None;
        }
        proof {
            lemma_same_track(self.player.movie, player.movie, fresh(player.movie), self.data@);
            lemma_same_plays(self.player.movie, player.movie, self.data@);
        }
        let samples = collect_sound(&mut player, self.data.as_slice());
        if samples.len() == 0 {
            return None;
        }
        Some(Wav { rate, channels: 1, samples })
    }

    /// The movie's own size, which is the buffer to draw it into.
    pub fn size(&self) -> (r: (usize, usize))
        requires
            self.showable(),
        ensures
            r == (self.movie().width, self.movie().height),
    {
        (self.player.movie.width, self.player.movie.height)
    }

    /// Decode frames until frame `want` is next, or the movie ends. False
    /// when the movie is over, or a frame does not decode.
    pub fn step(&mut self, want: usize) -> (r: bool)
        requires
            old(self).showable(),
        ensures
            final(self).showable(),
            final(self).bytes() == old(self).bytes(),
            final(self).movie() == old(self).movie(),
            final(self).title() == old(self).title(),
            (r, final(self).state()) == caught_up(old(self).movie(), old(self).state(), old(self).bytes(),
                if want < old(self).movie().frames { want as nat } else { old(self).movie().frames as nat }),
    {
        let ghost movie = self.player.movie_of();
        let upto = if want < self.player.movie.frames { want } else { self.player.movie.frames };
        let ghost whole = caught_up(movie, self.player.playing(), self.data@, upto as nat);
        while self.player.frame() < upto
            invariant
                self.showable(),
                self.player.movie_of() == movie,
                self.data@ == old(self).data@,
                self.name == old(self).name,
                upto <= movie.frames,
                movie.frames == movie.sizes@.len(),
                caught_up(movie, self.player.playing(), self.data@, upto as nat) == whole,
                movie == old(self).movie(),
                whole == caught_up(old(self).movie(), old(self).state(), old(self).bytes(), upto as nat),
                upto == (if want < old(self).movie().frames { want as nat } else { old(self).movie().frames as nat }),
            decreases movie.sizes@.len() - self.player.next_frame(),
        {
            proof {
                assert(self.player.next_frame() <= movie.sizes@.len());
            }
            let ghost before = self.player.playing();
            let going = self.player.step(self.data.as_slice());
            proof {
                assert(self.player.movie_of() == movie);
                assert((going, self.player.playing()) == step_of(movie, before, self.data@));
            }
            if !going {
                return false;
            }
        }
        self.player.frame() < self.player.movie.frames
    }

    /// The picture, into a window `width` by `height`.
    ///
    /// A movie is drawn at its own size and the window stretches it, so no
    /// row is ever dropped. It matters: 240 rows into the game's 200 loses one
    /// in six, and one row is a whole stroke of the small text a briefing
    /// movie is full of. Where the sizes do differ this averages over the
    /// source pixels each window pixel covers rather than sampling at a
    /// point. A movie or window with no pixels is drawn all black.
    pub fn draw(&self, buffer: &mut [u32], width: usize, height: usize)
        requires
            self.showable(),
            ({
                let (mw, mh) = (self.movie().width as int, self.movie().height as int);
                mw > 0 && mh > 0 && width > 0 && height > 0 ==> {
                    &&& width * height <= old(buffer)@.len()
                    &&& width * mw <= usize::MAX
                    &&& height * mh <= usize::MAX
                    &&& mw * mh * 255 <= u64::MAX
                }
            }),
        ensures
            final(buffer)@.len() == old(buffer)@.len(),
            ({
                let (mw, mh) = (self.movie().width as int, self.movie().height as int);
                if mw == 0 || mh == 0 || width == 0 || height == 0 {
                    forall|i: int| 0 <= i < old(buffer)@.len() ==> #[trigger] final(buffer)@[i] == 0xff00_0000u32
                } else {
                    &&& forall|y: int, x: int| 0 <= y < height && 0 <= x < width ==> #[trigger] final(buffer)@[y * width + x]
                        == scaled_pixel(self.state().picture, self.state().palette, mw, mh, width as int, height as int, x, y)
                    &&& forall|i: int| width * height <= i < old(buffer)@.len() ==> #[trigger] final(buffer)@[i] == old(buffer)@[i]
                }
            }),
    {
        let mw = self.player.movie.width;
        let mh = self.player.movie.height;
        let ghost before = buffer@;
        let len = buffer.len();
        if mw == 0 || mh == 0 || width == 0 || height == 0 {
            let mut i: usize = 0;
            while i < len
                invariant
                    i <= len,
                    len == buffer@.len(),
                    forall|j: int| 0 <= j < i ==> #[trigger] buffer@[j] == 0xff00_0000u32,
                decreases len - i,
            {
                buffer[i] = 0xff00_0000;
                i += 1;
            }
            return;
        }
        let ghost (pic, pal) = (self.player.picture@, self.player.palette@);
        assert(mw * 255 <= mw * mh * 255 && mh * 255 <= mw * mh * 255) by (nonlinear_arith)
            requires mw >= 1, mh >= 1;
        let mut y: usize = 0;
        while y < height
            invariant
                self.showable(),
                mw == self.movie().width && mh == self.movie().height,
                mw > 0 && mh > 0 && width > 0 && height > 0,
                width * height <= len,
                len == buffer@.len(),
                len == before.len(),
                width * mw <= usize::MAX,
                height * mh <= usize::MAX,
                mw * mh * 255 <= u64::MAX,
                mw * 255 <= u64::MAX && mh * 255 <= u64::MAX,
                pic == self.state().picture && pal == self.state().palette,
                y <= height,
                forall|i: int| 0 <= i < len ==> #[trigger] buffer@[i] == if i < y * width {
                    scaled_pixel(pic, pal, mw as int, mh as int, width as int, height as int, i % width as int, i / width as int)
                } else {
                    before[i]
                },
            decreases height - y,
        {
            // The rows of the movie this row of the window stands for.
            assert((y + 1) * mh <= height * mh) by (nonlinear_arith)
                requires y < height;
            assert(y * mh <= (y + 1) * mh) by (nonlinear_arith);
            assert(((y + 1) * mh) as int / height as int <= mh) by (nonlinear_arith)
                requires (y + 1) * mh <= height * mh, height > 0;
            let top = y * mh / height;
            let down = (y + 1) * mh;
            let q = down / height;
            let bottom = if q < mh { q + if down % height != 0 { 1 } else { 0 } } else { mh };
            assert(top < mh) by (nonlinear_arith)
                requires top == (y * mh) as int / height as int, y < height, mh > 0, height > 0;
            let bottom = if bottom > top + 1 { bottom } else { top + 1 };
            let mut x: usize = 0;
            while x < width
                invariant
                    self.showable(),
                    mw == self.movie().width && mh == self.movie().height,
                    mw > 0 && mh > 0 && width > 0 && height > 0,
                    width * height <= len,
                    len == buffer@.len(),
                    len == before.len(),
                    width * mw <= usize::MAX,
                    mw * mh * 255 <= u64::MAX,
                    mw * 255 <= u64::MAX && mh * 255 <= u64::MAX,
                    pic == self.state().picture && pal == self.state().palette,
                    y < height,
                    top == span_from(y as int, mh as int, height as int),
                    bottom == span_to(y as int, mh as int, height as int),
                    top < bottom <= mh,
                    x <= width,
                    forall|i: int| 0 <= i < len ==> #[trigger] buffer@[i] == if i < y * width + x {
                        scaled_pixel(pic, pal, mw as int, mh as int, width as int, height as int, i % width as int, i / width as int)
                    } else {
                        before[i]
                    },
                decreases width - x,
            {
                assert((x + 1) * mw <= width * mw) by (nonlinear_arith)
                    requires x < width;
                assert(x * mw <= (x + 1) * mw) by (nonlinear_arith);
                assert(((x + 1) * mw) as int / width as int <= mw) by (nonlinear_arith)
                    requires (x + 1) * mw <= width * mw, width > 0;
                let left = x * mw / width;
                let across = (x + 1) * mw;
                let q = across / width;
                let right = if q < mw { q + if across % width != 0 { 1 } else { 0 } } else { mw };
                assert(left < mw) by (nonlinear_arith)
                    requires left == (x * mw) as int / width as int, x < width, mw > 0, width > 0;
                let right = if right > left + 1 { right } else { left + 1 };
                let colour = box_colour(self.player.picture.as_slice(), self.player.palette.as_slice(), mw, mh, top, bottom, left, right);
                assert(y * width + x < width * height) by (nonlinear_arith)
                    requires y < height, x < width;
                let at = y * width + x;
                proof {
                    crate::render::hud::lemma_place(at as int, width as int, y as int, x as int);
                }
                buffer[at] = colour;
                x += 1;
                proof {
                    assert forall|i: int| 0 <= i < len implies #[trigger] buffer@[i] == if i < y * width + x {
                        scaled_pixel(pic, pal, mw as int, mh as int, width as int, height as int, i % width as int, i / width as int)
                    } else {
                        before[i]
                    } by {}
                }
            }
            y += 1;
            proof {
                assert((y - 1) * width + width == y * width) by (nonlinear_arith);
            }
        }
        proof {
            assert forall|yy: int, xx: int| 0 <= yy < height && 0 <= xx < width implies #[trigger] buffer@[yy * width + xx]
                == scaled_pixel(pic, pal, mw as int, mh as int, width as int, height as int, xx, yy) by {
                assert(yy * width + xx < width * height) by (nonlinear_arith)
                    requires yy < height, xx < width, yy >= 0, xx >= 0;
                assert(yy * width + xx < height * width) by (nonlinear_arith)
                    requires yy < height, xx < width, yy >= 0, xx >= 0;
                crate::render::hud::lemma_place(yy * width + xx, width as int, yy, xx);
            }
            assert(height * width == width * height) by (nonlinear_arith);
            assert forall|i: int| width * height <= i < before.len() implies #[trigger] buffer@[i] == before[i] by {}
        }
    }
}

} // verus!
