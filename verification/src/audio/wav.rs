//! The `.WAV` effects: RIFF, PCM, uncompressed.
//!
//! The shipped effects are 11,025 Hz, mono, 8-bit unsigned. The decoder
//! accepts 8- or 16-bit and any channel count because nothing stops a
//! replacement file differing.

use vstd::prelude::*;
use crate::bytes::{le_u16, le_u32, u16_at, u32_at};

verus! {

#[derive(Debug, Clone)]
pub struct Wav {
    pub rate: u32,
    pub channels: u16,
    /// Signed 16-bit, interleaved.
    pub samples: Vec<i16>,
}

#[derive(Debug)]
pub enum Error {
    NotRiff,
    NotWave,
    NoFormat,
    NoData,
    Unsupported(&'static str),
}

/// A span of the file: from, to.
pub type Span = (int, int);

pub open spec fn riff_tag() -> Seq<u8> {
    seq![0x52u8, 0x49, 0x46, 0x46]
}

pub open spec fn wave_tag() -> Seq<u8> {
    seq![0x57u8, 0x41, 0x56, 0x45]
}

pub open spec fn fmt_tag() -> Seq<u8> {
    seq![0x66u8, 0x6d, 0x74, 0x20]
}

pub open spec fn data_tag() -> Seq<u8> {
    seq![0x64u8, 0x61, 0x74, 0x61]
}

/// The last `fmt ` and `data` chunks from `at` on, each as the span of its
/// body that the file holds. Chunks are word aligned.
pub open spec fn chunks_from(data: Seq<u8>, at: int, format: Option<Span>, body: Option<Span>) -> (Option<Span>, Option<Span>)
    decreases data.len() - at,
{
    if at < 0 || at + 8 > data.len() {
        (format, body)
    } else {
        let id = data.subrange(at, at + 4);
        let size = le_u32(data, at + 4) as int;
        let from = at + 8;
        let to = if from + size < data.len() { from + size } else { data.len() as int };
        let format = if id == fmt_tag() { Some((from, to)) } else { format };
        let body = if id == data_tag() { Some((from, to)) } else { body };
        let next = from + size + size % 2;
        if next > data.len() { (format, body) } else { chunks_from(data, next, format, body) }
    }
}

/// The samples of 8-bit unsigned PCM: 128 is silence, scaled to 16 bits.
pub open spec fn widen8(body: Seq<u8>) -> Seq<i16> {
    body.map_values(|b: u8| ((b - 128) * 256) as i16)
}

/// The samples of 16-bit PCM: little-endian pairs, an odd last byte left out.
pub open spec fn pairs16(body: Seq<u8>) -> Seq<i16> {
    Seq::new(body.len() / 2, |i: int| le_u16(body, 2 * i) as i16)
}

pub struct WavView {
    pub rate: u32,
    pub channels: u16,
    pub samples: Seq<i16>,
}

pub enum Refusal {
    NotRiff,
    NotWave,
    NoFormat,
    NoData,
    OnlyPcm,
    OnlyDepths,
}

/// A `.WAV` file, or why it is not one this reads.
pub open spec fn wav_of(data: Seq<u8>) -> core::result::Result<WavView, Refusal> {
    if data.len() < 12 || data.subrange(0, 4) != riff_tag() {
        Err(Refusal::NotRiff)
    } else if data.subrange(8, 12) != wave_tag() {
        Err(Refusal::NotWave)
    } else {
        let (format, body) = chunks_from(data, 12, None, None);
        match format {
            None => Err(Refusal::NoFormat),
            Some((ff, ft)) => match body {
                None => Err(Refusal::NoData),
                Some((bf, bt)) => {
                    let f = data.subrange(ff, ft);
                    let b = data.subrange(bf, bt);
                    if f.len() < 16 {
                        Err(Refusal::NoFormat)
                    } else if le_u16(f, 0) != 1 {
                        Err(Refusal::OnlyPcm)
                    } else {
                        let bits = le_u16(f, 14);
                        let channels = le_u16(f, 2);
                        let rate = le_u32(f, 4);
                        if bits == 8 {
                            Ok(WavView { rate, channels, samples: widen8(b) })
                        } else if bits == 16 {
                            Ok(WavView { rate, channels, samples: pairs16(b) })
                        } else {
                            Err(Refusal::OnlyDepths)
                        }
                    }
                },
            },
        }
    }
}

/// The error each refusal is given as.
pub open spec fn refused(e: Error, f: Refusal) -> bool {
    match f {
        Refusal::NotRiff => e is NotRiff,
        Refusal::NotWave => e is NotWave,
        Refusal::NoFormat => e is NoFormat,
        Refusal::NoData => e is NoData,
        Refusal::OnlyPcm => e matches Error::Unsupported(w) && w@ == "only PCM"@,
        Refusal::OnlyDepths => e matches Error::Unsupported(w) && w@ == "only 8- or 16-bit"@,
    }
}

fn is_tag(data: &[u8], at: usize, t: [u8; 4]) -> (r: bool)
    requires
        at + 4 <= data@.len(),
    ensures
        r == (data@.subrange(at as int, at + 4) == t@),
{
    let same = data[at] == t[0] && data[at + 1] == t[1] && data[at + 2] == t[2] && data[at + 3] == t[3];
    if same {
        assert(data@.subrange(at as int, at + 4) =~= t@);
    } else {
        assert(data@.subrange(at as int, at + 4) != t@) by {
            if data@.subrange(at as int, at + 4) == t@ {
                assert(data@.subrange(at as int, at + 4)[0] == t@[0]);
                assert(data@.subrange(at as int, at + 4)[1] == t@[1]);
                assert(data@.subrange(at as int, at + 4)[2] == t@[2]);
                assert(data@.subrange(at as int, at + 4)[3] == t@[3]);
            }
        }
    }
    same
}

fn tag_bytes(a: u8, b: u8, c: u8, d: u8) -> (r: [u8; 4])
    ensures
        r@ == seq![a, b, c, d],
{
    let r = [a, b, c, d];
    assert(r@ =~= seq![a, b, c, d]);
    r
}

impl Wav {
    /// Reads a RIFF `WAVE` file: walks its word-aligned chunks, takes the last
    /// `fmt ` and `data` chunks (each cut short where the file ends), and
    /// decodes PCM of 8 bits (unsigned, 128 silence, scaled to 16 bits) or 16
    /// bits (little-endian).
    pub fn parse(data: &[u8]) -> (r: core::result::Result<Wav, Error>)
        ensures
            match wav_of(data@) {
                Ok(w) => r matches Ok(wav) && wav.rate == w.rate && wav.channels == w.channels && wav.samples@ == w.samples,
                Err(f) => r matches Err(e) && refused(e, f),
            },
    {
        if data.len() < 12 || !is_tag(data, 0, tag_bytes(0x52, 0x49, 0x46, 0x46)) {
            return Err(Error::NotRiff);
        }
        if !is_tag(data, 8, tag_bytes(0x57, 0x41, 0x56, 0x45)) {
            return Err(Error::NotWave);
        }
        let len = data.len();
        let mut format: Option<(usize, usize)> = None;
        let mut body: Option<(usize, usize)> = None;
        let mut at: u128 = 12;
        while at + 8 <= len as u128
            invariant
                len == data@.len(),
                12 <= at <= len + 0x1_0000_0000,
                chunks_from(data@, 12, None, None) == chunks_from(data@, at as int, spans(format), spans(body)),
                format matches Some((f, t)) ==> f <= t <= len,
                body matches Some((f, t)) ==> f <= t <= len,
            decreases len + 0x2_0000_0000 - at,
        {
            let a = at as usize;
            let size = u32_at(data, a + 4) as u128;
            let from = a + 8;
            let to: usize = if from as u128 + size < len as u128 { (from as u128 + size) as usize } else { len };
            if is_tag(data, a, tag_bytes(0x66, 0x6d, 0x74, 0x20)) {
                format = Some((from, to));
            }
            if is_tag(data, a, tag_bytes(0x64, 0x61, 0x74, 0x61)) {
                body = Some((from, to));
            }
            at = from as u128 + size + size % 2;
        }
        let (ff, ft) = match format {
            Some(s) => s,
            None => return Err(Error::NoFormat),
        };
        let (bf, bt) = match body {
            Some(s) => s,
            None => return Err(Error::NoData),
        };
        let f = &data[ff..ft];
        let b = &data[bf..bt];
        assert(f@ =~= data@.subrange(ff as int, ft as int));
        assert(b@ =~= data@.subrange(bf as int, bt as int));
        if f.len() < 16 {
            return Err(Error::NoFormat);
        }
        if u16_at(f, 0) != 1 {
            return Err(Error::Unsupported("only PCM"));
        }
        let channels = u16_at(f, 2);
        let rate = u32_at(f, 4);
        let bits = u16_at(f, 14);
        let mut samples: Vec<i16> = Vec::new();
        if bits == 8 {
            let mut i: usize = 0;
            while i < b.len()
                invariant
                    i <= b@.len(),
                    samples@ =~= widen8(b@).take(i as int),
                decreases b@.len() - i,
            {
                samples.push(((b[i] as i16) - 128) * 256);
                i += 1;
            }
            assert(widen8(b@).take(i as int) =~= widen8(b@));
        } else if bits == 16 {
            let blen = b.len();
            let n = blen / 2;
            let mut i: usize = 0;
            while i < n
                invariant
                    blen == b@.len(),
                    n == b@.len() / 2,
                    i <= n,
                    samples@ =~= pairs16(b@).take(i as int),
                decreases n - i,
            {
                samples.push(u16_at(b, 2 * i) as i16);
                i += 1;
            }
            assert(pairs16(b@).take(i as int) =~= pairs16(b@));
        } else {
            return Err(Error::Unsupported("only 8- or 16-bit"));
        }
        Ok(Wav { rate, channels, samples })
    }
}

/// A span as its values.
pub open spec fn spans(s: Option<(usize, usize)>) -> Option<Span> {
    match s {
        Some((f, t)) => Some((f as int, t as int)),
        None => None,
    }
}

} // verus!
