//! A minimal PNG writer, so extracted art can be looked at without a
//! dependency. Deflate is emitted as stored blocks - the output is bigger than
//! it needs to be and every decoder accepts it.

use vstd::prelude::*;
use crate::bytes::{append_bytes, be32, be32_bytes, le16, le16_bytes};

verus! {

pub open spec fn signature() -> Seq<u8> {
    seq![0x89u8, 0x50, 0x4e, 0x47, 0x0d, 0x0a, 0x1a, 0x0a]
}

pub open spec fn ihdr_kind() -> Seq<u8> {
    seq![0x49u8, 0x48, 0x44, 0x52]
}

pub open spec fn idat_kind() -> Seq<u8> {
    seq![0x49u8, 0x44, 0x41, 0x54]
}

pub open spec fn iend_kind() -> Seq<u8> {
    seq![0x49u8, 0x45, 0x4e, 0x44]
}

/// The rows, each behind a filter-type byte of 0.
pub open spec fn scanlines(pixels: Seq<u8>, row: int, rows: int) -> Seq<u8>
    decreases rows,
{
    if rows <= 0 {
        Seq::empty()
    } else {
        scanlines(pixels, row, rows - 1) + seq![0u8] + pixels.subrange((rows - 1) * row, rows * row)
    }
}

/// A whole PNG of 8-bit RGB pixels: the signature, the header, the pixels as
/// one zlib stream, and the end marker.
pub open spec fn png_of(width: usize, height: usize, pixels: Seq<u8>) -> Seq<u8> {
    signature() + chunk_of(
        ihdr_kind(),
        be32(width as u32) + be32(height as u32) + seq![8u8, 2, 0, 0, 0],
    ) + chunk_of(idat_kind(), zlib_of(scanlines(pixels, 3 * width, height as int)))
        + chunk_of(iend_kind(), Seq::empty())
}

/// A chunk: the body's length, the kind, the body, and the CRC of kind and body.
pub open spec fn chunk_of(kind: Seq<u8>, body: Seq<u8>) -> Seq<u8> {
    be32(body.len() as u32) + kind + body + be32(crc32(kind + body))
}

/// A zlib stream of stored deflate blocks.
pub open spec fn zlib_of(data: Seq<u8>) -> Seq<u8> {
    seq![0x78u8, 0x01] + stored_blocks(data) + be32(adler32(data))
}

/// Blocks of at most 65,535 bytes, each behind its final flag, its length
/// and the length's complement.
pub open spec fn stored_blocks(rest: Seq<u8>) -> Seq<u8>
    decreases rest.len(),
{
    if rest.len() <= 65535 {
        seq![1u8] + le16(rest.len() as u16) + le16((65535 - rest.len()) as u16) + rest
    } else {
        seq![0u8] + le16(65535) + le16(0) + rest.take(65535) + stored_blocks(rest.skip(65535))
    }
}

/// The reflected CRC-32 polynomial's shift register, `n` steps on.
pub open spec fn crc_rounds(c: u32, n: nat) -> u32
    decreases n,
{
    if n == 0 {
        c
    } else {
        let d = crc_rounds(c, (n - 1) as nat);
        if d & 1 != 0 {
            0xedb8_8320u32 ^ (d >> 1u32)
        } else {
            d >> 1u32
        }
    }
}

pub open spec fn crc_byte(state: u32, b: u8) -> u32 {
    crc_rounds((state ^ (b as u32)) & 0xffu32, 8) ^ (state >> 8u32)
}

pub open spec fn crc_fold(state: u32, data: Seq<u8>) -> u32
    decreases data.len(),
{
    if data.len() == 0 {
        state
    } else {
        crc_byte(crc_fold(state, data.drop_last()), data.last())
    }
}

/// CRC-32 as PNG uses it: from all ones, and the result inverted.
pub open spec fn crc32(data: Seq<u8>) -> u32 {
    crc_fold(0xffff_ffffu32, data) ^ 0xffff_ffffu32
}

/// Adler-32's two running sums, modulo 65,521.
pub open spec fn adler_sums(data: Seq<u8>) -> (u32, u32)
    decreases data.len(),
{
    if data.len() == 0 {
        (1, 0)
    } else {
        let (a, b) = adler_sums(data.drop_last());
        let a2 = ((a + data.last()) % 65_521) as u32;
        (a2, ((b + a2) % 65_521) as u32)
    }
}

pub open spec fn adler32(data: Seq<u8>) -> u32 {
    let (a, b) = adler_sums(data);
    (b * 65536 + a) as u32
}

proof fn lemma_adler_bounds(data: Seq<u8>)
    ensures
        adler_sums(data).0 < 65_521,
        adler_sums(data).1 < 65_521,
    decreases data.len(),
{
    if data.len() > 0 {
        lemma_adler_bounds(data.drop_last());
    }
}

proof fn lemma_rows(y: int, row: int, rows: int)
    requires
        0 <= y < rows,
        0 <= row,
    ensures
        0 <= y * row,
        (y + 1) * row <= rows * row,
        y * row + row == (y + 1) * row,
{
    assert((y + 1) * row <= rows * row) by (nonlinear_arith)
        requires
            y + 1 <= rows,
            0 <= row,
    ;
    assert(0 <= y * row) by (nonlinear_arith)
        requires
            0 <= y,
            0 <= row,
    ;
    assert(y * row + row == (y + 1) * row) by (nonlinear_arith);
}

/// Encode `width * height` RGB triples, row major, as a PNG file.
pub fn rgb(width: usize, height: usize, pixels: &[u8]) -> (r: Vec<u8>)
    requires
        pixels@.len() == width * height * 3,
        1 + width * 3 <= usize::MAX,
        height * (1 + width * 3) <= usize::MAX,
    ensures
        r@ == png_of(width, height, pixels@),
{
    let row = width * 3;
    let n = pixels.len();
    proof {
        assert(width * height * 3 == height * row) by (nonlinear_arith)
            requires
                row == width * 3,
        ;
    }
    let mut raw: Vec<u8> = Vec::new();
    let mut y: usize = 0;
    while y < height
        invariant
            y <= height,
            row == 3 * width,
            pixels@.len() == height * row,
            n == pixels@.len(),
            raw@ == scanlines(pixels@, row as int, y as int),
        decreases height - y,
    {
        proof {
            lemma_rows(y as int, row as int, height as int);
        }
        raw.push(0);
        append_bytes(&mut raw, &pixels[y * row..(y + 1) * row]);
        y += 1;
        proof {
            assert(scanlines(pixels@, row as int, y as int) =~= scanlines(
                pixels@,
                row as int,
                (y - 1) as int,
            ) + seq![0u8] + pixels@.subrange((y - 1) * row, y * row));
        }
    }
    let mut out: Vec<u8> = Vec::new();
    let sig: [u8; 8] = [0x89, 0x50, 0x4e, 0x47, 0x0d, 0x0a, 0x1a, 0x0a];
    append_bytes(&mut out, &sig);
    let mut ihdr: Vec<u8> = Vec::new();
    append_bytes(&mut ihdr, &be32_bytes(#[verifier::truncate] (width as u32)));
    append_bytes(&mut ihdr, &be32_bytes(#[verifier::truncate] (height as u32)));
    let tail: [u8; 5] = [8, 2, 0, 0, 0];
    append_bytes(&mut ihdr, &tail);
    chunk(&mut out, &[0x49, 0x48, 0x44, 0x52], ihdr.as_slice());
    let z = zlib_stored(raw.as_slice());
    chunk(&mut out, &[0x49, 0x44, 0x41, 0x54], z.as_slice());
    let empty: [u8; 0] = [];
    chunk(&mut out, &[0x49, 0x45, 0x4e, 0x44], &empty);
    proof {
        assert(sig@ =~= signature());
        assert(tail@ =~= seq![8u8, 2, 0, 0, 0]);
        assert(empty@ =~= Seq::<u8>::empty());
        let k1: [u8; 4] = [0x49, 0x48, 0x44, 0x52];
        assert(k1@ =~= ihdr_kind());
        let k2: [u8; 4] = [0x49, 0x44, 0x41, 0x54];
        assert(k2@ =~= idat_kind());
        let k3: [u8; 4] = [0x49, 0x45, 0x4e, 0x44];
        assert(k3@ =~= iend_kind());
        assert(width * 3 == 3 * width);
    }
    out
}

fn chunk(out: &mut Vec<u8>, kind: &[u8; 4], body: &[u8])
    ensures
        final(out)@ == old(out)@ + chunk_of(kind@, body@),
{
    append_bytes(out, &be32_bytes(body.len() as u32));
    append_bytes(out, kind);
    append_bytes(out, body);
    let mut crc = Crc::new();
    crc.update(kind);
    crc.update(body);
    proof {
        lemma_crc_concat(0xffff_ffffu32, kind@, body@);
    }
    append_bytes(out, &be32_bytes(crc.finish()));
    assert(final(out)@ =~= old(out)@ + chunk_of(kind@, body@)) by {
        assert(old(out)@ + be32(body@.len() as u32) + kind@ + body@ + be32(crc32(kind@ + body@))
            =~= old(out)@ + chunk_of(kind@, body@));
    }
}

proof fn lemma_crc_concat(state: u32, a: Seq<u8>, b: Seq<u8>)
    ensures
        crc_fold(state, a + b) == crc_fold(crc_fold(state, a), b),
    decreases b.len(),
{
    if b.len() == 0 {
        assert(a + b =~= a);
    } else {
        lemma_crc_concat(state, a, b.drop_last());
        assert((a + b).drop_last() =~= a + b.drop_last());
    }
}

fn zlib_stored(data: &[u8]) -> (r: Vec<u8>)
    ensures
        r@ == zlib_of(data@),
{
    let mut out: Vec<u8> = Vec::new();
    out.push(0x78);
    out.push(0x01);
    let mut at: usize = 0;
    assert(data@.skip(0) =~= data@);
    assert(out@ =~= seq![0x78u8, 0x01]);
    loop
        invariant_except_break
            at <= data@.len(),
            out@ + stored_blocks(data@.skip(at as int)) == seq![0x78u8, 0x01] + stored_blocks(
                data@,
            ),
        ensures
            out@ == seq![0x78u8, 0x01] + stored_blocks(data@),
        decreases data@.len() - at,
    {
        let left = data.len() - at;
        let ghost rest = data@.skip(at as int);
        if left <= 65535 {
            out.push(1);
            append_bytes(&mut out, &le16_bytes(left as u16));
            append_bytes(&mut out, &le16_bytes((65535 - left) as u16));
            append_bytes(&mut out, &data[at..data.len()]);
            proof {
                assert(data@.subrange(at as int, data@.len() as int) =~= rest);
                assert(stored_blocks(rest) =~= seq![1u8] + le16(rest.len() as u16) + le16(
                    (65535 - rest.len()) as u16,
                ) + rest);
            }
            break;
        }
        out.push(0);
        append_bytes(&mut out, &le16_bytes(65535));
        append_bytes(&mut out, &le16_bytes(0));
        append_bytes(&mut out, &data[at..at + 65535]);
        proof {
            assert(data@.subrange(at as int, at + 65535) =~= rest.take(65535));
            assert(rest.skip(65535) =~= data@.skip(at + 65535));
            assert(stored_blocks(rest) =~= seq![0u8] + le16(65535) + le16(0) + rest.take(65535)
                + stored_blocks(rest.skip(65535)));
        }
        at = at + 65535;
    }
    append_bytes(&mut out, &be32_bytes(adler32_of(data)));
    out
}

fn adler32_of(data: &[u8]) -> (r: u32)
    ensures
        r == adler32(data@),
{
    let mut a: u32 = 1;
    let mut b: u32 = 0;
    let mut i: usize = 0;
    while i < data.len()
        invariant
            i <= data@.len(),
            (a, b) == adler_sums(data@.take(i as int)),
            a < 65_521,
            b < 65_521,
        decreases data@.len() - i,
    {
        proof {
            assert(data@.take(i + 1).drop_last() =~= data@.take(i as int));
        }
        a = (a + data[i] as u32) % 65_521;
        b = (b + a) % 65_521;
        i += 1;
    }
    assert(data@.take(i as int) =~= data@);
    b * 65536 + a
}

struct Crc(u32);

impl Crc {
    fn new() -> (r: Crc)
        ensures
            r.0 == 0xffff_ffffu32,
    {
        Crc(0xffff_ffff)
    }

    fn update(&mut self, data: &[u8])
        ensures
            final(self).0 == crc_fold(old(self).0, data@),
    {
        let ghost start = self.0;
        let mut i: usize = 0;
        while i < data.len()
            invariant
                i <= data@.len(),
                self.0 == crc_fold(start, data@.take(i as int)),
            decreases data@.len() - i,
        {
            let byte = data[i];
            let mut c: u32 = (self.0 ^ byte as u32) & 0xff;
            let mut k: u32 = 0;
            while k < 8
                invariant
                    k <= 8,
                    c == crc_rounds((self.0 ^ (byte as u32)) & 0xffu32, k as nat),
                decreases 8 - k,
            {
                c = if c & 1 != 0 { 0xedb8_8320 ^ (c >> 1) } else { c >> 1 };
                k += 1;
            }
            proof {
                assert(data@.take(i + 1).drop_last() =~= data@.take(i as int));
            }
            self.0 = c ^ (self.0 >> 8);
            i += 1;
        }
        assert(data@.take(i as int) =~= data@);
    }

    fn finish(self) -> (r: u32)
        ensures
            r == self.0 ^ 0xffff_ffffu32,
    {
        self.0 ^ 0xffff_ffff
    }
}

} // verus!
