//! `.SMK` - Smacker, RAD Game Tools, and the game's 32 cutscenes.
//!
//! `SMACKW32.DLL` ships beside them, so the engine never decodes one itself and
//! there is nothing in `HELLBEND.EXE` to read. What is written here was worked
//! out from the 32 files under `system/Story/` and holds for all of them: the
//! header's arithmetic, the four Huffman trees, and the block stream.
//!
//! Every shipped file is `SMK2`, 320 by 240, one audio track, and no flags.

use vstd::prelude::*;
use vstd::arithmetic::power2::pow2;
use crate::bytes::{le_u32, u32_at};
use crate::formats::{Error, Result};

verus! {

/// The only signature in the shipped files. `SMK4` exists in the wild and has
/// a third block mode; nothing here reads one.
pub const SIGNATURE: [u8; 4] = [0x53, 0x4d, 0x4b, 0x32];

/// Bytes before the frame table.
pub const HEADER: usize = 104;

/// A six-bit palette channel spread over eight: the six bits, then their top
/// two again below them.
pub open spec fn channel_of(six: u8) -> u8 {
    let v = six % 64;
    (v * 4 + v / 16) as u8
}

/// The palette is six bits a channel, spread over eight: `(v << 2) | (v >> 4)`.
pub fn channel(six: u8) -> (r: u8)
    ensures
        r == channel_of(six),
{
    let v = six & 0x3f;
    let r = (v << 2) | (v >> 4);
    assert(v == six % 64 && r == ((six % 64) * 4 + (six % 64) / 16) as u8) by (bit_vector)
        requires v == six & 0x3f, r == (v << 2) | (v >> 4);
    r
}

/// How many 4x4 blocks a run of the given code covers. The first sixty are
/// themselves; the last five are the powers of two (`0x40` on in the type
/// code's run field).
pub const RUNS: [usize; 64] = [
    1, 2, 3, 4, 5, 6, 7, 8, 9, 10, 11, 12, 13, 14, 15, 16, 17, 18, 19, 20, 21, 22, 23, 24, 25, 26,
    27, 28, 29, 30, 31, 32, 33, 34, 35, 36, 37, 38, 39, 40, 41, 42, 43, 44, 45, 46, 47, 48, 49, 50,
    51, 52, 53, 54, 55, 56, 57, 58, 59, 128, 256, 512, 1024, 2048,
];

/// The four block kinds, the low two bits of a type code.
pub const MONO: u32 = 0;
pub const FULL: u32 = 1;
pub const SKIP: u32 = 2;
pub const FILL: u32 = 3;

/// A movie's header, and where everything in it starts.
#[derive(Debug, Clone)]
pub struct Movie {
    pub width: usize,
    pub height: usize,
    /// Frame count, not counting the ring frame the flags may ask for.
    pub frames: usize,
    /// As stored. Positive is milliseconds a frame, negative is hundredths of
    /// a millisecond, zero means ten a second.
    pub rate: i32,
    /// Bit 0 a ring frame, bit 1 y-interlaced, bit 2 y-doubled. Zero in every
    /// shipped file.
    pub flags: u32,
    /// The largest unpacked size of each of the seven audio tracks.
    pub audio_size: [u32; 7],
    /// Each track's rate word: bit 31 compressed, bit 30 sixteen-bit, bit 29
    /// stereo, and the sample rate in the low 24.
    pub audio_rate: [u32; 7],
    /// The packed Huffman trees, all four of them.
    pub trees: Vec<u8>,
    /// What each tree unpacks to, in entries: map, colour, full, type.
    pub tree_sizes: [usize; 4],
    /// Each frame's byte length, with the two flag bits masked off.
    pub sizes: Vec<usize>,
    /// Bit 0 says the frame carries a palette; bits 1 to 7 say which audio
    /// tracks it carries.
    pub kinds: Vec<u8>,
    /// Where the first frame starts.
    pub first: usize,
}

/// The header's word at `at`.
pub open spec fn word(data: Seq<u8>, at: int) -> u32 {
    le_u32(data, at)
}

/// Bytes the frame table and the trees take after the header.
pub open spec fn after_header(data: Seq<u8>) -> int {
    5 * word(data, 12) + word(data, 52)
}

/// Why a buffer is not a movie this reads.
pub enum SmkFault {
    /// Shorter than the fixed header.
    ShortHeader,
    /// The first four bytes are not [`SIGNATURE`].
    Signature,
    /// The frame table and the trees run past the end.
    ShortTables,
}

pub open spec fn smk_fault(data: Seq<u8>) -> Option<SmkFault> {
    if data.len() < HEADER {
        Some(SmkFault::ShortHeader)
    } else if data.subrange(0, 4) != SIGNATURE@ {
        Some(SmkFault::Signature)
    } else if data.len() < HEADER + after_header(data) {
        Some(SmkFault::ShortTables)
    } else {
        None
    }
}

/// The error a refused movie gives for each fault.
pub open spec fn smk_refused(e: Error, f: SmkFault, data: Seq<u8>) -> bool {
    match f {
        SmkFault::ShortHeader => e matches Error::Truncated { what, at, need, have }
            && at == 0 && need == HEADER && have == data.len(),
        SmkFault::Signature => e matches Error::BadTag { what, tag, at }
            && tag == word(data, 0) && at == 0,
        SmkFault::ShortTables => e matches Error::Truncated { what, at, need, have }
            && at == HEADER && need == after_header(data) && have == data.len() - HEADER,
    }
}

/// Whether a header's sums fit the machine's word: always on a 64-bit one.
pub open spec fn header_fits(data: Seq<u8>) -> bool {
    data.len() >= HEADER ==> HEADER + after_header(data) <= usize::MAX
}

/// What a header that reads says, field by field.
pub open spec fn movie_matches(m: Movie, data: Seq<u8>) -> bool {
    let frames = word(data, 12) as int;
    let trees = word(data, 52) as int;
    let table = HEADER + 4 * frames;
    &&& m.width == word(data, 4)
    &&& m.height == word(data, 8)
    &&& m.frames == frames
    &&& m.rate == word(data, 16) as i32
    &&& m.flags == word(data, 20)
    &&& m.audio_size@ == Seq::new(7, |i: int| word(data, 24 + 4 * i))
    &&& m.audio_rate@ == Seq::new(7, |i: int| word(data, 72 + 4 * i))
    &&& m.tree_sizes@ == Seq::new(4, |i: int| word(data, 56 + 4 * i) as usize)
    &&& m.sizes@ == Seq::new(frames as nat, |i: int| (word(data, HEADER + 4 * i) & 0xffff_fffc) as usize)
    &&& m.kinds@ == data.subrange(table, table + frames)
    &&& m.trees@ == data.subrange(table + frames, table + frames + trees)
    &&& m.first == table + frames + trees
}

/// Where frame `k` starts: after the header, the tables, the trees and the
/// frames before it.
pub open spec fn frame_start(first: int, sizes: Seq<usize>, k: int) -> int
    decreases k,
{
    if k <= 0 { first } else { frame_start(first, sizes, k - 1) + sizes[k - 1] }
}

pub proof fn lemma_frame_start_grows(first: int, sizes: Seq<usize>, i: int, k: int)
    requires
        0 <= i <= k,
    ensures
        frame_start(first, sizes, i) <= frame_start(first, sizes, k),
    decreases k - i,
{
    if i < k {
        lemma_frame_start_grows(first, sizes, i, k - 1);
    }
}

impl Movie {
    /// Whether a frame carries a palette.
    pub fn has_palette(&self, frame: usize) -> (r: bool)
        ensures
            r == (frame < self.kinds@.len() && self.kinds@[frame as int] & 1 != 0),
    {
        frame < self.kinds.len() && self.kinds[frame] & 1 != 0
    }

    /// The frames' bytes, in order, as offsets into the file.
    pub fn frame_at(&self, frame: usize) -> (r: Option<(usize, usize)>)
        requires
            frame_start(self.first as int, self.sizes@, if frame < self.sizes@.len() { frame as int } else { self.sizes@.len() as int }) <= usize::MAX,
        ensures
            r == if frame < self.sizes@.len() {
                Some((frame_start(self.first as int, self.sizes@, frame as int) as usize, self.sizes@[frame as int]))
            } else {
                None::<(usize, usize)>
            },
    {
        let ghost last: int = if frame < self.sizes@.len() { frame as int } else { self.sizes@.len() as int };
        let mut at = self.first;
        let mut i: usize = 0;
        while i < self.sizes.len()
            invariant
                i <= self.sizes@.len(),
                i <= last,
                last <= self.sizes@.len(),
                last == (if frame < self.sizes@.len() { frame as int } else { self.sizes@.len() as int }),
                frame_start(self.first as int, self.sizes@, last) <= usize::MAX,
                at == frame_start(self.first as int, self.sizes@, i as int),
            decreases self.sizes@.len() - i,
        {
            if i == frame {
                return Some((at, self.sizes[i]));
            }
            proof {
                lemma_frame_start_grows(self.first as int, self.sizes@, i + 1, last);
            }
            at = at + self.sizes[i];
            i += 1;
        }
        None
    }

    /// Read a header, its frame table and its trees.
    pub fn parse(data: &[u8]) -> (r: Result<Movie>)
        requires
            header_fits(data@),
        ensures
            match smk_fault(data@) {
                None => r matches Ok(m) && movie_matches(m, data@),
                Some(f) => r matches Err(e) && smk_refused(e, f, data@),
            },
    {
        let len = data.len();
        if len < HEADER {
            return Err(Error::Truncated { what: "SMK", at: 0, need: HEADER, have: len });
        }
        if !(data[0] == SIGNATURE[0] && data[1] == SIGNATURE[1] && data[2] == SIGNATURE[2] && data[3] == SIGNATURE[3]) {
            proof {
                assert(data@.subrange(0, 4) != SIGNATURE@);
            }
            return Err(Error::BadTag { what: "SMK signature", tag: u32_at(data, 0), at: 0 });
        }
        proof {
            assert(data@.subrange(0, 4) =~= SIGNATURE@);
        }
        let frames = u32_at(data, 12) as usize;
        let trees_size = u32_at(data, 52) as usize;
        let table = 4 * frames + frames;
        if len - HEADER < table + trees_size {
            return Err(Error::Truncated { what: "SMK", at: HEADER, need: table + trees_size, have: len - HEADER });
        }
        let mut sizes: Vec<usize> = Vec::new();
        let mut i: usize = 0;
        while i < frames
            invariant
                len == data@.len(),
                HEADER + 5 * frames + trees_size <= len,
                frames == word(data@, 12),
                i <= frames,
                sizes@ == Seq::new(i as nat, |j: int| (word(data@, HEADER + 4 * j) & 0xffff_fffc) as usize),
            decreases frames - i,
        {
            let w = u32_at(data, HEADER + i * 4);
            sizes.push((w & 0xffff_fffc) as usize);
            i += 1;
        }
        let kinds = vstd::slice::slice_to_vec(&data[HEADER + 4 * frames..HEADER + table]);
        let trees = vstd::slice::slice_to_vec(&data[HEADER + table..HEADER + table + trees_size]);
        let audio_size: [u32; 7] = [
            u32_at(data, 24), u32_at(data, 28), u32_at(data, 32), u32_at(data, 36),
            u32_at(data, 40), u32_at(data, 44), u32_at(data, 48),
        ];
        let audio_rate: [u32; 7] = [
            u32_at(data, 72), u32_at(data, 76), u32_at(data, 80), u32_at(data, 84),
            u32_at(data, 88), u32_at(data, 92), u32_at(data, 96),
        ];
        let tree_sizes: [usize; 4] = [
            u32_at(data, 56) as usize, u32_at(data, 60) as usize, u32_at(data, 64) as usize, u32_at(data, 68) as usize,
        ];
        let m = Movie {
            width: u32_at(data, 4) as usize,
            height: u32_at(data, 8) as usize,
            frames,
            rate: u32_at(data, 16) as i32,
            flags: u32_at(data, 20),
            audio_size,
            audio_rate,
            trees,
            tree_sizes,
            sizes,
            kinds,
            first: HEADER + table + trees_size,
        };
        proof {
            assert(m.audio_size@ =~= Seq::new(7, |i: int| word(data@, 24 + 4 * i)));
            assert(m.audio_rate@ =~= Seq::new(7, |i: int| word(data@, 72 + 4 * i)));
            assert(m.tree_sizes@ =~= Seq::new(4, |i: int| word(data@, 56 + 4 * i) as usize));
        }
        Ok(m)
    }
}

// ---------------------------------------------------------------------------
// Bits.

/// Bit `pos` of a buffer, least significant first within each byte; every
/// bit past the end reads as clear.
pub open spec fn bit(data: Seq<u8>, pos: int) -> bool {
    0 <= pos && pos / 8 < data.len() && (data[pos / 8] >> ((pos % 8) as u8)) & 1u8 != 0
}

/// A position moved on by `n` bits; it stops at the largest one the machine
/// holds.
pub open spec fn advance(pos: nat, n: nat) -> nat {
    if pos + n <= usize::MAX { pos + n } else { usize::MAX as nat }
}

/// The value of `n` bits from `pos` on, the first the least significant.
pub open spec fn bits_value(data: Seq<u8>, pos: nat, n: nat) -> nat
    decreases n,
{
    if n == 0 {
        0
    } else {
        bits_value(data, pos, (n - 1) as nat) + if bit(data, advance(pos, (n - 1) as nat) as int) { pow2((n - 1) as nat) } else { 0 }
    }
}

pub proof fn lemma_bits_value_bound(data: Seq<u8>, pos: nat, n: nat)
    ensures
        bits_value(data, pos, n) < pow2(n),
    decreases n,
{
    vstd::arithmetic::power2::lemma_pow2_pos(n);
    if n > 0 {
        lemma_bits_value_bound(data, pos, (n - 1) as nat);
        vstd::arithmetic::power2::lemma_pow2_adds((n - 1) as nat, 1);
        vstd::arithmetic::power2::lemma2_to64();
    }
}

/// The bit order Smacker packs in: least significant first, within each byte
/// in turn.
pub struct Bits<'a> {
    data: &'a [u8],
    at: usize,
}

pub struct BitsView {
    pub data: Seq<u8>,
    pub pos: nat,
}

impl<'a> View for Bits<'a> {
    type V = BitsView;

    closed spec fn view(&self) -> BitsView {
        BitsView { data: self.data@, pos: self.at as nat }
    }
}

impl<'a> Bits<'a> {
    pub fn new(data: &'a [u8]) -> (r: Bits<'a>)
        ensures
            r@.data == data@,
            r@.pos == 0,
    {
        Bits { data, at: 0 }
    }

    /// The next bit.
    pub fn read(&mut self) -> (r: bool)
        ensures
            r == bit(old(self)@.data, old(self)@.pos as int),
            final(self)@.data == old(self)@.data,
            final(self)@.pos == advance(old(self)@.pos, 1),
    {
        let index = self.at / 8;
        let byte: u8 = if index < self.data.len() { self.data[index] } else { 0 };
        let shift = (self.at % 8) as u8;
        let set = (byte >> shift) & 1 != 0;
        proof {
            let pos = old(self)@.pos as int;
            assert(pos / 8 == index as int && pos % 8 == (self.at % 8) as int);
            if index < self.data@.len() {
                assert(set == bit(old(self)@.data, pos));
            } else {
                assert(!bit(old(self)@.data, pos));
                assert((0u8 >> shift) & 1 == 0) by (bit_vector);
            }
        }
        self.at = self.at.saturating_add(1);
        set
    }

    /// The next `count` bits as a number, the first the least significant.
    pub fn take(&mut self, count: u32) -> (r: u32)
        requires
            count <= 32,
        ensures
            r == bits_value(old(self)@.data, old(self)@.pos, count as nat),
            final(self)@.data == old(self)@.data,
            final(self)@.pos == advance(old(self)@.pos, count as nat),
    {
        let ghost start = self@.pos;
        let mut out: u32 = 0;
        let mut i: u32 = 0;
        while i < count
            invariant
                count <= 32,
                i <= count,
                self@.data == old(self)@.data,
                start == old(self)@.pos,
                self@.pos == advance(start, i as nat),
                out == bits_value(self@.data, start, i as nat),
            decreases count - i,
        {
            let b = self.read();
            proof {
                lemma_bits_value_bound(self@.data, start, i as nat);
                vstd::bits::lemma_u32_pow2_no_overflow(i as nat);
                vstd::bits::lemma_u32_shl_is_mul(1, i);
                let o = out;
                assert(o < (1u32 << i) ==> (o | (1u32 << i)) == o + (1u32 << i)) by (bit_vector)
                    requires i < 32;
                vstd::arithmetic::power2::lemma_pow2_adds(i as nat, 1);
                vstd::arithmetic::power2::lemma2_to64();
            }
            if b {
                out = out | (1u32 << i);
            }
            i += 1;
        }
        out
    }

    /// How many bits have been read.
    pub fn position(&self) -> (r: usize)
        ensures
            r == self@.pos,
    {
        self.at
    }

    /// Whether reading has gone past the last bit.
    pub fn past_end(&self) -> (r: bool)
        ensures
            r == (self@.pos > self@.data.len() * 8),
    {
        self.at / 8 >= self.data.len() && (self.at / 8 > self.data.len() || self.at % 8 > 0)
    }
}

// ---------------------------------------------------------------------------
// Huffman trees.

/// One tree node: either a value or the two children a bit chooses between.
#[derive(Debug, Clone, Copy)]
pub enum Node {
    Leaf(u32),
    Branch(usize, usize),
}

/// Whether every branch's children come before it, and the root is a node:
/// what makes a walk from the root end.
pub open spec fn nodes_ordered(nodes: Seq<Node>, root: Option<usize>) -> bool {
    &&& (root matches Some(r) ==> r < nodes.len())
    &&& forall|i: int| 0 <= i < nodes.len() ==> ((#[trigger] nodes[i]) matches Node::Branch(l, r) ==> l < i && r < i)
}

/// The leaf a walk from node `at` reaches, reading a bit at each branch (set
/// goes right), and where the reading has got to.
pub open spec fn walk(nodes: Seq<Node>, at: int, data: Seq<u8>, pos: nat) -> (int, nat)
    decreases at,
{
    if !(0 <= at < nodes.len()) {
        (at, pos)
    } else {
        match nodes[at] {
            Node::Leaf(v) => (at, pos),
            Node::Branch(l, r) => {
                let next = if bit(data, pos as int) { r } else { l };
                if next < at { walk(nodes, next as int, data, advance(pos, 1)) } else { (at, pos) }
            },
        }
    }
}

/// A leaf's value.
pub open spec fn leaf_value(n: Node) -> u32 {
    match n {
        Node::Leaf(v) => v,
        Node::Branch(..) => 0,
    }
}

/// Walk a tree's nodes from `from` to a leaf: its value and where it is.
fn walk_nodes(nodes: &Vec<Node>, from: usize, bits: &mut Bits) -> (r: (u32, usize))
    requires
        nodes_ordered(nodes@, Some(from)),
    ensures
        r.1 == walk(nodes@, from as int, old(bits)@.data, old(bits)@.pos).0,
        final(bits)@.pos == walk(nodes@, from as int, old(bits)@.data, old(bits)@.pos).1,
        final(bits)@.data == old(bits)@.data,
        r.1 < nodes@.len(),
        nodes@[r.1 as int] matches Node::Leaf(v) && v == r.0,
{
    let ghost start = from as int;
    let mut at = from;
    loop
        invariant
            nodes_ordered(nodes@, Some(at)),
            start == from as int,
            bits@.data == old(bits)@.data,
            walk(nodes@, at as int, bits@.data, bits@.pos) == walk(nodes@, start, old(bits)@.data, old(bits)@.pos),
        decreases at,
    {
        match nodes[at] {
            Node::Leaf(v) => {
                return (v, at);
            },
            Node::Branch(l, r) => {
                let ghost i = at as int;
                assert(nodes@[i] matches Node::Branch(l2, r2) && l2 < i && r2 < i);
                at = if bits.read() { r } else { l };
            },
        }
    }
}

/// The nodes a byte tree's bits from `pos` write, numbered from `base`, and
/// where the bits end: a clear bit is a leaf and the eight bits of its value,
/// a set bit a branch and then its two children, each in turn. A tree deeper
/// than 32, or one that runs out of bits, ends in a leaf of zero.
pub open spec fn byte_nodes(data: Seq<u8>, pos: nat, depth: nat, base: nat) -> (Seq<Node>, nat)
    decreases 33 - depth,
{
    if depth > 32 || pos > data.len() * 8 {
        (seq![Node::Leaf(0)], pos)
    } else if !bit(data, pos as int) {
        (seq![Node::Leaf(bits_value(data, advance(pos, 1), 8) as u32)], advance(advance(pos, 1), 8))
    } else {
        let (l, p1) = byte_nodes(data, advance(pos, 1), depth + 1, base);
        let (r, p2) = byte_nodes(data, p1, depth + 1, base + l.len());
        (l + r + seq![Node::Branch((base + l.len() - 1) as usize, (base + l.len() + r.len() - 1) as usize)], p2)
    }
}

/// Whether the nodes from `base` on point only at nodes after `base` and
/// before themselves, and every leaf holds a byte.
pub open spec fn nodes_from(nodes: Seq<Node>, base: int) -> bool {
    forall|i: int| 0 <= i < nodes.len() ==> match #[trigger] nodes[i] {
        Node::Branch(l, r) => base <= l < base + i && base <= r < base + i,
        Node::Leaf(v) => v < 256,
    }
}

proof fn lemma_byte_nodes(data: Seq<u8>, pos: nat, depth: nat, base: nat)
    requires
        base + byte_nodes(data, pos, depth, base).0.len() <= usize::MAX + 1,
    ensures
        byte_nodes(data, pos, depth, base).0.len() >= 1,
        nodes_from(byte_nodes(data, pos, depth, base).0, base as int),
    decreases 33 - depth,
{
    if depth > 32 || pos > data.len() * 8 {
    } else if !bit(data, pos as int) {
        lemma_bits_value_bound(data, advance(pos, 1), 8);
        vstd::arithmetic::power2::lemma2_to64();
    } else {
        let (l, p1) = byte_nodes(data, advance(pos, 1), depth + 1, base);
        let (r, p2) = byte_nodes(data, p1, depth + 1, base + l.len());
        lemma_byte_nodes(data, advance(pos, 1), depth + 1, base);
        lemma_byte_nodes(data, p1, depth + 1, base + l.len());
        let all = byte_nodes(data, pos, depth, base).0;
        assert forall|i: int| 0 <= i < all.len() implies match #[trigger] all[i] {
            Node::Branch(x, y) => base <= x < base + i && base <= y < base + i,
            Node::Leaf(v) => v < 256,
        } by {
            if i < l.len() {
                assert(all[i] == l[i]);
            } else if i < l.len() + r.len() {
                assert(all[i] == r[i - l.len()]);
            }
        }
    }
}

/// A byte tree. Each is written as a bit per node - 0 a leaf and its eight
/// bits, 1 a branch and then its two children - and is followed by one bit
/// this reader skips.
#[derive(Debug, Clone)]
pub struct ByteTree {
    nodes: Vec<Node>,
    root: Option<usize>,
}

pub struct ByteTreeView {
    pub nodes: Seq<Node>,
    pub root: Option<usize>,
}

impl View for ByteTree {
    type V = ByteTreeView;

    closed spec fn view(&self) -> ByteTreeView {
        ByteTreeView { nodes: self.nodes@, root: self.root }
    }
}

/// The byte tree the bits from `pos` hold, and where they end: nothing at all
/// where the first bit is clear.
pub open spec fn byte_tree_at(data: Seq<u8>, pos: nat) -> (ByteTreeView, nat) {
    if !bit(data, pos as int) {
        (ByteTreeView { nodes: Seq::empty(), root: None }, advance(pos, 1))
    } else {
        let (nodes, end) = byte_nodes(data, advance(pos, 1), 0, 0);
        (ByteTreeView { nodes, root: Some((nodes.len() - 1) as usize) }, advance(end, 1))
    }
}

/// Whether a byte tree is one a reading can give: its walks end, and its
/// leaves are bytes.
pub open spec fn byte_tree_ok(t: ByteTreeView) -> bool {
    nodes_ordered(t.nodes, t.root) && nodes_from(t.nodes, 0)
}

/// What decoding a value from a byte tree gives and where the bits end: zero
/// and nothing read where the tree is empty.
pub open spec fn byte_decode(t: ByteTreeView, data: Seq<u8>, pos: nat) -> (u32, nat) {
    match t.root {
        None => (0, pos),
        Some(r) => {
            let (leaf, end) = walk(t.nodes, r as int, data, pos);
            (leaf_value(t.nodes[leaf]), end)
        },
    }
}

impl ByteTree {
    /// Reads one, or nothing at all when the flag bit that precedes it is
    /// clear, which is how a file says a tree is not there.
    pub fn parse(bits: &mut Bits) -> (r: ByteTree)
        ensures
            (r@, final(bits)@.pos) == byte_tree_at(old(bits)@.data, old(bits)@.pos),
            final(bits)@.data == old(bits)@.data,
            byte_tree_ok(r@),
    {
        if !bits.read() {
            return ByteTree { nodes: Vec::new(), root: None };
        }
        let mut tree = ByteTree { nodes: Vec::new(), root: None };
        let top = tree.node(bits, 0);
        proof {
            lemma_byte_nodes(old(bits)@.data, advance(old(bits)@.pos, 1), 0, 0);
        }
        tree.root = Some(top);
        bits.read();
        tree
    }

    fn node(&mut self, bits: &mut Bits, depth: u32) -> (r: usize)
        requires
            depth <= 33,
        ensures
            final(self).nodes@ == old(self).nodes@ + byte_nodes(old(bits)@.data, old(bits)@.pos, depth as nat, old(self).nodes@.len()).0,
            final(bits)@.pos == byte_nodes(old(bits)@.data, old(bits)@.pos, depth as nat, old(self).nodes@.len()).1,
            final(bits)@.data == old(bits)@.data,
            final(self).root == old(self).root,
            r + 1 == final(self).nodes@.len(),
        decreases 33 - depth,
    {
        // The shipped trees are at most eight deep for a byte alphabet; the
        // limit is only here so a corrupt file cannot recurse forever.
        if depth > 32 || bits.past_end() {
            self.nodes.push(Node::Leaf(0));
            return self.nodes.len() - 1;
        }
        if !bits.read() {
            let value = bits.take(8);
            self.nodes.push(Node::Leaf(value));
            return self.nodes.len() - 1;
        }
        let ghost base = self.nodes@.len();
        let ghost p0 = bits@.pos;
        let left = self.node(bits, depth + 1);
        let ghost mid = self.nodes@.len();
        let right = self.node(bits, depth + 1);
        proof {
            let (l, p1) = byte_nodes(old(bits)@.data, p0, depth as nat + 1, base);
            let (r, p2) = byte_nodes(old(bits)@.data, p1, depth as nat + 1, base + l.len());
            assert(left == base + l.len() - 1);
            assert(right == base + l.len() + r.len() - 1);
        }
        self.nodes.push(Node::Branch(left, right));
        proof {
            assert(self.nodes@ =~= old(self).nodes@ + byte_nodes(old(bits)@.data, old(bits)@.pos, depth as nat, old(self).nodes@.len()).0);
        }
        self.nodes.len() - 1
    }

    pub fn is_empty(&self) -> (r: bool)
        ensures
            r == (self@.root is None),
    {
        self.root.is_none()
    }

    /// The value the next bits lead to, or zero from an empty tree.
    pub fn decode(&self, bits: &mut Bits) -> (r: u32)
        requires
            byte_tree_ok(self@),
        ensures
            (r, final(bits)@.pos) == byte_decode(self@, old(bits)@.data, old(bits)@.pos),
            final(bits)@.data == old(bits)@.data,
            r < 256,
    {
        match self.root {
            None => 0,
            Some(at) => {
                let (v, leaf) = walk_nodes(&self.nodes, at, bits);
                proof {
                    assert(self.nodes@[leaf as int] matches Node::Leaf(x) && x < 256);
                }
                v
            },
        }
    }
}

/// Whether the nodes from `base` on point only at nodes after `base` and
/// before themselves.
pub open spec fn branches_from(nodes: Seq<Node>, base: int) -> bool {
    forall|i: int| 0 <= i < nodes.len() ==> ((#[trigger] nodes[i]) matches Node::Branch(l, r) ==> base <= l < base + i && base <= r < base + i)
}

/// The first of the three escapes that is `value`.
pub open spec fn escape_slot(escapes: Seq<u32>, value: u32) -> Option<int> {
    if escapes[0] == value {
        Some(0)
    } else if escapes[1] == value {
        Some(1)
    } else if escapes[2] == value {
        Some(2)
    } else {
        None
    }
}

/// The nodes a sixteen-bit tree's bits from `pos` write, numbered from
/// `base`, the escape slots as they stand after them, and where the bits end.
/// A leaf's value is a low byte and a high byte from the two byte trees; a
/// leaf whose value is an escape holds zero and takes that slot.
pub open spec fn tree_nodes(
    data: Seq<u8>,
    pos: nat,
    low: ByteTreeView,
    high: ByteTreeView,
    escapes: Seq<u32>,
    depth: nat,
    base: nat,
    escape: Seq<Option<usize>>,
) -> (Seq<Node>, Seq<Option<usize>>, nat)
    decreases 65 - depth,
{
    if depth > 64 || pos > data.len() * 8 {
        (seq![Node::Leaf(0)], escape, pos)
    } else if !bit(data, pos as int) {
        let (lo, p1) = byte_decode(low, data, advance(pos, 1));
        let (hi, p2) = byte_decode(high, data, p1);
        let value = (lo + hi * 256) as u32;
        match escape_slot(escapes, value) {
            Some(slot) => (seq![Node::Leaf(0)], escape.update(slot, Some(base as usize)), p2),
            None => (seq![Node::Leaf(value)], escape, p2),
        }
    } else {
        let (l, e1, p1) = tree_nodes(data, advance(pos, 1), low, high, escapes, depth + 1, base, escape);
        let (r, e2, p2) = tree_nodes(data, p1, low, high, escapes, depth + 1, base + l.len(), e1);
        (l + r + seq![Node::Branch((base + l.len() - 1) as usize, (base + l.len() + r.len() - 1) as usize)], e2, p2)
    }
}

proof fn lemma_tree_nodes(
    data: Seq<u8>,
    pos: nat,
    low: ByteTreeView,
    high: ByteTreeView,
    escapes: Seq<u32>,
    depth: nat,
    base: nat,
    escape: Seq<Option<usize>>,
)
    requires
        base + tree_nodes(data, pos, low, high, escapes, depth, base, escape).0.len() <= usize::MAX + 1,
        escape.len() == 3,
    ensures
        tree_nodes(data, pos, low, high, escapes, depth, base, escape).0.len() >= 1,
        tree_nodes(data, pos, low, high, escapes, depth, base, escape).1.len() == 3,
        branches_from(tree_nodes(data, pos, low, high, escapes, depth, base, escape).0, base as int),
    decreases 65 - depth,
{
    if depth > 64 || pos > data.len() * 8 {
    } else if !bit(data, pos as int) {
    } else {
        let (l, e1, p1) = tree_nodes(data, advance(pos, 1), low, high, escapes, depth + 1, base, escape);
        let (r, e2, p2) = tree_nodes(data, p1, low, high, escapes, depth + 1, base + l.len(), e1);
        lemma_tree_nodes(data, advance(pos, 1), low, high, escapes, depth + 1, base, escape);
        lemma_tree_nodes(data, p1, low, high, escapes, depth + 1, base + l.len(), e1);
        let all = tree_nodes(data, pos, low, high, escapes, depth, base, escape).0;
        assert forall|i: int| 0 <= i < all.len() implies ((#[trigger] all[i]) matches Node::Branch(x, y) ==> base <= x < base + i && base <= y < base + i) by {
            if i < l.len() {
                assert(all[i] == l[i]);
            } else if i < l.len() + r.len() {
                assert(all[i] == r[i - l.len()]);
            }
        }
    }
}

/// A sixteen-bit tree: two byte trees for the halves of a value, three escape
/// values, and then the tree itself over the pairs.
///
/// The escapes are the format's cache. A leaf whose value is one of the three
/// is not a value at all - it stands for the first, second or third most
/// recently decoded value, and every decode moves the list along.
#[derive(Debug, Clone)]
pub struct Tree {
    nodes: Vec<Node>,
    root: Option<usize>,
    /// Which leaf stands for each of the three cache slots.
    escape: [Option<usize>; 3],
    /// The three most recent values, most recent first.
    recent: [u32; 3],
}

pub struct TreeView {
    pub nodes: Seq<Node>,
    pub root: Option<usize>,
    pub escape: Seq<Option<usize>>,
    pub recent: Seq<u32>,
}

impl View for Tree {
    type V = TreeView;

    closed spec fn view(&self) -> TreeView {
        TreeView { nodes: self.nodes@, root: self.root, escape: self.escape@, recent: self.recent@ }
    }
}

/// An absent tree: no nodes, no escapes, and a cache of zeros.
pub open spec fn empty_tree() -> TreeView {
    TreeView { nodes: Seq::empty(), root: None, escape: seq![None, None, None], recent: seq![0u32, 0, 0] }
}

/// The tree the bits from `pos` hold, and where they end.
pub open spec fn tree_at(data: Seq<u8>, pos: nat) -> (TreeView, nat) {
    if !bit(data, pos as int) {
        (empty_tree(), advance(pos, 1))
    } else {
        let (low, p1) = byte_tree_at(data, advance(pos, 1));
        let (high, p2) = byte_tree_at(data, p1);
        let escapes = seq![
            bits_value(data, p2, 16) as u32,
            bits_value(data, advance(p2, 16), 16) as u32,
            bits_value(data, advance(p2, 32), 16) as u32,
        ];
        let (nodes, escape, end) = tree_nodes(data, advance(p2, 48), low, high, escapes, 0, 0, seq![None, None, None]);
        (TreeView { nodes, root: Some((nodes.len() - 1) as usize), escape, recent: seq![0u32, 0, 0] }, advance(end, 1))
    }
}

/// Whether a tree is one that decodes: its walks end, and it has its three
/// escape slots and three cached values.
pub open spec fn tree_ok(t: TreeView) -> bool {
    nodes_ordered(t.nodes, t.root) && t.escape.len() == 3 && t.recent.len() == 3
}

/// A tree with its cache of recent values emptied to zeros.
pub open spec fn fresh_cache(t: TreeView) -> TreeView {
    TreeView { recent: seq![0u32, 0, 0], ..t }
}

/// Trees with their caches emptied, as each frame's block stream starts them.
pub open spec fn fresh_caches(ts: Seq<TreeView>) -> Seq<TreeView> {
    ts.map_values(|t: TreeView| fresh_cache(t))
}

/// The first escape slot that stands for leaf `at`.
pub open spec fn slot_of(escape: Seq<Option<usize>>, at: int) -> Option<int> {
    if escape[0] == Some(at as usize) {
        Some(0)
    } else if escape[1] == Some(at as usize) {
        Some(1)
    } else if escape[2] == Some(at as usize) {
        Some(2)
    } else {
        None
    }
}

/// The cache after `value` is decoded: it goes to the front unless it is
/// there already.
pub open spec fn moved_along(recent: Seq<u32>, value: u32) -> Seq<u32> {
    if value != recent[0] { seq![value, recent[0], recent[1]] } else { recent }
}

/// What decoding a value from a tree gives, the cache after it, and where the
/// bits end: zero, with nothing read or moved, where the tree is empty.
pub open spec fn tree_decode(t: TreeView, data: Seq<u8>, pos: nat) -> (u32, Seq<u32>, nat) {
    match t.root {
        None => (0, t.recent, pos),
        Some(r) => {
            let (leaf, end) = walk(t.nodes, r as int, data, pos);
            let value = match slot_of(t.escape, leaf) {
                Some(slot) => t.recent[slot],
                None => leaf_value(t.nodes[leaf]),
            };
            (value, moved_along(t.recent, value), end)
        },
    }
}

/// How many leaves there are among some nodes.
pub open spec fn leaf_count(nodes: Seq<Node>) -> nat
    decreases nodes.len(),
{
    if nodes.len() == 0 {
        0
    } else {
        leaf_count(nodes.drop_last()) + if nodes.last() is Leaf { 1nat } else { 0 }
    }
}

impl Tree {
    fn empty() -> (r: Tree)
        ensures
            r@ == empty_tree(),
    {
        let r = Tree { nodes: Vec::new(), root: None, escape: [None, None, None], recent: [0, 0, 0] };
        proof {
            assert(r@.escape =~= seq![None, None, None]);
            assert(r@.recent =~= seq![0u32, 0, 0]);
        }
        r
    }

    /// Reads one. Like a byte tree it is preceded by a bit that says whether
    /// it is there at all, and followed by one this reader skips.
    /// Empty the cache of recent values to zeros, keeping the tree.
    pub fn reset(&mut self)
        ensures
            final(self)@ == fresh_cache(old(self)@),
    {
        self.recent = [0, 0, 0];
        assert(self@.recent =~= seq![0u32, 0, 0]);
    }

    pub fn parse(bits: &mut Bits) -> (r: Tree)
        ensures
            (r@, final(bits)@.pos) == tree_at(old(bits)@.data, old(bits)@.pos),
            final(bits)@.data == old(bits)@.data,
            tree_ok(r@),
    {
        if !bits.read() {
            return Tree::empty();
        }
        let low = ByteTree::parse(bits);
        let high = ByteTree::parse(bits);
        let e0 = bits.take(16);
        let e1 = bits.take(16);
        let e2 = bits.take(16);
        let escapes: [u32; 3] = [e0, e1, e2];
        let ghost data = bits@.data;
        let ghost p = bits@.pos;
        proof {
            assert(advance(advance(advance(old(bits)@.pos, 1), 0), 0) == advance(old(bits)@.pos, 1));
        }
        let mut tree = Tree::empty();
        let top = tree.node(bits, &low, &high, &escapes, 0);
        proof {
            assert(escapes@ =~= seq![e0, e1, e2]);
            lemma_tree_nodes(data, p, low@, high@, escapes@, 0, 0, seq![None, None, None]);
        }
        tree.root = Some(top);
        bits.read();
        proof {
            let (low_t, p1) = byte_tree_at(data, advance(old(bits)@.pos, 1));
            let (high_t, p2) = byte_tree_at(data, p1);
            assert(advance(advance(p2, 16), 16) == advance(p2, 32));
            assert(advance(advance(p2, 32), 16) == advance(p2, 48));
        }
        tree
    }

    fn node(&mut self, bits: &mut Bits, low: &ByteTree, high: &ByteTree, escapes: &[u32; 3], depth: u32) -> (r: usize)
        requires
            depth <= 65,
            byte_tree_ok(low@),
            byte_tree_ok(high@),
            old(self)@.escape.len() == 3,
        ensures
            ({
                let (nodes, escape, end) = tree_nodes(old(bits)@.data, old(bits)@.pos, low@, high@, escapes@, depth as nat, old(self)@.nodes.len(), old(self)@.escape);
                &&& final(self)@.nodes == old(self)@.nodes + nodes
                &&& final(self)@.escape == escape
                &&& final(bits)@.pos == end
            }),
            final(bits)@.data == old(bits)@.data,
            final(self)@.root == old(self)@.root,
            final(self)@.recent == old(self)@.recent,
            r + 1 == final(self)@.nodes.len(),
        decreases 65 - depth,
    {
        if depth > 64 || bits.past_end() {
            self.nodes.push(Node::Leaf(0));
            return self.nodes.len() - 1;
        }
        if !bits.read() {
            let lo = low.decode(bits);
            let hi = high.decode(bits);
            let value = lo | hi << 8;
            assert(value == lo + hi * 256) by (bit_vector)
                requires lo < 256, hi < 256, value == lo | hi << 8;
            let at = self.nodes.len();
            if value == escapes[0] {
                self.escape[0] = Some(at);
                self.nodes.push(Node::Leaf(0));
            } else if value == escapes[1] {
                self.escape[1] = Some(at);
                self.nodes.push(Node::Leaf(0));
            } else if value == escapes[2] {
                self.escape[2] = Some(at);
                self.nodes.push(Node::Leaf(0));
            } else {
                self.nodes.push(Node::Leaf(value));
            }
            proof {
                assert(self@.escape =~= tree_nodes(old(bits)@.data, old(bits)@.pos, low@, high@, escapes@, depth as nat, old(self)@.nodes.len(), old(self)@.escape).1);
            }
            return self.nodes.len() - 1;
        }
        let ghost base = self.nodes@.len();
        let ghost p0 = bits@.pos;
        let ghost e0 = self@.escape;
        let left = self.node(bits, low, high, escapes, depth + 1);
        let right = self.node(bits, low, high, escapes, depth + 1);
        proof {
            let (l, e1, p1) = tree_nodes(old(bits)@.data, p0, low@, high@, escapes@, depth as nat + 1, base, e0);
            let (r, e2, p2) = tree_nodes(old(bits)@.data, p1, low@, high@, escapes@, depth as nat + 1, base + l.len(), e1);
            assert(left == base + l.len() - 1);
            assert(right == base + l.len() + r.len() - 1);
        }
        self.nodes.push(Node::Branch(left, right));
        proof {
            assert(self@.nodes =~= old(self)@.nodes + tree_nodes(old(bits)@.data, old(bits)@.pos, low@, high@, escapes@, depth as nat, old(self)@.nodes.len(), old(self)@.escape).0);
        }
        self.nodes.len() - 1
    }

    pub fn is_empty(&self) -> (r: bool)
        ensures
            r == (self@.root is None),
    {
        self.root.is_none()
    }

    /// How many values the tree holds. The header's size for a tree is
    /// `(leaves + 1) * 8`, which holds for all four trees of all 32 movies.
    pub fn leaves(&self) -> (r: usize)
        ensures
            r == leaf_count(self@.nodes),
    {
        let mut count: usize = 0;
        let mut i: usize = 0;
        while i < self.nodes.len()
            invariant
                i <= self.nodes@.len(),
                count == leaf_count(self.nodes@.take(i as int)),
                count <= i,
            decreases self.nodes@.len() - i,
        {
            proof {
                assert(self.nodes@.take(i + 1).drop_last() =~= self.nodes@.take(i as int));
            }
            if let Node::Leaf(_) = self.nodes[i] {
                count += 1;
            }
            i += 1;
        }
        proof {
            assert(self.nodes@.take(i as int) =~= self.nodes@);
        }
        count
    }

    /// One value, and the cache moved along.
    pub fn decode(&mut self, bits: &mut Bits) -> (r: u32)
        requires
            tree_ok(old(self)@),
        ensures
            ({
                let (value, recent, end) = tree_decode(old(self)@, old(bits)@.data, old(bits)@.pos);
                &&& r == value
                &&& final(self)@.recent == recent
                &&& final(bits)@.pos == end
            }),
            final(bits)@.data == old(bits)@.data,
            final(self)@.nodes == old(self)@.nodes,
            final(self)@.root == old(self)@.root,
            final(self)@.escape == old(self)@.escape,
            tree_ok(final(self)@),
    {
        let root = match self.root {
            None => return 0,
            Some(at) => at,
        };
        let (v, at) = walk_nodes(&self.nodes, root, bits);
        let value = if self.escape[0] == Some(at) {
            self.recent[0]
        } else if self.escape[1] == Some(at) {
            self.recent[1]
        } else if self.escape[2] == Some(at) {
            self.recent[2]
        } else {
            v
        };
        if value != self.recent[0] {
            self.recent[2] = self.recent[1];
            self.recent[1] = self.recent[0];
            self.recent[0] = value;
        }
        proof {
            assert(self@.recent =~= moved_along(old(self)@.recent, value));
        }
        value
    }
}

/// The four trees, in the order the header sizes them: the block map, the
/// two-colour pairs, the full-colour pairs, and the type codes.
#[derive(Debug, Clone)]
pub struct Trees {
    pub map: Tree,
    pub colour: Tree,
    pub full: Tree,
    pub kind: Tree,
    /// How many bits of the packed blob the four took.
    pub bits: usize,
}

/// The four trees a packed blob holds, in turn, and how many bits they took.
pub open spec fn trees_of(packed: Seq<u8>) -> (Seq<TreeView>, nat) {
    let (map, p1) = tree_at(packed, 0);
    let (colour, p2) = tree_at(packed, p1);
    let (full, p3) = tree_at(packed, p2);
    let (kind, p4) = tree_at(packed, p3);
    (seq![map, colour, full, kind], p4)
}

impl Trees {
    pub fn parse(packed: &[u8]) -> (r: Trees)
        ensures
            seq![r.map@, r.colour@, r.full@, r.kind@] == trees_of(packed@).0,
            r.bits == trees_of(packed@).1,
            tree_ok(r.map@) && tree_ok(r.colour@) && tree_ok(r.full@) && tree_ok(r.kind@),
    {
        let mut bits = Bits::new(packed);
        let map = Tree::parse(&mut bits);
        let colour = Tree::parse(&mut bits);
        let full = Tree::parse(&mut bits);
        let kind = Tree::parse(&mut bits);
        Trees { map, colour, full, kind, bits: bits.position() }
    }
}

// ---------------------------------------------------------------------------
// Sound.

/// `n` byte trees read one after another from `pos`, and where they end.
pub open spec fn byte_trees_at(data: Seq<u8>, pos: nat, n: nat) -> (Seq<ByteTreeView>, nat)
    decreases n,
{
    if n == 0 {
        (Seq::empty(), pos)
    } else {
        let (ts, p) = byte_trees_at(data, pos, (n - 1) as nat);
        let (t, end) = byte_tree_at(data, p);
        (ts.push(t), end)
    }
}

proof fn lemma_byte_trees_len(data: Seq<u8>, pos: nat, n: nat)
    ensures
        byte_trees_at(data, pos, n).0.len() == n,
    decreases n,
{
    if n > 0 {
        lemma_byte_trees_len(data, pos, (n - 1) as nat);
    }
}

/// A sixteen-bit sample stored whole, high byte first.
pub open spec fn whole16(data: Seq<u8>, pos: nat) -> i32 {
    let v = bits_value(data, pos, 16);
    ((v % 256) * 256 + v / 256) as u16 as i16 as i32
}

/// An unsigned eight-bit sample as a signed sixteen-bit one.
pub open spec fn eight_of(value: i32) -> i16 {
    ((value as u8 as int - 128) * 256) as i16
}

/// The sixteen-bit samples still to come: while fewer than `target` are out
/// and the bits last, each channel in turn (`n` is how many are out) adds the
/// difference its two byte trees give, wrapping.
pub open spec fn run16(trees: Seq<ByteTreeView>, data: Seq<u8>, pos: nat, last: Seq<i32>, n: nat, target: nat, stereo: nat) -> Seq<i16>
    decreases target - n,
{
    if n >= target || pos > data.len() * 8 {
        Seq::empty()
    } else {
        let c: int = if stereo == 1 { (n % 2) as int } else { 0 };
        let (lo, p1) = byte_decode(trees[2 * c], data, pos);
        let (hi, p2) = byte_decode(trees[2 * c + 1], data, p1);
        let step = (lo + hi * 256) as u16 as i16 as int;
        let v = (last[c] + step) as i16;
        seq![v] + run16(trees, data, p2, last.update(c, v as i32), n + 1, target, stereo)
    }
}

/// The eight-bit samples still to come, the same way with one tree a
/// channel and a wrapping byte.
pub open spec fn run8(trees: Seq<ByteTreeView>, data: Seq<u8>, pos: nat, last: Seq<i32>, n: nat, target: nat, stereo: nat) -> Seq<i16>
    decreases target - n,
{
    if n >= target || pos > data.len() * 8 {
        Seq::empty()
    } else {
        let c: int = if stereo == 1 { (n % 2) as int } else { 0 };
        let (d, p1) = byte_decode(trees[c], data, pos);
        let step = d as u8 as i8 as int;
        let v = (last[c] + step) as u8 as i32;
        seq![eight_of(v)] + run8(trees, data, p1, last.update(c, v), n + 1, target, stereo)
    }
}

/// Sixteen-bit sound after its trees, which end at `p`: each channel's first
/// sample whole (the last channel's first), then the differences.
pub open spec fn wide_sound(trees: Seq<ByteTreeView>, data: Seq<u8>, p: nat, stereo: nat, unpacked: nat) -> Seq<i16> {
    if stereo == 1 {
        let h1 = whole16(data, p);
        let h0 = whole16(data, advance(p, 16));
        seq![h0 as i16, h1 as i16] + run16(trees, data, advance(p, 32), seq![h0, h1], 2, unpacked / 2, 1)
    } else {
        let h0 = whole16(data, p);
        seq![h0 as i16] + run16(trees, data, advance(p, 16), seq![h0, 0], 1, unpacked / 2, 0)
    }
}

/// Eight-bit sound after its trees the same way, a byte each to start.
pub open spec fn narrow_sound(trees: Seq<ByteTreeView>, data: Seq<u8>, p: nat, stereo: nat, unpacked: nat) -> Seq<i16> {
    if stereo == 1 {
        let b1 = bits_value(data, p, 8) as i32;
        let b0 = bits_value(data, advance(p, 8), 8) as i32;
        seq![eight_of(b0), eight_of(b1)] + run8(trees, data, advance(p, 16), seq![b0, b1], 2, unpacked, 1)
    } else {
        let b0 = bits_value(data, p, 8) as i32;
        seq![eight_of(b0)] + run8(trees, data, advance(p, 8), seq![b0, 0], 1, unpacked, 0)
    }
}

/// One audio chunk's samples: the unpacked size, a bit that says whether what
/// follows is packed at all, bits for stereo and sixteen-bit, the trees, and
/// then the samples.
pub open spec fn sound_of(chunk: Seq<u8>) -> Seq<i16> {
    if chunk.len() < 4 {
        Seq::empty()
    } else {
        let unpacked = le_u32(chunk, 0) as nat;
        let data = chunk.subrange(4, chunk.len() as int);
        if !bit(data, 0) {
            Seq::empty()
        } else {
            let stereo: nat = if bit(data, 1) { 1 } else { 0 };
            let wide: nat = if bit(data, 2) { 1 } else { 0 };
            let (trees, p) = byte_trees_at(data, 3, pow2(wide + stereo));
            if wide == 1 {
                wide_sound(trees, data, p, stereo, unpacked)
            } else {
                narrow_sound(trees, data, p, stereo, unpacked)
            }
        }
    }
}

/// An unsigned eight-bit sample as a signed sixteen-bit one.
fn eight(value: i32) -> (r: i16)
    ensures
        r == eight_of(value),
{
    ((value as u8 as i32 - 128) * 256) as i16
}

/// Read `n` byte trees in turn.
fn read_byte_trees(bits: &mut Bits, n: usize) -> (r: Vec<ByteTree>)
    ensures
        r@.len() == n,
        forall|i: int| 0 <= i < n ==> #[trigger] r@[i]@ == byte_trees_at(old(bits)@.data, old(bits)@.pos, n as nat).0[i],
        forall|i: int| 0 <= i < n ==> byte_tree_ok(#[trigger] r@[i]@),
        final(bits)@.pos == byte_trees_at(old(bits)@.data, old(bits)@.pos, n as nat).1,
        final(bits)@.data == old(bits)@.data,
{
    let mut trees: Vec<ByteTree> = Vec::new();
    let mut i: usize = 0;
    while i < n
        invariant
            i <= n,
            trees@.len() == i,
            bits@.data == old(bits)@.data,
            bits@.pos == byte_trees_at(old(bits)@.data, old(bits)@.pos, i as nat).1,
            forall|j: int| 0 <= j < i ==> #[trigger] trees@[j]@ == byte_trees_at(old(bits)@.data, old(bits)@.pos, i as nat).0[j],
            forall|j: int| 0 <= j < i ==> byte_tree_ok(#[trigger] trees@[j]@),
        decreases n - i,
    {
        proof {
            lemma_byte_trees_len(old(bits)@.data, old(bits)@.pos, i as nat);
        }
        let t = ByteTree::parse(bits);
        trees.push(t);
        i += 1;
    }
    trees
}

/// One audio chunk, decoded to 16-bit samples.
///
/// The chunk is an unpacked size, then a bit that says whether what follows is
/// packed at all, then two bits for stereo and sixteen-bit. Then one byte tree
/// a channel for eight-bit sound, or two - low half and high - for sixteen.
/// The samples are differences: the first is stored outright and every one
/// after it is added to the last, wrapping.
pub fn sound(chunk: &[u8]) -> (r: Vec<i16>)
    ensures
        r@ == sound_of(chunk@),
{
    if chunk.len() < 4 {
        return Vec::new();
    }
    let unpacked = u32_at(chunk, 0) as usize;
    let body = &chunk[4..chunk.len()];
    let ghost data = body@;
    assert(data =~= chunk@.subrange(4, chunk@.len() as int));
    let mut bits = Bits::new(body);
    if !bits.read() {
        return Vec::new();
    }
    let stereo: usize = if bits.read() { 1 } else { 0 };
    let wide: usize = if bits.read() { 1 } else { 0 };
    let count: usize = if wide + stereo == 0 { 1 } else if wide + stereo == 1 { 2 } else { 4 };
    proof {
        vstd::arithmetic::power2::lemma2_to64();
        assert(count == pow2((wide + stereo) as nat));
        assert(bits@.pos == 3);
    }
    let trees = read_byte_trees(&mut bits, count);
    let ghost tv = byte_trees_at(data, 3, count as nat).0;
    let ghost whole = sound_of(chunk@);
    let ghost p = bits@.pos;
    proof {
        lemma_byte_trees_len(data, 3, count as nat);
        assert(bit(data, 0));
        assert(stereo == 1 <==> bit(data, 1));
        assert(wide == 1 <==> bit(data, 2));
        assert(unpacked == le_u32(chunk@, 0));
        assert(p == byte_trees_at(data, 3, pow2((wide + stereo) as nat)).1);
    }
    if wide == 1 {
        sound_wide(&mut bits, &trees, Ghost(tv), stereo, unpacked)
    } else {
        sound_narrow(&mut bits, &trees, Ghost(tv), stereo, unpacked)
    }
}

/// Sixteen-bit samples, from the bits after the trees.
fn sound_wide(bits: &mut Bits, trees: &Vec<ByteTree>, Ghost(tv): Ghost<Seq<ByteTreeView>>, stereo: usize, unpacked: usize) -> (r: Vec<i16>)
    requires
        stereo <= 1,
        trees@.len() == 2 * (stereo + 1),
        tv.len() == trees@.len(),
        forall|j: int| 0 <= j < tv.len() ==> #[trigger] trees@[j]@ == tv[j],
        forall|j: int| 0 <= j < tv.len() ==> byte_tree_ok(#[trigger] trees@[j]@),
    ensures
        r@ == wide_sound(tv, old(bits)@.data, old(bits)@.pos, stereo as nat, unpacked as nat),
{
    let ghost data = bits@.data;
    let ghost p = bits@.pos;
    let ghost whole = wide_sound(tv, data, p, stereo as nat, unpacked as nat);
    let count = trees.len();
    let mut out: Vec<i16> = Vec::new();
    // The first sample of each channel is stored whole, high byte first.
    let mut last: [i32; 2] = [0, 0];
    proof {
        vstd::arithmetic::power2::lemma2_to64();
    }
    if stereo == 1 {
        proof {
            lemma_bits_value_bound(data, p, 16);
        }
        let v = bits.take(16) as u16;
        last[1] = ((v & 0xff) << 8 | v >> 8) as i16 as i32;
        proof {
            assert((v & 0xff) << 8 | v >> 8 == (v % 256) * 256 + v / 256) by (bit_vector);
            assert(last[1] == whole16(data, p));
        }
    }
    let ghost q = bits@.pos;
    proof {
        lemma_bits_value_bound(data, q, 16);
    }
    let v = bits.take(16) as u16;
    last[0] = ((v & 0xff) << 8 | v >> 8) as i16 as i32;
    proof {
        assert((v & 0xff) << 8 | v >> 8 == (v % 256) * 256 + v / 256) by (bit_vector);
        assert(last[0] == whole16(data, q));
    }
    out.push(last[0] as i16);
    if stereo == 1 {
        out.push(last[1] as i16);
    }
    let target = unpacked / 2;
    proof {
        if stereo == 1 {
            assert(out@ =~= seq![last[0] as i16, last[1] as i16]);
            assert(last@ =~= seq![last[0], last[1]]);
        } else {
            assert(out@ =~= seq![last[0] as i16]);
            assert(last@ =~= seq![last[0], 0]);
        }
        assert(out@ + run16(tv, data, bits@.pos, last@, out@.len(), target as nat, stereo as nat) == whole);
    }
    while out.len() < target && !bits.past_end()
        invariant
            stereo <= 1,
            count == 2 * (stereo + 1),
            trees@.len() == count,
            tv.len() == count,
            forall|j: int| 0 <= j < count ==> #[trigger] trees@[j]@ == tv[j],
            forall|j: int| 0 <= j < count ==> byte_tree_ok(#[trigger] trees@[j]@),
            bits@.data == data,
            forall|c: int| 0 <= c < 2 ==> i16::MIN <= #[trigger] last@[c] <= i16::MAX,
            out@ + run16(tv, data, bits@.pos, last@, out@.len(), target as nat, stereo as nat) == whole,
        decreases target - out@.len(),
    {
        let c = if stereo == 1 { out.len() % 2 } else { 0 };
        let low = trees[c * 2].decode(bits);
        let high = trees[c * 2 + 1].decode(bits);
        let joined = low | high << 8;
        assert(joined == low + high * 256) by (bit_vector)
            requires low < 256, high < 256, joined == low | high << 8;
        let step = joined as u16 as i16 as i32;
        let v = (last[c] + step) as i16;
        let ghost before = last@;
        last[c] = v as i32;
        proof {
            let n = out@.len();
            assert(c == (if stereo == 1 { n % 2 } else { 0 }));
            assert(last@ =~= before.update(c as int, v as i32));
        }
        out.push(v);
        proof {
            assert(out@ + run16(tv, data, bits@.pos, last@, out@.len(), target as nat, stereo as nat) =~= whole);
        }
    }
    proof {
        assert(run16(tv, data, bits@.pos, last@, out@.len(), target as nat, stereo as nat) =~= Seq::empty());
    }
    out
}

/// Eight-bit samples, from the bits after the trees.
fn sound_narrow(bits: &mut Bits, trees: &Vec<ByteTree>, Ghost(tv): Ghost<Seq<ByteTreeView>>, stereo: usize, unpacked: usize) -> (r: Vec<i16>)
    requires
        stereo <= 1,
        trees@.len() == stereo + 1,
        tv.len() == trees@.len(),
        forall|j: int| 0 <= j < tv.len() ==> #[trigger] trees@[j]@ == tv[j],
        forall|j: int| 0 <= j < tv.len() ==> byte_tree_ok(#[trigger] trees@[j]@),
    ensures
        r@ == narrow_sound(tv, old(bits)@.data, old(bits)@.pos, stereo as nat, unpacked as nat),
{
    let ghost data = bits@.data;
    let ghost p = bits@.pos;
    let ghost whole = narrow_sound(tv, data, p, stereo as nat, unpacked as nat);
    let count = trees.len();
    let mut out: Vec<i16> = Vec::new();
    let mut last: [i32; 2] = [0, 0];
    if stereo == 1 {
        last[1] = bits.take(8) as i32;
        proof {
            lemma_bits_value_bound(data, p, 8);
        }
    }
    let ghost q = bits@.pos;
    last[0] = bits.take(8) as i32;
    proof {
        lemma_bits_value_bound(data, q, 8);
        vstd::arithmetic::power2::lemma2_to64();
    }
    out.push(eight(last[0]));
    if stereo == 1 {
        out.push(eight(last[1]));
    }
    let target = unpacked;
    proof {
        if stereo == 1 {
            assert(out@ =~= seq![eight_of(last[0]), eight_of(last[1])]);
            assert(last@ =~= seq![last[0], last[1]]);
        } else {
            assert(out@ =~= seq![eight_of(last[0])]);
            assert(last@ =~= seq![last[0], 0]);
        }
        assert(out@ + run8(tv, data, bits@.pos, last@, out@.len(), target as nat, stereo as nat) == whole);
    }
    while out.len() < target && !bits.past_end()
        invariant
            stereo <= 1,
            count == stereo + 1,
            trees@.len() == count,
            tv.len() == count,
            forall|j: int| 0 <= j < count ==> #[trigger] trees@[j]@ == tv[j],
            forall|j: int| 0 <= j < count ==> byte_tree_ok(#[trigger] trees@[j]@),
            bits@.data == data,
            forall|c: int| 0 <= c < 2 ==> 0 <= #[trigger] last@[c] <= 255,
            out@ + run8(tv, data, bits@.pos, last@, out@.len(), target as nat, stereo as nat) == whole,
        decreases target - out@.len(),
    {
        let c = if stereo == 1 { out.len() % 2 } else { 0 };
        let d = trees[c].decode(bits);
        let step = d as u8 as i8 as i32;
        let v = (last[c] + step) as u8 as i32;
        let ghost before = last@;
        last[c] = v;
        proof {
            let n = out@.len();
            assert(c == (if stereo == 1 { n % 2 } else { 0 }));
            assert(last@ =~= before.update(c as int, v));
        }
        out.push(eight(v));
        proof {
            assert(out@ + run8(tv, data, bits@.pos, last@, out@.len(), target as nat, stereo as nat) =~= whole);
        }
    }
    proof {
        assert(run8(tv, data, bits@.pos, last@, out@.len(), target as nat, stereo as nat) =~= Seq::empty());
    }
    out
}

// ---------------------------------------------------------------------------
// Playing.

/// A byte of a chunk, or zero past its end.
pub open spec fn byte_or_zero(chunk: Seq<u8>, at: int) -> u8 {
    if 0 <= at < chunk.len() { chunk[at] } else { 0 }
}

/// The palette a palette chunk leaves, from the entry `out` and the chunk's
/// byte `at` on: a byte with its top bit keeps that many entries as they were
/// (its low seven bits and one); with the next bit, copies that many from the
/// old palette starting at the entry the following byte names; and otherwise
/// starts an entry of three six-bit channels.
pub open spec fn repalette_from(old: Seq<[u8; 3]>, chunk: Seq<u8>, out: nat, at: nat, pal: Seq<[u8; 3]>) -> Seq<[u8; 3]>
    decreases chunk.len() + 3 - at,
{
    if out >= 256 || at >= chunk.len() {
        pal
    } else {
        let flag = chunk[at as int];
        if flag & 0x80 != 0 {
            let count = (flag & 0x7f) as nat + 1;
            let n: nat = if count <= 256 - out { count } else { (256 - out) as nat };
            let next = Seq::new(pal.len(), |j: int| if out <= j < out + n { old[j] } else { pal[j] });
            repalette_from(old, chunk, out + n, at + 1, next)
        } else if flag & 0x40 != 0 {
            let count = (flag & 0x3f) as nat + 1;
            let from = byte_or_zero(chunk, at + 1 as int) as int;
            let n: nat = if count <= 256 - out { count } else { (256 - out) as nat };
            let next = Seq::new(pal.len(), |j: int| if out <= j < out + n { old[(from + j - out) % 256] } else { pal[j] });
            repalette_from(old, chunk, out + n, at + 2, next)
        } else {
            let entry = [channel_of(flag), channel_of(byte_or_zero(chunk, at + 1 as int)), channel_of(byte_or_zero(chunk, at + 2 as int))];
            repalette_from(old, chunk, out + 1, at + 3, pal.update(out as int, entry))
        }
    }
}

/// Where pixel `i` of a picture `stride` wide falls in the 4x4 block whose
/// top left is (`bx`, `by`): its row and column there, or nowhere.
pub open spec fn in_block(i: int, bx: int, by: int, stride: int) -> Option<(int, int)> {
    let row = i / stride;
    let col = i % stride;
    if by <= row < by + 4 && bx <= col < bx + 4 { Some((row - by, col - bx)) } else { None }
}

/// A picture with the 4x4 block at (`bx`, `by`) set to sixteen cells, a row
/// at a time.
pub open spec fn put(pixels: Seq<u8>, stride: int, bx: int, by: int, cells: Seq<u8>) -> Seq<u8> {
    Seq::new(pixels.len(), |i: int| match in_block(i, bx, by, stride) {
        Some((y, x)) => cells[4 * y + x],
        None => pixels[i],
    })
}

/// The sixteen cells of a two-colour block: the map's bits in turn, from the
/// lowest, pick the high colour or the low.
pub open spec fn mono_cells(colours: u32, map: u32) -> Seq<u8> {
    Seq::new(16, |k: int| if (map >> (k as u32)) & 1 != 0 { (colours >> 8) as u8 } else { (colours & 0xff) as u8 })
}

/// The picture, the four trees and the bits as a frame's blocks are decoded.
pub struct Decoding {
    pub pixels: Seq<u8>,
    /// Map, colour, full and type, in that order.
    pub trees: Seq<TreeView>,
    pub pos: nat,
}

pub open spec fn map_tree() -> int { 0 }
pub open spec fn colour_tree() -> int { 1 }
pub open spec fn full_tree() -> int { 2 }
pub open spec fn kind_tree() -> int { 3 }

/// One value from one of the trees, and the state after it.
pub open spec fn decoded(d: Decoding, which: int, data: Seq<u8>) -> (u32, Decoding) {
    let t = d.trees[which];
    let (v, recent, end) = tree_decode(t, data, d.pos);
    (v, Decoding {
        pixels: d.pixels,
        trees: d.trees.update(which, TreeView { nodes: t.nodes, root: t.root, escape: t.escape, recent }),
        pos: end,
    })
}

/// The cells of a full-colour block from row `y` on: two codes a row, the
/// right pair before the left, each a low byte and a high.
pub open spec fn full_rows(d: Decoding, data: Seq<u8>, y: nat) -> (Seq<u8>, Decoding)
    decreases 4 - y,
{
    if y >= 4 {
        (Seq::empty(), d)
    } else {
        let (right, d1) = decoded(d, full_tree(), data);
        let (left, d2) = decoded(d1, full_tree(), data);
        let (rest, d3) = full_rows(d2, data, y + 1);
        (seq![(left & 0xff) as u8, (left >> 8) as u8, (right & 0xff) as u8, (right >> 8) as u8] + rest, d3)
    }
}

/// One block of a run of kind `kind` (`mode` the fill colour's code) at
/// `block` in a picture `across` blocks wide.
pub open spec fn block_done(d: Decoding, data: Seq<u8>, kind: u32, mode: u32, block: nat, across: nat, stride: nat) -> Decoding {
    let bx = (block % across) * 4;
    let by = (block / across) * 4;
    if kind == MONO {
        let (colours, d1) = decoded(d, colour_tree(), data);
        let (map, d2) = decoded(d1, map_tree(), data);
        Decoding { pixels: put(d2.pixels, stride as int, bx as int, by as int, mono_cells(colours, map)), ..d2 }
    } else if kind == FULL {
        let (cells, d1) = full_rows(d, data, 0);
        Decoding { pixels: put(d1.pixels, stride as int, bx as int, by as int, cells), ..d1 }
    } else {
        Decoding { pixels: put(d.pixels, stride as int, bx as int, by as int, Seq::new(16, |k: int| mode as u8)), ..d }
    }
}

proof fn lemma_bit_set(map: u32, k: u32)
    requires
        k < 32,
    ensures
        ((map >> k) & 1 != 0) == (map & (1u32 << k) != 0),
{
    assert(((map >> k) & 1 != 0) == (map & (1u32 << k) != 0)) by (bit_vector)
        requires
            k < 32;
}

/// In a two-colour block, the pixel in row `y` and column `x` takes the
/// colour code's high byte where bit `4 y + x` of the map code is set and
/// its low byte where it is clear: the colour code is decoded first, then
/// the map.
pub proof fn law_mono_block_picks_high_where_the_map_is_set(
    d: Decoding,
    data: Seq<u8>,
    mode: u32,
    block: nat,
    across: nat,
    stride: nat,
    y: int,
    x: int,
)
    requires
        across > 0,
        (block % across) * 4 + 4 <= stride,
        0 <= y < 4,
        0 <= x < 4,
        ((block / across) * 4 + y) * stride + (block % across) * 4 + x < d.pixels.len(),
    ensures
        ({
            let (colours, d1) = decoded(d, colour_tree(), data);
            let (map, d2) = decoded(d1, map_tree(), data);
            let i = ((block / across) * 4 + y) * stride + (block % across) * 4 + x;
            block_done(d, data, MONO, mode, block, across, stride).pixels[i] == if map & (1u32 << ((4 * y + x) as u32)) != 0 {
                (colours >> 8) as u8
            } else {
                (colours & 0xff) as u8
            }
        }),
{
    let (colours, d1) = decoded(d, colour_tree(), data);
    let (map, d2) = decoded(d1, map_tree(), data);
    let bx = (block % across) * 4;
    let by = (block / across) * 4;
    let i = (by + y) * stride + bx + x;
    vstd::arithmetic::div_mod::lemma_fundamental_div_mod_converse(i, stride as int, by + y, bx + x);
    assert(in_block(i, bx as int, by as int, stride as int) == Some((y, x)));
    lemma_bit_set(map, (4 * y + x) as u32);
    assert(mono_cells(colours, map)[4 * y + x] == if (map >> ((4 * y + x) as u32)) & 1 != 0 { (colours >> 8) as u8 } else { (colours & 0xff) as u8 });
}

/// The frame from `block` on, with `left` blocks of a run of `kind` still to
/// go: a type code gives the kind, the run (through [`RUNS`]) and the fill
/// colour; a skip leaves its blocks as they were. Decoding stops at the last
/// block, or at a type code when the bits are spent.
pub open spec fn video_from(d: Decoding, data: Seq<u8>, block: nat, blocks: nat, across: nat, stride: nat, kind: u32, left: nat, mode: u32) -> Decoding
    decreases 2 * (blocks - block) + (if left == 0 { 1int } else { 0int }),
{
    if block >= blocks {
        d
    } else if left > 0 {
        video_from(block_done(d, data, kind, mode, block, across, stride), data, block + 1, blocks, across, stride, kind, (left - 1) as nat, mode)
    } else if d.pos > data.len() * 8 {
        d
    } else {
        let (code, d1) = decoded(d, kind_tree(), data);
        let k = code & 3;
        let run = RUNS@[((code >> 2) & 0x3f) as int] as nat;
        if run == 0 {
            d1
        } else if k == SKIP {
            video_from(d1, data, block + if run <= blocks - block { run } else { (blocks - block) as nat }, blocks, across, stride, k, 0, code >> 8)
        } else {
            video_from(d1, data, block, blocks, across, stride, k, run, code >> 8)
        }
    }
}

/// Every run covers at least one block.
pub proof fn lemma_runs_positive(i: int)
    requires
        0 <= i < 64,
    ensures
        RUNS@[i] >= 1,
{
    assert(RUNS@[i] >= 1);
}

/// Set the 4x4 block at (`bx`, `by`) to sixteen cells, a row at a time.
fn put_block(picture: &mut Vec<u8>, stride: usize, bx: usize, by: usize, cells: &[u8])
    requires
        cells@.len() == 16,
        bx + 4 <= stride,
        (by + 3) * stride + bx + 3 < old(picture)@.len(),
    ensures
        final(picture)@ == put(old(picture)@, stride as int, bx as int, by as int, cells@),
{
    let ghost before = picture@;
    let len = picture.len();
    let mut y: usize = 0;
    while y < 4
        invariant
            bx + 4 <= stride,
            (by + 3) * stride + bx + 3 < len,
            picture@.len() == len,
            y <= 4,
            cells@.len() == 16,
            picture@ == Seq::new(len as nat, |i: int| match in_block(i, bx as int, by as int, stride as int) {
                Some((yy, xx)) => if yy < y { cells@[4 * yy + xx] } else { before[i] },
                None => before[i],
            }),
        decreases 4 - y,
    {
        let mut x: usize = 0;
        while x < 4
            invariant
                bx + 4 <= stride,
                (by + 3) * stride + bx + 3 < len,
                picture@.len() == len,
                y < 4,
                x <= 4,
                cells@.len() == 16,
                picture@ == Seq::new(len as nat, |i: int| match in_block(i, bx as int, by as int, stride as int) {
                    Some((yy, xx)) => if yy < y || (yy == y && xx < x) { cells@[4 * yy + xx] } else { before[i] },
                    None => before[i],
                }),
            decreases 4 - x,
        {
            assert((by + y) * stride + bx + x <= (by + 3) * stride + bx + 3) by (nonlinear_arith)
                requires y < 4, x < 4;
            assert(by + y <= (by + 3) * stride) by (nonlinear_arith)
                requires y < 4, stride >= 4;
            let at = (by + y) * stride + bx + x;
            proof {
                crate::render::hud::lemma_place(at as int, stride as int, (by + y) as int, (bx + x) as int);
            }
            let ghost prev = picture@;
            picture.set(at, cells[4 * y + x]);
            proof {
                assert forall|i: int| 0 <= i < len implies #[trigger] picture@[i] == (match in_block(i, bx as int, by as int, stride as int) {
                    Some((yy, xx)) => if yy < y || (yy == y && xx < x + 1) { cells@[4 * yy + xx] } else { before[i] },
                    None => before[i],
                }) by {
                    if i != at as int {
                        if let Some((yy, xx)) = in_block(i, bx as int, by as int, stride as int) {
                            if yy == y && xx == x {
                                vstd::arithmetic::div_mod::lemma_fundamental_div_mod(i, stride as int);
                                vstd::arithmetic::mul::lemma_mul_is_commutative(stride as int, (by + y) as int);
                                assert(i == (by + y) * stride + bx + x);
                            }
                        }
                    }
                }
                assert(picture@ =~= Seq::new(len as nat, |i: int| match in_block(i, bx as int, by as int, stride as int) {
                    Some((yy, xx)) => if yy < y || (yy == y && xx < x + 1) { cells@[4 * yy + xx] } else { before[i] },
                    None => before[i],
                }));
            }
            x += 1;
        }
        proof {
            assert(picture@ =~= Seq::new(len as nat, |i: int| match in_block(i, bx as int, by as int, stride as int) {
                Some((yy, xx)) => if yy < y + 1 { cells@[4 * yy + xx] } else { before[i] },
                None => before[i],
            }));
        }
        y += 1;
    }
    proof {
        assert(picture@ =~= put(before, stride as int, bx as int, by as int, cells@));
    }
}

/// Where no run is pending, the kind and colour of the last one do not matter.
proof fn lemma_no_run(d: Decoding, data: Seq<u8>, block: nat, blocks: nat, across: nat, stride: nat, kind: u32, mode: u32)
    ensures
        video_from(d, data, block, blocks, across, stride, kind, 0, mode) == video_from(d, data, block, blocks, across, stride, 0, 0, 0),
{
}

/// The cells of a two-colour block.
fn mono_block_cells(colours: u32, map: u32) -> (r: Vec<u8>)
    ensures
        r@ == mono_cells(colours, map),
{
    let lo = (colours & 0xff) as u8;
    let hi = (colours >> 8) as u8;
    let mut cells: Vec<u8> = Vec::new();
    let mut m = map;
    let mut k: u32 = 0;
    assert(map >> 0u32 == map) by (bit_vector);
    while k < 16
        invariant
            k <= 16,
            m == map >> k,
            cells@ == mono_cells(colours, map).take(k as int),
            lo == (colours & 0xff) as u8,
            hi == (colours >> 8) as u8,
        decreases 16 - k,
    {
        proof {
            assert((map >> k) >> 1u32 == map >> (k + 1) as u32) by (bit_vector)
                requires k < 16;
            assert(mono_cells(colours, map).take(k + 1) =~= mono_cells(colours, map).take(k as int).push(if m & 1 != 0 { hi } else { lo }));
        }
        cells.push(if m & 1 != 0 { hi } else { lo });
        m = m >> 1u32;
        k += 1;
    }
    proof {
        assert(cells@ =~= mono_cells(colours, map));
    }
    cells
}

/// Sixteen cells of one colour.
fn fill_block_cells(colour: u8) -> (r: Vec<u8>)
    ensures
        r@ == Seq::new(16, |k: int| colour),
{
    let mut cells: Vec<u8> = Vec::new();
    let mut k: usize = 0;
    while k < 16
        invariant
            k <= 16,
            cells@ == Seq::new(k as nat, |i: int| colour),
        decreases 16 - k,
    {
        cells.push(colour);
        k += 1;
        proof {
            assert(cells@ =~= Seq::new(k as nat, |i: int| colour));
        }
    }
    cells
}

/// A block of a picture `across` blocks by `down` lies inside it.
proof fn lemma_block_inside(block: int, across: int, down: int, width: int, height: int)
    requires
        across == width / 4,
        down == height / 4,
        0 <= block < across * down,
        width >= 0,
        height >= 0,
    ensures
        (block % across) * 4 + 4 <= width,
        ((block / across) * 4 + 3) * width + (block % across) * 4 + 3 < width * height,
{
    assert(across > 0) by (nonlinear_arith)
        requires 0 <= block < across * down, across >= 0, down >= 0;
    let col = block % across;
    let row = block / across;
    vstd::arithmetic::div_mod::lemma_fundamental_div_mod(block, across);
    assert(0 <= col < across);
    assert(row < down) by (nonlinear_arith)
        requires block == across * row + col, 0 <= col, block < across * down, across > 0;
    assert(0 <= row) by (nonlinear_arith)
        requires block == across * row + col, col < across, block >= 0, across > 0;
    assert(4 * across <= width && 4 * down <= height);
    assert((row * 4 + 3) * width + col * 4 + 3 < width * height) by (nonlinear_arith)
        requires 0 <= row < down, 0 <= col < across, 4 * across <= width, 4 * down <= height;
}

/// A movie being played: the trees, the palette and the picture, which carry
/// from frame to frame - all but the trees' caches of recent values, which
/// each frame's block stream starts at zeros.
pub struct Player {
    pub movie: Movie,
    pub trees: Trees,
    /// 256 entries of red, green, blue.
    pub palette: Vec<[u8; 3]>,
    /// One byte a pixel, `width * height`.
    pub picture: Vec<u8>,
    /// Track 0's samples for the frame just decoded.
    pub sound: Vec<i16>,
    /// Which frame comes next.
    pub next: usize,
}

impl Player {
    /// Which frame comes next.
    pub open spec fn next_frame(&self) -> nat {
        self.next as nat
    }

    /// The movie the player plays.
    pub open spec fn movie_of(&self) -> Movie {
        self.movie
    }

    /// The four trees, with their caches, as they stand.
    pub open spec fn trees_of(&self) -> Seq<TreeView> {
        seq![self.trees.map@, self.trees.colour@, self.trees.full@, self.trees.kind@]
    }

    pub open spec fn palette_of(&self) -> Seq<[u8; 3]> {
        self.palette@
    }

    pub open spec fn picture_of(&self) -> Seq<u8> {
        self.picture@
    }

    pub open spec fn sound_of(&self) -> Seq<i16> {
        self.sound@
    }

    /// What playing keeps: a palette of 256, a picture of `width * height`,
    /// and trees that decode.
    pub open spec fn playable(&self) -> bool {
        &&& self.palette@.len() == 256
        &&& self.next <= self.movie.sizes@.len()
        &&& self.picture@.len() == self.movie.width * self.movie.height
        &&& tree_ok(self.trees.map@) && tree_ok(self.trees.colour@)
        &&& tree_ok(self.trees.full@) && tree_ok(self.trees.kind@)
    }

    /// Which frame comes next.
    pub fn frame(&self) -> (r: usize)
        ensures
            r == self.next_frame(),
    {
        self.next
    }

    /// The palette chunk: runs that keep what is there, runs that copy from
    /// somewhere else in the old palette, and three-byte entries.
    fn repalette(&mut self, chunk: &[u8])
        requires
            old(self).palette@.len() == 256,
        ensures
            final(self).palette@ == repalette_from(old(self).palette@, chunk@, 0, 0, old(self).palette@),
            final(self).palette@.len() == 256,
            final(self).movie == old(self).movie,
            final(self).trees == old(self).trees,
            final(self).picture == old(self).picture,
            final(self).sound == old(self).sound,
            final(self).next == old(self).next,
    {
        let before = vstd::slice::slice_to_vec(self.palette.as_slice());
        let ghost start = before@;
        let mut out: usize = 0;
        let mut at: usize = 0;
        while out < 256 && at < chunk.len()
            invariant
                before@ == start,
                start.len() == 256,
                self.palette@.len() == 256,
                self.movie == old(self).movie,
                self.trees == old(self).trees,
                self.picture == old(self).picture,
                self.sound == old(self).sound,
                self.next == old(self).next,
                out <= 256,
                repalette_from(start, chunk@, out as nat, at as nat, self.palette@)
                    == repalette_from(start, chunk@, 0, 0, start),
            decreases chunk@.len() - at,
        {
            let flag = chunk[at];
            if flag & 0x80 != 0 {
                let count = (flag & 0x7f) as usize + 1;
                let ghost first = out;
                let ghost n: nat = if count <= 256 - out { count as nat } else { (256 - out) as nat };
                let ghost pal = self.palette@;
                at += 1;
                let mut k: usize = 0;
                assert((flag & 0x7f) < 128) by (bit_vector);
                while k < count
                    invariant
                        before@ == start,
                        start.len() == 256,
                        self.palette@.len() == 256,
                        self.movie == old(self).movie,
                        self.trees == old(self).trees,
                        self.picture == old(self).picture,
                        self.sound == old(self).sound,
                        self.next == old(self).next,
                        first <= out <= 256,
                        out == first + k || (out == 256 && first + k >= 256),
                        n == (if count <= 256 - first { count as nat } else { (256 - first) as nat }),
                        k <= count,
                        out <= first + n,
                        out == first + n || k < count,
                        self.palette@ == Seq::new(256, |j: int| if first <= j < out { start[j] } else { pal[j] }),
                    ensures
                        out == first + n,
                        self.palette@ == Seq::new(256, |j: int| if first <= j < out { start[j] } else { pal[j] }),
                        before@ == start,
                        self.palette@.len() == 256,
                        self.movie == old(self).movie,
                        self.trees == old(self).trees,
                        self.picture == old(self).picture,
                        self.sound == old(self).sound,
                        self.next == old(self).next,
                    decreases count - k,
                {
                    if out >= 256 {
                        break;
                    }
                    self.palette.set(out, before[out]);
                    out += 1;
                    k += 1;
                }
                proof {
                    assert(out == first + n);
                    assert(self.palette@ =~= Seq::new(pal.len(), |j: int| if first <= j < first + n { start[j] } else { pal[j] }));
                }
            } else if flag & 0x40 != 0 {
                let count = (flag & 0x3f) as usize + 1;
                let from: usize = if chunk.len() - at > 1 { chunk[at + 1] as usize } else { 0 };
                let ghost first = out;
                let ghost n: nat = if count <= 256 - out { count as nat } else { (256 - out) as nat };
                let ghost pal = self.palette@;
                let ghost was = at;
                at = if chunk.len() - at > 2 { at + 2 } else { chunk.len() };
                proof {
                    assert(repalette_from(start, chunk@, (first + n) as nat, at as nat, Seq::new(pal.len(), |j: int| if first <= j < first + n { start[(from + j - first) % 256] } else { pal[j] }))
                        == repalette_from(start, chunk@, (first + n) as nat, (was + 2) as nat, Seq::new(pal.len(), |j: int| if first <= j < first + n { start[(from + j - first) % 256] } else { pal[j] })));
                }
                let mut k: usize = 0;
                assert((flag & 0x3f) < 64) by (bit_vector);
                while k < count
                    invariant
                        before@ == start,
                        start.len() == 256,
                        self.palette@.len() == 256,
                        self.movie == old(self).movie,
                        self.trees == old(self).trees,
                        self.picture == old(self).picture,
                        self.sound == old(self).sound,
                        self.next == old(self).next,
                        from < 256,
                        first <= out <= 256,
                        out == first + k || (out == 256 && first + k >= 256),
                        n == (if count <= 256 - first { count as nat } else { (256 - first) as nat }),
                        k <= count,
                        count <= 64,
                        out <= first + n,
                        out == first + n || k < count,
                        self.palette@ == Seq::new(256, |j: int| if first <= j < out { start[(from + j - first) % 256] } else { pal[j] }),
                    ensures
                        out == first + n,
                        self.palette@ == Seq::new(256, |j: int| if first <= j < out { start[(from + j - first) % 256] } else { pal[j] }),
                        before@ == start,
                        self.palette@.len() == 256,
                        self.movie == old(self).movie,
                        self.trees == old(self).trees,
                        self.picture == old(self).picture,
                        self.sound == old(self).sound,
                        self.next == old(self).next,
                    decreases count - k,
                {
                    if out >= 256 {
                        break;
                    }
                    let index = (from + k) & 0xff;
                    proof {
                        let sum = (from + k) as usize;
                        assert(sum & 0xff == sum % 256) by (bit_vector);
                    }
                    self.palette.set(out, before[index]);
                    out += 1;
                    k += 1;
                }
                proof {
                    assert(out == first + n);
                    assert(self.palette@ =~= Seq::new(pal.len(), |j: int| if first <= j < first + n { start[(from + j - first) % 256] } else { pal[j] }));
                }
            } else {
                let r = channel(flag);
                let g = channel(if chunk.len() - at > 1 { chunk[at + 1] } else { 0 });
                let b = channel(if chunk.len() - at > 2 { chunk[at + 2] } else { 0 });
                let ghost was = at;
                at = if chunk.len() - at > 3 { at + 3 } else { chunk.len() };
                let ghost pal = self.palette@;
                self.palette.set(out, [r, g, b]);
                proof {
                    assert(repalette_from(start, chunk@, (out + 1) as nat, at as nat, self.palette@)
                        == repalette_from(start, chunk@, (out + 1) as nat, (was + 3) as nat, self.palette@));
                }
                out += 1;
            }
        }
    }
}

impl Player {
    /// The decoding state of the player with the bits at `pos`.
    pub open spec fn decoding(&self, pos: nat) -> Decoding {
        Decoding { pixels: self.picture@, trees: self.trees_of(), pos }
    }

    /// One block of a run.
    fn block(&mut self, bits: &mut Bits, kind: u32, mode: u32, block: usize, across: usize)
        requires
            old(self).playable(),
            across == old(self).movie.width / 4,
            block < across * (old(self).movie.height / 4),
        ensures
            final(self).decoding(final(bits)@.pos) == block_done(old(self).decoding(old(bits)@.pos), old(bits)@.data, kind, mode, block as nat, across as nat, old(self).movie.width as nat),
            final(bits)@.data == old(bits)@.data,
            final(self).playable(),
            final(self).movie == old(self).movie,
            final(self).palette == old(self).palette,
            final(self).sound == old(self).sound,
            final(self).next == old(self).next,
    {
        let stride = self.movie.width;
        let plen = self.picture.len();
        proof {
            lemma_block_inside(block as int, across as int, (self.movie.height / 4) as int, stride as int, self.movie.height as int);
            let row = block / across;
            assert(row * 4 + 3 <= (row * 4 + 3) * stride) by (nonlinear_arith)
                requires stride >= 4;
        }
        let bx = block % across * 4;
        let by = block / across * 4;
        let ghost data = bits@.data;
        let ghost d0 = self.decoding(bits@.pos);
        let mut cells: Vec<u8> = Vec::new();
        if kind == MONO {
            let colours = self.trees.colour.decode(bits);
            let map = self.trees.map.decode(bits);
            cells = mono_block_cells(colours, map);
        } else if kind == FULL {
            let mut y: usize = 0;
            while y < 4
                invariant
                    y <= 4,
                    tree_ok(self.trees.full@),
                    self.movie == old(self).movie,
                    self.palette == old(self).palette,
                    self.sound == old(self).sound,
                    self.next == old(self).next,
                    self.trees.map == old(self).trees.map,
                    self.trees.colour == old(self).trees.colour,
                    self.trees.kind == old(self).trees.kind,
                    self.picture == old(self).picture,
                    bits@.data == data,
                    cells@.len() == 4 * y,
                    cells@ + full_rows(self.decoding(bits@.pos), data, y as nat).0 == full_rows(d0, data, 0).0,
                    full_rows(self.decoding(bits@.pos), data, y as nat).1 == full_rows(d0, data, 0).1,
                decreases 4 - y,
            {
                // Two codes a row, the right pair before the left.
                let ghost before = self.decoding(bits@.pos);
                let right = self.trees.full.decode(bits);
                let left = self.trees.full.decode(bits);
                cells.push((left & 0xff) as u8);
                cells.push((left >> 8) as u8);
                cells.push((right & 0xff) as u8);
                cells.push((right >> 8) as u8);
                proof {
                    let (r1, d1) = decoded(before, full_tree(), data);
                    let (l1, d2) = decoded(d1, full_tree(), data);
                    assert(d2.trees =~= self.decoding(bits@.pos).trees);
                    assert(d2 == self.decoding(bits@.pos));
                    let row = seq![(left & 0xff) as u8, (left >> 8) as u8, (right & 0xff) as u8, (right >> 8) as u8];
                    assert(full_rows(before, data, y as nat).0 == row + full_rows(d2, data, y as nat + 1).0);
                    assert(cells@ + full_rows(self.decoding(bits@.pos), data, y as nat + 1).0 =~= full_rows(d0, data, 0).0);
                }
                y += 1;
            }
            proof {
                assert(full_rows(self.decoding(bits@.pos), data, 4).0 =~= Seq::<u8>::empty());
                assert(cells@ =~= full_rows(d0, data, 0).0);
            }
        } else {
            cells = fill_block_cells(mode as u8);
        }
        let ghost mid = self.decoding(bits@.pos);
        put_block(&mut self.picture, stride, bx, by, cells.as_slice());
        proof {
            if kind == MONO {
                let (colours, d1) = decoded(d0, colour_tree(), data);
                let (map, d2) = decoded(d1, map_tree(), data);
                assert(d1.trees =~= seq![old(self).trees.map@, self.trees.colour@, old(self).trees.full@, old(self).trees.kind@]);
                assert(d2.trees =~= mid.trees);
            } else if kind == FULL {
            } else {
                assert(mid == d0);
            }
            assert(self.decoding(bits@.pos).trees =~= block_done(d0, data, kind, mode, block as nat, across as nat, stride as nat).trees);
        }
    }

    /// The block stream. The picture is 4x4 blocks in rows, and a type code
    /// carries a kind, a run of blocks and, for a fill, the colour. The
    /// trees' caches start empty: carrying them over from the frame before
    /// puts the decoder out of step with the stream.
    fn video(&mut self, chunk: &[u8])
        requires
            old(self).playable(),
        ensures
            ({
                let across = (old(self).movie.width / 4) as nat;
                let blocks = across * (old(self).movie.height / 4) as nat;
                let start = Decoding { pixels: old(self).picture@, trees: fresh_caches(old(self).trees_of()), pos: 0 };
                let d = video_from(start, chunk@, 0, blocks, across, old(self).movie.width as nat, 0, 0, 0);
                &&& final(self).picture@ == d.pixels
                &&& final(self).trees_of() == d.trees
            }),
            final(self).playable(),
            final(self).movie == old(self).movie,
            final(self).palette == old(self).palette,
            final(self).sound == old(self).sound,
            final(self).next == old(self).next,
    {
        let across = self.movie.width / 4;
        let down = self.movie.height / 4;
        proof {
            assert(across * down <= self.movie.width * self.movie.height) by (nonlinear_arith)
                requires across == self.movie.width / 4, down == self.movie.height / 4;
        }
        let stride = self.movie.width;
        let plen = self.picture.len();
        self.trees.map.reset();
        self.trees.colour.reset();
        self.trees.full.reset();
        self.trees.kind.reset();
        assert(self.trees_of() =~= fresh_caches(old(self).trees_of()));
        let mut bits = Bits::new(chunk);
        let mut block: usize = 0;
        let blocks = across * down;
        let ghost whole = video_from(self.decoding(0), chunk@, 0, blocks as nat, across as nat, stride as nat, 0, 0, 0);
        while block < blocks && !bits.past_end()
            invariant
                self.playable(),
                self.movie == old(self).movie,
                self.palette == old(self).palette,
                self.sound == old(self).sound,
                self.next == old(self).next,
                across == self.movie.width / 4,
                blocks == across * (self.movie.height / 4),
                stride == self.movie.width,
                bits@.data == chunk@,
                block <= blocks,
                video_from(self.decoding(bits@.pos), chunk@, block as nat, blocks as nat, across as nat, stride as nat, 0, 0, 0) == whole,
            decreases blocks - block,
        {
            let ghost d = self.decoding(bits@.pos);
            let code = self.trees.kind.decode(&mut bits);
            let kind = code & 3;
            let index = ((code >> 2) & 0x3f) as usize;
            assert(index < 64) by (bit_vector)
                requires index == ((code >> 2) & 0x3f);
            let mut run = RUNS[index];
            let mode = code >> 8;
            proof {
                lemma_runs_positive(index as int);
                let (c, d1) = decoded(d, kind_tree(), chunk@);
                assert(d1.trees =~= self.decoding(bits@.pos).trees);
                assert(d1 == self.decoding(bits@.pos));
                assert(kind == SKIP ==> kind == c & 3);
            }
            let ghost b0 = block;
            let ghost r0 = run;
            if kind == SKIP {
                block += if run <= blocks - block { run } else { blocks - block };
                proof {
                    lemma_no_run(self.decoding(bits@.pos), chunk@, block as nat, blocks as nat, across as nat, stride as nat, kind, mode);
                }
            } else {
                while run > 0 && block < blocks
                    invariant
                        self.playable(),
                        self.movie == old(self).movie,
                        self.palette == old(self).palette,
                        self.sound == old(self).sound,
                        self.next == old(self).next,
                        across == self.movie.width / 4,
                        blocks == across * (self.movie.height / 4),
                        stride == self.movie.width,
                        bits@.data == chunk@,
                        block <= blocks,
                        video_from(self.decoding(bits@.pos), chunk@, block as nat, blocks as nat, across as nat, stride as nat, kind, run as nat, mode) == whole,
                        block == b0 + (r0 - run),
                        run <= r0,
                    decreases run,
                {
                    self.block(&mut bits, kind, mode, block, across);
                    block += 1;
                    run -= 1;
                }
                proof {
                    if block < blocks {
                        assert(run == 0);
                        lemma_no_run(self.decoding(bits@.pos), chunk@, block as nat, blocks as nat, across as nat, stride as nat, kind, mode);
                    }
                }
            }
        }
        proof {
            assert(video_from(self.decoding(bits@.pos), chunk@, block as nat, blocks as nat, across as nat, stride as nat, 0, 0, 0) == self.decoding(bits@.pos));
        }
    }
}

/// The audio tracks of a frame from `track` on, each behind its own
/// four-byte length (at least four, at most what is left): whether they were
/// all there, what follows them, and track 0's samples where it is one of
/// them.
pub open spec fn tracks(chunk: Seq<u8>, kind: u8, track: nat, sound: Seq<i16>) -> (bool, Seq<u8>, Seq<i16>)
    decreases 7 - track,
{
    if track >= 7 {
        (true, chunk, sound)
    } else if (kind >> ((track + 1) as u8)) & 1 == 0 {
        tracks(chunk, kind, track + 1, sound)
    } else if chunk.len() < 4 {
        (false, chunk, sound)
    } else {
        let n = le_u32(chunk, 0) as int;
        let length = if n < 4 { 4 } else if n > chunk.len() { chunk.len() as int } else { n };
        let heard = if track == 0 { sound_of(chunk.subrange(4, length)) } else { sound };
        tracks(chunk.subrange(length, chunk.len() as int), kind, track + 1, heard)
    }
}

/// What a player holds that playing changes.
pub struct Playing {
    pub trees: Seq<TreeView>,
    pub palette: Seq<[u8; 3]>,
    pub picture: Seq<u8>,
    pub sound: Seq<i16>,
    pub next: nat,
}

/// Whether decoding the next frame would index an empty chunk for its
/// palette: a frame that says it carries one and has no bytes.
pub open spec fn empty_palette_frame(movie: Movie, next: nat, data: Seq<u8>) -> bool {
    &&& next < movie.sizes@.len()
    &&& frame_start(movie.first as int, movie.sizes@, next as int) + movie.sizes@[next as int] <= data.len()
    &&& next < movie.kinds@.len() && movie.kinds@[next as int] & 1 != 0
    &&& movie.sizes@[next as int] == 0
}

/// Whether the frame offsets up to the next frame's end fit the machine's
/// word.
pub open spec fn offsets_fit(movie: Movie, next: nat) -> bool {
    frame_start(movie.first as int, movie.sizes@, if next + 1 <= movie.sizes@.len() { next + 1 as int } else { movie.sizes@.len() as int }) <= usize::MAX
}

/// What decoding the next frame gives: false, and nothing changed, past the
/// last frame or where the frame runs past the data; else the palette chunk
/// where the frame has one (its first byte gives its length in fours), the
/// audio tracks (false, with the palette and sound as they then stand, where
/// one is cut short), and the block stream, and the frame counted.
pub open spec fn step_of(movie: Movie, s: Playing, data: Seq<u8>) -> (bool, Playing) {
    let next = s.next;
    if next >= movie.sizes@.len() {
        (false, s)
    } else {
        let at = frame_start(movie.first as int, movie.sizes@, next as int);
        let size = movie.sizes@[next as int] as int;
        if at + size > data.len() {
            (false, s)
        } else {
            let kind: u8 = if next < movie.kinds@.len() { movie.kinds@[next as int] } else { 0 };
            let chunk = data.subrange(at, at + size);
            let length = if chunk[0] as int * 4 <= chunk.len() { chunk[0] as int * 4 } else { chunk.len() as int };
            let palette = if kind & 1 != 0 {
                repalette_from(s.palette, chunk.subrange(1, if length > 1 { length } else { 1 }), 0, 0, s.palette)
            } else {
                s.palette
            };
            let rest = if kind & 1 != 0 { chunk.subrange(length, chunk.len() as int) } else { chunk };
            let (whole, after, sound) = tracks(rest, kind, 0, Seq::empty());
            if !whole {
                (false, Playing { palette, sound, ..s })
            } else {
                let across = (movie.width / 4) as nat;
                let blocks = across * (movie.height / 4) as nat;
                let d = video_from(Decoding { pixels: s.picture, trees: fresh_caches(s.trees), pos: 0 }, after, 0, blocks, across, movie.width as nat, 0, 0, 0);
                (true, Playing { trees: d.trees, palette, picture: d.pixels, sound, next: next + 1 })
            }
        }
    }
}

/// The state after `n` steps.
pub open spec fn steps(movie: Movie, s: Playing, data: Seq<u8>, n: nat) -> Playing
    decreases n,
{
    if n == 0 { s } else { steps(movie, step_of(movie, s, data).1, data, (n - 1) as nat) }
}

/// Whether each of `n` steps decodes a frame.
pub open spec fn all_decode(movie: Movie, s: Playing, data: Seq<u8>, n: nat) -> bool
    decreases n,
{
    n == 0 || (step_of(movie, s, data).0 && all_decode(movie, step_of(movie, s, data).1, data, (n - 1) as nat))
}

/// A step that decodes a frame moves on to the next one, a step that does
/// not stays where it was, and a step past the last frame changes nothing.
pub proof fn law_one_frame_a_step(movie: Movie, s: Playing, data: Seq<u8>)
    ensures
        step_of(movie, s, data).0 ==> step_of(movie, s, data).1.next == s.next + 1,
        !step_of(movie, s, data).0 ==> step_of(movie, s, data).1.next == s.next,
        s.next >= movie.sizes@.len() ==> step_of(movie, s, data) == (false, s),
{
}

/// Over successive steps that each decode a frame, the frame count rises by
/// one a step; when they have decoded every frame left, the next step
/// returns false and changes nothing.
pub proof fn law_frames_in_turn(movie: Movie, s: Playing, data: Seq<u8>, n: nat)
    requires
        all_decode(movie, s, data, n),
    ensures
        steps(movie, s, data, n).next == s.next + n,
        s.next + n == movie.sizes@.len() ==> step_of(movie, steps(movie, s, data, n), data) == (false, steps(movie, s, data, n)),
    decreases n,
{
    if n > 0 {
        law_one_frame_a_step(movie, s, data);
        law_frames_in_turn(movie, step_of(movie, s, data).1, data, (n - 1) as nat);
    }
    law_one_frame_a_step(movie, steps(movie, s, data, n), data);
}

/// Decoding a frame starts every tree's cache of recent values afresh, so
/// what a frame decodes to depends on the frames before it only through the
/// picture and palette they left, never on the values they decoded.
pub proof fn law_frames_forget_the_caches(movie: Movie, a: Playing, b: Playing, data: Seq<u8>)
    requires
        a.next == b.next,
        a.palette == b.palette,
        a.picture == b.picture,
        fresh_caches(a.trees) == fresh_caches(b.trees),
    ensures
        step_of(movie, a, data).0 == step_of(movie, b, data).0,
        step_of(movie, a, data).1.picture == step_of(movie, b, data).1.picture,
        step_of(movie, a, data).1.palette == step_of(movie, b, data).1.palette,
        step_of(movie, a, data).1.sound == step_of(movie, b, data).1.sound || !step_of(movie, a, data).0,
        step_of(movie, a, data).1.trees == step_of(movie, b, data).1.trees || !step_of(movie, a, data).0,
        step_of(movie, a, data).1.next == step_of(movie, b, data).1.next,
{
}

impl Player {
    /// What playing changes, as it stands.
    pub open spec fn playing(&self) -> Playing {
        Playing { trees: self.trees_of(), palette: self.palette@, picture: self.picture@, sound: self.sound@, next: self.next as nat }
    }

    /// Start a movie: its header, its trees, a black palette and picture, and
    /// the first frame next.
    pub fn new(data: &[u8]) -> (r: Result<Player>)
        requires
            header_fits(data@),
            smk_fault(data@) is None ==> word(data@, 4) * word(data@, 8) <= usize::MAX,
        ensures
            match smk_fault(data@) {
                None => r matches Ok(p) && {
                    &&& movie_matches(p.movie_of(), data@)
                    &&& p.trees_of() == trees_of(p.movie_of().trees@).0
                    &&& p.palette_of() == Seq::new(256, |i: int| [0u8, 0, 0])
                    &&& p.picture_of() == Seq::new((p.movie_of().width * p.movie_of().height) as nat, |i: int| 0u8)
                    &&& p.sound_of() == Seq::<i16>::empty()
                    &&& p.next_frame() == 0
                    &&& p.playable()
                },
                Some(f) => r matches Err(e) && smk_refused(e, f, data@),
            },
    {
        let movie = match Movie::parse(data) {
            Ok(m) => m,
            Err(e) => return Err(e),
        };
        let trees = Trees::parse(movie.trees.as_slice());
        let size = movie.width * movie.height;
        let mut picture: Vec<u8> = Vec::new();
        let mut i: usize = 0;
        while i < size
            invariant
                i <= size,
                picture@ == Seq::new(i as nat, |j: int| 0u8),
            decreases size - i,
        {
            picture.push(0);
            i += 1;
            proof {
                assert(picture@ =~= Seq::new(i as nat, |j: int| 0u8));
            }
        }
        let mut palette: Vec<[u8; 3]> = Vec::new();
        let mut k: usize = 0;
        while k < 256
            invariant
                k <= 256,
                palette@ == Seq::new(k as nat, |j: int| [0u8, 0, 0]),
            decreases 256 - k,
        {
            palette.push([0, 0, 0]);
            k += 1;
            proof {
                assert(palette@ =~= Seq::new(k as nat, |j: int| [0u8, 0, 0]));
            }
        }
        let p = Player { movie, trees, palette, picture, sound: Vec::new(), next: 0 };
        proof {
            assert(p.trees_of() =~= trees_of(p.movie.trees@).0);
        }
        Ok(p)
    }

    /// Decode the next frame into the picture, from the whole file. False at
    /// the end.
    pub fn step(&mut self, data: &[u8]) -> (r: bool)
        requires
            old(self).playable(),
            offsets_fit(old(self).movie_of(), old(self).next_frame()),
            !empty_palette_frame(old(self).movie_of(), old(self).next_frame(), data@),
        ensures
            (r, final(self).playing()) == step_of(old(self).movie_of(), old(self).playing(), data@),
            final(self).movie_of() == old(self).movie_of(),
            final(self).playable(),
    {
        let ghost first = self.movie.first as int;
        let ghost sizes = self.movie.sizes@;
        let ghost next = self.next as int;
        let ghost before = self.playing();
        let ghost spec = step_of(self.movie, before, data@);
        let count = self.movie.sizes.len();
        let ghost last: int = if next + 1 <= sizes.len() { next + 1 } else { sizes.len() as int };
        proof {
            lemma_frame_start_grows(first, sizes, if next < sizes.len() { next } else { sizes.len() as int }, last);
            lemma_frame_start_grows(first, sizes, 0, if next < sizes.len() { next } else { sizes.len() as int });
        }
        let (at, size) = match self.movie.frame_at(self.next) {
            None => return false,
            Some(found) => found,
        };
        proof {
            assert(at == frame_start(first, sizes, next));
            assert(size == sizes[next]);
            assert(frame_start(first, sizes, next + 1) == frame_start(first, sizes, next) + sizes[next]);
            assert(at + size <= usize::MAX);
        }
        if at + size > data.len() {
            return false;
        }
        let kind: u8 = if self.next < self.movie.kinds.len() { self.movie.kinds[self.next] } else { 0 };
        self.sound = Vec::new();
        let mut chunk = &data[at..at + size];
        let ghost whole_chunk = chunk@;
        proof {
            assert(whole_chunk == data@.subrange(at as int, at + size));
        }
        proof {
            assert((0u8 & 1u8) == 0u8) by (bit_vector);
        }
        if kind & 1 != 0 {
            proof {
                assert(next < self.movie.kinds@.len() && self.movie.kinds@[next] & 1 != 0);
                assert(size > 0);
            }
            let length: usize = if (chunk[0] as usize) * 4 <= chunk.len() { chunk[0] as usize * 4 } else { chunk.len() };
            let upto: usize = if length > 1 { length } else { 1 };
            proof {
                assert(chunk@.subrange(1, upto as int) == whole_chunk.subrange(1, upto as int));
            }
            self.repalette(&chunk[1..upto]);
            chunk = &chunk[length..chunk.len()];
        }
        let ghost after_palette = chunk@;
        let ghost palette = self.palette@;
        proof {
            let length = if whole_chunk[0] as int * 4 <= whole_chunk.len() { whole_chunk[0] as int * 4 } else { whole_chunk.len() as int };
            assert(palette == (if kind & 1 != 0 {
                repalette_from(before.palette, whole_chunk.subrange(1, if length > 1 { length } else { 1 }), 0, 0, before.palette)
            } else {
                before.palette
            }));
            assert(after_palette == (if kind & 1 != 0 {
                whole_chunk.subrange((if whole_chunk[0] as int * 4 <= whole_chunk.len() { whole_chunk[0] as int * 4 } else { whole_chunk.len() as int }), whole_chunk.len() as int)
            } else { whole_chunk }));
        }
        let ghost heard = tracks(after_palette, kind, 0, Seq::empty());
        proof {
            assert(!heard.0 ==> spec == (false, Playing { palette, sound: heard.2, ..before }));
        }
        // The seven audio tracks, each behind its own four-byte length.
        let mut track: usize = 0;
        while track < 7
            invariant
                track <= 7,
                self.playable(),
                self.movie == old(self).movie,
                self.next == old(self).next,
                self.trees == old(self).trees,
                self.picture == old(self).picture,
                self.palette@ == palette,
                tracks(chunk@, kind, track as nat, self.sound@) == heard,
                heard == tracks(after_palette, kind, 0, Seq::empty()),
                !heard.0 ==> spec == (false, Playing { palette, sound: heard.2, ..before }),
                before == old(self).playing(),
                spec == step_of(old(self).movie, before, data@),
            decreases 7 - track,
        {
            if (kind >> ((track + 1) as u8)) & 1 == 0 {
                track += 1;
                continue;
            }
            if chunk.len() < 4 {
                return false;
            }
            let n = u32_at(chunk, 0) as usize;
            let length = if n < 4 { 4 } else if n > chunk.len() { chunk.len() } else { n };
            if track == 0 {
                self.sound = sound(&chunk[4..length]);
            }
            chunk = &chunk[length..chunk.len()];
            track += 1;
        }
        self.video(chunk);
        self.next += 1;
        proof {
            assert(self.trees_of() =~= self.playing().trees);
        }
        true
    }
}

/// Whether every frame of a movie can be decoded from some data: its offsets
/// fit the machine's word, and no frame that says it carries a palette is
/// empty.
pub open spec fn plays(movie: Movie, data: Seq<u8>) -> bool {
    forall|n: nat|
        #![trigger offsets_fit(movie, n)]
        #![trigger empty_palette_frame(movie, n, data)]
        n <= movie.sizes@.len() ==> offsets_fit(movie, n) && !empty_palette_frame(movie, n, data)
}

impl Movie {
    /// Whether every frame can be decoded from `data`: see [`plays`].
    pub fn plays_in(&self, data: &[u8]) -> (r: bool)
        ensures
            r == plays(*self, data@),
    {
        let ghost first = self.first as int;
        let ghost sizes = self.sizes@;
        let mut at: u128 = self.first as u128;
        let mut i: usize = 0;
        while i < self.sizes.len()
            invariant
                first == self.first && sizes == self.sizes@,
                i <= sizes.len(),
                at == frame_start(first, sizes, i as int),
                at <= usize::MAX,
                forall|n: nat| n + 1 <= i ==> #[trigger] offsets_fit(*self, n) && !empty_palette_frame(*self, n, data@),
            decreases sizes.len() - i,
        {
            let size = self.sizes[i];
            proof {
                assert(frame_start(first, sizes, i + 1) == at + size);
            }
            if at + size as u128 > usize::MAX as u128 {
                proof {
                    assert(!offsets_fit(*self, i as nat));
                }
                return false;
            }
            if at + size as u128 <= data.len() as u128 && i < self.kinds.len() && self.kinds[i] & 1 != 0 && size == 0 {
                proof {
                    assert(empty_palette_frame(*self, i as nat, data@));
                }
                return false;
            }
            proof {
                assert(offsets_fit(*self, i as nat));
                assert(!empty_palette_frame(*self, i as nat, data@));
                assert forall|n: nat| n + 1 <= i + 1 implies #[trigger] offsets_fit(*self, n) && !empty_palette_frame(*self, n, data@) by {
                    if n < i {
                        assert(n + 1 <= i);
                    }
                }
            }
            at = at + size as u128;
            i += 1;
        }
        proof {
            assert forall|n: nat| n <= self.sizes@.len() implies #[trigger] offsets_fit(*self, n) && !empty_palette_frame(*self, n, data@) by {
                if n == i {
                    assert(i == sizes.len());
                    assert(frame_start(first, sizes, sizes.len() as int) <= usize::MAX);
                    assert(offsets_fit(*self, n));
                } else {
                    assert(n + 1 <= i);
                }
            }
        }
        true
    }
}

} // verus!
