//! The `.MOD` music: 6-channel ProTracker.
//!
//! All 15 modules in the archives carry the `6CHN` tag at offset 1080 and the
//! standard 31-sample ProTracker layout.

use vstd::prelude::*;
use crate::bytes::{cstr, cstr_bytes, utf8_lossy, chars_of, string_of};
use crate::text_core::{trim_end, trim_end_chars};

verus! {

/// Where the four-byte channel tag lives.
pub const TAG_AT: usize = 1080;
/// The header is always this long, whatever the channel count.
pub const HEADER: usize = 1084;
pub const ROWS: usize = 64;

#[derive(Debug, Clone)]
pub struct Sample {
    pub name: String,
    /// In samples, not words.
    pub length: usize,
    /// -8 to 7, as a signed nibble.
    pub finetune: i8,
    /// 0 to 64.
    pub volume: u8,
    pub repeat_from: usize,
    pub repeat_len: usize,
    /// Signed 8-bit PCM.
    pub data: Vec<i8>,
}

impl Sample {
    /// Whether the sample repeats: a repeat longer than one word.
    pub fn loops(&self) -> (r: bool)
        ensures
            r == (self.repeat_len > 2),
    {
        self.repeat_len > 2
    }
}

/// One cell of a pattern: what a channel does on a row.
#[derive(Debug, Clone, Copy, Default, PartialEq, Eq)]
pub struct Note {
    /// Amiga period, or 0 for no new note.
    pub period: u16,
    /// 1-based, or 0 for "keep the current one".
    pub sample: u8,
    pub effect: u8,
    pub argument: u8,
}

#[derive(Debug, Clone)]
pub struct Module {
    pub title: String,
    pub channels: usize,
    pub samples: Vec<Sample>,
    /// Pattern index per position.
    pub order: Vec<u8>,
    pub restart: u8,
    /// `patterns[p][row][channel]`.
    pub patterns: Vec<Vec<Vec<Note>>>,
}

#[derive(Debug)]
pub enum Error {
    TooShort,
    UnknownTag([u8; 4]),
}

// ---------------------------------------------------------------------------
// The format, as values.

/// A text field: the bytes before the first NUL, read as UTF-8 with
/// replacement, trailing whitespace dropped.
pub open spec fn text_of(raw: Seq<u8>) -> Seq<char> {
    trim_end(utf8_lossy(cstr_bytes(raw)))
}

fn text(raw: &[u8]) -> (r: String)
    ensures
        r@ == text_of(raw@),
{
    let s = cstr(raw);
    let c = chars_of(s.as_str());
    let t = trim_end_chars(c.as_slice());
    string_of(t.as_slice())
}

pub open spec fn is_digit_byte(b: u8) -> bool {
    48 <= b <= 57
}

/// The channels a tag names: `M.K.`, `M!K!` and `FLT4` are four; `nCHN`
/// and `nnCH` carry the count in decimal.
pub open spec fn channels_of(t: Seq<u8>) -> Option<usize> {
    if t == seq![0x4du8, 0x2e, 0x4b, 0x2e] || t == seq![0x4du8, 0x21, 0x4b, 0x21] || t == seq![0x46u8, 0x4c, 0x54, 0x34] {
        Some(4)
    } else if is_digit_byte(t[0]) && t[1] == 0x43 && t[2] == 0x48 && t[3] == 0x4e {
        Some((t[0] - 48) as usize)
    } else if is_digit_byte(t[0]) && is_digit_byte(t[1]) && t[2] == 0x43 && t[3] == 0x48 {
        Some(((t[0] - 48) * 10 + (t[1] - 48)) as usize)
    } else {
        None
    }
}

/// Channels for a tag. `M.K.` and `M!K!` are the four-channel originals;
/// `nCHN` and `nnCH` carry the count in the tag.
pub fn channels_for(tag: &[u8; 4]) -> (r: Option<usize>)
    ensures
        r == channels_of(tag@),
{
    let t = *tag;
    let (a, b, c, d) = (t[0], t[1], t[2], t[3]);
    proof {
        assert(tag@ == seq![a, b, c, d]);
    }
    if (a == 0x4d && b == 0x2e && c == 0x4b && d == 0x2e) || (a == 0x4d && b == 0x21 && c == 0x4b && d == 0x21)
        || (a == 0x46 && b == 0x4c && c == 0x54 && d == 0x34) {
        Some(4)
    } else if a >= 48 && a <= 57 && b == 0x43 && c == 0x48 && d == 0x4e {
        Some((a - 48) as usize)
    } else if a >= 48 && a <= 57 && b >= 48 && b <= 57 && c == 0x43 && d == 0x48 {
        Some(((a - 48) * 10 + (b - 48)) as usize)
    } else {
        proof {
            assert(tag@ != seq![0x4du8, 0x2e, 0x4b, 0x2e]);
            assert(tag@ != seq![0x4du8, 0x21, 0x4b, 0x21]);
            assert(tag@ != seq![0x46u8, 0x4c, 0x54, 0x34]);
        }
        None
    }
}

/// A big-endian `u16`.
pub open spec fn be16(data: Seq<u8>, at: int) -> int {
    data[at] * 256 + data[at + 1]
}

/// A note from its four bytes: the period's high nibble and the sample's
/// high nibble share the first byte.
pub open spec fn note_of(b0: u8, b1: u8, b2: u8, b3: u8) -> Note {
    Note {
        period: ((b0 % 16) * 256 + b1) as u16,
        sample: ((b0 / 16) * 16 + b2 / 16) as u8,
        effect: b2 % 16,
        argument: b3,
    }
}

/// The `k`th note after the header, or an empty note where the file has
/// ended.
pub open spec fn note_in(data: Seq<u8>, k: int) -> Note {
    let at = HEADER + 4 * k;
    if at + 4 <= data.len() {
        note_of(data[at], data[at + 1], data[at + 2], data[at + 3])
    } else {
        Note { period: 0, sample: 0, effect: 0, argument: 0 }
    }
}

/// How many patterns there are: one more than the highest the order uses.
pub open spec fn pattern_count(order: Seq<u8>) -> int
    decreases order.len(),
{
    if order.len() == 0 {
        1
    } else {
        let rest = pattern_count(order.drop_last());
        if order.last() + 1 > rest { order.last() + 1 } else { rest }
    }
}

/// The order: the song length's worth of the 128 positions.
pub open spec fn order_of(data: Seq<u8>) -> Seq<u8> {
    let length = if data[950] < 128 { data[950] as int } else { 128 };
    data.subrange(952, 952 + length)
}

/// Pattern `p`: its rows of notes, one a channel.
pub open spec fn pattern_of(data: Seq<u8>, channels: int, p: int) -> Seq<Seq<Note>> {
    Seq::new(
        ROWS as nat,
        |r: int| Seq::new(channels as nat, |c: int| note_in(data, (p * ROWS + r) * channels + c)),
    )
}

/// Where the patterns end: after as many whole notes as the file holds, up
/// to all of them.
pub open spec fn patterns_end(data: Seq<u8>, notes: int) -> int {
    let whole = (data.len() - HEADER) / 4;
    HEADER + 4 * (if notes < whole { notes } else { whole })
}

pub struct SampleView {
    pub name: Seq<char>,
    pub length: usize,
    pub finetune: i8,
    pub volume: u8,
    pub repeat_from: usize,
    pub repeat_len: usize,
    pub data: Seq<i8>,
}

pub open spec fn sample_view(s: Sample) -> SampleView {
    SampleView {
        name: s.name@,
        length: s.length,
        finetune: s.finetune,
        volume: s.volume,
        repeat_from: s.repeat_from,
        repeat_len: s.repeat_len,
        data: s.data@,
    }
}

/// Sample `i`'s length in samples: its word count doubled.
pub open spec fn sample_length(data: Seq<u8>, i: int) -> int {
    be16(data, 20 + 30 * i + 22) * 2
}

/// Where sample `i`'s data starts: after the patterns and the samples
/// before it.
pub open spec fn sample_start(data: Seq<u8>, end: int, i: int) -> int
    decreases i,
{
    if i <= 0 { end } else { sample_start(data, end, i - 1) + sample_length(data, i - 1) }
}

/// The signed nibble: 8 to 15 are -8 to -1.
pub open spec fn finetune_of(b: u8) -> i8 {
    let n = b % 16;
    (if n > 7 { n - 16 } else { n as int }) as i8
}

/// Sample `i`: its 30-byte header, and as much of its data as the file holds
/// from where it starts. A repeat that runs past the data is dropped.
pub open spec fn sample_of(data: Seq<u8>, end: int, i: int) -> SampleView {
    sample_at(data, sample_start(data, end, i), i)
}

/// Sample `i` with its data starting at `start`.
pub open spec fn sample_at(data: Seq<u8>, start: int, i: int) -> SampleView {
    let at = 20 + 30 * i;
    let length = sample_length(data, i);
    let from = if start < data.len() { start } else { data.len() as int };
    let to = if start + length < data.len() { start + length } else { data.len() as int };
    let pcm = data.subrange(from, to).map_values(|b: u8| b as i8);
    let repeat_from = be16(data, at + 26) * 2;
    let repeat_len = be16(data, at + 28) * 2;
    SampleView {
        name: text_of(data.subrange(at, at + 22)),
        length: length as usize,
        finetune: finetune_of(data[at + 24]),
        volume: if data[at + 25] < 64 { data[at + 25] } else { 64 },
        repeat_from: repeat_from as usize,
        repeat_len: (if repeat_from + repeat_len > pcm.len() { 0 } else { repeat_len }) as usize,
        data: pcm,
    }
}

pub struct ModuleView {
    pub title: Seq<char>,
    pub channels: usize,
    pub samples: Seq<SampleView>,
    pub order: Seq<u8>,
    pub restart: u8,
    pub patterns: Seq<Seq<Seq<Note>>>,
}

/// A pattern's rows as values.
pub open spec fn rows_view(p: Vec<Vec<Note>>) -> Seq<Seq<Note>> {
    p@.map_values(|r: Vec<Note>| r@)
}

pub open spec fn module_view(m: Module) -> ModuleView {
    ModuleView {
        title: m.title@,
        channels: m.channels,
        samples: m.samples@.map_values(|s: Sample| sample_view(s)),
        order: m.order@,
        restart: m.restart,
        patterns: m.patterns@.map_values(|p: Vec<Vec<Note>>| rows_view(p)),
    }
}

/// A module file, or why it is not one.
pub open spec fn module_of(data: Seq<u8>) -> core::result::Result<ModuleView, Error> {
    if data.len() < HEADER {
        Err(Error::TooShort)
    } else {
        let tag = data.subrange(TAG_AT as int, TAG_AT + 4);
        match channels_of(tag) {
            None => Err(Error::UnknownTag([tag[0], tag[1], tag[2], tag[3]])),
            Some(channels) => {
                let order = order_of(data);
                let count = pattern_count(order);
                let end = patterns_end(data, count * ROWS * channels);
                Ok(ModuleView {
                    title: text_of(data.subrange(0, 20)),
                    channels,
                    samples: Seq::new(31, |i: int| sample_of(data, end, i)),
                    order,
                    restart: data[951],
                    patterns: Seq::new(count as nat, |p: int| pattern_of(data, channels as int, p)),
                })
            },
        }
    }
}

/// A pattern's notes are stored a row at a time, the channels in order
/// within a row, four bytes a note after the header: pattern `p`, row `r`,
/// channel `c` is the note whose bytes start at
/// `1084 + 4 * ((p * 64 + r) * channels + c)`. Its period is the first byte's
/// low nibble over the second byte, its sample the first byte's high nibble
/// over the third byte's, its effect the third byte's low nibble and its
/// argument the fourth byte.
pub proof fn law_notes_are_row_major(data: Seq<u8>, p: int, r: int, c: int)
    requires
        module_of(data) is Ok,
        0 <= p < module_of(data)->Ok_0.patterns.len(),
        0 <= r < 64,
        0 <= c < module_of(data)->Ok_0.channels,
        1084 + 4 * ((p * 64 + r) * module_of(data)->Ok_0.channels + c) + 4 <= data.len(),
    ensures
        ({
            let m = module_of(data)->Ok_0;
            let at = 1084 + 4 * ((p * 64 + r) * m.channels + c);
            m.patterns[p][r][c] == Note {
                period: ((data[at] % 16) * 256 + data[at + 1]) as u16,
                sample: ((data[at] / 16) * 16 + data[at + 2] / 16) as u8,
                effect: data[at + 2] % 16,
                argument: data[at + 3],
            }
        }),
{
    let m = module_of(data)->Ok_0;
    assert(m.patterns[p] == pattern_of(data, m.channels as int, p));
    assert(m.patterns[p][r][c] == note_in(data, (p * ROWS + r) * m.channels + c));
}

// ---------------------------------------------------------------------------
// The reader.

fn be16_at(data: &[u8], at: usize) -> (r: usize)
    requires
        at + 2 <= data@.len(),
    ensures
        r == be16(data@, at as int),
{
    data[at] as usize * 256 + data[at + 1] as usize
}

fn note_at(data: &[u8], k: usize) -> (r: Note)
    requires
        k <= 0x1000_0000,
    ensures
        r == note_in(data@, k as int),
{
    let at = HEADER + 4 * k;
    if at <= data.len() && 4 <= data.len() - at {
        let (b0, b1, b2, b3) = (data[at], data[at + 1], data[at + 2], data[at + 3]);
        Note {
            period: (b0 % 16) as u16 * 256 + b1 as u16,
            sample: (b0 / 16) * 16 + b2 / 16,
            effect: b2 % 16,
            argument: b3,
        }
    } else {
        Note { period: 0, sample: 0, effect: 0, argument: 0 }
    }
}

fn read_pattern(data: &[u8], channels: usize, p: usize) -> (r: Vec<Vec<Note>>)
    requires
        channels <= 99,
        p < 256,
    ensures
        rows_view(r) == pattern_of(data@, channels as int, p as int),
{
    let mut rows: Vec<Vec<Note>> = Vec::new();
    let mut r: usize = 0;
    while r < ROWS
        invariant
            r <= ROWS,
            channels <= 99,
            p < 256,
            rows@.len() == r,
            forall|i: int| 0 <= i < r ==> #[trigger] rows@[i]@ == pattern_of(data@, channels as int, p as int)[i],
        decreases ROWS - r,
    {
        let mut row: Vec<Note> = Vec::new();
        let mut c: usize = 0;
        while c < channels
            invariant
                c <= channels <= 99,
                r < ROWS,
                p < 256,
                row@.len() == c,
                forall|j: int| 0 <= j < c ==> #[trigger] row@[j] == note_in(data@, (p * ROWS + r) * channels + j),
            decreases channels - c,
        {
            assert((p * ROWS + r) * channels + c <= 0x1000_0000) by (nonlinear_arith)
                requires
                    p < 256,
                    r < 64,
                    c < channels <= 99,
                    ROWS == 64,
            ;
            row.push(note_at(data, (p * ROWS + r) * channels + c));
            c += 1;
        }
        assert(row@ =~= pattern_of(data@, channels as int, p as int)[r as int]);
        rows.push(row);
        r += 1;
    }
    assert(rows@.map_values(|row: Vec<Note>| row@) =~= pattern_of(data@, channels as int, p as int));
    rows
}

proof fn lemma_pattern_count(order: Seq<u8>)
    ensures
        1 <= pattern_count(order) <= 256,
        forall|i: int| 0 <= i < order.len() ==> order[i] < pattern_count(order),
    decreases order.len(),
{
    if order.len() > 0 {
        let rest = order.drop_last();
        lemma_pattern_count(rest);
        assert forall|i: int| 0 <= i < order.len() implies order[i] < pattern_count(order) by {
            if i < rest.len() {
                assert(rest[i] == order[i]);
            }
        }
    }
}

/// One more than the highest pattern the order uses.
fn count_patterns(order: &[u8]) -> (r: usize)
    ensures
        r == pattern_count(order@),
        1 <= r <= 256,
{
    let mut count: usize = 1;
    let mut i: usize = 0;
    while i < order.len()
        invariant
            i <= order@.len(),
            count == pattern_count(order@.take(i as int)),
        decreases order@.len() - i,
    {
        proof {
            lemma_pattern_count(order@.take(i as int));
            assert(order@.take(i + 1).drop_last() =~= order@.take(i as int));
        }
        if order[i] as usize + 1 > count {
            count = order[i] as usize + 1;
        }
        i += 1;
    }
    assert(order@.take(i as int) =~= order@);
    proof {
        lemma_pattern_count(order@);
    }
    count
}

proof fn lemma_start_grows(data: Seq<u8>, end: int, i: int)
    requires
        0 <= i <= 31,
        data.len() >= HEADER,
    ensures
        end <= sample_start(data, end, i) <= end + i * 131070,
    decreases i,
{
    if i > 0 {
        lemma_start_grows(data, end, i - 1);
    }
}

fn read_sample(data: &[u8], i: usize, start: usize) -> (r: Sample)
    requires
        i < 31,
        data@.len() >= HEADER,
        start <= 0x1000_0000,
    ensures
        sample_view(r) == sample_at(data@, start as int, i as int),
{
    let at = 20 + i * 30;
    let length = be16_at(data, at + 22) * 2;
    let nibble = data[at + 24] % 16;
    let finetune: i8 = if nibble > 7 { nibble as i8 - 16 } else { nibble as i8 };
    let volume = if data[at + 25] < 64 { data[at + 25] } else { 64 };
    let repeat_from = be16_at(data, at + 26) * 2;
    let mut repeat_len = be16_at(data, at + 28) * 2;
    let from = if start < data.len() { start } else { data.len() };
    let to = if start + length < data.len() { start + length } else { data.len() };
    let mut pcm: Vec<i8> = Vec::new();
    let mut k = from;
    while k < to
        invariant
            from <= k <= to <= data@.len(),
            pcm@ =~= data@.subrange(from as int, k as int).map_values(|b: u8| b as i8),
        decreases to - k,
    {
        pcm.push(data[k] as i8);
        k += 1;
    }
    if repeat_from + repeat_len > pcm.len() {
        repeat_len = 0;
    }
    let name_field = &data[at..at + 22];
    assert(name_field@ =~= data@.subrange(at as int, at + 22));
    Sample { name: text(name_field), length, finetune, volume, repeat_from, repeat_len, data: pcm }
}

/// How many of the samples are longer than one word.
pub open spec fn used_count(samples: Seq<Sample>) -> int
    decreases samples.len(),
{
    if samples.len() == 0 {
        0
    } else {
        used_count(samples.drop_last()) + if samples.last().length > 2 { 1int } else { 0 }
    }
}

impl Module {
    /// Reads a ProTracker module: the title, the 31 sample headers, the
    /// order and restart, then as many patterns as the order reaches (64 rows
    /// of one note a channel; a note past the end of the file is empty), then
    /// each sample's data in turn, as much of it as the file holds.
    pub fn parse(data: &[u8]) -> (r: core::result::Result<Module, Error>)
        ensures
            match module_of(data@) {
                Ok(m) => r matches Ok(module) && module_view(module) == m,
                Err(e) => r == Err::<Module, Error>(e),
            },
    {
        if data.len() < HEADER {
            return Err(Error::TooShort);
        }
        let tag: [u8; 4] = [data[TAG_AT], data[TAG_AT + 1], data[TAG_AT + 2], data[TAG_AT + 3]];
        assert(tag@ =~= data@.subrange(TAG_AT as int, TAG_AT + 4));
        let channels = match channels_for(&tag) {
            Some(c) => c,
            None => return Err(Error::UnknownTag(tag)),
        };
        assert(channels <= 99);
        let length: usize = if data[950] < 128 { data[950] as usize } else { 128 };
        let restart = data[951];
        let order_slice = &data[952..952 + length];
        assert(order_slice@ =~= order_of(data@));
        let order = vstd::slice::slice_to_vec(order_slice);
        let count = count_patterns(order_slice);
        let mut patterns: Vec<Vec<Vec<Note>>> = Vec::new();
        let mut p: usize = 0;
        while p < count
            invariant
                p <= count <= 256,
                channels <= 99,
                patterns@.len() == p,
                forall|i: int| 0 <= i < p ==> #[trigger] rows_view(patterns@[i]) == pattern_of(data@, channels as int, i),
            decreases count - p,
        {
            patterns.push(read_pattern(data, channels, p));
            p += 1;
        }
        assert(count * ROWS * channels <= 256 * 64 * 99) by (nonlinear_arith)
            requires
                count <= 256,
                channels <= 99,
                ROWS == 64,
        ;
        let notes = count * ROWS * channels;
        let whole = (data.len() - HEADER) / 4;
        let end = HEADER + 4 * (if notes < whole { notes } else { whole });
        assert(end == patterns_end(data@, notes as int));
        let mut samples: Vec<Sample> = Vec::new();
        let mut start = end;
        let mut i: usize = 0;
        while i < 31
            invariant
                i <= 31,
                data@.len() >= HEADER,
                notes <= 256 * 64 * 99,
                end == patterns_end(data@, notes as int),
                start == sample_start(data@, end as int, i as int),
                samples@.len() == i,
                forall|k: int| 0 <= k < i ==> #[trigger] sample_view(samples@[k]) == sample_of(data@, end as int, k),
            decreases 31 - i,
        {
            proof {
                lemma_start_grows(data@, end as int, i as int);
            }
            let s = read_sample(data, i, start);
            start = start + s.length;
            samples.push(s);
            i += 1;
        }
        let title_field = &data[0..20];
        assert(title_field@ =~= data@.subrange(0, 20));
        let module = Module { title: text(title_field), channels, samples, order, restart, patterns };
        proof {
            let v = module_view(module);
            assert(v.samples =~= Seq::new(31, |k: int| sample_of(data@, end as int, k)));
            assert(v.patterns =~= Seq::new(count as nat, |k: int| pattern_of(data@, channels as int, k)));
        }
        Ok(module)
    }

    /// How many samples are in use: those longer than one word.
    pub fn used_samples(&self) -> (r: usize)
        ensures
            r == used_count(self.samples@),
    {
        let mut n: usize = 0;
        let mut i: usize = 0;
        while i < self.samples.len()
            invariant
                i <= self.samples@.len(),
                n == used_count(self.samples@.take(i as int)),
                n <= i,
            decreases self.samples@.len() - i,
        {
            assert(self.samples@.take(i + 1).drop_last() =~= self.samples@.take(i as int));
            if self.samples[i].length > 2 {
                n += 1;
            }
            i += 1;
        }
        assert(self.samples@.take(i as int) =~= self.samples@);
        n
    }
}

} // verus!
