//! The `.POD` archive: Terminal Reality's POD1 container.
//!
//! A count, an 80-byte comment, then a directory of 40-byte entries from
//! offset `0x54`: a 32-byte name field, the body's size and its offset.
//! Nothing is compressed, so an archive is the whole file, handed out in
//! subslices.

use vstd::prelude::*;
use std::path::{Path, PathBuf};
use crate::bytes::{le_u32, u32_at, cstr_bytes, latin1, latin1_string, nul_from, nonzero_from, find_nul, find_nonzero, lemma_nul_from_bounds, lemma_nonzero_from_bounds, chars_of, string_of};
use crate::chars::{index_from, last_index, lower_seq, lower_chars, find_char, rfind_char, lemma_last_before, same_chars};

verus! {

pub const DIR_OFFSET: usize = 0x54;
pub const ENTRY_SIZE: usize = 40;
pub const NAME_LEN: usize = 32;
pub const COMMENT_LEN: usize = 80;

#[verifier::external_type_specification]
#[verifier::external_body]
pub struct ExPathBuf(PathBuf);

#[verifier::external_type_specification]
#[verifier::external_body]
pub struct ExPath(Path);

#[verifier::external_type_specification]
#[verifier::external_body]
pub struct ExIoError(std::io::Error);

#[derive(Debug)]
pub enum Error {
    Io(std::io::Error),
    /// The file is shorter than the header, or than its own directory claims.
    Truncated { need: usize, have: usize },
    /// An entry's body runs past the end of the file.
    EntryOutOfBounds { name: String, offset: u32, size: u32 },
    NotFound(String),
}

/// One directory entry.
#[derive(Debug, Clone)]
pub struct Entry {
    /// The path as stored, with backslashes: `ART\AFTR0000.RAW`.
    pub name: String,
    /// The second string in the 32-byte name field. For `.RAW` entries this is
    /// the palette the texture was authored against; otherwise it is empty.
    pub palette: String,
    pub size: u32,
    pub offset: u32,
}

/// The directory, lower-cased: what comes before the first backslash, or
/// nothing when there is none.
pub open spec fn dir_of(name: Seq<char>) -> Seq<char> {
    let k = index_from(name, '\\', 0);
    if k < name.len() {
        lower_seq(name.take(k))
    } else {
        Seq::empty()
    }
}

/// The basename, lower-cased: what follows the last backslash.
pub open spec fn file_name_of(name: Seq<char>) -> Seq<char> {
    let k = last_index(name, '\\');
    if k >= 0 {
        lower_seq(name.skip(k + 1))
    } else {
        lower_seq(name)
    }
}

/// The extension, lower-cased: what follows the last dot of the file name,
/// or nothing where the file name has no dot.
pub open spec fn ext_of(name: Seq<char>) -> Seq<char> {
    let f = file_name_of(name);
    let k = last_index(f, '.');
    if k >= 0 {
        f.skip(k + 1)
    } else {
        Seq::empty()
    }
}

/// Backslashes turned into forward slashes.
pub open spec fn path_of(name: Seq<char>) -> Seq<char> {
    name.map_values(|c: char| if c == '\\' { '/' } else { c })
}

impl Entry {
    /// The path with forward slashes, for use on a host filesystem.
    pub fn path(&self) -> (r: String)
        ensures
            r@ == path_of(self.name@),
    {
        let chars = chars_of(self.name.as_str());
        let mut out: Vec<char> = Vec::new();
        let mut i: usize = 0;
        while i < chars.len()
            invariant
                i <= chars@.len(),
                out@ == path_of(chars@.take(i as int)),
            decreases chars@.len() - i,
        {
            let c = chars[i];
            out.push(if c == '\\' { '/' } else { c });
            i += 1;
            assert(path_of(chars@.take(i as int)) =~= path_of(chars@.take(i - 1)).push(
                if c == '\\' { '/' } else { c },
            ));
        }
        assert(chars@.take(i as int) =~= chars@);
        string_of(out.as_slice())
    }

    fn dir_chars(&self) -> (r: Vec<char>)
        ensures
            r@ == dir_of(self.name@),
    {
        let chars = chars_of(self.name.as_str());
        let k = find_char(chars.as_slice(), '\\', 0);
        if k < chars.len() {
            lower_chars(&chars.as_slice()[0..k])
        } else {
            Vec::new()
        }
    }

    fn file_name_chars(&self) -> (r: Vec<char>)
        ensures
            r@ == file_name_of(self.name@),
    {
        let chars = chars_of(self.name.as_str());
        match rfind_char(chars.as_slice(), '\\') {
            Some(k) => {
                proof {
                    lemma_last_before(chars@, '\\', chars@.len() as int);
                }
                let n = chars.len();
                assert(k < n);
                lower_chars(&chars.as_slice()[k + 1..chars.len()])
            },
            None => lower_chars(chars.as_slice()),
        }
    }

    /// The directory component, lower-cased: `art`, `data`, `models`.
    pub fn dir(&self) -> (r: String)
        ensures
            r@ == dir_of(self.name@),
    {
        let v = self.dir_chars();
        string_of(v.as_slice())
    }

    /// The basename, lower-cased.
    pub fn file_name(&self) -> (r: String)
        ensures
            r@ == file_name_of(self.name@),
    {
        let v = self.file_name_chars();
        string_of(v.as_slice())
    }

    /// The extension without the dot, lower-cased. Empty if there is none.
    pub fn ext(&self) -> (r: String)
        ensures
            r@ == ext_of(self.name@),
    {
        let chars = self.file_name_chars();
        let v = match rfind_char(chars.as_slice(), '.') {
            Some(k) => {
                proof {
                    lemma_last_before(chars@, '.', chars@.len() as int);
                }
                let n = chars.len();
                assert(k < n);
                let v = vstd::slice::slice_to_vec(&chars.as_slice()[k + 1..n]);
                assert(v@ =~= chars@.skip(k + 1));
                v
            },
            None => Vec::new(),
        };
        string_of(v.as_slice())
    }
}

// ---------------------------------------------------------------------------
// The layout, as functions of the file's bytes.

pub open spec fn entry_count(data: Seq<u8>) -> int {
    le_u32(data, 0) as int
}

pub open spec fn directory_end(data: Seq<u8>) -> int {
    DIR_OFFSET + ENTRY_SIZE * entry_count(data)
}

pub open spec fn entry_base(i: int) -> int {
    DIR_OFFSET + ENTRY_SIZE * i
}

pub open spec fn name_field(data: Seq<u8>, i: int) -> Seq<u8> {
    data.subrange(entry_base(i), entry_base(i) + NAME_LEN)
}

/// The first string in a name field.
pub open spec fn name_in(field: Seq<u8>) -> Seq<char> {
    latin1(cstr_bytes(field))
}

/// The first non-empty string after the first NUL of a name field.
pub open spec fn palette_in(field: Seq<u8>) -> Seq<char> {
    let j = nonzero_from(field, nul_from(field, 0));
    latin1(field.subrange(j, nul_from(field, j)))
}

pub open spec fn entry_size(data: Seq<u8>, i: int) -> u32 {
    le_u32(data, entry_base(i) + 32)
}

pub open spec fn entry_offset(data: Seq<u8>, i: int) -> u32 {
    le_u32(data, entry_base(i) + 36)
}

pub open spec fn entry_fits(data: Seq<u8>, i: int) -> bool {
    entry_offset(data, i) + entry_size(data, i) <= data.len()
}

/// The first entry at or after `i` whose body runs past the end, or the
/// entry count when none does.
pub open spec fn first_misfit(data: Seq<u8>, i: int) -> int
    decreases entry_count(data) - i,
{
    if i < 0 || i >= entry_count(data) {
        entry_count(data)
    } else if !entry_fits(data, i) {
        i
    } else {
        first_misfit(data, i + 1)
    }
}

pub open spec fn comment_of(data: Seq<u8>) -> Seq<char> {
    latin1(cstr_bytes(data.subrange(4, 4 + COMMENT_LEN)))
}

/// Entry `e` is what the directory says at slot `i`.
pub open spec fn entry_is(e: Entry, data: Seq<u8>, i: int) -> bool {
    &&& e.name@ == name_in(name_field(data, i))
    &&& e.palette@ == palette_in(name_field(data, i))
    &&& e.size == entry_size(data, i)
    &&& e.offset == entry_offset(data, i)
}

pub proof fn lemma_first_misfit(data: Seq<u8>, i: int)
    requires
        0 <= i <= entry_count(data),
    ensures
        i <= first_misfit(data, i) <= entry_count(data),
        first_misfit(data, i) < entry_count(data) ==> !entry_fits(data, first_misfit(data, i)),
        forall|k: int| i <= k < first_misfit(data, i) ==> entry_fits(data, k),
    decreases entry_count(data) - i,
{
    if i < entry_count(data) && entry_fits(data, i) {
        lemma_first_misfit(data, i + 1);
    }
}

pub struct Pod {
    path: PathBuf,
    data: Vec<u8>,
    comment: String,
    entries: Vec<Entry>,
}

/// The whole of an archive's directory, with every entry in bounds.
pub open spec fn sum_sizes(entries: Seq<Entry>) -> int
    decreases entries.len(),
{
    if entries.len() == 0 {
        0
    } else {
        sum_sizes(entries.drop_last()) + entries.last().size
    }
}

impl Pod {
    #[verifier::type_invariant]
    spec fn inv(self) -> bool {
        forall|i: int|
            0 <= i < self.entries@.len() ==> #[trigger] self.entries@[i].offset
                + self.entries@[i].size <= self.data@.len()
    }

    /// The archive's bytes.
    pub closed spec fn data_view(&self) -> Seq<u8> {
        self.data@
    }

    pub closed spec fn entries_view(&self) -> Seq<Entry> {
        self.entries@
    }

    pub closed spec fn comment_view(&self) -> Seq<char> {
        self.comment@
    }

    pub closed spec fn path_view(&self) -> PathBuf {
        self.path
    }

    /// Read the directory out of a whole archive.
    pub fn parse(path: PathBuf, data: Vec<u8>) -> (r: Result<Pod, Error>)
        ensures
            data@.len() < DIR_OFFSET ==> (r matches Err(Error::Truncated { need, have }) && need
                == DIR_OFFSET && have == data@.len()),
            DIR_OFFSET <= data@.len() < directory_end(data@) ==> (r matches Err(
                Error::Truncated { need, have },
            ) && need == directory_end(data@) as usize && have == data@.len()),
            data@.len() >= directory_end(data@) && first_misfit(data@, 0) < entry_count(data@) ==> {
                let i = first_misfit(data@, 0);
                &&& r matches Err(Error::EntryOutOfBounds { name, offset, size })
                &&& name@ == name_in(name_field(data@, i))
                &&& offset == entry_offset(data@, i)
                &&& size == entry_size(data@, i)
            },
            data@.len() >= directory_end(data@) && first_misfit(data@, 0) == entry_count(data@)
                ==> r is Ok,
            r matches Ok(pod) ==> {
                &&& pod.data_view() == data@
                &&& pod.path_view() == path
                &&& pod.comment_view() == comment_of(data@)
                &&& pod.entries_view().len() == entry_count(data@)
                &&& forall|i: int|
                    0 <= i < entry_count(data@) ==> entry_is(#[trigger] pod.entries_view()[i], data@, i)
            },
    {
        if data.len() < DIR_OFFSET {
            return Err(Error::Truncated { need: DIR_OFFSET, have: data.len() });
        }
        let count32 = u32_at(data.as_slice(), 0);
        let dir_end: u64 = 0x54u64 + count32 as u64 * 40u64;
        if (data.len() as u64) < dir_end {
            let need = #[verifier::truncate] (dir_end as usize);
            return Err(Error::Truncated { need, have: data.len() });
        }
        let count = count32 as usize;
        let n = data.len();
        let comment = cstr(&data.as_slice()[4..4 + COMMENT_LEN]);
        let mut entries: Vec<Entry> = Vec::with_capacity(count);
        let mut i: usize = 0;
        while i < count
            invariant
                count == entry_count(data@),
                dir_end == directory_end(data@),
                n == data@.len(),
                data@.len() >= directory_end(data@),
                i <= count,
                entries@.len() == i,
                forall|k: int| 0 <= k < i ==> entry_is(#[trigger] entries@[k], data@, k),
                forall|k: int| 0 <= k < i ==> entry_fits(data@, k),
                forall|k: int|
                    0 <= k < i ==> #[trigger] entries@[k].offset + entries@[k].size <= data@.len(),
            decreases count - i,
        {
            let base = DIR_OFFSET + i * ENTRY_SIZE;
            let raw = &data.as_slice()[base..base + NAME_LEN];
            assert(raw@ == name_field(data@, i as int));
            let name = cstr(raw);
            let palette = palette(raw);
            let size = u32_at(data.as_slice(), base + 32);
            let offset = u32_at(data.as_slice(), base + 36);
            let end = offset as u64 + size as u64;
            if end > data.len() as u64 {
                proof {
                    assert(base == entry_base(i as int));
                    assert(!entry_fits(data@, i as int));
                    lemma_first_misfit(data@, 0);
                    if first_misfit(data@, 0) < i {
                        assert(entry_fits(data@, first_misfit(data@, 0)));
                    }
                    if first_misfit(data@, 0) > i {
                        assert(entry_fits(data@, i as int));
                    }
                    assert(first_misfit(data@, 0) == i);
                }
                return Err(Error::EntryOutOfBounds { name, offset, size });
            }
            entries.push(Entry { name, palette, size, offset });
            i += 1;
        }
        proof {
            lemma_first_misfit(data@, 0);
        }
        let pod = Pod { path, data, comment, entries };
        Ok(pod)
    }

    pub fn path(&self) -> (r: &Path)
        ensures
            r == path_as_path(&self.path_view()),
    {
        as_path(&self.path)
    }

    /// The build label the packer wrote, such as `Startup Hellbender 1.0`.
    pub fn comment(&self) -> (r: &str)
        ensures
            r@ == self.comment_view(),
    {
        self.comment.as_str()
    }

    pub fn entries(&self) -> (r: &[Entry])
        ensures
            r@ == self.entries_view(),
            forall|i: int|
                0 <= i < r@.len() ==> #[trigger] r@[i].offset + r@[i].size
                    <= self.data_view().len(),
    {
        proof {
            use_type_invariant(self);
        }
        self.entries.as_slice()
    }

    pub fn bytes(&self, entry: &Entry) -> (r: &[u8])
        requires
            entry.offset + entry.size <= self.data_view().len(),
        ensures
            r@ == self.data_view().subrange(
                entry.offset as int,
                entry.offset + entry.size,
            ),
    {
        let n = self.data.len();
        let start = entry.offset as usize;
        &self.data.as_slice()[start..start + entry.size as usize]
    }

    /// Look an entry up the way the engine does: by directory and name, case
    /// insensitively. `find("data", "float.ra0")`.
    pub fn find(&self, dir: &str, name: &str) -> (r: Option<&Entry>)
        ensures
            match r {
                Some(e) => exists|i: int|
                    0 <= i < self.entries_view().len() && *e == self.entries_view()[i]
                        && self.matches(i, dir@, name@) && forall|k: int|
                        0 <= k < i ==> !self.matches(k, dir@, name@),
                None => forall|i: int|
                    0 <= i < self.entries_view().len() ==> !self.matches(i, dir@, name@),
            },
            r matches Some(e) ==> e.offset + e.size <= self.data_view().len(),
    {
        proof {
            use_type_invariant(self);
        }
        let dir_chars = chars_of(dir);
        let dir_l = lower_chars(dir_chars.as_slice());
        let name_chars = chars_of(name);
        let name_l = lower_chars(name_chars.as_slice());
        let mut i: usize = 0;
        while i < self.entries.len()
            invariant
                i <= self.entries@.len(),
                dir_l@ == lower_seq(dir_chars@),
                name_l@ == lower_seq(name_chars@),
                dir_chars@ == dir@,
                name_chars@ == name@,
                forall|k: int| 0 <= k < i ==> !self.matches(k, dir_chars@, name_chars@),
            decreases self.entries@.len() - i,
        {
            proof {
                use_type_invariant(self);
            }
            let e = &self.entries[i];
            let d = e.dir_chars();
            let f = e.file_name_chars();
            if same_chars(d.as_slice(), dir_l.as_slice()) && same_chars(f.as_slice(), name_l.as_slice()) {
                assert(self.matches(i as int, dir_chars@, name_chars@));
                assert(*e == self.entries_view()[i as int]);
                assert(0 <= i < self.entries_view().len() && *e == self.entries_view()[i as int]
                    && self.matches(i as int, dir_chars@, name_chars@) && forall|k: int|
                    0 <= k < i ==> !self.matches(k, dir_chars@, name_chars@));
                assert(self.entries@[i as int].offset + self.entries@[i as int].size
                    <= self.data@.len());
                return Some(e);
            }
            i += 1;
        }
        None
    }

    /// Entry `i` is in directory `dir` and named `name`, case insensitively.
    pub open spec fn matches(&self, i: int, dir: Seq<char>, name: Seq<char>) -> bool {
        &&& dir_of(self.entries_view()[i].name@) == lower_seq(dir)
        &&& file_name_of(self.entries_view()[i].name@) == lower_seq(name)
    }

    pub fn read(&self, dir: &str, name: &str) -> (r: Result<&[u8], Error>)
        ensures
            match r {
                Ok(bytes) => exists|i: int|
                    0 <= i < self.entries_view().len() && self.matches(i, dir@, name@) && (forall|k: int|
                        0 <= k < i ==> !self.matches(k, dir@, name@)) && bytes@
                        == self.data_view().subrange(
                        self.entries_view()[i].offset as int,
                        self.entries_view()[i].offset + self.entries_view()[i].size,
                    ),
                Err(Error::NotFound(what)) => what@ == dir@ + seq!['\\'] + name@ && forall|i: int|
                    0 <= i < self.entries_view().len() ==> !self.matches(i, dir@, name@),
                Err(_) => false,
            },
    {
        match self.find(dir, name) {
            Some(entry) => Ok(self.bytes(entry)),
            None => {
                let mut what = chars_of(dir);
                what.push('\\');
                let mut rest = chars_of(name);
                what.append(&mut rest);
                Err(Error::NotFound(string_of(what.as_slice())))
            },
        }
    }

    /// Every byte after the directory is covered by exactly one entry, with no
    /// gaps and no padding: no entry starts inside the directory, no two
    /// entries share a byte, and together they are as long as the rest of
    /// the file. True of both shipped archives; a useful check that a reader
    /// has the layout right.
    pub fn is_gapless(&self) -> (r: bool)
        ensures
            r == tiles(self.entries_view(), self.data_view().len() as int),
    {
        proof {
            use_type_invariant(self);
        }
        let n = self.entries.len();
        let wide = n as u128;
        let dir_end: u128 = 0x54u128 + wide * 40u128;
        let mut total: u128 = 0;
        let mut i: usize = 0;
        while i < n
            invariant
                i <= n,
                n == self.entries@.len(),
                dir_end == DIR_OFFSET + ENTRY_SIZE * n,
                total == sum_sizes(self.entries@.take(i as int)),
                total <= i * 0xffff_ffffu128,
                forall|j: int| 0 <= j < i ==> self.entries@[j].offset >= dir_end,
                forall|j: int, k: int| 0 <= j < k < i ==> apart(#[trigger] self.entries@[j], #[trigger] self.entries@[k]),
            decreases n - i,
        {
            let e = &self.entries[i];
            assert(self.entries@.take(i + 1).drop_last() =~= self.entries@.take(i as int));
            if (e.offset as u128) < dir_end {
                proof {
                    assert(self.entries@.take(n as int) =~= self.entries@);
                }
                return false;
            }
            let mut j: usize = 0;
            while j < i
                invariant
                    j <= i < n,
                    n == self.entries@.len(),
                    *e == self.entries@[i as int],
                    forall|m: int| 0 <= m < j ==> apart(#[trigger] self.entries@[m], self.entries@[i as int]),
                decreases i - j,
            {
                let o = &self.entries[j];
                let (a0, a1) = (o.offset as u64, o.offset as u64 + o.size as u64);
                let (b0, b1) = (e.offset as u64, e.offset as u64 + e.size as u64);
                if a0 < a1 && b0 < b1 && a0 < b1 && b0 < a1 {
                    return false;
                }
                j += 1;
            }
            total = total + e.size as u128;
            i += 1;
        }
        assert(self.entries@.take(n as int) =~= self.entries@);
        dir_end + total == self.data.len() as u128
    }
}

/// Whether two entries share no byte: one of them is empty, or one ends
/// where the other starts or before.
pub open spec fn apart(a: Entry, b: Entry) -> bool {
    a.size == 0 || b.size == 0 || a.offset + a.size <= b.offset || b.offset + b.size <= a.offset
}

/// Whether entries lie after a directory of their number, share no byte,
/// and are as long together as the `len` bytes of the file after it.
pub open spec fn tiles(es: Seq<Entry>, len: int) -> bool {
    let dir_end = DIR_OFFSET + ENTRY_SIZE * es.len();
    &&& forall|i: int| 0 <= i < es.len() ==> #[trigger] es[i].offset >= dir_end
    &&& forall|i: int, j: int| 0 <= i < j < es.len() ==> apart(#[trigger] es[i], #[trigger] es[j])
    &&& dir_end + sum_sizes(es) == len
}

/// The two byte sequences hold the same characters.

/// What `Path` a `PathBuf` derefs to.
pub uninterp spec fn path_as_path(p: &PathBuf) -> &Path;

/// `PathBuf::as_path`.
#[verifier::external_body]
fn as_path(p: &PathBuf) -> (r: &Path)
    ensures
        r == path_as_path(p),
{
    p.as_path()
}

fn cstr(raw: &[u8]) -> (r: String)
    ensures
        r@ == name_in(raw@),
{
    let end = find_nul(raw, 0);
    proof {
        lemma_nul_from_bounds(raw@, 0);
    }
    cp437(&raw[0..end])
}

/// The palette name: the first non-empty string after the first NUL.
fn palette(raw: &[u8]) -> (r: String)
    ensures
        r@ == palette_in(raw@),
{
    let end = find_nul(raw, 0);
    proof {
        lemma_nul_from_bounds(raw@, 0);
    }
    let start = find_nonzero(raw, end);
    proof {
        lemma_nonzero_from_bounds(raw@, end as int);
    }
    let stop = find_nul(raw, start);
    proof {
        lemma_nul_from_bounds(raw@, start as int);
    }
    cp437(&raw[start..stop])
}

/// Names are ASCII in practice; decode as cp437 with the high half mapped to
/// the Latin-1 code points, so a stray high byte cannot fail the archive.
fn cp437(raw: &[u8]) -> (r: String)
    ensures
        r@ == latin1(raw@),
{
    latin1_string(raw)
}

} // verus!
