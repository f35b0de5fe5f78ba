//! Little-endian readers and the few string conversions the formats share.

use vstd::prelude::*;

verus! {

/// The unsigned 16-bit little-endian value at `at`.
pub open spec fn le_u16(s: Seq<u8>, at: int) -> u16 {
    (s[at] as int + 256 * (s[at + 1] as int)) as u16
}

/// The unsigned 32-bit little-endian value at `at`.
pub open spec fn le_u32(s: Seq<u8>, at: int) -> u32 {
    (s[at] as int + 256 * (s[at + 1] as int) + 65536 * (s[at + 2] as int) + 16777216 * (
    s[at + 3] as int)) as u32
}

pub fn u16_at(data: &[u8], at: usize) -> (r: u16)
    requires
        at + 2 <= data@.len(),
    ensures
        r == le_u16(data@, at as int),
{
    data[at] as u16 + 256 * (data[at + 1] as u16)
}

pub fn u32_at(data: &[u8], at: usize) -> (r: u32)
    requires
        at + 4 <= data@.len(),
    ensures
        r == le_u32(data@, at as int),
{
    data[at] as u32 + 256 * (data[at + 1] as u32) + 65536 * (data[at + 2] as u32) + 16777216 * (
    data[at + 3] as u32)
}

pub fn i32_at(data: &[u8], at: usize) -> (r: i32)
    requires
        at + 4 <= data@.len(),
    ensures
        r == le_u32(data@, at as int) as i32,
{
    u32_at(data, at) as i32
}

} // verus!

verus! {

/// Where the first NUL at or after `i` is, or the length when there is none.
pub open spec fn nul_from(raw: Seq<u8>, i: int) -> int
    decreases raw.len() - i,
{
    if i < 0 || i >= raw.len() {
        raw.len() as int
    } else if raw[i] == 0 {
        i
    } else {
        nul_from(raw, i + 1)
    }
}

/// Where the first non-NUL byte at or after `i` is, or the length.
pub open spec fn nonzero_from(raw: Seq<u8>, i: int) -> int
    decreases raw.len() - i,
{
    if i < 0 || i >= raw.len() {
        raw.len() as int
    } else if raw[i] != 0 {
        i
    } else {
        nonzero_from(raw, i + 1)
    }
}

/// The bytes of a NUL-terminated field, without the terminator.
pub open spec fn cstr_bytes(raw: Seq<u8>) -> Seq<u8> {
    raw.take(nul_from(raw, 0))
}

/// Each byte as the character with the same code point.
pub open spec fn latin1(raw: Seq<u8>) -> Seq<char> {
    raw.map_values(|b: u8| b as char)
}

pub proof fn lemma_nul_from_bounds(raw: Seq<u8>, i: int)
    requires
        0 <= i <= raw.len(),
    ensures
        i <= nul_from(raw, i) <= raw.len(),
        nul_from(raw, i) < raw.len() ==> raw[nul_from(raw, i)] == 0,
        forall|k: int| i <= k < nul_from(raw, i) ==> raw[k] != 0,
    decreases raw.len() - i,
{
    if i < raw.len() && raw[i] != 0 {
        lemma_nul_from_bounds(raw, i + 1);
    }
}

pub proof fn lemma_nonzero_from_bounds(raw: Seq<u8>, i: int)
    requires
        0 <= i <= raw.len(),
    ensures
        i <= nonzero_from(raw, i) <= raw.len(),
        nonzero_from(raw, i) < raw.len() ==> raw[nonzero_from(raw, i)] != 0,
        forall|k: int| i <= k < nonzero_from(raw, i) ==> raw[k] == 0,
    decreases raw.len() - i,
{
    if i < raw.len() && raw[i] == 0 {
        lemma_nonzero_from_bounds(raw, i + 1);
    }
}

/// The index of the first NUL at or after `from`, or the length.
pub fn find_nul(raw: &[u8], from: usize) -> (r: usize)
    requires
        from <= raw@.len(),
    ensures
        r == nul_from(raw@, from as int),
{
    let mut i = from;
    while i < raw.len()
        invariant
            from <= i <= raw@.len(),
            nul_from(raw@, from as int) == nul_from(raw@, i as int),
        decreases raw@.len() - i,
    {
        if raw[i] == 0 {
            return i;
        }
        i += 1;
    }
    i
}

/// The index of the first non-NUL byte at or after `from`, or the length.
pub fn find_nonzero(raw: &[u8], from: usize) -> (r: usize)
    requires
        from <= raw@.len(),
    ensures
        r == nonzero_from(raw@, from as int),
{
    let mut i = from;
    while i < raw.len()
        invariant
            from <= i <= raw@.len(),
            nonzero_from(raw@, from as int) == nonzero_from(raw@, i as int),
        decreases raw@.len() - i,
    {
        if raw[i] != 0 {
            return i;
        }
        i += 1;
    }
    i
}

/// Each byte as the character with the same code point, as a `Vec`.
pub fn latin1_chars(raw: &[u8]) -> (r: Vec<char>)
    ensures
        r@ == latin1(raw@),
{
    let mut out: Vec<char> = Vec::new();
    let mut i: usize = 0;
    while i < raw.len()
        invariant
            i <= raw@.len(),
            out@ == latin1(raw@.take(i as int)),
        decreases raw@.len() - i,
    {
        out.push(raw[i] as char);
        i += 1;
        assert(latin1(raw@.take(i as int)) =~= latin1(raw@.take(i - 1)).push(raw@[i - 1] as char));
    }
    assert(raw@.take(i as int) =~= raw@);
    out
}

/// The characters of a string, in order (`str::chars`, collected).
#[verifier::external_body]
pub fn chars_of(s: &str) -> (r: Vec<char>)
    ensures
        r@ == s@,
{
    s.chars().collect()
}

/// A string of the given characters, in order (`String: FromIterator<char>`).
#[verifier::external_body]
pub fn string_of(chars: &[char]) -> (r: String)
    ensures
        r@ == chars@,
{
    chars.iter().collect()
}

/// Bytes as the characters with the same code points.
pub fn latin1_string(raw: &[u8]) -> (r: String)
    ensures
        r@ == latin1(raw@),
{
    let chars = latin1_chars(raw);
    string_of(chars.as_slice())
}

} // verus!

verus! {

/// What `String::from_utf8_lossy` makes of some bytes: the same characters
/// where they are valid UTF-8, U+FFFD for each invalid sequence.
pub uninterp spec fn utf8_lossy(raw: Seq<u8>) -> Seq<char>;

/// `String::from_utf8_lossy`, owned. Valid UTF-8 comes back unchanged.
#[verifier::external_body]
pub fn lossy_string(raw: &[u8]) -> (r: String)
    ensures
        r@ == utf8_lossy(raw@),
        vstd::utf8::valid_utf8(raw@) ==> r@ == vstd::utf8::decode_utf8(raw@),
{
    String::from_utf8_lossy(raw).into_owned()
}

/// The text of a NUL-terminated field: the bytes before the first NUL (all
/// of them when there is none), read as `String::from_utf8_lossy` reads them.
pub fn cstr(raw: &[u8]) -> (r: String)
    ensures
        r@ == utf8_lossy(cstr_bytes(raw@)),
{
    let end = find_nul(raw, 0);
    proof {
        lemma_nul_from_bounds(raw@, 0);
    }
    let field = &raw[0..end];
    assert(field@ =~= cstr_bytes(raw@));
    lossy_string(field)
}

/// The decimal digits of a number, most significant first.
pub open spec fn decimal(n: nat) -> Seq<char>
    decreases n,
{
    if n < 10 {
        seq![digit_char(n)]
    } else {
        decimal(n / 10).push(digit_char(n % 10))
    }
}

pub open spec fn digit_char(d: nat) -> char {
    (('0' as u32) + d) as char
}

/// ` bytes`, the unit a size is given in.
pub open spec fn bytes_unit() -> Seq<char> {
    seq![' ', 'b', 'y', 't', 'e', 's']
}

/// How an expected size is written: `768 bytes`.
pub open spec fn wanted_bytes(n: nat) -> Seq<char> {
    decimal(n) + bytes_unit()
}

pub fn decimal_chars(n: u128) -> (r: Vec<char>)
    ensures
        r@ == decimal(n as nat),
    decreases n,
{
    if n < 10 {
        let mut v: Vec<char> = Vec::new();
        v.push(((n as u8) + 48) as char);
        proof {
            assert(v@ =~= seq![digit_char(n as nat)]);
        }
        v
    } else {
        let mut v = decimal_chars(n / 10);
        v.push((((n % 10) as u8) + 48) as char);
        v
    }
}

/// A hex digit, lower case.
pub open spec fn hex_digit(d: nat) -> char {
    if d < 10 { digit_char(d) } else { (('a' as u32) + d - 10) as char }
}

/// The hexadecimal digits of a number, lower case, most significant first.
pub open spec fn hex(n: nat) -> Seq<char>
    decreases n,
{
    if n < 16 {
        seq![hex_digit(n)]
    } else {
        hex(n / 16).push(hex_digit(n % 16))
    }
}

/// A number the way `{:#x}` writes it: `0x` and its hex digits.
pub open spec fn hex_prefixed(n: nat) -> Seq<char> {
    seq!['0', 'x'] + hex(n)
}

pub fn hex_chars(n: u128) -> (r: Vec<char>)
    ensures
        r@ == hex(n as nat),
    decreases n,
{
    let d = (n % 16) as u8;
    let c = if d < 10 { (d + 48) as char } else { (d + 87) as char };
    if n < 16 {
        let mut v: Vec<char> = Vec::new();
        v.push(c);
        proof {
            assert(v@ =~= seq![hex_digit(n as nat)]);
        }
        v
    } else {
        let mut v = hex_chars(n / 16);
        v.push(c);
        v
    }
}

/// A number the way `{}` writes an integer: a minus sign where it is
/// negative, then its digits.
pub open spec fn signed_decimal(n: int) -> Seq<char> {
    if n < 0 { seq!['-'] + decimal((-n) as nat) } else { decimal(n as nat) }
}

pub fn signed_decimal_chars(n: i32) -> (r: Vec<char>)
    ensures
        r@ == signed_decimal(n as int),
{
    if n < 0 {
        let mut v: Vec<char> = Vec::new();
        v.push('-');
        let d = decimal_chars((-(n as i64)) as u128);
        let mut i: usize = 0;
        while i < d.len()
            invariant
                i <= d@.len(),
                v@ == seq!['-'] + d@.take(i as int),
            decreases d@.len() - i,
        {
            v.push(d[i]);
            i += 1;
            assert(d@.take(i as int) =~= d@.take(i - 1).push(d@[i - 1]));
        }
        assert(d@.take(d@.len() as int) =~= d@);
        assert(v@ =~= signed_decimal(n as int));
        v
    } else {
        decimal_chars(n as u128)
    }
}

/// `{n} bytes`.
pub fn wanted(n: u128) -> (r: String)
    ensures
        r@ == wanted_bytes(n as nat),
{
    let mut v = decimal_chars(n);
    v.push(' ');
    v.push('b');
    v.push('y');
    v.push('t');
    v.push('e');
    v.push('s');
    proof {
        assert(v@ =~= decimal(n as nat) + bytes_unit());
    }
    string_of(v.as_slice())
}

} // verus!

verus! {

/// Append bytes to a buffer.
pub fn append_bytes(out: &mut Vec<u8>, more: &[u8])
    ensures
        final(out)@ == old(out)@ + more@,
{
    let mut i: usize = 0;
    while i < more.len()
        invariant
            i <= more@.len(),
            out@ == old(out)@ + more@.take(i as int),
        decreases more@.len() - i,
    {
        out.push(more[i]);
        i += 1;
        assert(more@.take(i as int) =~= more@.take(i - 1).push(more@[i - 1]));
    }
    assert(more@.take(i as int) =~= more@);
}

/// A 32-bit value, most significant byte first.
pub open spec fn be32(v: u32) -> Seq<u8> {
    seq![(v / 16777216) as u8, ((v / 65536) % 256) as u8, ((v / 256) % 256) as u8, (v % 256) as u8]
}

/// A 16-bit value, least significant byte first.
pub open spec fn le16(v: u16) -> Seq<u8> {
    seq![(v % 256) as u8, (v / 256) as u8]
}

pub fn be32_bytes(v: u32) -> (r: [u8; 4])
    ensures
        r@ == be32(v),
{
    let r = [(v / 16777216) as u8, ((v / 65536) % 256) as u8, ((v / 256) % 256) as u8, (v % 256) as u8];
    assert(r@ =~= be32(v));
    r
}

pub fn le16_bytes(v: u16) -> (r: [u8; 2])
    ensures
        r@ == le16(v),
{
    let r = [(v % 256) as u8, (v / 256) as u8];
    assert(r@ =~= le16(v));
    r
}

} // verus!

verus! {

/// What `{:?}` writes for a string: the characters in double quotes, with
/// quotes, backslashes and unprintable characters escaped.
pub uninterp spec fn debug_quoted(s: Seq<char>) -> Seq<char>;

/// A string as `{:?}` writes it (`<str as Debug>::fmt`).
#[verifier::external_body]
pub fn quoted(s: &str) -> (r: String)
    ensures
        r@ == debug_quoted(s@),
{
    format!("{s:?}")
}

} // verus!
