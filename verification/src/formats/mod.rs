//! Hellbender's data formats, decoded.
//!
//! Where a format is only partly understood the struct carries the raw field
//! with a numbered name rather than pretending to know what it is.

use vstd::prelude::*;
use crate::bytes::{chars_of, string_of, decimal, decimal_chars, hex_prefixed, hex_chars, debug_quoted, quoted};
use crate::formats::text::push_all;

pub mod act;
pub mod colour;
pub mod raw;
pub mod png;
pub mod terrain;
pub mod mrgl;
pub mod text;
pub mod campaign;
pub mod ini;
pub mod nav;
pub mod anim;
pub mod course;
pub mod glt;
pub mod quake;
pub mod brief;
pub mod fixed;
pub mod hud_font;
pub mod demo;
pub mod font;
pub mod lvl;
pub mod smk;

verus! {

#[derive(Debug)]
pub enum Error {
    /// A fixed-size format was not the size it must be.
    WrongSize { what: &'static str, want: String, have: usize },
    /// A record ran past the end of the buffer.
    Truncated { what: &'static str, at: usize, need: usize, have: usize },
    /// A tagged record carried a tag the format does not define.
    BadTag { what: &'static str, tag: u32, at: usize },
    /// A text format's line was missing, or was not what the position requires.
    BadLine { what: &'static str, line: usize, saw: String },
}

pub type Result<T> = core::result::Result<T, Error>;

/// What an error says, the way it is shown to a person.
pub open spec fn error_text(e: Error) -> Seq<char> {
    match e {
        Error::WrongSize { what, want, have } =>
            what@ + ": expected "@ + want@ + ", got "@ + decimal(have as nat) + " bytes"@,
        Error::Truncated { what, at, need, have } =>
            what@ + ": record at "@ + hex_prefixed(at as nat) + " needs "@ + decimal(need as nat)
                + " bytes, "@ + decimal(have as nat) + " left"@,
        Error::BadTag { what, tag, at } =>
            what@ + ": undefined tag "@ + hex_prefixed(tag as nat) + " at "@ + hex_prefixed(at as nat),
        Error::BadLine { what, line, saw } =>
            what@ + ": line "@ + decimal(line as nat) + " is "@ + debug_quoted(saw@),
    }
}

/// Append a literal's characters.
fn push_str(out: &mut Vec<char>, s: &str)
    ensures
        final(out)@ == old(out)@ + s@,
{
    let c = chars_of(s);
    push_all(out, c.as_slice());
}

/// Append `0x` and a number's hex digits.
fn push_hex(out: &mut Vec<char>, n: u128)
    ensures
        final(out)@ == old(out)@ + hex_prefixed(n as nat),
{
    out.push('0');
    out.push('x');
    let h = hex_chars(n);
    push_all(out, h.as_slice());
    assert(out@ =~= old(out)@ + hex_prefixed(n as nat));
}

impl Error {
    /// The error in words: what was read, and what was wrong with it.
    pub fn message(&self) -> (r: String)
        ensures
            r@ == error_text(*self),
    {
        let mut out: Vec<char> = Vec::new();
        match self {
            Error::WrongSize { what, want, have } => {
                push_str(&mut out, what);
                push_str(&mut out, ": expected ");
                push_str(&mut out, want.as_str());
                push_str(&mut out, ", got ");
                let d = decimal_chars(*have as u128);
                push_all(&mut out, d.as_slice());
                push_str(&mut out, " bytes");
            },
            Error::Truncated { what, at, need, have } => {
                push_str(&mut out, what);
                push_str(&mut out, ": record at ");
                push_hex(&mut out, *at as u128);
                push_str(&mut out, " needs ");
                let d = decimal_chars(*need as u128);
                push_all(&mut out, d.as_slice());
                push_str(&mut out, " bytes, ");
                let d = decimal_chars(*have as u128);
                push_all(&mut out, d.as_slice());
                push_str(&mut out, " left");
            },
            Error::BadTag { what, tag, at } => {
                push_str(&mut out, what);
                push_str(&mut out, ": undefined tag ");
                push_hex(&mut out, *tag as u128);
                push_str(&mut out, " at ");
                push_hex(&mut out, *at as u128);
            },
            Error::BadLine { what, line, saw } => {
                push_str(&mut out, what);
                push_str(&mut out, ": line ");
                let d = decimal_chars(*line as u128);
                push_all(&mut out, d.as_slice());
                push_str(&mut out, " is ");
                let q = quoted(saw.as_str());
                push_str(&mut out, q.as_str());
            },
        }
        assert(out@ =~= error_text(*self));
        string_of(out.as_slice())
    }
}

/// 16.16 fixed point, the game's arithmetic throughout.
#[derive(Debug, Clone, Copy, PartialEq, Eq, PartialOrd, Ord, Default)]
pub struct Fixed(pub i32);

impl Fixed {
    /// 1.0.
    pub fn one() -> (r: Fixed)
        ensures
            r.0 == 65536,
    {
        Fixed(65536)
    }
}

/// A 16-bit circle: 0 to 65,535 is one full turn.
#[derive(Debug, Clone, Copy, PartialEq, Eq, Default)]
pub struct Angle(pub u16);

} // verus!
