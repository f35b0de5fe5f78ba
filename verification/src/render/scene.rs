//! What a frame of the world drew.

use vstd::prelude::*;

verus! {

/// How many of each kind of thing a frame drew, and how many it clipped.
#[derive(Debug, Default, Clone, Copy)]
pub struct Drawn {
    pub ground: usize,
    pub boxes: usize,
    pub chambers: usize,
    pub models: usize,
    pub clipped: usize,
}

} // verus!
