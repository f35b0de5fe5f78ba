//! Hellbender's archives and data formats, decoded and checked.
use vstd::prelude::*;

pub mod bytes;
pub mod chars;
pub mod text_core;
pub mod pod;
pub mod formats;
pub mod audio;
pub mod render;
pub mod movie;
