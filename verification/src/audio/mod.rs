//! Hellbender's audio: RIFF `.WAV` effects and 6-channel ProTracker `.MOD`
//! music, decoded.

pub mod modfile;
pub mod wav;
pub mod song;
