//! Tokenizing byte strings against a dictionary of short byte strings.

pub mod bucket;
pub mod dictionary;
pub mod fast_lpm;
pub mod window;
