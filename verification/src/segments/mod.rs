//! Writing segments to a file and reading them back.

pub mod decrypt;
pub mod writer;
