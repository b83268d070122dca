//! Verified core of a columnar file format: segment storage and encryption, prefix matching for
//! string compression, statistics, and the rules of a database bridge.

pub mod bind;
pub mod bytes;
pub mod dtype;
pub mod duckdb;
pub mod encryption;
pub mod expr;
pub mod footer;
pub mod lpm;
pub mod object_path;
pub mod order;
pub mod row_count;
pub mod segments;
pub mod sorted_map;
pub mod sparse;
pub mod stats;
pub mod table;
pub mod text;
pub mod varbin;
