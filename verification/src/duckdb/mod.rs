//! The rules of the DuckDB bridge: types, exporters, COPY and file metadata.

pub mod accumulate;
pub mod copy;
pub mod copy_stats;
pub mod enum_metadata;
pub mod exporter;
pub mod ext_types;
pub mod ffi;
pub mod full_metadata;
pub mod leaf_stats;
pub mod path_key;
pub mod uuid;
