//! Records that cross the C boundary: each optional value becomes a flag and a value.

use vstd::prelude::*;

use crate::duckdb::copy_stats::DuckValue;
use crate::duckdb::copy_stats::WrittenColumnStats;
use crate::duckdb::copy_stats::WrittenFileStats;
use crate::duckdb::full_metadata::ColumnStat;
use crate::duckdb::full_metadata::FullMetadata;
use crate::duckdb::full_metadata::SchemaNode;

verus! {

/// How many rows a scan gives.
#[derive(Clone, Copy, Debug, PartialEq, Eq, Structural)]
pub enum Cardinality {
    Exact(u64),
    Estimate(u64),
}

/// What the optimizer is told of the rows of a scan.
#[derive(Clone, Copy, Debug, PartialEq, Eq, Structural)]
pub struct NodeStatistics {
    pub has_estimated_cardinality: bool,
    pub estimated_cardinality: u64,
    pub has_max_cardinality: bool,
    pub max_cardinality: u64,
}

/// Tells the optimizer how many rows a scan gives. An exact number is also the most there can be;
/// an estimate leaves what was said of that.
pub fn set_cardinality(stats: &mut NodeStatistics, cardinality: Cardinality)
    ensures
        *final(stats) == (match cardinality {
            Cardinality::Exact(c) => NodeStatistics {
                has_estimated_cardinality: true,
                estimated_cardinality: c,
                has_max_cardinality: true,
                max_cardinality: c,
            },
            Cardinality::Estimate(c) => NodeStatistics {
                has_estimated_cardinality: true,
                estimated_cardinality: c,
                ..*old(stats)
            },
        }),
{
    stats.has_estimated_cardinality = true;
    match cardinality {
        Cardinality::Exact(c) => {
            stats.estimated_cardinality = c;
            stats.has_max_cardinality = true;
            stats.max_cardinality = c;
        },
        Cardinality::Estimate(c) => {
            stats.estimated_cardinality = c;
        },
    }
}

/// Bytes that a caller may leave out: none at all are the same as an empty string of them.
pub fn optional_bytes(bytes: Option<Vec<u8>>) -> (r: Option<Vec<u8>>)
    ensures
        r == (match bytes {
            Some(b) => if b@.len() == 0 {
                None
            } else {
                Some(b)
            },
            None => None,
        }),
{
    match bytes {
        Some(b) => if b.len() == 0 {
            None
        } else {
            Some(b)
        },
        None => None,
    }
}

/// Statistics of a column of a file, for C. The texts of the bounds stay with the metadata.
#[derive(Clone, Copy, Debug, PartialEq, Eq, Structural)]
pub struct ColumnStatRecord {
    pub column_id: u64,
    pub has_stats_min: bool,
    pub has_stats_max: bool,
    pub stats_null_count: u64,
    pub has_null_count: bool,
    pub stats_num_values: u64,
    pub has_num_values: bool,
    pub total_compressed_size: u64,
    pub has_compressed_size: bool,
    pub contains_nan: bool,
    pub has_contains_nan: bool,
}

/// The number, or 0.
pub open spec fn or_zero(x: Option<u64>) -> u64 {
    match x {
        Some(x) => x,
        None => 0,
    }
}

/// The flag, or `false`.
pub open spec fn or_false(x: Option<bool>) -> bool {
    match x {
        Some(x) => x,
        None => false,
    }
}

fn value_or_zero(x: Option<u64>) -> (r: u64)
    ensures
        r == or_zero(x),
{
    match x {
        Some(x) => x,
        None => 0,
    }
}

fn value_or_false(x: Option<bool>) -> (r: bool)
    ensures
        r == or_false(x),
{
    match x {
        Some(x) => x,
        None => false,
    }
}

/// The record of a column's statistics.
pub fn column_stat_record(stat: &ColumnStat) -> (r: ColumnStatRecord)
    ensures
        r == (ColumnStatRecord {
            column_id: stat.column_id,
            has_stats_min: stat.stats_min is Some,
            has_stats_max: stat.stats_max is Some,
            stats_null_count: or_zero(stat.stats_null_count),
            has_null_count: stat.stats_null_count is Some,
            stats_num_values: or_zero(stat.stats_num_values),
            has_num_values: stat.stats_num_values is Some,
            total_compressed_size: or_zero(stat.total_compressed_size),
            has_compressed_size: stat.total_compressed_size is Some,
            contains_nan: or_false(stat.contains_nan),
            has_contains_nan: stat.contains_nan is Some,
        }),
        stat.stats_null_count matches Some(nulls) ==> r.stats_null_count == nulls,
        stat.stats_num_values matches Some(values) ==> r.stats_num_values == values,
        stat.total_compressed_size matches Some(size) ==> r.total_compressed_size == size,
        stat.contains_nan matches Some(nan) ==> r.contains_nan == nan,
        stat.stats_null_count is None ==> r.stats_null_count == 0,
        stat.stats_num_values is None ==> r.stats_num_values == 0,
        stat.total_compressed_size is None ==> r.total_compressed_size == 0,
        stat.contains_nan is None ==> !r.contains_nan,
{
    ColumnStatRecord {
        column_id: stat.column_id,
        has_stats_min: stat.stats_min.is_some(),
        has_stats_max: stat.stats_max.is_some(),
        stats_null_count: value_or_zero(stat.stats_null_count),
        has_null_count: stat.stats_null_count.is_some(),
        stats_num_values: value_or_zero(stat.stats_num_values),
        has_num_values: stat.stats_num_values.is_some(),
        total_compressed_size: value_or_zero(stat.total_compressed_size),
        has_compressed_size: stat.total_compressed_size.is_some(),
        contains_nan: value_or_false(stat.contains_nan),
        has_contains_nan: stat.contains_nan.is_some(),
    }
}

impl FullMetadata {
    /// The schema node at `index`, if there is one.
    pub fn schema_at(&self, index: usize) -> (r: Option<&SchemaNode>)
        ensures
            r == (if index < self.schema@.len() {
                Some(&self.schema@[index as int])
            } else {
                None
            }),
    {
        if index < self.schema.len() {
            Some(&self.schema[index])
        } else {
            None
        }
    }

    /// The column statistics at `index`, if there are any.
    pub fn stat_at(&self, index: usize) -> (r: Option<&ColumnStat>)
        ensures
            r == (if index < self.stats@.len() {
                Some(&self.stats@[index as int])
            } else {
                None
            }),
    {
        if index < self.stats.len() {
            Some(&self.stats[index])
        } else {
            None
        }
    }
}

/// File-level statistics of a written file, for C.
#[derive(Clone, Copy, Debug, PartialEq, Eq, Structural)]
pub struct WrittenFileRecord {
    pub row_count: u64,
    pub file_size_bytes: u64,
    pub footer_size_bytes: u64,
    pub num_columns: u64,
}

/// The record of a file's statistics.
pub fn written_file_record(stats: &WrittenFileStats) -> (r: WrittenFileRecord)
    ensures
        r == (WrittenFileRecord {
            row_count: stats.row_count,
            file_size_bytes: stats.file_size_bytes,
            footer_size_bytes: stats.footer_size_bytes,
            num_columns: stats.num_columns as u64,
        }),
{
    WrittenFileRecord {
        row_count: stats.row_count,
        file_size_bytes: stats.file_size_bytes,
        footer_size_bytes: stats.footer_size_bytes,
        num_columns: stats.num_columns as u64,
    }
}

/// Statistics of a column of a written file, for C, with its bounds.
#[derive(Debug, PartialEq)]
pub struct WrittenColumnRecord<T> {
    pub min: Option<DuckValue<T>>,
    pub max: Option<DuckValue<T>>,
    pub has_null_count: bool,
    pub null_count: u64,
    pub num_values: u64,
    pub has_column_size: bool,
    pub column_size_bytes: u64,
    pub has_nan_stat: bool,
    pub contains_nan: bool,
}

/// The record of a column's statistics.
pub fn written_column_record<T>(stats: WrittenColumnStats<T>) -> (r: WrittenColumnRecord<T>)
    ensures
        r == (WrittenColumnRecord {
            min: stats.min,
            max: stats.max,
            has_null_count: stats.null_count is Some,
            null_count: or_zero(stats.null_count),
            num_values: stats.num_values,
            has_column_size: stats.column_size_bytes is Some,
            column_size_bytes: or_zero(stats.column_size_bytes),
            has_nan_stat: stats.has_nan is Some,
            contains_nan: or_false(stats.has_nan),
        }),
        stats.null_count matches Some(nulls) ==> r.null_count == nulls,
        stats.column_size_bytes matches Some(size) ==> r.column_size_bytes == size,
        stats.has_nan matches Some(nan) ==> r.contains_nan == nan,
        stats.null_count is None ==> r.null_count == 0,
        stats.column_size_bytes is None ==> r.column_size_bytes == 0,
        stats.has_nan is None ==> !r.contains_nan,
{
    WrittenColumnRecord {
        min: stats.min,
        max: stats.max,
        has_null_count: stats.null_count.is_some(),
        null_count: value_or_zero(stats.null_count),
        num_values: stats.num_values,
        has_column_size: stats.column_size_bytes.is_some(),
        column_size_bytes: value_or_zero(stats.column_size_bytes),
        has_nan_stat: stats.has_nan.is_some(),
        contains_nan: value_or_false(stats.has_nan),
    }
}

} // verus!
