//! Statistics of a written file, as COPY reports them.

use vstd::prelude::*;

use std::sync::Arc;

use crate::dtype::DType;
use crate::duckdb::path_key::leaf_key;
use crate::duckdb::path_key::path_model;
use crate::duckdb::path_key::quoted_leaf_key;
use crate::duckdb::path_key::PathField;
use crate::duckdb::path_key::PathModel;
use crate::duckdb::uuid::is_uuid_storage;
use crate::duckdb::uuid::uuid_bytes_string;
use crate::duckdb::uuid::uuid_stats_string;
use crate::duckdb::uuid::uuid_storage;
use crate::duckdb::uuid::uuid_text;
use crate::duckdb::uuid::UuidStats;
use crate::order::str_equal;
use crate::stats::BoundKind;
use crate::stats::Precision;
use crate::stats::ScalarValue;
use crate::stats::StatsSet;

verus! {

/// Byte limit of reported string and binary bounds.
pub const STATS_BOUND_MAX_BYTES: usize = 256;

/// The id of UUID columns.
pub const UUID_EXT_ID: &'static str = "vortex.uuid";

/// What a conversion of a scalar to a database value came to.
#[derive(Debug, PartialEq)]
pub enum ConvertedScalar {
    /// There is no such value.
    Failed,
    /// The value is a typed null.
    Null,
    /// The value's text.
    Text(String),
}

/// The text of a bound: for a UUID column from its bytes, for any other column what the
/// conversion gave, of which nulls and failures are no use.
pub open spec fn stats_text(dtype: DType, value: ScalarValue, converted: ConvertedScalar) -> Option<
    Seq<char>,
> {
    if dtype matches DType::Extension(ext) && ext.id@ == UUID_EXT_ID@ {
        if is_uuid_storage(value) {
            Some(uuid_text(uuid_storage(value), 16))
        } else {
            None
        }
    } else {
        match converted {
            ConvertedScalar::Text(text) => Some(text@),
            _ => None,
        }
    }
}

/// The text of a string that may be missing.
pub open spec fn opt_text(s: Option<String>) -> Option<Seq<char>> {
    match s {
        Some(s) => Some(s@),
        None => None,
    }
}

/// The text of a bound of a column of type `dtype`. `converted` is what converting the value to a
/// database value came to; UUIDs are written out from their bytes instead.
pub fn scalar_value_to_stats_string(
    dtype: &DType,
    value: &ScalarValue,
    converted: ConvertedScalar,
) -> (r: Option<String>)
    ensures
        opt_text(r) == stats_text(*dtype, *value, converted),
        !(*dtype is Extension) ==> (r is Some <==> converted is Text),
        *dtype is Extension && dtype->Extension_0.id@ != "vortex.uuid"@ ==> (r is Some
            <==> converted is Text),
        forall|text: String|
            converted == ConvertedScalar::Text(text) && !(*dtype is Extension) ==> (r matches Some(s)
                && s@ == text@),
{
    if let DType::Extension(ext) = dtype {
        if str_equal(ext.id.as_str(), UUID_EXT_ID) {
            return uuid_stats_string(value);
        }
    }
    match converted {
        ConvertedScalar::Text(text) => Some(text),
        _ => None,
    }
}

/// A count that is known exactly.
pub fn exact_u64(stat: &Precision<u64>) -> (r: Option<u64>)
    ensures
        r == (match *stat {
            Precision::Exact(x) => Some(x),
            _ => None,
        }),
{
    match stat {
        Precision::Exact(x) => Some(*x),
        _ => None,
    }
}

/// How a bound is to be made from a statistic.
#[derive(Debug, PartialEq)]
pub enum BoundPlan<'a> {
    /// There is no bound.
    Absent,
    /// The value itself.
    Whole { value: &'a ScalarValue, exact: bool },
    /// The value, cut to at most `max_bytes` to a value that still bounds it on the side of `kind`.
    Truncate { value: &'a ScalarValue, kind: BoundKind, max_bytes: usize, exact: bool },
}

/// What carrying out a [`BoundPlan`] came to: nothing if no value of that size bounds the
/// statistic, else the bound and whether it was cut.
#[derive(Debug, PartialEq)]
pub enum BoundOutcome<T> {
    Unbounded,
    Bound { value: T, was_truncated: bool },
}

/// A value that is reported: one that was converted, or a text.
#[derive(Debug, PartialEq)]
pub enum DuckValue<T> {
    Converted(T),
    Text(String),
}

/// How the bound of a column is made: strings and bytes are cut to a size, others taken whole.
pub open spec fn bound_plan<'a>(
    stat: Precision<ScalarValue>,
    kind: BoundKind,
    dtype: DType,
) -> BoundPlan<'a> {
    match stat.value() {
        None => BoundPlan::Absent,
        Some(value) => if dtype is Utf8 || dtype is Binary {
            BoundPlan::Truncate {
                value: &value,
                kind,
                max_bytes: STATS_BOUND_MAX_BYTES,
                exact: stat is Exact,
            }
        } else {
            BoundPlan::Whole { value: &value, exact: stat is Exact }
        },
    }
}

/// How the bound of a column of type `dtype` is to be made from a statistic.
pub fn plan_bound<'a>(stat: &'a Precision<ScalarValue>, kind: BoundKind, dtype: &DType) -> (r:
    BoundPlan<'a>)
    ensures
        r == bound_plan(*stat, kind, *dtype),
        *stat is Absent ==> r is Absent,
        forall|value: ScalarValue|
            (*stat == Precision::Exact(value) || *stat == Precision::Inexact(value)) ==> if *dtype is Utf8
                || *dtype is Binary {
                r == (BoundPlan::Truncate { value: &value, kind, max_bytes: 256, exact: *stat is Exact })
            } else {
                r == (BoundPlan::Whole { value: &value, exact: *stat is Exact })
            },
{
    let exact = stat.is_exact();
    let value = match stat {
        Precision::Exact(value) => value,
        Precision::Inexact(value) => value,
        Precision::Absent => return BoundPlan::Absent,
    };
    match dtype {
        DType::Utf8(_) | DType::Binary(_) => BoundPlan::Truncate {
            value,
            kind,
            max_bytes: STATS_BOUND_MAX_BYTES,
            exact,
        },
        _ => BoundPlan::Whole { value, exact },
    }
}

impl<'a> BoundPlan<'a> {
    /// Whether the statistic behind the plan is exact.
    pub open spec fn exact(self) -> bool {
        match self {
            BoundPlan::Absent => true,
            BoundPlan::Whole { value, exact } => exact,
            BoundPlan::Truncate { value, kind, max_bytes, exact } => exact,
        }
    }
}

/// The bound to report and whether it is exact. An absent bound counts as exact; one that no
/// value of the size gives does not; a cut one never is.
pub open spec fn bound_result<'a, T>(plan: BoundPlan<'a>, outcome: BoundOutcome<T>) -> (
    Option<DuckValue<T>>,
    bool,
) {
    match plan {
        BoundPlan::Absent => (None, true),
        _ => match outcome {
            BoundOutcome::Unbounded => (None, false),
            BoundOutcome::Bound { value, was_truncated } => (
                Some(DuckValue::Converted(value)),
                plan.exact() && !was_truncated,
            ),
        },
    }
}

/// The bound to report and whether it is exact, from what carrying out the plan came to.
pub fn stats_bound_to_duckdb<'a, T>(plan: &BoundPlan<'a>, outcome: BoundOutcome<T>) -> (r: (
    Option<DuckValue<T>>,
    bool,
))
    ensures
        r == bound_result(*plan, outcome),
        match (*plan, outcome) {
            (BoundPlan::Absent, _) => r.0 is None && r.1,
            (_, BoundOutcome::Unbounded) => r.0 is None && !r.1,
            (BoundPlan::Whole { value: _, exact }, BoundOutcome::Bound { value, was_truncated }) => {
                r.0 == Some(DuckValue::Converted(value)) && (r.1 <==> exact && !was_truncated)
            },
            (
                BoundPlan::Truncate { value: _, kind: _, max_bytes: _, exact },
                BoundOutcome::Bound { value, was_truncated },
            ) => r.0 == Some(DuckValue::Converted(value)) && (r.1 <==> exact && !was_truncated),
        },
{
    let plan_exact = match plan {
        BoundPlan::Absent => return (None, true),
        BoundPlan::Whole { exact, .. } => *exact,
        BoundPlan::Truncate { exact, .. } => *exact,
    };
    match outcome {
        BoundOutcome::Unbounded => (None, false),
        BoundOutcome::Bound { value, was_truncated } => (
            Some(DuckValue::Converted(value)),
            plan_exact && !was_truncated,
        ),
    }
}

/// Statistics of the top-level columns, as the footer holds them.
#[derive(Debug, PartialEq)]
pub struct FileStatistics {
    pub stats_sets: Vec<StatsSet>,
    pub dtypes: Vec<Arc<DType>>,
}

impl FileStatistics {
    /// Whether each set of statistics has its type.
    pub open spec fn wf(self) -> bool {
        self.stats_sets@.len() == self.dtypes@.len()
    }
}

/// The layout of the first column of a file.
#[derive(Clone, Copy, Debug, PartialEq, Eq, Structural)]
pub enum FieldLayout {
    /// A zoned layout with this many zones.
    Zoned(u64),
    /// Another layout with this many children.
    Other(u64),
}

/// What is known of a file once it is written.
#[derive(Debug, PartialEq)]
pub struct WriteSummary {
    pub row_count: u64,
    pub size: u64,
    pub dtype: Arc<DType>,
    pub statistics: Option<FileStatistics>,
    /// The layout of the first column, if there is one.
    pub first_field: Option<FieldLayout>,
}

impl WriteSummary {
    /// Whether each set of statistics has its type.
    pub open spec fn wf(self) -> bool {
        self.statistics matches Some(stats) ==> stats.wf()
    }
}

/// File-level statistics of a written file.
#[derive(Clone, Copy, Debug, PartialEq, Eq, Structural)]
pub struct WrittenFileStats {
    pub row_count: u64,
    pub file_size_bytes: u64,
    /// 0: the footer is read in the usual way.
    pub footer_size_bytes: u64,
    pub num_columns: usize,
    pub row_group_count: u64,
}

/// The number of zones of a file's first column, or of its children where it has no zones.
pub open spec fn zone_count(layout: Option<FieldLayout>) -> u64 {
    match layout {
        Some(FieldLayout::Zoned(n)) => n,
        Some(FieldLayout::Other(n)) => n,
        None => 0,
    }
}

/// The number of zones of a file, which stand for its row groups.
pub fn file_zone_count(layout: Option<FieldLayout>) -> (r: u64)
    ensures
        r == zone_count(layout),
{
    match layout {
        Some(FieldLayout::Zoned(nzones)) => nzones,
        Some(FieldLayout::Other(nchildren)) => nchildren,
        None => 0,
    }
}

/// The file-level statistics in a summary.
pub open spec fn file_stats(summary: WriteSummary) -> WrittenFileStats {
    WrittenFileStats {
        row_count: summary.row_count,
        file_size_bytes: summary.size,
        footer_size_bytes: 0,
        num_columns: match summary.statistics {
            Some(stats) => stats.stats_sets@.len() as usize,
            None => 0,
        },
        row_group_count: zone_count(summary.first_field),
    }
}

/// The file-level statistics in a summary.
pub fn file_stats_from_summary(summary: &WriteSummary) -> (r: WrittenFileStats)
    ensures
        r == file_stats(*summary),
        r.row_count == summary.row_count,
        r.file_size_bytes == summary.size,
        r.footer_size_bytes == 0,
        r.num_columns == (match summary.statistics {
            Some(stats) => stats.stats_sets@.len(),
            None => 0,
        }),
        r.row_group_count == (match summary.first_field {
            Some(FieldLayout::Zoned(zones)) => zones,
            Some(FieldLayout::Other(children)) => children,
            None => 0,
        }),
{
    let num_columns: usize = match &summary.statistics {
        Some(stats) => stats.stats_sets.len(),
        None => 0,
    };
    WrittenFileStats {
        row_count: summary.row_count,
        file_size_bytes: summary.size,
        footer_size_bytes: 0,
        num_columns,
        row_group_count: file_zone_count(summary.first_field),
    }
}

/// Why there are no statistics of a column.
#[derive(Clone, Copy, Debug, PartialEq, Eq, Structural)]
pub enum ColumnStatsError {
    /// The file was written without statistics.
    NoStatistics,
    /// There is no such column among this many.
    OutOfRange { column_index: usize, num_columns: usize },
}

/// The statistics of a column, with its bounds still to be made.
#[derive(Debug, PartialEq)]
pub struct ColumnStatsPlan<'a> {
    /// The type of the column, and of its bounds.
    pub dtype: &'a DType,
    pub min: BoundPlan<'a>,
    pub max: BoundPlan<'a>,
    pub null_count: Option<u64>,
    pub num_values: u64,
    pub column_size_bytes: Option<u64>,
    pub has_nan: Option<bool>,
}

/// An exact count, or nothing.
pub open spec fn exact_count(stat: Precision<u64>) -> Option<u64> {
    match stat {
        Precision::Exact(x) => Some(x),
        _ => None,
    }
}

/// Whether an exact count is above zero, or nothing.
pub open spec fn exact_positive(stat: Precision<u64>) -> Option<bool> {
    match stat {
        Precision::Exact(x) => Some(x > 0),
        _ => None,
    }
}

/// The statistics of a column that has set `stats` and type `dtype`.
pub open spec fn column_plan<'a>(
    stats: StatsSet,
    dtype: DType,
    null_count: Option<u64>,
    num_values: u64,
    column_size_bytes: Option<u64>,
) -> ColumnStatsPlan<'a> {
    ColumnStatsPlan {
        dtype: &dtype,
        min: bound_plan(stats.min, BoundKind::Min, dtype),
        max: bound_plan(stats.max, BoundKind::Max, dtype),
        null_count,
        num_values,
        column_size_bytes,
        has_nan: exact_positive(stats.nan_count),
    }
}

pub(crate) fn plan_column<'a>(
    stats: &'a StatsSet,
    dtype: &'a DType,
    null_count: Option<u64>,
    num_values: u64,
    column_size_bytes: Option<u64>,
) -> (r: ColumnStatsPlan<'a>)
    ensures
        r == column_plan(*stats, *dtype, null_count, num_values, column_size_bytes),
        r.has_nan == (match stats.nan_count {
            Precision::Exact(n) => Some(n > 0),
            _ => None,
        }),
        r.null_count == null_count,
        r.num_values == num_values,
        r.column_size_bytes == column_size_bytes,
{
    ColumnStatsPlan {
        dtype,
        min: plan_bound(&stats.min, BoundKind::Min, dtype),
        max: plan_bound(&stats.max, BoundKind::Max, dtype),
        null_count,
        num_values,
        column_size_bytes,
        has_nan: match &stats.nan_count {
            Precision::Exact(x) => Some(*x > 0),
            _ => None,
        },
    }
}

/// The statistics of a top-level column: what the footer holds, with its compressed size.
///
/// Nested columns are not covered: the footer holds one set for each top-level column.
pub fn column_stats_from_summary<'a>(
    summary: &'a WriteSummary,
    column_index: usize,
    column_sizes: &[u64],
) -> (r: Result<ColumnStatsPlan<'a>, ColumnStatsError>)
    requires
        summary.wf(),
    ensures
        match summary.statistics {
            None => r == Err::<ColumnStatsPlan<'a>, _>(ColumnStatsError::NoStatistics),
            Some(stats) => if column_index >= stats.stats_sets@.len() {
                r == Err::<ColumnStatsPlan<'a>, _>(
                    ColumnStatsError::OutOfRange {
                        column_index,
                        num_columns: stats.stats_sets@.len() as usize,
                    },
                )
            } else {
                let set = stats.stats_sets@[column_index as int];
                r == Ok::<_, ColumnStatsError>(
                    column_plan(
                        set,
                        *stats.dtypes@[column_index as int],
                        exact_count(set.null_count),
                        summary.row_count,
                        if column_index < column_sizes@.len() {
                            Some(column_sizes@[column_index as int])
                        } else {
                            None
                        },
                    ),
                )
            },
        },
        r matches Ok(plan) ==> {
            let set = summary.statistics->Some_0.stats_sets@[column_index as int];
            let dtype = *summary.statistics->Some_0.dtypes@[column_index as int];
            &&& *plan.dtype == dtype
            &&& plan.min == bound_plan(set.min, BoundKind::Min, dtype)
            &&& plan.max == bound_plan(set.max, BoundKind::Max, dtype)
            &&& plan.has_nan == (match set.nan_count {
                Precision::Exact(n) => Some(n > 0),
                _ => None,
            })
            &&& plan.null_count == (match set.null_count {
                Precision::Exact(n) => Some(n),
                _ => None,
            })
            &&& plan.num_values == summary.row_count
            &&& plan.column_size_bytes == (if column_index < column_sizes@.len() {
                Some(column_sizes@[column_index as int])
            } else {
                None
            })
        },
{
    let file_stats = match &summary.statistics {
        Some(file_stats) => file_stats,
        None => return Err(ColumnStatsError::NoStatistics),
    };
    let num_columns: usize = file_stats.stats_sets.len();
    if column_index >= num_columns {
        return Err(ColumnStatsError::OutOfRange { column_index, num_columns });
    }
    let stats = &file_stats.stats_sets[column_index];
    let size = if column_index < column_sizes.len() {
        Some(column_sizes[column_index])
    } else {
        None
    };
    Ok(
        plan_column(
            stats,
            &file_stats.dtypes[column_index],
            exact_u64(&stats.null_count),
            summary.row_count,
            size,
        ),
    )
}

/// The key of a top-level column, if the file has that column.
pub open spec fn top_level_key(dtype: DType, column_index: usize) -> Option<Seq<char>> {
    match dtype {
        DType::Struct(fields, _) => if column_index < fields@.len() {
            Some(leaf_key(seq![PathModel::Name(fields@[column_index as int].name@)]))
        } else {
            None
        },
        _ => None,
    }
}

/// The key of a top-level column, if the file has that column.
pub fn top_level_stats_key(summary: &WriteSummary, column_index: usize) -> (r: Option<String>)
    ensures
        opt_text(r) == top_level_key(*summary.dtype, column_index),
        r is Some <==> *summary.dtype is Struct && column_index < summary.dtype->Struct_0@.len(),
        r matches Some(key) ==> key@ == leaf_key(
            seq![PathModel::Name(summary.dtype->Struct_0@[column_index as int].name@)],
        ),
{
    match &*summary.dtype {
        DType::Struct(fields, _) => {
            if column_index >= fields.len() {
                return None;
            }
            let mut path: Vec<PathField> = Vec::new();
            path.push(PathField::Name(fields[column_index].name.clone()));
            assert(path_model(path@) =~= seq![PathModel::Name(fields@[column_index as int].name@)]);
            Some(quoted_leaf_key(path.as_slice()))
        },
        _ => None,
    }
}

/// Statistics of a column of a written file. What is not known is left out.
#[derive(Debug, PartialEq)]
pub struct WrittenColumnStats<T> {
    pub min: Option<DuckValue<T>>,
    pub max: Option<DuckValue<T>>,
    /// Whether `min` is a value of the column rather than only a bound. A bound that was cut must
    /// not be taken for an aggregate.
    pub min_is_exact: bool,
    pub max_is_exact: bool,
    pub null_count: Option<u64>,
    pub num_values: u64,
    pub column_size_bytes: Option<u64>,
    pub has_nan: Option<bool>,
}

/// The statistics of a column, once its bounds are made.
pub open spec fn resolved<'a, T>(
    plan: ColumnStatsPlan<'a>,
    min: BoundOutcome<T>,
    max: BoundOutcome<T>,
) -> WrittenColumnStats<T> {
    WrittenColumnStats {
        min: bound_result(plan.min, min).0,
        max: bound_result(plan.max, max).0,
        min_is_exact: bound_result(plan.min, min).1,
        max_is_exact: bound_result(plan.max, max).1,
        null_count: plan.null_count,
        num_values: plan.num_values,
        column_size_bytes: plan.column_size_bytes,
        has_nan: plan.has_nan,
    }
}

/// The statistics of a column from its plan and what making the bounds came to.
pub fn resolve_column_stats<'a, T>(
    plan: ColumnStatsPlan<'a>,
    min: BoundOutcome<T>,
    max: BoundOutcome<T>,
) -> (r: WrittenColumnStats<T>)
    ensures
        r == resolved(plan, min, max),
        r.null_count == plan.null_count,
        r.num_values == plan.num_values,
        r.column_size_bytes == plan.column_size_bytes,
        r.has_nan == plan.has_nan,
        (r.min, r.min_is_exact) == bound_result(plan.min, min),
        (r.max, r.max_is_exact) == bound_result(plan.max, max),
{
    let (min, min_is_exact) = stats_bound_to_duckdb(&plan.min, min);
    let (max, max_is_exact) = stats_bound_to_duckdb(&plan.max, max);
    WrittenColumnStats {
        min,
        max,
        min_is_exact,
        max_is_exact,
        null_count: plan.null_count,
        num_values: plan.num_values,
        column_size_bytes: plan.column_size_bytes,
        has_nan: plan.has_nan,
    }
}

/// Whether a reported bound is the text of a UUID, or is missing with it.
pub open spec fn shows_uuid<T>(bound: Option<DuckValue<T>>, uuid: Option<[u8; 16]>) -> bool {
    match uuid {
        Some(bytes) => bound matches Some(DuckValue::Text(text)) && text@ == uuid_text(bytes@, 16),
        None => bound is None,
    }
}

fn uuid_value<T>(uuid: &Option<[u8; 16]>) -> (r: Option<DuckValue<T>>)
    ensures
        shows_uuid(r, *uuid),
{
    match uuid {
        Some(bytes) => Some(DuckValue::Text(uuid_bytes_string(bytes))),
        None => None,
    }
}

/// Puts the extrema of a UUID column in place of its bounds, written out as text. All else stays.
pub fn apply_uuid_stats<T>(stats: &mut WrittenColumnStats<T>, uuid: &UuidStats)
    ensures
        shows_uuid(final(stats).min, uuid.min),
        shows_uuid(final(stats).max, uuid.max),
        uuid.min matches Some(bytes) ==> (final(stats).min matches Some(DuckValue::Text(text))
            && text@ == uuid_text(bytes@, 16)),
        uuid.max matches Some(bytes) ==> (final(stats).max matches Some(DuckValue::Text(text))
            && text@ == uuid_text(bytes@, 16)),
        uuid.min is None ==> final(stats).min is None,
        uuid.max is None ==> final(stats).max is None,
        *final(stats) == (WrittenColumnStats {
            min: final(stats).min,
            max: final(stats).max,
            ..*old(stats)
        }),
{
    stats.min = uuid_value(&uuid.min);
    stats.max = uuid_value(&uuid.max);
}

/// Bounds of strings and bytes are cut to 256 bytes on their own side; other bounds are taken
/// whole. A plan is exact where the statistic is, and there is none without one.
pub proof fn law_only_text_bounds_are_cut(stat: Precision<ScalarValue>, kind: BoundKind, dtype: DType)
    ensures
        stat is Absent <==> bound_plan(stat, kind, dtype) is Absent,
        forall|value: ScalarValue|
            (stat == Precision::Exact(value) || stat == Precision::Inexact(value)) ==> match dtype {
                DType::Utf8(_) | DType::Binary(_) => bound_plan(stat, kind, dtype) == (
                BoundPlan::Truncate { value: &value, kind, max_bytes: 256, exact: stat is Exact }),
                _ => bound_plan(stat, kind, dtype) == (BoundPlan::Whole {
                    value: &value,
                    exact: stat is Exact,
                }),
            },
{
}

/// A reported bound is exact only if the statistic is exact and nothing was cut from it; where
/// there is no statistic nothing is reported, and that is exact.
pub proof fn law_cut_bounds_are_inexact<'a, T>(plan: BoundPlan<'a>, outcome: BoundOutcome<T>)
    ensures
        plan is Absent ==> bound_result(plan, outcome).0 is None && bound_result(plan, outcome).1,
        !(plan is Absent) && outcome is Unbounded ==> bound_result(plan, outcome).0 is None
            && !bound_result(plan, outcome).1,
        forall|value: T, cut: bool|
            !(plan is Absent) && outcome == (BoundOutcome::Bound { value, was_truncated: cut }) ==> {
                &&& bound_result(plan, outcome).0 == Some(DuckValue::Converted(value))
                &&& bound_result(plan, outcome).1 <==> !cut && (plan matches BoundPlan::Whole {
                    value: _,
                    exact,
                } ==> exact) && (plan matches BoundPlan::Truncate {
                    value: _,
                    kind: _,
                    max_bytes: _,
                    exact,
                } ==> exact)
            },
{
}

/// A column's counts are reported from its statistics: an exact number of NaNs says whether there
/// is one, and any other says nothing. Its bounds come each from its own statistic.
pub proof fn law_column_reports_its_statistics(
    stats: StatsSet,
    dtype: DType,
    nulls: Option<u64>,
    values: u64,
    size: Option<u64>,
)
    ensures
        ({
            let plan = column_plan(stats, dtype, nulls, values, size);
            &&& stats.nan_count matches Precision::Exact(n) ==> plan.has_nan == Some(n > 0)
            &&& !(stats.nan_count is Exact) ==> plan.has_nan is None
            &&& *plan.dtype == dtype
            &&& plan.null_count == nulls
            &&& plan.num_values == values
            &&& plan.column_size_bytes == size
            &&& plan.min == bound_plan(stats.min, BoundKind::Min, dtype)
            &&& plan.max == bound_plan(stats.max, BoundKind::Max, dtype)
        }),
{
}

/// The bound of a UUID column is the text of its 16 bytes, and there is none if it is not held in
/// 16 bytes. The bound of any other column is what the conversion gave, if that is a text.
pub proof fn law_uuid_bounds_are_written_from_their_bytes(
    dtype: DType,
    value: ScalarValue,
    converted: ConvertedScalar,
)
    ensures
        dtype is Extension && dtype->Extension_0.id@ == "vortex.uuid"@ ==> {
            &&& is_uuid_storage(value) ==> stats_text(dtype, value, converted) == Some(
                uuid_text(uuid_storage(value), 16),
            )
            &&& !is_uuid_storage(value) ==> stats_text(dtype, value, converted) is None
        },
        !(dtype is Extension && dtype->Extension_0.id@ == "vortex.uuid"@) ==> {
            &&& converted matches ConvertedScalar::Text(text) ==> stats_text(dtype, value, converted)
                == Some(text@)
            &&& !(converted is Text) ==> stats_text(dtype, value, converted) is None
        },
{
}

} // verus!
