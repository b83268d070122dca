use std::sync::Arc;

use vortex_core::dtype::DType;
use vortex_core::dtype::ExtDType;
use vortex_core::dtype::NamedField;
use vortex_core::dtype::Nullability;
use vortex_core::dtype::PType;
use vortex_core::duckdb::accumulate::StatsAccumulators;
use vortex_core::duckdb::copy::accumulate_stats_chunk;
use vortex_core::duckdb::copy::copy_to_bind;
use vortex_core::duckdb::copy::copy_to_finalize;
use vortex_core::duckdb::copy::copy_to_initialize_global;
use vortex_core::duckdb::copy::copy_to_sink;
use vortex_core::duckdb::copy::copy_write_options;
use vortex_core::duckdb::copy::failed_push;
use vortex_core::duckdb::copy::file_size_bytes;
use vortex_core::duckdb::copy::finish_column_stats;
use vortex_core::duckdb::copy::finish_leaf_stats;
use vortex_core::duckdb::copy::flush_batch;
use vortex_core::duckdb::copy::prepare_batch_push;
use vortex_core::duckdb::copy::push_to_writer;
use vortex_core::duckdb::copy::written_column_stats;
use vortex_core::duckdb::copy::written_file_stats;
use vortex_core::duckdb::copy::written_leaf_stats;
use vortex_core::duckdb::copy::written_leaf_stats_count;
use vortex_core::duckdb::copy::CopyFunctionGlobal;
use vortex_core::duckdb::copy::CopyInitError;
use vortex_core::duckdb::copy::CopyPreparedBatch;
use vortex_core::duckdb::copy::ExcludedScheme;
use vortex_core::duckdb::copy::FieldSize;
use vortex_core::duckdb::copy::PushError;
use vortex_core::duckdb::copy::SinkError;
use vortex_core::duckdb::copy::WriteTarget;
use vortex_core::duckdb::copy::DUCKLAKE_FIELD_IDS_METADATA_KEY;
use vortex_core::duckdb::copy_stats::column_stats_from_summary;
use vortex_core::duckdb::copy_stats::scalar_value_to_stats_string;
use vortex_core::duckdb::copy_stats::stats_bound_to_duckdb;
use vortex_core::duckdb::copy_stats::BoundOutcome;
use vortex_core::duckdb::copy_stats::BoundPlan;
use vortex_core::duckdb::copy_stats::ColumnStatsError;
use vortex_core::duckdb::copy_stats::ConvertedScalar;
use vortex_core::duckdb::copy_stats::DuckValue;
use vortex_core::duckdb::copy_stats::FieldLayout;
use vortex_core::duckdb::copy_stats::FileStatistics;
use vortex_core::duckdb::copy_stats::WriteSummary;
use vortex_core::duckdb::ffi::written_column_record;
use vortex_core::duckdb::ffi::written_file_record;
use vortex_core::duckdb::ffi::WrittenFileRecord;
use vortex_core::duckdb::leaf_stats::accumulate_leaf_stats;
use vortex_core::duckdb::leaf_stats::chunk_load;
use vortex_core::duckdb::leaf_stats::list_extra_null_slots;
use vortex_core::duckdb::leaf_stats::ArrayData;
use vortex_core::duckdb::leaf_stats::LeafArray;
use vortex_core::duckdb::leaf_stats::ListRows;
use vortex_core::duckdb::leaf_stats::NamedArray;
use vortex_core::duckdb::path_key::PathField;
use vortex_core::duckdb::uuid::UuidStorage;
use vortex_core::duckdb::uuid::UuidStorageError;
use vortex_core::encryption::EncryptionError;
use vortex_core::stats::BoundKind;
use vortex_core::stats::PValue;
use vortex_core::stats::Precision;
use vortex_core::stats::ScalarValue;
use vortex_core::stats::StatsSet;

fn i32_type() -> Arc<DType> {
    Arc::new(DType::Primitive(PType::I32, Nullability::Nullable))
}

fn u32_type() -> Arc<DType> {
    Arc::new(DType::Primitive(PType::U32, Nullability::NonNullable))
}

fn unsigned(x: u32) -> ScalarValue {
    ScalarValue::Primitive(PValue::U32(x))
}

fn utf8() -> Arc<DType> {
    Arc::new(DType::Utf8(Nullability::Nullable))
}

fn uuid_type() -> Arc<DType> {
    Arc::new(DType::Extension(ExtDType {
        id: "vortex.uuid".to_string(),
        metadata: vec![],
        storage: Arc::new(DType::FixedSizeList(
            Arc::new(DType::Primitive(PType::U8, Nullability::NonNullable)),
            16,
            Nullability::Nullable,
        )),
    }))
}

fn num(x: i32) -> ScalarValue {
    ScalarValue::Primitive(PValue::I32(x))
}

fn text(s: &str) -> ScalarValue {
    ScalarValue::Utf8(s.to_string())
}

fn stats(min: ScalarValue, max: ScalarValue, nulls: u64) -> StatsSet {
    StatsSet {
        min: Precision::Exact(min),
        max: Precision::Exact(max),
        null_count: Precision::Exact(nulls),
        nan_count: Precision::Absent,
    }
}

fn leaf(dtype: Arc<DType>, len: u64, stats: Option<StatsSet>) -> ArrayData {
    ArrayData::Leaf(LeafArray { dtype, len, stats, uuid: None })
}

fn named(name: &str, array: ArrayData) -> NamedArray {
    NamedArray { name: name.to_string(), array }
}

fn fields(names: &[(&str, Arc<DType>)]) -> Vec<NamedField> {
    names
        .iter()
        .map(|(name, dtype)| NamedField { name: name.to_string(), dtype: dtype.clone() })
        .collect()
}

/// The summary of a file with one column, with or without statistics.
fn write_summary(with_statistics: bool) -> WriteSummary {
    WriteSummary {
        row_count: 3,
        size: 100,
        dtype: Arc::new(DType::Struct(fields(&[("i", u32_type())]), Nullability::NonNullable)),
        statistics: with_statistics.then_some(FileStatistics {
            stats_sets: vec![stats(unsigned(1), unsigned(3), 0)],
            dtypes: vec![u32_type()],
        }),
        first_field: Some(FieldLayout::Zoned(2)),
    }
}

#[test]
fn column_stats_out_of_range_is_an_error() {
    let summary = write_summary(true);
    assert!(column_stats_from_summary(&summary, 0, &[]).is_ok());
    assert!(column_stats_from_summary(&summary, 1, &[]).is_err());
    assert_eq!(
        column_stats_from_summary(&summary, 1, &[]).err(),
        Some(ColumnStatsError::OutOfRange { column_index: 1, num_columns: 1 })
    );
}

#[test]
fn column_stats_without_file_statistics_is_an_error() {
    let summary = write_summary(false);
    assert!(column_stats_from_summary(&summary, 0, &[]).is_err());
    assert_eq!(
        column_stats_from_summary(&summary, 0, &[]).err(),
        Some(ColumnStatsError::NoStatistics)
    );
}

#[test]
fn column_stats_come_from_the_footer() {
    let summary = write_summary(true);
    let plan = column_stats_from_summary(&summary, 0, &[77]).unwrap();
    assert_eq!(plan.dtype, &*u32_type());
    assert_eq!(plan.min, BoundPlan::Whole { value: &unsigned(1), exact: true });
    assert_eq!(plan.max, BoundPlan::Whole { value: &unsigned(3), exact: true });
    assert_eq!(plan.null_count, Some(0));
    assert_eq!(plan.num_values, 3);
    assert_eq!(plan.column_size_bytes, Some(77));
    assert_eq!(plan.has_nan, None);
}

fn start() -> CopyFunctionGlobal {
    let (_, global) =
        copy_to_initialize_global::<String>(Ok("file".to_string()), Ok(()), None, None).unwrap();
    global
}

#[test]
fn writes_start_with_a_checked_key_and_path() {
    let bad_key = copy_to_initialize_global(Err("bad path"), Err("no store"), None, Some(vec![0; 5]));
    assert!(matches!(
        bad_key.err(),
        Some(CopyInitError::Key(EncryptionError::KeyLength(5)))
    ));
    let bad_path = copy_to_initialize_global(Err("bad path"), Err("no store"), None, Some(vec![0; 16]));
    assert!(matches!(bad_path.err(), Some(CopyInitError::Url("bad path"))));
    let no_store =
        copy_to_initialize_global(Ok("s3".to_string()), Err("no store"), None, None);
    assert!(matches!(no_store.err(), Some(CopyInitError::Store("no store"))));
    let local = copy_to_initialize_global(Ok("file".to_string()), Err("no store"), None, None);
    assert!(local.is_ok());

    let (plan, global) = copy_to_initialize_global::<String>(
        Ok("s3".to_string()),
        Ok(()),
        Some(vec![1, 2]),
        Some(vec![9; 32]),
    )
    .unwrap();
    assert_eq!(plan.target, WriteTarget::ObjectStore);
    assert_eq!(plan.field_ids_metadata, Some(vec![1, 2]));
    assert_eq!(plan.encryption_key.unwrap().as_bytes(), &[9; 32]);
    assert_eq!(file_size_bytes(&global), 0);
    assert!(written_file_stats(&global).is_none());

    let (plan, _) =
        copy_to_initialize_global::<String>(Ok("file".to_string()), Ok(()), None, None).unwrap();
    assert_eq!(plan.target, WriteTarget::LocalFile);
    assert!(plan.encryption_key.is_none());
    assert_eq!(DUCKLAKE_FIELD_IDS_METADATA_KEY, "ducklake.field_ids");
}

#[test]
fn write_options() {
    let options = copy_write_options();
    assert!(options.for_ingest);
    assert_eq!(options.data_block_target_bytes, 16 << 20);
    assert_eq!(
        options.excluded_schemes,
        vec![
            ExcludedScheme::IntRunEnd,
            ExcludedScheme::IntRle,
            ExcludedScheme::FloatAlpRd,
            ExcludedScheme::FloatRle,
            ExcludedScheme::IntDelta,
        ]
    );
}

#[test]
fn binding_stops_at_the_first_bad_type() {
    let names = vec!["a".to_string(), "b".to_string(), "c".to_string()];
    let bind =
        copy_to_bind::<String>(names.clone(), vec![Ok(i32_type()), Ok(utf8())]).unwrap();
    assert_eq!(
        *bind.dtype(),
        DType::Struct(fields(&[("a", i32_type()), ("b", utf8())]), Nullability::NonNullable)
    );
    let bad = copy_to_bind(names, vec![Ok(i32_type()), Err("first"), Err("second")]);
    assert_eq!(bad.err(), Some("first"));
    let past_the_names = copy_to_bind(vec![], vec![Err("never looked at")]);
    assert!(past_the_names.is_ok());
}

#[test]
fn pushing_counts_bytes_until_the_sink_closes() {
    let mut global = start();
    assert_eq!(push_to_writer(&mut global, 10), Ok(()));
    assert_eq!(push_to_writer(&mut global, 5), Ok(()));
    assert_eq!(file_size_bytes(&global), 15);
    copy_to_finalize(&mut global);
    assert_eq!(push_to_writer(&mut global, 1), Err(SinkError::SinkClosed));
    assert_eq!(file_size_bytes(&global), 16);
    assert!(!global.take_task());
    assert!(start().take_task());
    assert_eq!(failed_push(Some(Err("disk full"))), PushError::Writer("disk full"));
    assert_eq!(failed_push::<String>(Some(Ok(()))), PushError::WriterStopped);
    assert_eq!(failed_push::<String>(None), PushError::WriterStopped);
}

#[test]
fn finishing_keeps_the_summary() {
    let mut global = start();
    push_to_writer(&mut global, 1000).unwrap();
    copy_to_finalize(&mut global);
    assert_eq!(global.finish(Err("task"), None, Err("sizes")), Err("task"));
    assert_eq!(global.finish(Ok(write_summary(true)), None, Err("sizes")), Err("sizes"));
    assert!(written_file_stats(&global).is_none());
    global
        .finish::<String>(Ok(write_summary(true)), Some(vec![42]), Ok(vec![]))
        .unwrap();
    assert_eq!(file_size_bytes(&global), 100);
    let stats = written_file_stats(&global).unwrap();
    assert_eq!(
        (stats.row_count, stats.file_size_bytes, stats.footer_size_bytes),
        (3, 100, 0)
    );
    assert_eq!((stats.num_columns, stats.row_group_count), (1, 2));
    let plan = written_column_stats(&global, 0).unwrap().unwrap();
    assert_eq!(plan.footer.column_size_bytes, Some(42));
    assert!(plan.uuid.is_none() && plan.varlen.is_none());
    assert!(written_column_stats(&global, 1).is_err());
}

#[test]
fn nothing_is_reported_before_the_end() {
    let global = start();
    assert!(matches!(written_column_stats(&global, 0), Ok(None)));
    assert_eq!(written_leaf_stats_count(&global), 0);
    assert!(written_leaf_stats(&global, 0).is_none());
}

#[test]
fn bounds_are_cut_or_taken_whole() {
    let plan = BoundPlan::Truncate {
        value: &text("abc"),
        kind: BoundKind::Max,
        max_bytes: 256,
        exact: true,
    };
    assert_eq!(
        stats_bound_to_duckdb(&plan, BoundOutcome::Bound { value: 1, was_truncated: false }),
        (Some(DuckValue::Converted(1)), true)
    );
    assert_eq!(
        stats_bound_to_duckdb(&plan, BoundOutcome::Bound { value: 1, was_truncated: true }),
        (Some(DuckValue::Converted(1)), false)
    );
    assert_eq!(stats_bound_to_duckdb::<i32>(&plan, BoundOutcome::Unbounded), (None, false));
    assert_eq!(
        stats_bound_to_duckdb::<i32>(&BoundPlan::Absent, BoundOutcome::Unbounded),
        (None, true)
    );
    assert_eq!(
        stats_bound_to_duckdb(
            &BoundPlan::Whole { value: &num(1), exact: false },
            BoundOutcome::Bound { value: 1, was_truncated: false }
        ),
        (Some(DuckValue::Converted(1)), false)
    );
}

#[test]
fn texts_of_bounds() {
    let uuid = ScalarValue::List(
        (0..16).map(|b| Some(ScalarValue::Primitive(PValue::U8(b)))).collect(),
    );
    assert_eq!(
        scalar_value_to_stats_string(&uuid_type(), &uuid, ConvertedScalar::Null),
        Some("00010203-0405-0607-0809-0a0b0c0d0e0f".to_string())
    );
    assert_eq!(
        scalar_value_to_stats_string(
            &uuid_type(),
            &num(1),
            ConvertedScalar::Text("1".to_string())
        ),
        None
    );
    assert_eq!(
        scalar_value_to_stats_string(&i32_type(), &num(1), ConvertedScalar::Text("1".to_string())),
        Some("1".to_string())
    );
    assert_eq!(scalar_value_to_stats_string(&i32_type(), &num(1), ConvertedScalar::Null), None);
    assert_eq!(scalar_value_to_stats_string(&i32_type(), &num(1), ConvertedScalar::Failed), None);
}

fn rows(sizes: &[Option<u64>]) -> ListRows {
    ListRows {
        valid: sizes.iter().map(|s| s.is_some()).collect(),
        sizes: sizes.iter().map(|s| s.unwrap_or(9)).collect(),
    }
}

#[test]
fn null_and_empty_lists_are_null_leaf_values() {
    assert_eq!(list_extra_null_slots(&rows(&[])), 0);
    assert_eq!(list_extra_null_slots(&rows(&[Some(2), None, Some(0), Some(1)])), 2);
    assert_eq!(list_extra_null_slots(&rows(&[None, None])), 2);
}

/// A chunk with one column of each shape.
fn chunk(low: i32, high: i32) -> Vec<NamedArray> {
    let list = ArrayData::List {
        lists: rows(&[Some(2), None, Some(0)]),
        elements: Box::new(leaf(i32_type(), 2, Some(stats(num(low), num(high), 1)))),
    };
    let map = ArrayData::Mapping {
        lists: rows(&[Some(1), Some(0), None]),
        entries: vec![
            named("key", leaf(utf8(), 1, Some(stats(text("k"), text("k"), 0)))),
            named("value", leaf(i32_type(), 1, None)),
        ],
    };
    let fixed = ArrayData::FixedSizeList {
        valid: vec![true, false, true],
        list_size: 2,
        elements: Box::new(leaf(i32_type(), 6, Some(stats(num(0), num(low), 2)))),
    };
    let empty = ArrayData::FixedSizeList {
        valid: vec![true, false, true],
        list_size: 0,
        elements: Box::new(leaf(i32_type(), 0, Some(stats(num(0), num(0), 0)))),
    };
    vec![
        named("i", leaf(i32_type(), 3, Some(stats(num(low), num(high), 0)))),
        named("s", leaf(utf8(), 3, Some(stats(text("b"), text("y"), 0)))),
        named("st", ArrayData::Struct(vec![named("l", list)])),
        named("m", map),
        named("f", fixed),
        named("e", empty),
        named("v", ArrayData::Variant),
        named("u", ArrayData::Union),
    ]
}

#[test]
fn chunk_loads() {
    assert_eq!(chunk_load(&vec![]), Some(0));
    // i: 3, s: 3, st.l: 2 nulls, then 2 + 2 + 1, m: 2 nulls, then (1 + 2) twice, f: 1 null, then
    // 6 + 1 + 2, e: 3 nulls, then 3.
    assert_eq!(chunk_load(&chunk(5, 9)), Some(3 + 3 + 7 + 8 + 10 + 6));
    let huge = || named("h", leaf(i32_type(), u64::MAX, None));
    assert_eq!(chunk_load(&vec![huge()]), Some(u64::MAX));
    assert_eq!(chunk_load(&vec![huge(), named("i", leaf(i32_type(), 1, None))]), None);
}

fn finished(mut global: CopyFunctionGlobal) -> CopyFunctionGlobal {
    copy_to_finalize(&mut global);
    let summary = WriteSummary {
        dtype: Arc::new(DType::Struct(
            fields(&[("i", i32_type()), ("s", utf8())]),
            Nullability::NonNullable,
        )),
        statistics: Some(FileStatistics {
            stats_sets: vec![
                stats(num(1), num(3), 0),
                stats(text("cut"), text("cut"), 0),
            ],
            dtypes: vec![i32_type(), utf8()],
        }),
        ..write_summary(true)
    };
    let sizes = vec![FieldSize {
        path: vec![
            PathField::Name("st".to_string()),
            PathField::Name("l".to_string()),
            PathField::ElementType,
        ],
        size: 11,
    }];
    global.finish::<String>(Ok(summary), None, Ok(sizes)).unwrap();
    global
}

#[test]
fn leaves_are_reported_by_path() {
    let mut global = start();
    copy_to_sink(&mut global, chunk(5, 9), 100).unwrap();
    copy_to_sink(&mut global, chunk(3, 7), 100).unwrap();
    assert_eq!(file_size_bytes(&global), 200);
    let global = finished(global);
    let count = written_leaf_stats_count(&global);
    let paths: Vec<String> = (0..count as usize)
        .map(|i| written_leaf_stats(&global, i).unwrap().path.clone())
        .collect();
    assert_eq!(
        paths,
        vec![
            "\"e\".\"element\"",
            "\"f\".\"element\"",
            "\"m\".\"key\"",
            "\"st\".\"l\".\"element\"",
        ]
    );
    assert!(written_leaf_stats(&global, 4).is_none());

    let list = written_leaf_stats(&global, 3).unwrap();
    assert_eq!(list.stats.min, BoundPlan::Whole { value: &num(3), exact: true });
    assert_eq!(list.stats.max, BoundPlan::Whole { value: &num(9), exact: true });
    // Two elements and two null slots in each chunk; one null element in each.
    assert_eq!(list.stats.num_values, 8);
    assert_eq!(list.stats.null_count, Some(2 + 4));
    assert_eq!(list.stats.column_size_bytes, Some(11));

    let fixed = written_leaf_stats(&global, 1).unwrap();
    assert_eq!(fixed.stats.num_values, 14);
    assert_eq!(fixed.stats.null_count, Some(4 + 2));
    assert_eq!(fixed.stats.column_size_bytes, None);

    let empty = written_leaf_stats(&global, 0).unwrap();
    assert_eq!(empty.stats.num_values, 6);
    assert_eq!(empty.stats.null_count, Some(6));

    let key = written_leaf_stats(&global, 2).unwrap();
    assert_eq!(
        key.stats.min,
        BoundPlan::Truncate {
            value: &text("k"),
            kind: BoundKind::Min,
            max_bytes: 256,
            exact: true
        }
    );
    let done = finish_leaf_stats(
        key,
        BoundOutcome::Bound { value: "k", was_truncated: false },
        BoundOutcome::Unbounded,
    );
    assert_eq!(done.min, Some(DuckValue::Converted("k")));
    assert_eq!((done.min_is_exact, done.max_is_exact), (true, false));
}

#[test]
fn string_columns_have_their_own_bounds() {
    let mut global = start();
    copy_to_sink(&mut global, chunk(5, 9), 1).unwrap();
    let global = finished(global);
    assert!(written_column_stats(&global, 0).unwrap().unwrap().varlen.is_none());
    let plan = written_column_stats(&global, 1).unwrap().unwrap();
    let varlen = plan.varlen.as_ref().unwrap();
    assert_eq!(varlen.dtype, &*utf8());
    assert_eq!(
        varlen.min,
        BoundPlan::Truncate {
            value: &text("b"),
            kind: BoundKind::Min,
            max_bytes: 256,
            exact: true
        }
    );
    assert!(matches!(varlen.max, BoundPlan::Truncate { kind: BoundKind::Max, .. }));
    let bound = |value| BoundOutcome::Bound { value, was_truncated: false };
    let done = finish_column_stats(plan, bound("cut"), bound("cut"), bound("b"), bound("y"));
    assert_eq!(done.min, Some(DuckValue::Converted("b")));
    assert_eq!(done.max, Some(DuckValue::Converted("y")));
    assert_eq!(done.num_values, 3);
}

fn uuid_chunk(bytes: Vec<u8>) -> Vec<NamedArray> {
    let array = ArrayData::Leaf(LeafArray {
        dtype: uuid_type(),
        len: 1,
        stats: None,
        uuid: Some(UuidStorage { valid: vec![true], definitely_all_null: false, bytes }),
    });
    vec![named("i", array)]
}

#[test]
fn uuid_columns_report_text() {
    let mut global = start();
    copy_to_sink(&mut global, uuid_chunk(vec![1; 16]), 1).unwrap();
    copy_to_sink(&mut global, uuid_chunk(vec![2; 16]), 1).unwrap();
    let global = finished(global);
    let plan = written_column_stats(&global, 0).unwrap().unwrap();
    let bound = |value| BoundOutcome::Bound { value, was_truncated: false };
    let done = finish_column_stats(plan, bound(1), bound(2), bound(3), bound(4));
    assert_eq!(
        done.min,
        Some(DuckValue::Text("01010101-0101-0101-0101-010101010101".to_string()))
    );
    assert_eq!(
        done.max,
        Some(DuckValue::Text("02020202-0202-0202-0202-020202020202".to_string()))
    );
}

#[test]
fn records_for_c() {
    let mut global = start();
    copy_to_sink(&mut global, chunk(5, 9), 1).unwrap();
    let global = finished(global);
    assert_eq!(
        written_file_record(&written_file_stats(&global).unwrap()),
        WrittenFileRecord {
            row_count: 3,
            file_size_bytes: 100,
            footer_size_bytes: 0,
            num_columns: 2,
        }
    );
    let plan = written_column_stats(&global, 0).unwrap().unwrap();
    let none = || BoundOutcome::<i32>::Unbounded;
    let record = written_column_record(finish_column_stats(plan, none(), none(), none(), none()));
    assert_eq!((record.has_null_count, record.null_count), (true, 0));
    assert_eq!((record.has_column_size, record.column_size_bytes), (false, 0));
    assert_eq!((record.has_nan_stat, record.contains_nan), (false, false));
    assert_eq!(record.num_values, 3);
    assert!(record.min.is_none() && record.max.is_none());
}

#[test]
fn malformed_chunks_leave_the_write_as_it_was() {
    let mut global = start();
    let e = UuidStorageError { actual: 15, rows: 1 };
    assert_eq!(
        copy_to_sink(&mut global, uuid_chunk(vec![1; 15]), 50),
        Err(SinkError::Uuid(e))
    );
    assert_eq!(accumulate_stats_chunk(&mut global, uuid_chunk(vec![1; 15])), Err(e));
    assert_eq!(file_size_bytes(&global), 0);
}

#[test]
fn the_path_is_left_at_a_malformed_leaf() {
    let step = |s: &str| PathField::Name(s.to_string());
    let list = |bytes| ArrayData::List {
        lists: rows(&[Some(1)]),
        elements: Box::new(ArrayData::Struct(uuid_chunk(bytes))),
    };
    let mut acc = StatsAccumulators::new();
    let mut path = vec![step("top")];
    assert_eq!(accumulate_leaf_stats(&mut acc, &mut path, list(vec![1; 16]), 0), Ok(()));
    assert_eq!(path, vec![step("top")]);
    assert_eq!(
        accumulate_leaf_stats(&mut acc, &mut path, list(vec![1; 15]), 0),
        Err(UuidStorageError { actual: 15, rows: 1 })
    );
    assert_eq!(path, vec![step("top"), PathField::ElementType, step("i")]);
}

#[test]
fn batches_merge_once() {
    let mut batch = CopyPreparedBatch::new();
    prepare_batch_push(&mut batch, chunk(5, 9), 70).unwrap();
    prepare_batch_push(&mut batch, chunk(3, 7), 30).unwrap();
    assert_eq!(batch.array_sizes, vec![70, 30]);
    assert!(prepare_batch_push(&mut batch, uuid_chunk(vec![0; 3]), 1).is_err());
    assert_eq!(batch.array_sizes, vec![70, 30]);

    let mut global = start();
    flush_batch(&mut global, &mut batch);
    flush_batch(&mut global, &mut batch);
    assert!(batch.stats.is_none());
    let global = finished(global);
    let list = written_leaf_stats(&global, 3).unwrap();
    assert_eq!(list.stats.num_values, 8);
    assert_eq!(list.stats.min, BoundPlan::Whole { value: &num(3), exact: true });
}

#[test]
fn merging_does_not_depend_on_order() {
    let of = |low, high| {
        let mut batch = CopyPreparedBatch::new();
        prepare_batch_push(&mut batch, chunk(low, high), 1).unwrap();
        batch.stats.unwrap()
    };
    let describe = |acc: &StatsAccumulators| -> Vec<String> {
        (0..acc.leaf.len())
            .map(|i| {
                let (key, leaf) = acc.leaf.nth(i).unwrap();
                format!("{key} {:?} {} {}", leaf.stats, leaf.num_values, leaf.extra_nulls)
            })
            .collect()
    };
    let mut ab = of(5, 9);
    ab.merge(of(3, 7));
    let mut ba = of(3, 7);
    ba.merge(of(5, 9));
    assert_eq!(describe(&ab), describe(&ba));
    let mut left = of(1, 2);
    left.merge(of(5, 9));
    left.merge(of(3, 7));
    let mut right = of(1, 2);
    right.merge(ab);
    assert_eq!(describe(&left), describe(&right));
}

#[test]
fn stats_without_a_bound_lose_it() {
    let inexact = StatsSet {
        min: Precision::Inexact(num(4)),
        max: Precision::Absent,
        null_count: Precision::Inexact(1),
        nan_count: Precision::Exact(2),
    };
    let merged = stats(num(4), num(6), 3).merge_unordered(inexact);
    assert_eq!(merged.min, Precision::Exact(num(4)));
    assert_eq!(merged.max, Precision::Absent);
    assert_eq!(merged.null_count, Precision::Inexact(4));
    assert_eq!(merged.nan_count, Precision::Absent);
    let floats = |a: f64, b: f64| StatsSet {
        min: Precision::Exact(ScalarValue::Primitive(PValue::F64(a.to_bits()))),
        max: Precision::Exact(ScalarValue::Primitive(PValue::F64(b.to_bits()))),
        null_count: Precision::Exact(0),
        nan_count: Precision::Exact(1),
    };
    let merged = floats(-1.5, 2.0).merge_unordered(floats(-3.0, -0.5));
    assert_eq!(merged, StatsSet { nan_count: Precision::Exact(2), ..floats(-3.0, 2.0) });
}
