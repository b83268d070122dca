use std::sync::Arc;

use vortex_core::dtype::DType;
use vortex_core::dtype::NamedField;
use vortex_core::dtype::Nullability;
use vortex_core::dtype::PType;
use vortex_core::duckdb::copy::FieldSize;
use vortex_core::duckdb::copy_stats::ConvertedScalar;
use vortex_core::duckdb::ffi::column_stat_record;
use vortex_core::duckdb::ffi::ColumnStatRecord;
use vortex_core::duckdb::full_metadata::build_column_stats;
use vortex_core::duckdb::full_metadata::build_schema;
use vortex_core::duckdb::full_metadata::is_nested_container;
use vortex_core::duckdb::full_metadata::leaf_column_ids;
use vortex_core::duckdb::full_metadata::open_full_metadata;
use vortex_core::duckdb::full_metadata::plan_schema;
use vortex_core::duckdb::full_metadata::FooterColumn;
use vortex_core::duckdb::full_metadata::MetadataError;
use vortex_core::duckdb::full_metadata::NodeType;
use vortex_core::duckdb::path_key::PathField;
use vortex_core::stats::PValue;
use vortex_core::stats::Precision;
use vortex_core::stats::ScalarValue;
use vortex_core::stats::StatsSet;

fn i32_type() -> Arc<DType> {
    Arc::new(DType::Primitive(PType::I32, Nullability::Nullable))
}

fn utf8() -> Arc<DType> {
    Arc::new(DType::Utf8(Nullability::Nullable))
}

fn row(fields: Vec<(&str, Arc<DType>)>) -> DType {
    DType::Struct(
        fields
            .into_iter()
            .map(|(name, dtype)| NamedField { name: name.to_string(), dtype })
            .collect(),
        Nullability::NonNullable,
    )
}

fn type_names(n: usize) -> Vec<Result<String, String>> {
    (0..n).map(|i| Ok(format!("TYPE{i}"))).collect()
}

#[test]
fn flat_schema_has_synthetic_root() {
    let dtype = row(vec![("col1", i32_type()), ("col2", utf8())]);
    let schema = build_schema::<String>(
        &dtype,
        vec![Ok("INTEGER".to_string()), Ok("VARCHAR".to_string())],
    )
    .unwrap();
    assert_eq!(schema[0].name, "vortex_schema");
    assert_eq!(schema[0].num_children, 2);
    assert_eq!(schema[1].name, "col1");
    assert_eq!(schema[1].num_children, 0);
    assert_eq!(schema[2].name, "col2");
    assert_eq!(schema[2].num_children, 0);
    assert_eq!(schema[0].duckdb_type, "");
    assert_eq!(schema[1].duckdb_type, "INTEGER");
    assert_eq!(schema[2].duckdb_type, "VARCHAR");
}

/// A file with a nested column of each kind between flat ones.
fn nested() -> DType {
    row(vec![
        ("a", i32_type()),
        ("s", Arc::new(row(vec![("x", i32_type()), ("y", utf8())]))),
        ("l", Arc::new(DType::List(i32_type(), Nullability::Nullable))),
        ("b", utf8()),
        ("f", Arc::new(DType::FixedSizeList(utf8(), 3, Nullability::Nullable))),
        (
            "m",
            Arc::new(DType::Mapping(utf8(), i32_type(), Nullability::Nullable)),
        ),
        ("n", Arc::new(row(vec![]))),
        ("c", i32_type()),
    ])
}

#[test]
fn nested_schema_lists_children_after_their_parent() {
    let dtype = nested();
    let plan = plan_schema(&dtype);
    let shape: Vec<(&str, u64)> = plan.iter().map(|n| (n.name, n.num_children)).collect();
    assert_eq!(
        shape,
        vec![
            ("vortex_schema", 8),
            ("a", 0),
            ("s", 2),
            ("x", 0),
            ("y", 0),
            ("l", 1),
            ("element", 0),
            ("b", 0),
            ("f", 1),
            ("element", 0),
            ("m", 1),
            ("key_value", 2),
            ("key", 0),
            ("value", 0),
            ("n", 0),
            ("c", 0),
        ]
    );
    assert_eq!(plan[0].ty, NodeType::Root);
    assert_eq!(plan[1].ty, NodeType::Of(&i32_type()));
    assert_eq!(plan[11].ty, NodeType::KeyValue(&utf8(), &i32_type()));
    let schema = build_schema(&dtype, type_names(15)).unwrap();
    assert_eq!(leaf_column_ids(&schema), (0..10).collect::<Vec<u64>>());
}

#[test]
fn files_without_a_struct_have_one_column() {
    let dtype = DType::Utf8(Nullability::Nullable);
    let schema = build_schema(&dtype, type_names(1)).unwrap();
    assert_eq!((schema[0].name.as_str(), schema[0].num_children), ("vortex_schema", 1));
    assert_eq!((schema[1].name.as_str(), schema[1].num_children), ("value", 0));
    assert_eq!(leaf_column_ids(&schema), vec![0]);
    assert_eq!(leaf_column_ids(&[]), Vec::<u64>::new());
}

#[test]
fn the_first_type_without_a_name_is_the_error() {
    let dtype = row(vec![("a", i32_type()), ("b", utf8()), ("c", utf8())]);
    let names = vec![Ok("INTEGER".to_string()), Err("first"), Err("second")];
    assert_eq!(build_schema(&dtype, names).err(), Some("first"));
}

#[test]
fn nested_types() {
    let DType::Struct(fields, _) = nested() else {
        panic!("a struct");
    };
    let flags: Vec<bool> = fields.iter().map(|f| is_nested_container(&f.dtype)).collect();
    assert_eq!(flags, vec![false, true, true, false, true, true, true, false]);
}

fn column(min: i32, exact: bool, nans: Precision<u64>) -> FooterColumn {
    let bound = |x| {
        let value = ScalarValue::Primitive(PValue::I32(x));
        if exact {
            Precision::Exact(value)
        } else {
            Precision::Inexact(value)
        }
    };
    FooterColumn {
        stats: StatsSet {
            min: bound(min),
            max: bound(min + 1),
            null_count: Precision::Exact(min as u64),
            nan_count: nans,
        },
        min: ConvertedScalar::Text(min.to_string()),
        max: ConvertedScalar::Text((min + 1).to_string()),
    }
}

#[test]
fn column_ids_count_leaves_of_nested_columns() {
    let dtype = nested();
    let columns: Vec<FooterColumn> = (0..8).map(|i| column(i, true, Precision::Absent)).collect();
    let sizes = vec![FieldSize { path: vec![PathField::Name("b".to_string())], size: 99 }];
    let stats =
        build_column_stats(&dtype, type_names(15), 1000, Some(columns), Some(sizes)).unwrap();
    let ids: Vec<u64> = stats.iter().map(|s| s.column_id).collect();
    assert_eq!(ids, vec![0, 4, 9]);
    assert_eq!(stats[1].stats_min, Some("3".to_string()));
    assert_eq!(stats[1].stats_max, Some("4".to_string()));
    assert_eq!(stats[1].stats_null_count, Some(3));
    assert_eq!(stats[1].stats_num_values, Some(1000));
    assert_eq!(stats[1].total_compressed_size, Some(99));
    assert_eq!(stats[1].contains_nan, None);
    assert_eq!(stats[0].total_compressed_size, None);
}

#[test]
fn only_exact_statistics_are_reported() {
    let dtype = row(vec![("a", i32_type()), ("b", i32_type())]);
    let columns = vec![
        column(1, false, Precision::Exact(2)),
        column(5, true, Precision::Inexact(2)),
    ];
    let stats = build_column_stats(&dtype, type_names(2), 7, Some(columns), None).unwrap();
    assert_eq!(stats[0].stats_min, None);
    assert_eq!(stats[0].stats_max, None);
    assert_eq!(stats[0].contains_nan, Some(true));
    assert_eq!(stats[1].stats_min, Some("5".to_string()));
    assert_eq!(stats[1].contains_nan, None);
}

#[test]
fn statistics_need_one_set_for_each_column() {
    let dtype = row(vec![("a", i32_type()), ("b", i32_type())]);
    let one = vec![column(1, true, Precision::Absent)];
    assert_eq!(
        build_column_stats(&dtype, type_names(2), 7, Some(one), None).err(),
        Some(MetadataError::StatsLength { stats: 1, columns: 2 })
    );
    assert_eq!(build_column_stats(&dtype, type_names(2), 7, None, None), Ok(vec![]));
    let unnamed = vec![Ok("INTEGER".to_string()), Err("no name".to_string())];
    assert_eq!(
        build_column_stats(&dtype, unnamed, 7, None, None).err(),
        Some(MetadataError::Type("no name".to_string()))
    );
}

#[test]
fn metadata_puts_it_together() {
    let dtype = row(vec![("a", i32_type())]);
    let columns = vec![column(1, true, Precision::Exact(0))];
    let meta = open_full_metadata(
        "/data/x.vortex",
        Some(123),
        7,
        &dtype,
        type_names(1),
        Some(columns),
        None,
    )
    .unwrap();
    assert_eq!(meta.file_name, "/data/x.vortex");
    assert_eq!((meta.num_rows, meta.file_size_bytes), (7, 123));
    assert_eq!(meta.schema.len(), 2);
    assert_eq!(meta.schema_at(1).unwrap().name, "a");
    assert!(meta.schema_at(2).is_none());
    assert!(meta.stat_at(1).is_none());
    assert_eq!(
        column_stat_record(meta.stat_at(0).unwrap()),
        ColumnStatRecord {
            column_id: 0,
            has_stats_min: true,
            has_stats_max: true,
            stats_null_count: 1,
            has_null_count: true,
            stats_num_values: 7,
            has_num_values: true,
            total_compressed_size: 0,
            has_compressed_size: false,
            contains_nan: false,
            has_contains_nan: true,
        }
    );
    let unknown =
        open_full_metadata::<String>("x", None, 0, &dtype, type_names(1), None, None).unwrap();
    assert_eq!(unknown.file_size_bytes, 0);
    assert!(unknown.stats.is_empty());
}
