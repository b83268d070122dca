use std::sync::Arc;

use vortex_core::dtype::DType;
use vortex_core::dtype::ExtDType;
use vortex_core::dtype::Nullability;
use vortex_core::dtype::PType;
use vortex_core::duckdb::enum_metadata::EnumMetadata;
use vortex_core::duckdb::enum_metadata::EnumMetadataError;
use vortex_core::duckdb::exporter::new_exporter;
use vortex_core::duckdb::exporter::new_hugeint_exporter;
use vortex_core::duckdb::exporter::new_interval_exporter;
use vortex_core::duckdb::exporter::new_union_exporter;
use vortex_core::duckdb::exporter::remap_union_tags;
use vortex_core::duckdb::exporter::union_child_mask;
use vortex_core::duckdb::exporter::ColumnExporter;
use vortex_core::duckdb::exporter::ExporterKind;
use vortex_core::duckdb::exporter::HugeInt;
use vortex_core::duckdb::exporter::KnownExtension;
use vortex_core::duckdb::exporter::UnionExporter;
use vortex_core::duckdb::exporter::UnknownUnionTag;
use vortex_core::duckdb::ext_types::bignum_dtype;
use vortex_core::duckdb::ext_types::bit_dtype;
use vortex_core::duckdb::ext_types::create_enum_logical_type;
use vortex_core::duckdb::ext_types::enum_dtype;
use vortex_core::duckdb::ext_types::hugeint_dtype;
use vortex_core::duckdb::ext_types::interval_dtype;
use vortex_core::duckdb::ext_types::logical_type_from_duckdb_ext;
use vortex_core::duckdb::ext_types::time_tz_dtype;
use vortex_core::duckdb::ext_types::uhugeint_dtype;
use vortex_core::duckdb::ext_types::DuckBit;
use vortex_core::duckdb::ext_types::DuckEnum;
use vortex_core::duckdb::ext_types::DuckExtKind;
use vortex_core::duckdb::ext_types::DuckHugeInt;
use vortex_core::duckdb::ext_types::DuckInterval;
use vortex_core::duckdb::ext_types::DuckTimeTz;
use vortex_core::duckdb::ext_types::DuckVariant;
use vortex_core::duckdb::ext_types::DuckdbIntervalPhysical;
use vortex_core::duckdb::ext_types::EmptyExtMetadata;
use vortex_core::duckdb::ext_types::EnumInternalType;
use vortex_core::duckdb::ext_types::EnumTypeError;
use vortex_core::duckdb::ext_types::ExtVTable;
use vortex_core::duckdb::ext_types::InvalidStorage;
use vortex_core::duckdb::ext_types::LogicalTypePlan;
use vortex_core::duckdb::ffi::optional_bytes;
use vortex_core::duckdb::ffi::set_cardinality;
use vortex_core::duckdb::ffi::Cardinality;
use vortex_core::duckdb::ffi::NodeStatistics;
use vortex_core::stats::ScalarValue;

const NULLABLE: Nullability = Nullability::Nullable;

fn names(list: &[&str]) -> EnumMetadata {
    EnumMetadata { names: list.iter().map(|s| s.to_string()).collect() }
}

#[test]
fn enum_metadata_layout() {
    assert_eq!(
        names(&["ab", "", "\u{e9}"]).encode(),
        vec![2, 0, 0, 0, b'a', b'b', 0, 0, 0, 0, 2, 0, 0, 0, 0xc3, 0xa9]
    );
    assert_eq!(names(&[]).encode(), Vec::<u8>::new());
}

#[test]
fn enum_metadata_reads_back() {
    for list in [&[][..], &["a"], &["", "b", "\u{4e16}\u{754c}"], &["x\0y"]] {
        let metadata = names(list);
        assert_eq!(EnumMetadata::decode(&metadata.encode()), Ok(metadata));
    }
    let data = [1, 0, 0, 0, b'q', 0, 0, 0, 0];
    assert_eq!(EnumMetadata::decode(&data).unwrap().encode(), data);
}

#[test]
fn enum_metadata_faults() {
    assert_eq!(EnumMetadata::decode(&[1, 0, 0]), Err(EnumMetadataError::Truncated));
    assert_eq!(
        EnumMetadata::decode(&[2, 0, 0, 0, b'a']),
        Err(EnumMetadataError::TruncatedName)
    );
    assert_eq!(
        EnumMetadata::decode(&[0xff, 0xff, 0xff, 0xff, b'a']),
        Err(EnumMetadataError::TruncatedName)
    );
    assert_eq!(
        EnumMetadata::decode(&[1, 0, 0, 0, 0xff]),
        Err(EnumMetadataError::NameNotUtf8)
    );
}

#[test]
fn metadata_in_words() {
    assert_eq!(names(&[]).display(), "0 members");
    assert_eq!(names(&["a"; 123]).display(), "123 members");
    assert_eq!(EmptyExtMetadata.display(), "");
}

fn ext(dtype: DType) -> ExtDType {
    match dtype {
        DType::Extension(ext) => ext,
        other => panic!("no extension: {other:?}"),
    }
}

fn kind(dtype: DType) -> DuckExtKind {
    match logical_type_from_duckdb_ext(&ext(dtype)) {
        Ok(Some(LogicalTypePlan::Plain(kind))) => kind,
        other => panic!("{other:?}"),
    }
}

#[test]
fn extension_types_are_found_by_id() {
    assert_eq!(kind(interval_dtype(NULLABLE).unwrap()), DuckExtKind::Interval);
    assert_eq!(kind(bit_dtype(NULLABLE).unwrap()), DuckExtKind::Bit);
    assert_eq!(kind(bignum_dtype(NULLABLE).unwrap()), DuckExtKind::Bignum);
    assert_eq!(kind(hugeint_dtype(NULLABLE).unwrap()), DuckExtKind::HugeInt);
    assert_eq!(kind(uhugeint_dtype(NULLABLE).unwrap()), DuckExtKind::UHugeInt);
    assert_eq!(kind(time_tz_dtype(NULLABLE).unwrap()), DuckExtKind::TimeTz);
    let foreign = |id: &str| ExtDType {
        id: id.to_string(),
        metadata: vec![],
        storage: Arc::new(DType::Null),
    };
    assert_eq!(
        logical_type_from_duckdb_ext(&foreign("vortex.duckdb.variant")),
        Ok(Some(LogicalTypePlan::Plain(DuckExtKind::Variant)))
    );
    assert_eq!(logical_type_from_duckdb_ext(&foreign("vortex.uuid")), Ok(None));
}

#[test]
fn extension_storage() {
    let interval = ext(interval_dtype(NULLABLE).unwrap());
    assert_eq!(interval.id, "vortex.interval");
    let DType::Struct(fields, NULLABLE) = &*interval.storage else {
        panic!("a nullable struct");
    };
    let listed: Vec<(&str, &DType)> =
        fields.iter().map(|f| (f.name.as_str(), &*f.dtype)).collect();
    let int32 = DType::Primitive(PType::I32, Nullability::NonNullable);
    let int64 = DType::Primitive(PType::I64, Nullability::NonNullable);
    assert_eq!(listed, vec![("months", &int32), ("days", &int32), ("micros", &int64)]);
    assert_eq!(*ext(bit_dtype(NULLABLE).unwrap()).storage, DType::Binary(NULLABLE));
    assert_eq!(
        *ext(time_tz_dtype(NULLABLE).unwrap()).storage,
        DType::Primitive(PType::U64, NULLABLE)
    );
    assert_eq!(
        *ext(hugeint_dtype(NULLABLE).unwrap()).storage,
        DType::FixedSizeList(
            Arc::new(DType::Primitive(PType::U8, Nullability::NonNullable)),
            16,
            NULLABLE
        )
    );
}

#[test]
fn storage_is_checked() {
    let binary = DType::Binary(NULLABLE);
    let u8s = |n| {
        DType::FixedSizeList(Arc::new(DType::Primitive(PType::U8, NULLABLE)), n, NULLABLE)
    };
    assert_eq!(DuckBit.validate_dtype(&binary), Ok(()));
    assert_eq!(DuckBit.validate_dtype(&DType::Utf8(NULLABLE)), Err(InvalidStorage));
    assert_eq!(DuckHugeInt.validate_dtype(&u8s(16)), Ok(()));
    assert_eq!(DuckHugeInt.validate_dtype(&u8s(15)), Err(InvalidStorage));
    assert_eq!(DuckHugeInt.validate_dtype(&binary), Err(InvalidStorage));
    assert_eq!(
        DuckEnum.validate_dtype(&DType::Primitive(PType::U16, NULLABLE)),
        Ok(())
    );
    assert_eq!(
        DuckEnum.validate_dtype(&DType::Primitive(PType::U64, NULLABLE)),
        Err(InvalidStorage)
    );
    assert_eq!(
        DuckTimeTz.validate_dtype(&DType::Primitive(PType::U64, NULLABLE)),
        Ok(())
    );
    assert_eq!(DuckInterval.validate_dtype(&binary), Err(InvalidStorage));
    assert_eq!(
        DuckInterval.validate_dtype(&DType::Struct(vec![], NULLABLE)),
        Err(InvalidStorage)
    );
    assert_eq!(DuckVariant.validate_dtype(&DType::Struct(vec![], NULLABLE)), Ok(()));
    assert_eq!(DuckVariant.id(), "vortex.duckdb.variant");
    assert_eq!(DuckBit.serialize_metadata(&EmptyExtMetadata), Vec::<u8>::new());
    assert_eq!(DuckBit.deserialize_metadata(&[1, 2]), Ok(EmptyExtMetadata));
    let value = ScalarValue::Bool(true);
    assert_eq!(DuckBit.unpack_native(&value), &value);
}

fn members(list: &[&str]) -> Vec<Option<String>> {
    list.iter().map(|s| Some(s.to_string())).collect()
}

#[test]
fn enum_types() {
    let dtype = enum_dtype(members(&["a", "b"]), EnumInternalType::UTinyInt, NULLABLE).unwrap();
    let made = ext(dtype);
    assert_eq!(made.id, "vortex.enum");
    assert_eq!(made.metadata, names(&["a", "b"]).encode());
    assert_eq!(*made.storage, DType::Primitive(PType::U8, NULLABLE));
    assert_eq!(
        logical_type_from_duckdb_ext(&made),
        Ok(Some(LogicalTypePlan::Enum(vec![b"a\0".to_vec(), b"b\0".to_vec()])))
    );
    let wide = ext(enum_dtype(members(&[]), EnumInternalType::UInteger, NULLABLE).unwrap());
    assert_eq!(*wide.storage, DType::Primitive(PType::U32, NULLABLE));
    let middle = ext(enum_dtype(members(&[]), EnumInternalType::USmallInt, NULLABLE).unwrap());
    assert_eq!(*middle.storage, DType::Primitive(PType::U16, NULLABLE));
}

#[test]
fn enum_type_faults() {
    let mut with_null = members(&["a", "b"]);
    with_null.push(None);
    assert_eq!(
        enum_dtype(with_null, EnumInternalType::UTinyInt, NULLABLE),
        Err(EnumTypeError::NullName(2))
    );
    assert_eq!(
        enum_dtype(members(&["a"]), EnumInternalType::Other(26), NULLABLE),
        Err(EnumTypeError::UnexpectedInternalType(26))
    );
    assert_eq!(
        create_enum_logical_type(&vec!["a".to_string(), "b\0c".to_string()]),
        Err(EnumTypeError::NameContainsNul)
    );
    let mut broken = ext(enum_dtype(members(&["a"]), EnumInternalType::UTinyInt, NULLABLE).unwrap());
    broken.metadata.pop();
    assert_eq!(
        logical_type_from_duckdb_ext(&broken),
        Err(EnumTypeError::Metadata(EnumMetadataError::TruncatedName))
    );
}

#[test]
fn exporters_by_extension() {
    let other = KnownExtension::Other;
    assert_eq!(new_exporter(KnownExtension::Temporal, "vortex.date"), Some(ExporterKind::Temporal));
    assert_eq!(new_exporter(KnownExtension::Uuid, "vortex.uuid"), Some(ExporterKind::Uuid));
    for (id, kind) in [
        ("vortex.hugeint", ExporterKind::HugeInt { signed: true }),
        ("vortex.uhugeint", ExporterKind::HugeInt { signed: false }),
        ("vortex.interval", ExporterKind::Interval),
        ("vortex.enum", ExporterKind::Primitive),
        ("vortex.duckdb.time_tz", ExporterKind::Primitive),
        ("vortex.bit", ExporterKind::VarBinView),
        ("vortex.bignum", ExporterKind::VarBinView),
        ("vortex.duckdb.variant", ExporterKind::Struct),
    ] {
        assert_eq!(new_exporter(other, id), Some(kind));
    }
    assert_eq!(
        new_exporter(KnownExtension::MultiPolygon, "geo"),
        Some(ExporterKind::MultiPolygon)
    );
    assert_eq!(new_exporter(other, "geo"), None);
}

fn stored(value: i128) -> [u8; 16] {
    ((value as u128) ^ (1 << 127)).to_be_bytes()
}

#[test]
fn huge_integers() {
    let values = [0i128, 1, -1, i128::MAX, i128::MIN, 1 << 64, -(1 << 64) + 5];
    let mut bytes: Vec<u8> = values.iter().flat_map(|v| stored(*v)).collect();
    bytes.extend_from_slice(&[1, 2, 3]);
    let exporter = new_hugeint_exporter(true, false, &bytes).unwrap();
    let expected: Vec<HugeInt> = values
        .iter()
        .map(|v| HugeInt { lower: *v as u64, upper: (*v >> 64) as i64 })
        .collect();
    assert_eq!(exporter.export(0, 7), expected.as_slice());
    assert_eq!(exporter.export(2, 3), &expected[2..5]);
    assert!(new_hugeint_exporter(true, true, &bytes).is_none());

    let unsigned: Vec<u8> = [u128::MAX, 7].iter().flat_map(|v| v.to_be_bytes()).collect();
    let exporter = new_hugeint_exporter(false, false, &unsigned).unwrap();
    assert_eq!(
        exporter.export(0, 2),
        &[HugeInt { lower: u64::MAX, upper: -1 }, HugeInt { lower: 7, upper: 0 }]
    );
    assert!(stored(-2) < stored(-1) && stored(-1) < stored(0) && stored(0) < stored(1));
}

#[test]
fn intervals() {
    let exporter = new_interval_exporter(false, &[1, 2], &[3, 4], &[5, 6]).unwrap();
    assert_eq!(
        exporter.export(1, 1),
        &[DuckdbIntervalPhysical { months: 2, days: 4, micros: 6 }]
    );
    assert!(new_interval_exporter(true, &[], &[], &[]).is_none());
}

#[test]
fn union_tags_become_member_numbers() {
    let type_ids = [7u8, 3, 7, 9];
    let valid = [true, true, false, true];
    assert_eq!(remap_union_tags(&type_ids, &valid, &[3, 7, 9]), Ok(vec![1, 0, 0, 2]));
    assert_eq!(remap_union_tags(&type_ids, &valid, &[3, 9]), Err(UnknownUnionTag(7)));
    assert_eq!(
        union_child_mask(&type_ids, &valid, 7),
        vec![true, false, false, false]
    );
    assert_eq!(remap_union_tags(&[5], &[false], &[]), Ok(vec![0]));
}

#[test]
fn unions_are_exported_by_child() {
    let plan = new_union_exporter(&[7, 3, 7], &[true, true, false], &[3, 7], 5).unwrap();
    assert_eq!(plan.type_ids, vec![1, 0, 0]);
    assert_eq!(
        plan.child_masks,
        vec![vec![false, true, false], vec![true, false, false]]
    );
    assert_eq!(new_union_exporter(&[3], &[true], &[3, 7], 1).unwrap().child_masks.len(), 1);
    assert_eq!(new_union_exporter(&[4], &[true], &[3, 7], 2), Err(UnknownUnionTag(4)));
}

struct AtMost(usize);

impl ColumnExporter for AtMost {
    fn preferred_batch_len(&self, offset: usize, max_len: usize) -> usize {
        max_len.min(self.0.saturating_sub(offset))
    }
}

#[test]
fn union_batches_fit_all_children() {
    let union = UnionExporter {
        type_ids: AtMost(100),
        children: vec![AtMost(90), AtMost(40), AtMost(60)],
    };
    assert_eq!(union.preferred_batch_len(10, 2048), 30);
    assert_eq!(union.preferred_batch_len(10, 20), 20);
    let empty = UnionExporter { type_ids: AtMost(5), children: vec![] };
    assert_eq!(empty.preferred_batch_len(0, 9), 5);
}

#[test]
fn cardinalities() {
    let unknown = NodeStatistics {
        has_estimated_cardinality: false,
        estimated_cardinality: 0,
        has_max_cardinality: false,
        max_cardinality: 0,
    };
    let mut stats = unknown;
    set_cardinality(&mut stats, Cardinality::Estimate(7));
    assert_eq!(
        stats,
        NodeStatistics { has_estimated_cardinality: true, estimated_cardinality: 7, ..unknown }
    );
    set_cardinality(&mut stats, Cardinality::Exact(9));
    assert_eq!(
        stats,
        NodeStatistics {
            has_estimated_cardinality: true,
            estimated_cardinality: 9,
            has_max_cardinality: true,
            max_cardinality: 9,
        }
    );
}

#[test]
fn empty_bytes_are_none() {
    assert_eq!(optional_bytes(None), None);
    assert_eq!(optional_bytes(Some(vec![])), None);
    assert_eq!(optional_bytes(Some(vec![1])), Some(vec![1]));
}
