use vortex_core::duckdb::path_key::quoted_leaf_key;
use vortex_core::duckdb::path_key::PathField;
use vortex_core::duckdb::uuid::accumulate_uuid_stats;
use vortex_core::duckdb::uuid::uuid_bytes_string;
use vortex_core::duckdb::uuid::uuid_stats_string;
use vortex_core::duckdb::uuid::UuidStats;
use vortex_core::duckdb::uuid::UuidStorage;
use vortex_core::duckdb::uuid::UuidStorageError;
use vortex_core::stats::PValue;
use vortex_core::stats::ScalarValue;

#[test]
fn uuids_are_hyphenated() {
    let bytes: [u8; 16] = [
        0x12, 0x3e, 0x45, 0x67, 0xe8, 0x9b, 0x12, 0xd3, 0xa4, 0x56, 0x42, 0x66, 0x14, 0x17, 0x40,
        0x00,
    ];
    assert_eq!(uuid_bytes_string(&bytes), "123e4567-e89b-12d3-a456-426614174000");
    assert_eq!(uuid_bytes_string(&[0xff; 16]), "ffffffff-ffff-ffff-ffff-ffffffffffff");
}

fn byte(b: u8) -> Option<ScalarValue> {
    Some(ScalarValue::Primitive(PValue::U8(b)))
}

#[test]
fn uuids_are_read_from_lists_of_sixteen_bytes() {
    let list = ScalarValue::List((0..16).map(byte).collect());
    assert_eq!(
        uuid_stats_string(&list),
        Some("00010203-0405-0607-0809-0a0b0c0d0e0f".to_string())
    );
    assert_eq!(uuid_stats_string(&ScalarValue::List((0..15).map(byte).collect())), None);
    let mut with_null: Vec<Option<ScalarValue>> = (0..16).map(byte).collect();
    with_null[7] = None;
    assert_eq!(uuid_stats_string(&ScalarValue::List(with_null)), None);
    let mut wrong_type: Vec<Option<ScalarValue>> = (0..16).map(byte).collect();
    wrong_type[7] = Some(ScalarValue::Primitive(PValue::I8(7)));
    assert_eq!(uuid_stats_string(&ScalarValue::List(wrong_type)), None);
    assert_eq!(uuid_stats_string(&ScalarValue::Bool(true)), None);
}

fn storage(rows: &[Option<u8>]) -> UuidStorage {
    UuidStorage {
        valid: rows.iter().map(|r| r.is_some()).collect(),
        definitely_all_null: false,
        bytes: rows.iter().flat_map(|r| [r.unwrap_or(0); 16]).collect(),
    }
}

#[test]
fn uuid_extrema_cover_valid_rows() {
    let mut acc = UuidStats::new();
    accumulate_uuid_stats(&mut acc, &storage(&[Some(5), None, Some(200), Some(7)])).unwrap();
    assert_eq!(acc.min, Some([5; 16]));
    assert_eq!(acc.max, Some([200; 16]));
    accumulate_uuid_stats(&mut acc, &storage(&[Some(3)])).unwrap();
    assert_eq!(acc.min, Some([3; 16]));
    assert_eq!(acc.max, Some([200; 16]));
}

#[test]
fn uuid_arrays_without_values_change_nothing() {
    let mut acc = UuidStats::new();
    accumulate_uuid_stats(&mut acc, &storage(&[])).unwrap();
    let mut all_null = storage(&[None, None]);
    all_null.definitely_all_null = true;
    all_null.bytes.clear();
    accumulate_uuid_stats(&mut acc, &all_null).unwrap();
    accumulate_uuid_stats(&mut acc, &storage(&[None])).unwrap();
    assert!(acc.min.is_none() && acc.max.is_none());
}

#[test]
fn uuid_storage_of_another_size_is_an_error() {
    let mut acc = UuidStats::new();
    let mut bad = storage(&[Some(1), Some(2)]);
    bad.bytes.pop();
    assert_eq!(
        accumulate_uuid_stats(&mut acc, &bad),
        Err(UuidStorageError { actual: 31, rows: 2 })
    );
    assert!(acc.min.is_none());
}

#[test]
fn unions_of_extrema_do_not_depend_on_order() {
    let of = |rows: &[Option<u8>]| {
        let mut acc = UuidStats::new();
        accumulate_uuid_stats(&mut acc, &storage(rows)).unwrap();
        acc
    };
    let ab = of(&[Some(4), Some(9)]).union(of(&[Some(2)]));
    let ba = of(&[Some(2)]).union(of(&[Some(4), Some(9)]));
    assert_eq!((ab.min, ab.max), (ba.min, ba.max));
    assert_eq!((ab.min, ab.max), (Some([2; 16]), Some([9; 16])));
    let none = UuidStats::new().union(of(&[Some(4)]));
    assert_eq!((none.min, none.max), (Some([4; 16]), Some([4; 16])));
}

fn name(s: &str) -> PathField {
    PathField::Name(s.to_string())
}

#[test]
fn path_keys_quote_each_step() {
    assert_eq!(quoted_leaf_key(&[]), "");
    assert_eq!(quoted_leaf_key(&[name("col")]), "\"col\"");
    assert_eq!(
        quoted_leaf_key(&[name("l"), PathField::ElementType, name("a.b")]),
        "\"l\".\"element\".\"a.b\""
    );
    assert_eq!(quoted_leaf_key(&[name("a\"b"), name("")]), "\"a\"\"b\".\"\"");
    // One name with a quoted dot in it is not two names.
    assert_ne!(quoted_leaf_key(&[name("a\".\"b")]), quoted_leaf_key(&[name("a"), name("b")]));
}
