//! Walking a chunk of nested data to accumulate the statistics of its leaf columns.

use std::sync::Arc;

use vstd::prelude::*;

use crate::dtype::DType;
use crate::duckdb::accumulate::join_at;
use crate::duckdb::accumulate::joined_at;
use crate::duckdb::accumulate::law_merge_associates;
use crate::duckdb::accumulate::AccModel;
use crate::duckdb::accumulate::LeafModel;
use crate::duckdb::accumulate::LeafStatsAccum;
use crate::duckdb::accumulate::Mergeable;
use crate::duckdb::accumulate::StatsAccumulators;
use crate::duckdb::accumulate::VarlenBounds;
use crate::duckdb::accumulate::VarlenModel;
use crate::duckdb::path_key::copy_path;
use crate::duckdb::path_key::leaf_key;
use crate::duckdb::path_key::path_model;
use crate::duckdb::path_key::quoted_leaf_key;
use crate::duckdb::path_key::PathField;
use crate::duckdb::path_key::PathModel;
use crate::duckdb::uuid::accumulate_uuid_stats;
use crate::duckdb::uuid::law_uuid_union_associates;
use crate::duckdb::uuid::uuid_accumulated;
use crate::duckdb::uuid::uuid_scan;
use crate::duckdb::uuid::UuidModel;
use crate::duckdb::uuid::UuidStats;
use crate::duckdb::uuid::UuidStorage;
use crate::duckdb::uuid::UuidStorageError;
use crate::stats::count_model;
use crate::stats::union_bound;
use crate::stats::BoundKind;
use crate::stats::Precision;
use crate::stats::StatsModel;
use crate::stats::StatsSet;

verus! {

/// The rows of a list array: whether each is valid, and how many elements it has.
pub struct ListRows {
    pub valid: Vec<bool>,
    pub sizes: Vec<u64>,
}

/// A leaf array: its type and length, the statistics that could be computed on it, and its
/// storage if it holds UUIDs.
pub struct LeafArray {
    pub dtype: Arc<DType>,
    pub len: u64,
    pub stats: Option<StatsSet>,
    pub uuid: Option<UuidStorage>,
}

/// What the statistics of a nested array depend on.
pub enum ArrayData {
    Struct(Vec<NamedArray>),
    List { lists: ListRows, elements: Box<ArrayData> },
    FixedSizeList { valid: Vec<bool>, list_size: u32, elements: Box<ArrayData> },
    /// A map, with the fields of its entries.
    Mapping { lists: ListRows, entries: Vec<NamedArray> },
    /// A variant, whose statistics are reported through a column of their own.
    Variant,
    Union,
    Leaf(LeafArray),
}

/// A field of a struct array.
pub struct NamedArray {
    pub name: String,
    pub array: ArrayData,
}

/// The number of leading rows of a list array, out of `n`, that count as one null leaf value:
/// null lists and empty lists.
pub open spec fn null_slots(rows: ListRows, n: nat) -> nat
    decreases n,
{
    if n == 0 {
        0
    } else {
        null_slots(rows, (n - 1) as nat) + (if !rows.valid@[n - 1] || (n - 1 < rows.sizes@.len()
            && rows.sizes@[n - 1] == 0) {
            1nat
        } else {
            0
        })
    }
}

/// The number of `false` among the first `n`.
pub open spec fn invalid_count(valid: Seq<bool>, n: nat) -> nat
    decreases n,
{
    if n == 0 {
        0
    } else {
        invalid_count(valid, (n - 1) as nat) + (if valid[n - 1] {
            0nat
        } else {
            1
        })
    }
}

/// The null leaf values that the rows of a fixed-size list array stand for: all rows if lists
/// have no elements, else the null ones.
pub open spec fn fixed_null_slots(valid: Seq<bool>, list_size: u32) -> nat {
    if list_size == 0 {
        valid.len()
    } else {
        invalid_count(valid, valid.len())
    }
}

/// The number of null leaf values that list rows contribute to their elements: each null list
/// and each empty list counts as one.
pub fn list_extra_null_slots(rows: &ListRows) -> (r: u64)
    ensures
        r == null_slots(*rows, rows.valid@.len()),
{
    let mut count: u64 = 0;
    for i in 0..rows.valid.len()
        invariant
            count == null_slots(*rows, i as nat),
            count <= i,
    {
        if !rows.valid[i] || (i < rows.sizes.len() && rows.sizes[i] == 0) {
            count += 1;
        }
    }
    count
}

/// The number of elements of the first `n` rows of a list array.
pub open spec fn element_count(rows: ListRows, n: nat) -> nat
    decreases n,
{
    if n == 0 {
        0
    } else {
        element_count(rows, (n - 1) as nat) + (if rows.valid@[n - 1] {
            rows.sizes@[n - 1] as nat
        } else {
            0
        })
    }
}

/// The number of leaf values that the first `n` rows of a list array stand for: as many as they
/// have elements, but at least one each.
pub open spec fn leaf_value_count(rows: ListRows, n: nat) -> nat
    decreases n,
{
    if n == 0 {
        0
    } else {
        leaf_value_count(rows, (n - 1) as nat) + (if rows.valid@[n - 1] && rows.sizes@[n - 1] > 1 {
            rows.sizes@[n - 1] as nat
        } else {
            1
        })
    }
}

/// Elements and null values together are what the rows of a list array stand for: a row
/// contributes its elements, or one null value if it has none.
pub proof fn law_list_rows_contribute_leaf_values(rows: ListRows, n: nat)
    requires
        n <= rows.valid@.len(),
        n <= rows.sizes@.len(),
    ensures
        element_count(rows, n) + null_slots(rows, n) == leaf_value_count(rows, n),
    decreases n,
{
    if n > 0 {
        law_list_rows_contribute_leaf_values(rows, (n - 1) as nat);
    }
}

fn fixed_extra_null_slots(valid: &Vec<bool>, list_size: u32) -> (r: u64)
    ensures
        r == fixed_null_slots(valid@, list_size),
{
    if list_size == 0 {
        return valid.len() as u64;
    }
    let mut count: u64 = 0;
    for i in 0..valid.len()
        invariant
            count == invalid_count(valid@, i as nat),
            count <= i,
    {
        if !valid[i] {
            count += 1;
        }
    }
    count
}

/// What accumulating gives.
pub struct Outcome {
    /// What is accumulated afterwards.
    pub acc: AccModel,
    /// The malformed data that accumulating stopped at, if any.
    pub error: Option<UuidStorageError>,
    /// Whether all counts on the way can be held.
    pub fits: bool,
    /// The path afterwards: where it was, or the path of the malformed data.
    pub path: Seq<PathModel>,
}

impl Outcome {
    /// What is left at `path` of going further down: the path comes back unless that failed.
    pub open spec fn back_at(self, path: Seq<PathModel>) -> Outcome {
        if self.error is Some {
            self
        } else {
            Outcome { path, ..self }
        }
    }
}

/// The error of a result, if it is one.
pub open spec fn error_of(r: Result<(), UuidStorageError>) -> Option<UuidStorageError> {
    match r {
        Ok(_) => None,
        Err(e) => Some(e),
    }
}

/// The error that malformed storage gives.
pub open spec fn malformed_error(storage: UuidStorage) -> UuidStorageError {
    UuidStorageError { actual: storage.bytes@.len() as usize, rows: storage.valid@.len() as usize }
}

/// The bounds alone, without the counts.
pub open spec fn bounds_only(stats: StatsModel) -> StatsModel {
    StatsModel { null_count: Precision::Absent, nan_count: Precision::Absent, ..stats }
}

/// The extrema under a key, or none.
pub open spec fn uuid_at(m: Map<Seq<char>, UuidModel>, key: Seq<char>) -> UuidModel {
    if m.contains_key(key) {
        m[key]
    } else {
        UuidModel::none()
    }
}

/// Accumulating the UUIDs of a leaf.
pub open spec fn uuid_outcome(acc: AccModel, path: Seq<PathModel>, leaf: LeafArray) -> AccModel {
    match leaf.uuid {
        Some(storage) => AccModel {
            uuid: acc.uuid.insert(
                leaf_key(path),
                uuid_accumulated(uuid_at(acc.uuid, leaf_key(path)), storage),
            ),
            ..acc
        },
        None => acc,
    }
}

/// Accumulating the bounds of a top-level column.
pub open spec fn varlen_outcome(
    acc: AccModel,
    path: Seq<PathModel>,
    dtype: DType,
    stats: StatsModel,
) -> Outcome {
    let key = leaf_key(path);
    let value = VarlenModel { dtype, stats: bounds_only(stats) };
    Outcome {
        acc: AccModel {
            varlen_bounds: acc.varlen_bounds.insert(
                key,
                joined_at::<VarlenBounds>(acc.varlen_bounds, key, value),
            ),
            ..acc
        },
        error: None,
        fits: true,
        path,
    }
}

/// Accumulating the statistics of a leaf below a top-level column.
pub open spec fn nested_outcome(
    acc: AccModel,
    path: Seq<PathModel>,
    leaf: LeafArray,
    stats: StatsModel,
    extra_nulls: int,
) -> Outcome {
    let key = leaf_key(path);
    let value = LeafModel {
        path,
        dtype: *leaf.dtype,
        stats,
        num_values: leaf.len + extra_nulls,
        extra_nulls,
    };
    Outcome {
        acc: AccModel {
            leaf: acc.leaf.insert(key, joined_at::<LeafStatsAccum>(acc.leaf, key, value)),
            ..acc
        },
        error: None,
        fits: leaf.len + extra_nulls <= u64::MAX && (acc.leaf.contains_key(key)
            ==> LeafStatsAccum::joinable(acc.leaf[key], value)),
        path,
    }
}

/// Accumulating a leaf: its UUIDs; then, for a string or binary column at the top level, its
/// bounds, and below the top level all its statistics. A leaf without statistics adds none.
pub open spec fn leaf_outcome(
    acc: AccModel,
    path: Seq<PathModel>,
    leaf: LeafArray,
    extra_nulls: int,
) -> Outcome {
    let after = uuid_outcome(acc, path, leaf);
    if leaf.uuid matches Some(storage) && storage.malformed() {
        Outcome { acc: after, error: Some(malformed_error(leaf.uuid->Some_0)), fits: true, path }
    } else {
        match leaf.stats {
            Some(stats) => if path.len() >= 2 {
                nested_outcome(after, path, leaf, stats@, extra_nulls)
            } else if path.len() == 1 && (*leaf.dtype is Utf8 || *leaf.dtype is Binary) {
                varlen_outcome(after, path, *leaf.dtype, stats@)
            } else {
                Outcome { acc: after, error: None, fits: true, path }
            },
            None => Outcome { acc: after, error: None, fits: true, path },
        }
    }
}

/// Accumulating an array at `path`, below lists that contribute `extra_nulls` null values.
pub open spec fn array_outcome(
    acc: AccModel,
    path: Seq<PathModel>,
    array: ArrayData,
    extra_nulls: int,
) -> Outcome
    decreases array, 0nat,
{
    match array {
        ArrayData::Struct(fields) => fields_outcome(
            acc,
            path,
            fields,
            fields@.len(),
            extra_nulls,
        ),
        ArrayData::List { lists, elements } => {
            let nulls = extra_nulls + null_slots(lists, lists.valid@.len());
            let inner = array_outcome(
                acc,
                path.push(PathModel::ElementType),
                *elements,
                nulls,
            ).back_at(path);
            Outcome { fits: nulls <= u64::MAX && inner.fits, ..inner }
        },
        ArrayData::FixedSizeList { valid, list_size, elements } => {
            let nulls = extra_nulls + fixed_null_slots(valid@, list_size);
            let inner = array_outcome(
                acc,
                path.push(PathModel::ElementType),
                *elements,
                nulls,
            ).back_at(path);
            Outcome { fits: nulls <= u64::MAX && inner.fits, ..inner }
        },
        ArrayData::Mapping { lists, entries } => {
            let nulls = extra_nulls + null_slots(lists, lists.valid@.len());
            let inner = fields_outcome(acc, path, entries, entries@.len(), nulls);
            Outcome { fits: nulls <= u64::MAX && inner.fits, ..inner }
        },
        ArrayData::Variant => Outcome { acc, error: None, fits: true, path },
        ArrayData::Union => Outcome { acc, error: None, fits: true, path },
        ArrayData::Leaf(leaf) => leaf_outcome(acc, path, leaf, extra_nulls),
    }
}

/// Accumulating the first `n` fields of a struct at `path`, up to the first that fails.
pub open spec fn fields_outcome(
    acc: AccModel,
    path: Seq<PathModel>,
    fields: Vec<NamedArray>,
    n: nat,
    extra_nulls: int,
) -> Outcome
    decreases fields, n,
{
    if n == 0 || n > fields@.len() {
        Outcome { acc, error: None, fits: true, path }
    } else {
        let front = fields_outcome(acc, path, fields, (n - 1) as nat, extra_nulls);
        if front.error is Some {
            front
        } else {
            let field = fields@[n - 1];
            let last = array_outcome(
                front.acc,
                path.push(PathModel::Name(field.name@)),
                field.array,
                extra_nulls,
            ).back_at(path);
            Outcome { fits: front.fits && last.fits, ..last }
        }
    }
}

proof fn lemma_fields_prefix(
    acc: AccModel,
    path: Seq<PathModel>,
    fields: Vec<NamedArray>,
    m: nat,
    n: nat,
    extra_nulls: int,
)
    requires
        m <= n <= fields@.len(),
        fields_outcome(acc, path, fields, n, extra_nulls).fits,
    ensures
        fields_outcome(acc, path, fields, m, extra_nulls).fits,
        fields_outcome(acc, path, fields, m, extra_nulls).error is Some ==> fields_outcome(
            acc,
            path,
            fields,
            n,
            extra_nulls,
        ) == fields_outcome(acc, path, fields, m, extra_nulls),
    decreases n - m,
{
    if m < n {
        lemma_fields_prefix(acc, path, fields, m, (n - 1) as nat, extra_nulls);
    }
}

fn accumulate_leaf(
    acc: &mut StatsAccumulators,
    path: &Vec<PathField>,
    leaf: LeafArray,
    extra_nulls: u64,
) -> (r: Result<(), UuidStorageError>)
    requires
        leaf_outcome(old(acc)@, path_model(path@), leaf, extra_nulls as int).fits,
    ensures
        error_of(r) == leaf_outcome(
            old(acc)@,
            path_model(path@),
            leaf,
            extra_nulls as int,
        ).error,
        final(acc)@ == leaf_outcome(old(acc)@, path_model(path@), leaf, extra_nulls as int).acc,
{
    let ghost steps = path_model(path@);
    let ghost before = acc@;
    if let Some(storage) = &leaf.uuid {
        let key = quoted_leaf_key(path.as_slice());
        let mut extrema = match acc.uuid.remove(key.as_str()) {
            Some(extrema) => extrema,
            None => UuidStats::new(),
        };
        assert(extrema@ == uuid_at(before.uuid, key@));
        let scanned = accumulate_uuid_stats(&mut extrema, storage);
        acc.uuid.insert(key, extrema);
        assert(acc@.uuid =~= uuid_outcome(before, steps, leaf).uuid);
        assert(acc@ == uuid_outcome(before, steps, leaf));
        if let Err(e) = scanned {
            return Err(e);
        }
    }
    let ghost after = uuid_outcome(before, steps, leaf);
    assert(acc@ == after);
    match leaf.stats {
        Some(stats) => {
            if path.len() >= 2 {
                let key = quoted_leaf_key(path.as_slice());
                let value = LeafStatsAccum {
                    path: copy_path(path.as_slice()),
                    dtype: leaf.dtype,
                    stats,
                    num_values: leaf.len + extra_nulls,
                    extra_nulls,
                };
                join_at(&mut acc.leaf, key, value);
            } else if path.len() == 1 && matches!(
                *leaf.dtype,
                DType::Utf8(_) | DType::Binary(_)
            ) {
                let key = quoted_leaf_key(path.as_slice());
                let bounds = StatsSet {
                    min: stats.min,
                    max: stats.max,
                    null_count: Precision::Absent,
                    nan_count: Precision::Absent,
                };
                let value = VarlenBounds { dtype: leaf.dtype, stats: bounds };
                assert(value@.stats == bounds_only(stats@));
                join_at(&mut acc.varlen_bounds, key, value);
            }
        },
        None => {},
    }
    Ok(())
}

/// Accumulates the statistics of all leaves of an array at `path`. Lists around it contribute
/// `extra_nulls` null values to each leaf; nulls of structs are nulls of their leaves already.
/// Where a leaf is malformed, the path is left at that leaf.
pub fn accumulate_leaf_stats(
    acc: &mut StatsAccumulators,
    path: &mut Vec<PathField>,
    array: ArrayData,
    extra_nulls: u64,
) -> (r: Result<(), UuidStorageError>)
    requires
        array_outcome(old(acc)@, path_model(old(path)@), array, extra_nulls as int).fits,
    ensures
        error_of(r) == array_outcome(
            old(acc)@,
            path_model(old(path)@),
            array,
            extra_nulls as int,
        ).error,
        final(acc)@ == array_outcome(
            old(acc)@,
            path_model(old(path)@),
            array,
            extra_nulls as int,
        ).acc,
        r is Ok ==> final(path)@ == old(path)@,
        old(path)@.is_prefix_of(final(path)@),
        path_model(final(path)@) == array_outcome(
            old(acc)@,
            path_model(old(path)@),
            array,
            extra_nulls as int,
        ).path,
    decreases array, 0nat,
{
    match array {
        ArrayData::Struct(fields) => accumulate_fields(acc, path, fields, extra_nulls),
        ArrayData::List { lists, elements } => {
            let nulls: u64 = extra_nulls + list_extra_null_slots(&lists);
            accumulate_elements(acc, path, elements, nulls)
        },
        ArrayData::FixedSizeList { valid, list_size, elements } => {
            let nulls: u64 = extra_nulls + fixed_extra_null_slots(&valid, list_size);
            accumulate_elements(acc, path, elements, nulls)
        },
        ArrayData::Mapping { lists, entries } => {
            let nulls: u64 = extra_nulls + list_extra_null_slots(&lists);
            accumulate_fields(acc, path, entries, nulls)
        },
        ArrayData::Variant => Ok(()),
        ArrayData::Union => Ok(()),
        ArrayData::Leaf(leaf) => accumulate_leaf(acc, path, leaf, extra_nulls),
    }
}

fn accumulate_elements(
    acc: &mut StatsAccumulators,
    path: &mut Vec<PathField>,
    elements: Box<ArrayData>,
    nulls: u64,
) -> (r: Result<(), UuidStorageError>)
    requires
        array_outcome(
            old(acc)@,
            path_model(old(path)@).push(PathModel::ElementType),
            *elements,
            nulls as int,
        ).fits,
    ensures
        ({
            let out = array_outcome(
                old(acc)@,
                path_model(old(path)@).push(PathModel::ElementType),
                *elements,
                nulls as int,
            );
            &&& error_of(r) == out.error
            &&& final(acc)@ == out.acc
            &&& r is Ok ==> final(path)@ == old(path)@
            &&& old(path)@.is_prefix_of(final(path)@)
            &&& path_model(final(path)@) == out.back_at(path_model(old(path)@)).path
        }),
    decreases *elements, 1nat,
{
    let ghost before = path@;
    path.push(PathField::ElementType);
    assert(path_model(path@) =~= path_model(before).push(PathModel::ElementType));
    let ghost deeper = path@;
    let r = accumulate_leaf_stats(acc, path, *elements, nulls);
    if r.is_ok() {
        let _ = path.pop();
        assert(path@ =~= before);
    } else {
        assert(before =~= deeper.subrange(0, before.len() as int));
        assert(before.is_prefix_of(path@));
    }
    r
}

#[verifier::rlimit(40)]
fn accumulate_fields(
    acc: &mut StatsAccumulators,
    path: &mut Vec<PathField>,
    fields: Vec<NamedArray>,
    extra_nulls: u64,
) -> (r: Result<(), UuidStorageError>)
    requires
        fields_outcome(
            old(acc)@,
            path_model(old(path)@),
            fields,
            fields@.len(),
            extra_nulls as int,
        ).fits,
    ensures
        ({
            let out = fields_outcome(
                old(acc)@,
                path_model(old(path)@),
                fields,
                fields@.len(),
                extra_nulls as int,
            );
            &&& error_of(r) == out.error
            &&& final(acc)@ == out.acc
            &&& r is Ok ==> final(path)@ == old(path)@
            &&& old(path)@.is_prefix_of(final(path)@)
            &&& path_model(final(path)@) == out.path
        }),
    decreases fields, fields@.len() + 1,
{
    let ghost steps = path_model(path@);
    let ghost before = path@;
    for field in it: fields
        invariant
            it.seq() == fields@,
            path@ == before,
            before == old(path)@,
            steps == path_model(before),
            fields_outcome(
                old(acc)@,
                steps,
                fields,
                fields@.len(),
                extra_nulls as int,
            ).fits,
            acc@ == fields_outcome(
                old(acc)@,
                steps,
                fields,
                it.index() as nat,
                extra_nulls as int,
            ).acc,
            fields_outcome(
                old(acc)@,
                steps,
                fields,
                it.index() as nat,
                extra_nulls as int,
            ).error is None,
    {
        let ghost i = it.index() as nat;
        proof {
            lemma_fields_prefix(
                old(acc)@,
                steps,
                fields,
                i,
                fields@.len(),
                extra_nulls as int,
            );
            lemma_fields_prefix(
                old(acc)@,
                steps,
                fields,
                (i + 1) as nat,
                fields@.len(),
                extra_nulls as int,
            );
            assert(field == fields@[i as int]);
        }
        let NamedArray { name, array } = field;
        path.push(PathField::Name(name));
        assert(path_model(path@) =~= steps.push(PathModel::Name(name@)));
        let ghost deeper = path@;
        if let Err(e) = accumulate_leaf_stats(acc, path, array, extra_nulls) {
            assert(before =~= deeper.subrange(0, before.len() as int));
            assert(before.is_prefix_of(path@));
            return Err(e);
        }
        let _ = path.pop();
        assert(path@ =~= before);
    }
    Ok(())
}

/// Accumulates the statistics of all leaves of a chunk, whose columns are the fields.
pub fn accumulate_chunk_leaf_stats(acc: &mut StatsAccumulators, columns: Vec<NamedArray>) -> (r:
    Result<(), UuidStorageError>)
    requires
        fields_outcome(old(acc)@, seq![], columns, columns@.len(), 0).fits,
    ensures
        error_of(r) == fields_outcome(old(acc)@, seq![], columns, columns@.len(), 0).error,
        final(acc)@ == fields_outcome(old(acc)@, seq![], columns, columns@.len(), 0).acc,
{
    let mut path: Vec<PathField> = Vec::new();
    assert(path_model(path@) =~= seq![]);
    accumulate_fields(acc, &mut path, columns, 0)
}

proof fn lemma_uuid_scan_splits(acc: UuidModel, storage: UuidStorage, n: nat)
    ensures
        uuid_scan(acc, storage, n) == acc.union(uuid_scan(UuidModel::none(), storage, n)),
    decreases n,
{
    if n > 0 {
        lemma_uuid_scan_splits(acc, storage, (n - 1) as nat);
        if storage.valid@[n - 1] {
            let row = storage.row(n - 1);
            law_uuid_union_associates(
                acc,
                uuid_scan(UuidModel::none(), storage, (n - 1) as nat),
                UuidModel { min: Some(row), max: Some(row) },
            );
        }
    }
}

proof fn lemma_leaf_splits(acc: AccModel, path: Seq<PathModel>, leaf: LeafArray, nulls: int)
    ensures
        leaf_outcome(acc, path, leaf, nulls).acc == acc.merged(
            leaf_outcome(AccModel::empty(), path, leaf, nulls).acc,
        ),
        leaf_outcome(acc, path, leaf, nulls).error == leaf_outcome(
            AccModel::empty(),
            path,
            leaf,
            nulls,
        ).error,
{
    let whole = leaf_outcome(acc, path, leaf, nulls).acc;
    let part = leaf_outcome(AccModel::empty(), path, leaf, nulls).acc;
    let key = leaf_key(path);
    if let Some(storage) = leaf.uuid {
        lemma_uuid_scan_splits(uuid_at(acc.uuid, key), storage, storage.valid@.len());
    }
    assert(acc.merged(part).leaf =~= whole.leaf);
    assert(acc.merged(part).uuid =~= whole.uuid);
    assert(acc.merged(part).varlen_bounds =~= whole.varlen_bounds);
}

/// Accumulating an array gives what was there, merged with what the array gives by itself.
pub proof fn law_accumulating_is_merging(
    acc: AccModel,
    path: Seq<PathModel>,
    array: ArrayData,
    extra_nulls: int,
)
    ensures
        array_outcome(acc, path, array, extra_nulls).acc == acc.merged(
            array_outcome(AccModel::empty(), path, array, extra_nulls).acc,
        ),
        array_outcome(acc, path, array, extra_nulls).error == array_outcome(
            AccModel::empty(),
            path,
            array,
            extra_nulls,
        ).error,
    decreases array, 0nat,
{
    match array {
        ArrayData::Struct(fields) => {
            law_accumulating_fields_is_merging(acc, path, fields, fields@.len(), extra_nulls);
        },
        ArrayData::List { lists, elements } => {
            let nulls = extra_nulls + null_slots(lists, lists.valid@.len());
            let inner = path.push(PathModel::ElementType);
            law_accumulating_is_merging(acc, inner, *elements, nulls);
        },
        ArrayData::FixedSizeList { valid, list_size, elements } => {
            let nulls = extra_nulls + fixed_null_slots(valid@, list_size);
            let inner = path.push(PathModel::ElementType);
            law_accumulating_is_merging(acc, inner, *elements, nulls);
        },
        ArrayData::Mapping { lists, entries } => {
            let nulls = extra_nulls + null_slots(lists, lists.valid@.len());
            law_accumulating_fields_is_merging(acc, path, entries, entries@.len(), nulls);
        },
        ArrayData::Leaf(leaf) => {
            lemma_leaf_splits(acc, path, leaf, extra_nulls);
        },
        _ => {
            lemma_merge_empty(acc);
        },
    }
}

/// Merging with nothing changes nothing.
pub proof fn lemma_merge_empty(acc: AccModel)
    ensures
        acc.merged(AccModel::empty()) == acc,
{
    let m = acc.merged(AccModel::empty());
    assert(m.leaf =~= acc.leaf);
    assert(m.uuid =~= acc.uuid);
    assert(m.varlen_bounds =~= acc.varlen_bounds);
}

/// Accumulating the columns of a chunk gives what was there, merged with what the chunk gives by
/// itself: chunks can be accumulated apart and merged.
pub proof fn law_accumulating_fields_is_merging(
    acc: AccModel,
    path: Seq<PathModel>,
    fields: Vec<NamedArray>,
    n: nat,
    extra_nulls: int,
)
    ensures
        fields_outcome(acc, path, fields, n, extra_nulls).acc == acc.merged(
            fields_outcome(AccModel::empty(), path, fields, n, extra_nulls).acc,
        ),
        fields_outcome(acc, path, fields, n, extra_nulls).error == fields_outcome(
            AccModel::empty(),
            path,
            fields,
            n,
            extra_nulls,
        ).error,
    decreases fields, n,
{
    if n == 0 || n > fields@.len() {
        lemma_merge_empty(acc);
    } else {
        let m = (n - 1) as nat;
        law_accumulating_fields_is_merging(acc, path, fields, m, extra_nulls);
        let front = fields_outcome(acc, path, fields, m, extra_nulls);
        let alone = fields_outcome(AccModel::empty(), path, fields, m, extra_nulls);
        if front.error is None {
            let field = fields@[n - 1];
            let inner = path.push(PathModel::Name(field.name@));
            law_accumulating_is_merging(front.acc, inner, field.array, extra_nulls);
            law_accumulating_is_merging(alone.acc, inner, field.array, extra_nulls);
            law_merge_associates(
                acc,
                alone.acc,
                array_outcome(AccModel::empty(), inner, field.array, extra_nulls).acc,
            );
        }
    }
}

/// A count, or 0 where it is not known.
pub open spec fn known_count(c: Precision<int>) -> int {
    match c.value() {
        Some(x) => x,
        None => 0,
    }
}

/// Whether the counts of a leaf column are together at most `bound`.
pub open spec fn leaf_within(leaf: LeafModel, bound: int) -> bool {
    &&& 0 <= leaf.extra_nulls <= leaf.num_values
    &&& 0 <= known_count(leaf.stats.null_count)
    &&& 0 <= known_count(leaf.stats.nan_count)
    &&& leaf.num_values + known_count(leaf.stats.null_count) + known_count(leaf.stats.nan_count)
        <= bound
}

/// Whether the counts of each leaf column are together at most `bound`, and bounds of top-level
/// columns come without counts.
pub open spec fn counts_within(acc: AccModel, bound: int) -> bool {
    &&& forall|k: Seq<char>| #[trigger]
        acc.leaf.contains_key(k) ==> leaf_within(acc.leaf[k], bound)
    &&& forall|k: Seq<char>| #[trigger]
        acc.varlen_bounds.contains_key(k) ==> acc.varlen_bounds[k].stats.null_count is Absent
            && acc.varlen_bounds[k].stats.nan_count is Absent
}

/// How much a leaf can add to a count.
pub open spec fn leaf_load(leaf: LeafArray, extra_nulls: int) -> int {
    leaf.len + extra_nulls + (match leaf.stats {
        Some(stats) => known_count(stats@.null_count) + known_count(stats@.nan_count),
        None => 0,
    })
}

/// How much an array can add to a count, all leaves together.
pub open spec fn array_load(array: ArrayData, extra_nulls: int) -> int
    decreases array, 0nat,
{
    match array {
        ArrayData::Struct(fields) => fields_load(fields, fields@.len(), extra_nulls),
        ArrayData::List { lists, elements } => {
            let nulls = extra_nulls + null_slots(lists, lists.valid@.len());
            nulls + array_load(*elements, nulls)
        },
        ArrayData::FixedSizeList { valid, list_size, elements } => {
            let nulls = extra_nulls + fixed_null_slots(valid@, list_size);
            nulls + array_load(*elements, nulls)
        },
        ArrayData::Mapping { lists, entries } => {
            let nulls = extra_nulls + null_slots(lists, lists.valid@.len());
            nulls + fields_load(entries, entries@.len(), nulls)
        },
        ArrayData::Variant => 0,
        ArrayData::Union => 0,
        ArrayData::Leaf(leaf) => leaf_load(leaf, extra_nulls),
    }
}

/// How much the first `n` fields can add to a count, all leaves together.
pub open spec fn fields_load(fields: Vec<NamedArray>, n: nat, extra_nulls: int) -> int
    decreases fields, n,
{
    if n == 0 || n > fields@.len() {
        0
    } else {
        fields_load(fields, (n - 1) as nat, extra_nulls) + array_load(
            fields@[n - 1].array,
            extra_nulls,
        )
    }
}

proof fn lemma_leaf_fits(
    acc: AccModel,
    path: Seq<PathModel>,
    leaf: LeafArray,
    extra_nulls: int,
    bound: int,
)
    requires
        extra_nulls >= 0,
        counts_within(acc, bound),
        0 <= bound,
        bound + leaf_load(leaf, extra_nulls) <= u64::MAX,
    ensures
        leaf_outcome(acc, path, leaf, extra_nulls).fits,
        counts_within(
            leaf_outcome(acc, path, leaf, extra_nulls).acc,
            bound + leaf_load(leaf, extra_nulls),
        ),
        leaf_load(leaf, extra_nulls) >= 0,
{
}

/// Counts that stay within the range of 64 bits by a wide margin fit at every step: if all counts
/// so far are at most `bound`, and the array adds at most what is left up to `u64::MAX`.
pub proof fn law_small_counts_fit(
    acc: AccModel,
    path: Seq<PathModel>,
    array: ArrayData,
    extra_nulls: int,
    bound: int,
)
    requires
        extra_nulls >= 0,
        counts_within(acc, bound),
        0 <= bound,
        bound + array_load(array, extra_nulls) <= u64::MAX,
    ensures
        array_outcome(acc, path, array, extra_nulls).fits,
        counts_within(
            array_outcome(acc, path, array, extra_nulls).acc,
            bound + array_load(array, extra_nulls),
        ),
        array_load(array, extra_nulls) >= 0,
    decreases array, 0nat,
{
    match array {
        ArrayData::Struct(fields) => {
            law_small_field_counts_fit(acc, path, fields, fields@.len(), extra_nulls, bound);
        },
        ArrayData::List { lists, elements } => {
            let nulls = extra_nulls + null_slots(lists, lists.valid@.len());
            let inner = path.push(PathModel::ElementType);
            law_small_counts_fit(acc, inner, *elements, nulls, bound);
        },
        ArrayData::FixedSizeList { valid, list_size, elements } => {
            let nulls = extra_nulls + fixed_null_slots(valid@, list_size);
            let inner = path.push(PathModel::ElementType);
            law_small_counts_fit(acc, inner, *elements, nulls, bound);
        },
        ArrayData::Mapping { lists, entries } => {
            let nulls = extra_nulls + null_slots(lists, lists.valid@.len());
            law_small_field_counts_fit(acc, path, entries, entries@.len(), nulls, bound);
        },
        ArrayData::Leaf(leaf) => {
            lemma_leaf_fits(acc, path, leaf, extra_nulls, bound);
        },
        _ => {},
    }
}

/// The same of the first `n` columns of a chunk.
pub proof fn law_small_field_counts_fit(
    acc: AccModel,
    path: Seq<PathModel>,
    fields: Vec<NamedArray>,
    n: nat,
    extra_nulls: int,
    bound: int,
)
    requires
        extra_nulls >= 0,
        counts_within(acc, bound),
        0 <= bound,
        n <= fields@.len(),
        bound + fields_load(fields, n, extra_nulls) <= u64::MAX,
    ensures
        fields_outcome(acc, path, fields, n, extra_nulls).fits,
        counts_within(
            fields_outcome(acc, path, fields, n, extra_nulls).acc,
            bound + fields_load(fields, n, extra_nulls),
        ),
        fields_load(fields, n, extra_nulls) >= 0,
    decreases fields, n,
{
    if n > 0 {
        let m = (n - 1) as nat;
        let field = fields@[n - 1];
        lemma_load_not_negative(field.array, extra_nulls);
        law_small_field_counts_fit(acc, path, fields, m, extra_nulls, bound);
        let front = fields_outcome(acc, path, fields, m, extra_nulls);
        if front.error is None {
            law_small_counts_fit(
                front.acc,
                path.push(PathModel::Name(field.name@)),
                field.array,
                extra_nulls,
                bound + fields_load(fields, m, extra_nulls),
            );
        }
    }
}

proof fn lemma_load_not_negative(array: ArrayData, extra_nulls: int)
    requires
        extra_nulls >= 0,
    ensures
        array_load(array, extra_nulls) >= 0,
    decreases array, 0nat,
{
    match array {
        ArrayData::Struct(fields) => {
            lemma_fields_load_not_negative(fields, fields@.len(), extra_nulls);
        },
        ArrayData::List { lists, elements } => {
            let nulls = extra_nulls + null_slots(lists, lists.valid@.len());
            lemma_load_not_negative(*elements, nulls);
        },
        ArrayData::FixedSizeList { valid, list_size, elements } => {
            let nulls = extra_nulls + fixed_null_slots(valid@, list_size);
            lemma_load_not_negative(*elements, nulls);
        },
        ArrayData::Mapping { lists, entries } => {
            let nulls = extra_nulls + null_slots(lists, lists.valid@.len());
            lemma_fields_load_not_negative(entries, entries@.len(), nulls);
        },
        _ => {},
    }
}

proof fn lemma_fields_load_not_negative(fields: Vec<NamedArray>, n: nat, extra_nulls: int)
    requires
        extra_nulls >= 0,
    ensures
        fields_load(fields, n, extra_nulls) >= 0,
    decreases fields, n,
{
    if 0 < n <= fields@.len() {
        lemma_fields_load_not_negative(fields, (n - 1) as nat, extra_nulls);
        lemma_load_not_negative(fields@[n - 1].array, extra_nulls);
    }
}

fn checked_sum(a: Option<u64>, b: Option<u64>) -> (r: Option<u64>)
    ensures
        r == (match (a, b) {
            (Some(x), Some(y)) => if x + y <= u64::MAX {
                Some((x + y) as u64)
            } else {
                None
            },
            _ => None,
        }),
{
    match (a, b) {
        (Some(x), Some(y)) => x.checked_add(y),
        _ => None,
    }
}

fn known_count_of(c: &Precision<u64>) -> (r: u64)
    ensures
        r == known_count(count_model(*c)),
{
    match c {
        Precision::Exact(x) => *x,
        Precision::Inexact(x) => *x,
        Precision::Absent => 0,
    }
}

/// Whether `r` is the load if that can be held.
spec fn is_load(r: Option<u64>, load: int) -> bool {
    match r {
        Some(x) => x == load,
        None => load > u64::MAX,
    }
}

fn load_of_array(array: &ArrayData, extra_nulls: u64) -> (r: Option<u64>)
    ensures
        is_load(r, array_load(*array, extra_nulls as int)),
    decreases *array, 0nat,
{
    proof {
        lemma_load_not_negative(*array, extra_nulls as int);
    }
    match array {
        ArrayData::Struct(fields) => load_of_fields(fields, extra_nulls),
        ArrayData::List { lists, elements } => {
            let slots: u64 = list_extra_null_slots(lists);
            proof {
                lemma_load_not_negative(**elements, extra_nulls + slots as int);
            }
            match extra_nulls.checked_add(slots) {
                Some(nulls) => checked_sum(Some(nulls), load_of_array(elements, nulls)),
                None => None,
            }
        },
        ArrayData::FixedSizeList { valid, list_size, elements } => {
            let slots: u64 = fixed_extra_null_slots(valid, *list_size);
            proof {
                lemma_load_not_negative(**elements, extra_nulls + slots as int);
            }
            match extra_nulls.checked_add(slots) {
                Some(nulls) => checked_sum(Some(nulls), load_of_array(elements, nulls)),
                None => None,
            }
        },
        ArrayData::Mapping { lists, entries } => {
            let slots: u64 = list_extra_null_slots(lists);
            proof {
                lemma_fields_load_not_negative(
                    *entries,
                    entries@.len(),
                    extra_nulls + slots as int,
                );
            }
            match extra_nulls.checked_add(slots) {
                Some(nulls) => checked_sum(Some(nulls), load_of_fields(entries, nulls)),
                None => None,
            }
        },
        ArrayData::Variant => Some(0),
        ArrayData::Union => Some(0),
        ArrayData::Leaf(leaf) => {
            let rows = checked_sum(Some(leaf.len), Some(extra_nulls));
            match &leaf.stats {
                Some(stats) => checked_sum(
                    rows,
                    checked_sum(
                        Some(known_count_of(&stats.null_count)),
                        Some(known_count_of(&stats.nan_count)),
                    ),
                ),
                None => rows,
            }
        },
    }
}

fn load_of_fields(fields: &Vec<NamedArray>, extra_nulls: u64) -> (r: Option<u64>)
    ensures
        is_load(r, fields_load(*fields, fields@.len(), extra_nulls as int)),
    decreases *fields, 0nat,
{
    let mut sum: Option<u64> = Some(0);
    for i in 0..fields.len()
        invariant
            is_load(sum, fields_load(*fields, i as nat, extra_nulls as int)),
    {
        proof {
            lemma_fields_load_not_negative(*fields, i as nat, extra_nulls as int);
            lemma_load_not_negative(fields@[i as int].array, extra_nulls as int);
        }
        sum = checked_sum(sum, load_of_array(&fields[i].array, extra_nulls));
    }
    sum
}

/// How much the columns of a chunk can add to a count, all leaves together; nothing if that
/// cannot be held.
pub fn chunk_load(columns: &Vec<NamedArray>) -> (r: Option<u64>)
    ensures
        match r {
            Some(load) => load == fields_load(*columns, columns@.len(), 0),
            None => fields_load(*columns, columns@.len(), 0) > u64::MAX,
        },
{
    load_of_fields(columns, 0)
}

/// Accumulators whose counts stay within the range of 64 bits together can be merged.
pub proof fn law_small_counts_merge(a: AccModel, b: AccModel, x: int, y: int)
    requires
        counts_within(a, x),
        counts_within(b, y),
        0 <= x,
        0 <= y,
        x + y <= u64::MAX,
    ensures
        a.mergeable(b),
        counts_within(a.merged(b), x + y),
{
}

/// Whether the null count of a leaf column, where it is known, counts values of that column.
pub open spec fn leaf_nulls_are_values(leaf: LeafModel) -> bool {
    leaf.stats.null_count matches Precision::Exact(nulls) ==> 0 <= nulls <= leaf.num_values
        - leaf.extra_nulls
}

/// Whether the null counts of all leaf columns count values of theirs.
pub open spec fn nulls_are_values(acc: AccModel) -> bool {
    forall|k: Seq<char>| #[trigger]
        acc.leaf.contains_key(k) ==> leaf_nulls_are_values(acc.leaf[k])
}

/// Whether the null counts of an array's leaves are at most their lengths.
pub open spec fn array_nulls_are_values(array: ArrayData) -> bool
    decreases array,
{
    match array {
        ArrayData::Struct(fields) => forall|i: int|
            0 <= i < fields@.len() ==> array_nulls_are_values((#[trigger] fields@[i]).array),
        ArrayData::List { lists, elements } => array_nulls_are_values(*elements),
        ArrayData::FixedSizeList { valid, list_size, elements } => array_nulls_are_values(
            *elements,
        ),
        ArrayData::Mapping { lists, entries } => forall|i: int|
            0 <= i < entries@.len() ==> array_nulls_are_values((#[trigger] entries@[i]).array),
        ArrayData::Leaf(leaf) => leaf.stats matches Some(stats) ==> (
        stats.null_count matches Precision::Exact(nulls) ==> nulls <= leaf.len),
        _ => true,
    }
}

/// A leaf column never has more nulls than values: accumulating an array whose leaves have no
/// more nulls than rows keeps it so.
pub proof fn law_nulls_stay_values(
    acc: AccModel,
    path: Seq<PathModel>,
    array: ArrayData,
    extra_nulls: int,
)
    requires
        nulls_are_values(acc),
        array_nulls_are_values(array),
    ensures
        nulls_are_values(array_outcome(acc, path, array, extra_nulls).acc),
    decreases array, 0nat,
{
    match array {
        ArrayData::Struct(fields) => {
            lemma_field_nulls_stay_values(acc, path, fields, fields@.len(), extra_nulls);
        },
        ArrayData::List { lists, elements } => {
            let nulls = extra_nulls + null_slots(lists, lists.valid@.len());
            law_nulls_stay_values(acc, path.push(PathModel::ElementType), *elements, nulls);
        },
        ArrayData::FixedSizeList { valid, list_size, elements } => {
            let nulls = extra_nulls + fixed_null_slots(valid@, list_size);
            law_nulls_stay_values(acc, path.push(PathModel::ElementType), *elements, nulls);
        },
        ArrayData::Mapping { lists, entries } => {
            let nulls = extra_nulls + null_slots(lists, lists.valid@.len());
            lemma_field_nulls_stay_values(acc, path, entries, entries@.len(), nulls);
        },
        _ => {},
    }
}

proof fn lemma_field_nulls_stay_values(
    acc: AccModel,
    path: Seq<PathModel>,
    fields: Vec<NamedArray>,
    n: nat,
    extra_nulls: int,
)
    requires
        nulls_are_values(acc),
        forall|i: int|
            0 <= i < fields@.len() ==> array_nulls_are_values((#[trigger] fields@[i]).array),
        n <= fields@.len(),
    ensures
        nulls_are_values(fields_outcome(acc, path, fields, n, extra_nulls).acc),
    decreases fields, n,
{
    if n > 0 {
        lemma_field_nulls_stay_values(acc, path, fields, (n - 1) as nat, extra_nulls);
        let front = fields_outcome(acc, path, fields, (n - 1) as nat, extra_nulls);
        if front.error is None {
            let field = fields@[n - 1];
            law_nulls_stay_values(
                front.acc,
                path.push(PathModel::Name(field.name@)),
                field.array,
                extra_nulls,
            );
        }
    }
}

/// Merging accumulators in which no column has more nulls than values keeps it so.
pub proof fn law_merging_keeps_nulls_values(a: AccModel, b: AccModel)
    requires
        nulls_are_values(a),
        nulls_are_values(b),
    ensures
        nulls_are_values(a.merged(b)),
{
}

/// Each null row and each empty row of a list array counts as one null leaf value, and no other
/// row does.
pub proof fn law_null_and_empty_lists_are_counted(rows: ListRows, n: nat)
    requires
        n <= rows.valid@.len(),
        n <= rows.sizes@.len(),
    ensures
        null_slots(rows, n) == Seq::new(n, |i: int| i).filter(
            |i: int| !rows.valid@[i] || rows.sizes@[i] == 0,
        ).len(),
    decreases n,
{
    reveal(Seq::filter);
    if n > 0 {
        law_null_and_empty_lists_are_counted(rows, (n - 1) as nat);
        assert(Seq::new(n, |i: int| i).drop_last() =~= Seq::new((n - 1) as nat, |i: int| i));
    }
}

/// Of a fixed-size list array each null row counts as one null leaf value, or every row if lists
/// have no elements.
pub proof fn law_fixed_size_null_lists_are_counted(valid: Seq<bool>, list_size: u32)
    ensures
        list_size == 0 ==> fixed_null_slots(valid, list_size) == valid.len(),
        list_size > 0 ==> fixed_null_slots(valid, list_size) == valid.filter(|v: bool| !v).len(),
{
    lemma_invalid_count(valid, valid.len());
    assert(valid.take(valid.len() as int) =~= valid);
}

proof fn lemma_invalid_count(valid: Seq<bool>, n: nat)
    requires
        n <= valid.len(),
    ensures
        invalid_count(valid, n) == valid.take(n as int).filter(|v: bool| !v).len(),
    decreases n,
{
    reveal(Seq::filter);
    if n > 0 {
        lemma_invalid_count(valid, (n - 1) as nat);
        assert(valid.take(n as int).drop_last() =~= valid.take(n - 1));
    }
}

/// A leaf below the top level adds its statistics under the key of its path: its values and the
/// nulls that lists around it contribute, on top of what is there. Other keys stay as they are, and
/// so do the bounds of top-level columns.
pub proof fn law_nested_leaf_adds_its_values(
    acc: AccModel,
    path: Seq<PathModel>,
    leaf: LeafArray,
    extra_nulls: int,
)
    requires
        path.len() >= 2,
        leaf.stats is Some,
        leaf.uuid is None,
    ensures
        ({
            let out = array_outcome(acc, path, ArrayData::Leaf(leaf), extra_nulls);
            let key = leaf_key(path);
            let stats = leaf.stats->Some_0;
            &&& out.error is None
            &&& out.path == path
            &&& out.acc.uuid == acc.uuid
            &&& out.acc.varlen_bounds == acc.varlen_bounds
            &&& out.acc.leaf.contains_key(key)
            &&& out.acc.leaf.remove(key) == acc.leaf.remove(key)
            &&& !acc.leaf.contains_key(key) ==> {
                &&& out.acc.leaf[key].path == path
                &&& out.acc.leaf[key].dtype == *leaf.dtype
                &&& out.acc.leaf[key].stats == stats@
                &&& out.acc.leaf[key].num_values == leaf.len + extra_nulls
                &&& out.acc.leaf[key].extra_nulls == extra_nulls
            }
            &&& acc.leaf.contains_key(key) ==> {
                &&& out.acc.leaf[key].path == acc.leaf[key].path
                &&& out.acc.leaf[key].dtype == acc.leaf[key].dtype
                &&& out.acc.leaf[key].stats == acc.leaf[key].stats.union(stats@)
                &&& out.acc.leaf[key].num_values == acc.leaf[key].num_values + leaf.len + extra_nulls
                &&& out.acc.leaf[key].extra_nulls == acc.leaf[key].extra_nulls + extra_nulls
            }
        }),
{
    let out = array_outcome(acc, path, ArrayData::Leaf(leaf), extra_nulls);
    assert(out.acc.leaf.remove(leaf_key(path)) =~= acc.leaf.remove(leaf_key(path)));
}

/// A string or binary column at the top level adds its bounds alone, without counts, under its
/// key. Any other column there adds nothing, nor does a leaf without statistics.
pub proof fn law_top_level_text_adds_its_bounds(
    acc: AccModel,
    path: Seq<PathModel>,
    leaf: LeafArray,
    extra_nulls: int,
)
    requires
        leaf.uuid is None,
        path.len() == 1 || leaf.stats is None,
    ensures
        ({
            let out = array_outcome(acc, path, ArrayData::Leaf(leaf), extra_nulls);
            let key = leaf_key(path);
            let bounds = out.acc.varlen_bounds[key];
            &&& out.error is None
            &&& out.path == path
            &&& out.acc.leaf == acc.leaf
            &&& out.acc.uuid == acc.uuid
            &&& leaf.stats is None || !(*leaf.dtype is Utf8 || *leaf.dtype is Binary)
                ==> out.acc.varlen_bounds == acc.varlen_bounds
            &&& leaf.stats is Some && (*leaf.dtype is Utf8 || *leaf.dtype is Binary) ==> {
                &&& out.acc.varlen_bounds.contains_key(key)
                &&& out.acc.varlen_bounds.remove(key) == acc.varlen_bounds.remove(key)
                &&& bounds.stats.null_count is Absent
                &&& bounds.stats.nan_count is Absent
                &&& !acc.varlen_bounds.contains_key(key) ==> {
                    &&& bounds.dtype == *leaf.dtype
                    &&& bounds.stats.min == leaf.stats->Some_0.min@
                    &&& bounds.stats.max == leaf.stats->Some_0.max@
                }
                &&& acc.varlen_bounds.contains_key(key) ==> {
                    &&& bounds.dtype == acc.varlen_bounds[key].dtype
                    &&& bounds.stats.min == union_bound(
                        BoundKind::Min,
                        acc.varlen_bounds[key].stats.min,
                        leaf.stats->Some_0.min@,
                    )
                    &&& bounds.stats.max == union_bound(
                        BoundKind::Max,
                        acc.varlen_bounds[key].stats.max,
                        leaf.stats->Some_0.max@,
                    )
                }
            }
        }),
{
    let out = array_outcome(acc, path, ArrayData::Leaf(leaf), extra_nulls);
    assert(out.acc.varlen_bounds.remove(leaf_key(path)) =~= acc.varlen_bounds.remove(
        leaf_key(path),
    ));
}

/// A UUID leaf takes its rows into the extrema under its key, where extrema start from none. If
/// its storage is malformed nothing is taken in, and the leaf's path is where it stops.
pub proof fn law_uuid_leaf_adds_its_extrema(
    acc: AccModel,
    path: Seq<PathModel>,
    leaf: LeafArray,
    extra_nulls: int,
)
    requires
        leaf.uuid is Some,
    ensures
        ({
            let out = array_outcome(acc, path, ArrayData::Leaf(leaf), extra_nulls);
            let key = leaf_key(path);
            let storage = leaf.uuid->Some_0;
            let before = if acc.uuid.contains_key(key) {
                acc.uuid[key]
            } else {
                UuidModel { min: None, max: None }
            };
            &&& out.path == path
            &&& out.acc.uuid.contains_key(key)
            &&& out.acc.uuid.remove(key) == acc.uuid.remove(key)
            &&& out.acc.uuid[key] == uuid_accumulated(before, storage)
            &&& out.error is Some <==> storage.valid@.len() > 0 && !storage.definitely_all_null
                && storage.bytes@.len() != 16 * storage.valid@.len()
            &&& out.error is Some ==> {
                &&& out.error->Some_0.actual == storage.bytes@.len() as usize
                &&& out.error->Some_0.rows == storage.valid@.len() as usize
                &&& out.acc.uuid[key] == before
                &&& out.acc.leaf == acc.leaf
                &&& out.acc.varlen_bounds == acc.varlen_bounds
            }
            &&& out.error is None && path.len() >= 2 && leaf.stats is Some ==> {
                &&& out.acc.leaf.contains_key(key)
                &&& !acc.leaf.contains_key(key) ==> out.acc.leaf[key].num_values == leaf.len
                    + extra_nulls && out.acc.leaf[key].extra_nulls == extra_nulls
            }
        }),
{
    let out = array_outcome(acc, path, ArrayData::Leaf(leaf), extra_nulls);
    assert(out.acc.uuid.remove(leaf_key(path)) =~= acc.uuid.remove(leaf_key(path)));
}

/// Below a list the elements are accumulated under their own step of the path, with one more null
/// for each null or empty list.
pub proof fn law_lists_pass_their_nulls_down(
    acc: AccModel,
    path: Seq<PathModel>,
    lists: ListRows,
    elements: ArrayData,
    list: ArrayData,
    extra_nulls: int,
)
    requires
        lists.valid@.len() == lists.sizes@.len(),
        list is List,
        list->List_lists == lists,
        *list->List_elements == elements,
    ensures
        ({
            let nulls = Seq::new(lists.valid@.len(), |i: int| i).filter(
                |i: int| !lists.valid@[i] || lists.sizes@[i] == 0,
            ).len();
            let out = array_outcome(acc, path, list, extra_nulls);
            let inner = array_outcome(
                acc,
                path.push(PathModel::ElementType),
                elements,
                extra_nulls + nulls,
            );
            &&& out.acc == inner.acc
            &&& out.error == inner.error
            &&& out.error is None ==> out.path == path
            &&& out.error is Some ==> out.path == inner.path
        }),
{
    law_null_and_empty_lists_are_counted(lists, lists.valid@.len());
}

/// Below a fixed-size list the elements are accumulated under their own step of the path, with one
/// more null for each null list, or for each list if lists have no elements.
pub proof fn law_fixed_size_lists_pass_their_nulls_down(
    acc: AccModel,
    path: Seq<PathModel>,
    elements: ArrayData,
    list: ArrayData,
    extra_nulls: int,
)
    requires
        list is FixedSizeList,
        *list->FixedSizeList_elements == elements,
    ensures
        ({
            let nulls = if list->FixedSizeList_list_size == 0 {
                list->FixedSizeList_valid@.len()
            } else {
                list->FixedSizeList_valid@.filter(|v: bool| !v).len()
            };
            let out = array_outcome(acc, path, list, extra_nulls);
            let inner = array_outcome(
                acc,
                path.push(PathModel::ElementType),
                elements,
                extra_nulls + nulls,
            );
            &&& out.acc == inner.acc
            &&& out.error == inner.error
            &&& out.error is None ==> out.path == path
            &&& out.error is Some ==> out.path == inner.path
        }),
{
    law_fixed_size_null_lists_are_counted(
        list->FixedSizeList_valid@,
        list->FixedSizeList_list_size,
    );
}

/// The entries of a map are accumulated as fields at the map's own path, with one more null for
/// each null or empty map. Variants and unions add nothing.
pub proof fn law_maps_pass_their_nulls_down(
    acc: AccModel,
    path: Seq<PathModel>,
    array: ArrayData,
    extra_nulls: int,
)
    ensures
        array is Mapping && array->Mapping_lists.valid@.len() == array->Mapping_lists.sizes@.len() ==> {
            let lists = array->Mapping_lists;
            let entries = array->Mapping_entries;
            let nulls = Seq::new(lists.valid@.len(), |i: int| i).filter(
                |i: int| !lists.valid@[i] || lists.sizes@[i] == 0,
            ).len();
            let out = array_outcome(acc, path, array, extra_nulls);
            let inner = fields_outcome(acc, path, entries, entries@.len(), extra_nulls + nulls);
            &&& out.acc == inner.acc
            &&& out.error == inner.error
            &&& out.path == inner.path
        },
        array is Variant || array is Union ==> {
            let out = array_outcome(acc, path, array, extra_nulls);
            out.acc == acc && out.error is None && out.path == path
        },
{
    if let ArrayData::Mapping { lists, entries } = array {
        if lists.valid@.len() == lists.sizes@.len() {
            law_null_and_empty_lists_are_counted(lists, lists.valid@.len());
        }
    }
}

/// Fields are accumulated in order, each under its own name and with the same nulls from around
/// it, up to the first that is malformed. A struct is its fields at its own path.
pub proof fn law_fields_are_accumulated_in_order(
    acc: AccModel,
    path: Seq<PathModel>,
    fields: Vec<NamedArray>,
    n: nat,
    extra_nulls: int,
)
    requires
        n < fields@.len(),
    ensures
        ({
            let front = fields_outcome(acc, path, fields, n, extra_nulls);
            let out = fields_outcome(acc, path, fields, n + 1, extra_nulls);
            let last = array_outcome(
                front.acc,
                path.push(PathModel::Name(fields@[n as int].name@)),
                fields@[n as int].array,
                extra_nulls,
            );
            &&& front.error is Some ==> out.error == front.error && out.acc == front.acc && out.path
                == front.path
            &&& front.error is None ==> out.error == last.error && out.acc == last.acc
            &&& front.error is None && last.error is None ==> out.path == path
            &&& front.error is None && last.error is Some ==> out.path == last.path
        }),
        fields_outcome(acc, path, fields, 0, extra_nulls).acc == acc,
        fields_outcome(acc, path, fields, 0, extra_nulls).error is None,
        array_outcome(acc, path, ArrayData::Struct(fields), extra_nulls) == fields_outcome(
            acc,
            path,
            fields,
            fields@.len(),
            extra_nulls,
        ),
{
}

/// That a leaf holds UUIDs makes no difference to its other statistics, unless these are
/// malformed.
pub proof fn law_uuids_leave_other_statistics_alone(
    acc: AccModel,
    path: Seq<PathModel>,
    leaf: LeafArray,
    plain: LeafArray,
    extra_nulls: int,
)
    requires
        plain == (LeafArray { uuid: None, ..leaf }),
        array_outcome(acc, path, ArrayData::Leaf(leaf), extra_nulls).error is None,
    ensures
        array_outcome(acc, path, ArrayData::Leaf(leaf), extra_nulls).acc.leaf == array_outcome(
            acc,
            path,
            ArrayData::Leaf(plain),
            extra_nulls,
        ).acc.leaf,
        array_outcome(acc, path, ArrayData::Leaf(leaf), extra_nulls).acc.varlen_bounds
            == array_outcome(acc, path, ArrayData::Leaf(plain), extra_nulls).acc.varlen_bounds,
{
}

/// A leaf can add its values, the nulls from around it and its counts of nulls and NaNs as far as
/// they are known; variants and unions add nothing; and fields add up.
pub proof fn law_loads_add_up(
    leaf: LeafArray,
    fields: Vec<NamedArray>,
    n: nat,
    extra_nulls: int,
)
    ensures
        leaf.stats is None ==> array_load(ArrayData::Leaf(leaf), extra_nulls) == leaf.len
            + extra_nulls,
        leaf.stats matches Some(stats) ==> {
            let known_nulls = match stats.null_count {
                Precision::Exact(x) => x as int,
                Precision::Inexact(x) => x as int,
                Precision::Absent => 0,
            };
            let known_nans = match stats.nan_count {
                Precision::Exact(x) => x as int,
                Precision::Inexact(x) => x as int,
                Precision::Absent => 0,
            };
            array_load(ArrayData::Leaf(leaf), extra_nulls) == leaf.len + extra_nulls + known_nulls
                + known_nans
        },
        array_load(ArrayData::Variant, extra_nulls) == 0,
        array_load(ArrayData::Union, extra_nulls) == 0,
        array_load(ArrayData::Struct(fields), extra_nulls) == fields_load(
            fields,
            fields@.len(),
            extra_nulls,
        ),
        fields_load(fields, 0, extra_nulls) == 0,
        n < fields@.len() ==> fields_load(fields, n + 1, extra_nulls) == fields_load(
            fields,
            n,
            extra_nulls,
        ) + array_load(fields@[n as int].array, extra_nulls),
{
}

} // verus!
