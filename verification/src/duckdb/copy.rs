//! Writing a file with COPY: what is bound and opened, how chunks are taken in, and how the write
//! ends.

use std::sync::Arc;

use vstd::prelude::*;

use crate::dtype::DType;
use crate::dtype::NamedField;
use crate::dtype::Nullability;
use crate::duckdb::accumulate::AccModel;
use crate::duckdb::accumulate::LeafStatsAccum;
use crate::duckdb::accumulate::StatsAccumulators;
use crate::duckdb::copy_stats::bound_plan;
use crate::duckdb::copy_stats::bound_result;
use crate::duckdb::copy_stats::column_plan;
use crate::duckdb::copy_stats::column_stats_from_summary;
use crate::duckdb::copy_stats::exact_count;
use crate::duckdb::copy_stats::file_stats;
use crate::duckdb::copy_stats::file_stats_from_summary;
use crate::duckdb::copy_stats::plan_bound;
use crate::duckdb::copy_stats::plan_column;
use crate::duckdb::copy_stats::resolve_column_stats;
use crate::duckdb::copy_stats::resolved;
use crate::duckdb::copy_stats::shows_uuid;
use crate::duckdb::copy_stats::stats_bound_to_duckdb;
use crate::duckdb::copy_stats::top_level_key;
use crate::duckdb::copy_stats::top_level_stats_key;
use crate::duckdb::copy_stats::BoundOutcome;
use crate::duckdb::copy_stats::BoundPlan;
use crate::duckdb::copy_stats::ColumnStatsError;
use crate::duckdb::copy_stats::ColumnStatsPlan;
use crate::duckdb::copy_stats::WriteSummary;
use crate::duckdb::copy_stats::WrittenColumnStats;
use crate::duckdb::copy_stats::WrittenFileStats;
use crate::duckdb::leaf_stats::accumulate_chunk_leaf_stats;
use crate::duckdb::leaf_stats::counts_within;
use crate::duckdb::leaf_stats::fields_outcome;
use crate::duckdb::leaf_stats::nulls_are_values;
use crate::duckdb::leaf_stats::NamedArray;
use crate::duckdb::path_key::path_model;
use crate::duckdb::path_key::PathField;
use crate::duckdb::path_key::PathModel;
use crate::duckdb::uuid::UuidStats;
use crate::duckdb::uuid::UuidStorageError;
use crate::encryption::is_key_len;
use crate::encryption::EncryptionError;
use crate::encryption::SegmentEncryptionKey;
use crate::order::str_equal;
use crate::sorted_map::rank;
use crate::stats::BoundKind;
use crate::stats::Precision;

verus! {

/// The key of the metadata segment that holds a catalog's field ids.
pub const DUCKLAKE_FIELD_IDS_METADATA_KEY: &'static str = "ducklake.field_ids";

/// Compression schemes that COPY leaves out.
#[derive(Clone, Copy, Debug, PartialEq, Eq, Structural)]
pub enum ExcludedScheme {
    IntRunEnd,
    IntRle,
    FloatAlpRd,
    FloatRle,
    /// Not part of any declared edition: a file with it could not be serialized.
    IntDelta,
}

/// How COPY writes files.
#[derive(Debug, PartialEq)]
pub struct CopyWriteOptions {
    pub for_ingest: bool,
    pub excluded_schemes: Vec<ExcludedScheme>,
    pub data_block_target_bytes: u64,
}

/// How COPY writes files: for ingest, without the schemes that cost most to write or cannot be
/// serialized, in data blocks of 16 MiB.
pub fn copy_write_options() -> (r: CopyWriteOptions)
    ensures
        r.for_ingest,
        r.excluded_schemes@ == seq![
            ExcludedScheme::IntRunEnd,
            ExcludedScheme::IntRle,
            ExcludedScheme::FloatAlpRd,
            ExcludedScheme::FloatRle,
            ExcludedScheme::IntDelta,
        ],
        r.data_block_target_bytes == 16 * 1024 * 1024,
{
    CopyWriteOptions {
        for_ingest: true,
        excluded_schemes: vec![
            ExcludedScheme::IntRunEnd,
            ExcludedScheme::IntRle,
            ExcludedScheme::FloatAlpRd,
            ExcludedScheme::FloatRle,
            ExcludedScheme::IntDelta,
        ],
        data_block_target_bytes: 16_777_216,
    }
}

/// The schema that COPY writes.
#[derive(Debug, PartialEq)]
pub struct CopyFunctionBind {
    dtype: DType,
}

impl CopyFunctionBind {
    /// The type of the rows.
    pub closed spec fn row_type(self) -> DType {
        self.dtype
    }

    /// The type of the rows.
    pub fn dtype(&self) -> (r: &DType)
        ensures
            *r == self.row_type(),
    {
        &self.dtype
    }
}

/// The number of leading results that are `Ok`.
pub open spec fn ok_prefix<T, E>(results: Seq<Result<T, E>>) -> nat
    decreases results.len(),
{
    if results.len() == 0 || results[0] is Err {
        0
    } else {
        1 + ok_prefix(results.skip(1))
    }
}

/// Binds the columns of a COPY. `column_types` are the columns' types as far as they could be
/// converted; the first that could not is the error. Names without a type, and types without a
/// name, are left out.
pub fn copy_to_bind<E>(column_names: Vec<String>, column_types: Vec<Result<Arc<DType>, E>>) -> (r:
    Result<CopyFunctionBind, E>)
    ensures
        ({
            let n = if column_names@.len() < column_types@.len() {
                column_names@.len()
            } else {
                column_types@.len()
            };
            let good = ok_prefix(column_types@.take(n as int));
            &&& r is Ok <==> good == n
            &&& r is Ok <==> forall|i: int| 0 <= i < n ==> (#[trigger] column_types@[i]) is Ok
            &&& r is Err ==> forall|i: int| 0 <= i < good ==> (#[trigger] column_types@[i]) is Ok
            &&& r matches Err(e) ==> good < n && column_types@[good as int] == Err::<Arc<DType>, E>(
                e,
            )
            &&& r matches Ok(bind) ==> {
                &&& bind.row_type() matches DType::Struct(fields, nullability)
                &&& nullability == Nullability::NonNullable
                &&& fields@.len() == n
                &&& forall|i: int|
                    0 <= i < n ==> (#[trigger] fields@[i]).name == column_names@[i]
                        && column_types@[i] == Ok::<Arc<DType>, E>(fields@[i].dtype)
            }
        }),
{
    let n: usize = if column_names.len() < column_types.len() {
        column_names.len()
    } else {
        column_types.len()
    };
    let ghost types = column_types@;
    let ghost head = types.take(n as int);
    let mut fields: Vec<NamedField> = Vec::new();
    let mut i: usize = 0;
    assert(head.skip(0) =~= head);
    for outcome in it: column_types
        invariant
            it.seq() == types,
            types == column_types@,
            head == types.take(n as int),
            n == (if column_names@.len() < types.len() {
                column_names@.len()
            } else {
                types.len()
            }),
            i == (if it.index() < n {
                it.index()
            } else {
                n as int
            }),
            fields@.len() == i,
            ok_prefix(head) == i + ok_prefix(head.skip(i as int)),
            forall|k: int|
                0 <= k < i ==> (#[trigger] fields@[k]).name == column_names@[k] && types[k] == Ok::<
                    Arc<DType>,
                    E,
                >(fields@[k].dtype),
    {
        if i < n {
            assert(outcome == types[i as int]);
            assert(head.skip(i as int)[0] == types[i as int]);
            match outcome {
                Ok(dtype) => {
                    fields.push(NamedField { name: column_names[i].clone(), dtype });
                    assert(head.skip(i as int).skip(1) =~= head.skip(i + 1));
                    i += 1;
                },
                Err(e) => {
                    assert(ok_prefix(head.skip(i as int)) == 0);
                    assert(ok_prefix(head) == i);
                    assert(!(types[i as int] is Ok));
                    assert forall|k: int| 0 <= k < i implies (#[trigger] types[k]) is Ok by {
                        assert(fields@[k].name == column_names@[k]);
                    }
                    return Err(e);
                },
            }
        }
    }
    assert forall|k: int| 0 <= k < n implies (#[trigger] types[k]) is Ok by {
        assert(fields@[k].name == column_names@[k]);
    }
    Ok(CopyFunctionBind { dtype: DType::Struct(fields, Nullability::NonNullable) })
}

/// Where a file is written.
#[derive(Clone, Copy, Debug, PartialEq, Eq, Structural)]
pub enum WriteTarget {
    LocalFile,
    ObjectStore,
}

/// How a file is to be opened for writing.
pub struct CopyPlan {
    pub target: WriteTarget,
    /// The content of the metadata segment under [`DUCKLAKE_FIELD_IDS_METADATA_KEY`].
    pub field_ids_metadata: Option<Vec<u8>>,
    pub encryption_key: Option<SegmentEncryptionKey>,
}

/// Why a write could not be started.
#[derive(Debug, PartialEq)]
pub enum CopyInitError<E> {
    Key(EncryptionError),
    /// The path could not be parsed.
    Url(E),
    /// There is no object store for the path.
    Store(E),
}

/// Why a write cannot be started, if it cannot: the key is looked at first, then the outcome of
/// parsing the path, then, unless that is a file URL, the outcome of finding its object store.
pub open spec fn init_error<E>(
    scheme: Result<String, E>,
    store: Result<(), E>,
    encryption_key: Option<Vec<u8>>,
) -> Option<CopyInitError<E>> {
    if encryption_key matches Some(bytes) && !is_key_len(bytes@.len()) {
        Some(
            CopyInitError::Key(EncryptionError::KeyLength(encryption_key->Some_0@.len() as usize)),
        )
    } else {
        match scheme {
            Err(e) => Some(CopyInitError::Url(e)),
            Ok(scheme) => if scheme@ == "file"@ {
                None
            } else {
                match store {
                    Err(e) => Some(CopyInitError::Store(e)),
                    Ok(_) => None,
                }
            },
        }
    }
}

/// Starts a write. `scheme` is the outcome of parsing the path, which gives the scheme of its
/// URL: a file URL is written locally, any other to an object store. `store` is the outcome of
/// finding that object store, which does not matter for a file URL.
pub fn copy_to_initialize_global<E>(
    scheme: Result<String, E>,
    store: Result<(), E>,
    field_ids_metadata: Option<Vec<u8>>,
    encryption_key: Option<Vec<u8>>,
) -> (r: Result<(CopyPlan, CopyFunctionGlobal), CopyInitError<E>>)
    ensures
        match init_error(scheme, store, encryption_key) {
            Some(e) => r == Err::<(CopyPlan, CopyFunctionGlobal), _>(e),
            None => r is Ok,
        },
        r is Ok <==> (encryption_key matches Some(bytes) ==> bytes@.len() == 16 || bytes@.len() == 32)
            && scheme is Ok && (scheme->Ok_0@ == "file"@ || store is Ok),
        forall|bytes: Vec<u8>|
            encryption_key == Some(bytes) && bytes@.len() != 16 && bytes@.len() != 32 ==> (
            r matches Err(CopyInitError::Key(EncryptionError::KeyLength(n))) && n
                == bytes@.len() as usize),
        (encryption_key matches Some(bytes) ==> bytes@.len() == 16 || bytes@.len() == 32) ==> match (
            scheme,
            store,
        ) {
            (Err(e), _) => r == Err::<(CopyPlan, CopyFunctionGlobal), _>(CopyInitError::Url(e)),
            (Ok(name), Err(e)) => name@ != "file"@ ==> r == Err::<(CopyPlan, CopyFunctionGlobal), _>(
                CopyInitError::Store(e),
            ),
            (Ok(_), Ok(_)) => true,
        },
        r matches Ok((plan, global)) ==> {
            &&& plan.target == (if scheme->Ok_0@ == "file"@ {
                WriteTarget::LocalFile
            } else {
                WriteTarget::ObjectStore
            })
            &&& plan.field_ids_metadata == field_ids_metadata
            &&& plan.encryption_key is Some <==> encryption_key is Some
            &&& plan.encryption_key matches Some(key) ==> key@ == encryption_key->Some_0@
            &&& global.is_new()
        },
{
    let encryption_key = match encryption_key {
        Some(bytes) => match SegmentEncryptionKey::try_new(bytes) {
            Ok(key) => Some(key),
            Err(e) => return Err(CopyInitError::Key(e)),
        },
        None => None,
    };
    let scheme = match scheme {
        Ok(scheme) => scheme,
        Err(e) => return Err(CopyInitError::Url(e)),
    };
    let target = if str_equal(scheme.as_str(), "file") {
        WriteTarget::LocalFile
    } else {
        match store {
            Ok(_) => WriteTarget::ObjectStore,
            Err(e) => return Err(CopyInitError::Store(e)),
        }
    };
    let plan = CopyPlan { target, field_ids_metadata, encryption_key };
    let global = CopyFunctionGlobal {
        task_running: true,
        finished: None,
        sink_open: true,
        pushed_bytes: 0,
        stats: StatsAccumulators::new(),
    };
    Ok((plan, global))
}

/// The compressed size of a field at a path.
pub struct FieldSize {
    pub path: Vec<PathField>,
    pub size: u64,
}

/// What is kept of a finished write, so that statistics can be read without opening the file.
pub struct FinishedWrite {
    pub summary: WriteSummary,
    /// Compressed sizes of the top-level columns.
    pub column_sizes: Vec<u64>,
    /// Compressed sizes of fields at any depth.
    pub field_sizes: Vec<FieldSize>,
}

/// The size of the first field in the list that has the path.
pub open spec fn size_at(sizes: Seq<FieldSize>, path: Seq<PathModel>) -> Option<u64>
    decreases sizes.len(),
{
    if sizes.len() == 0 {
        None
    } else if path_model(sizes[0].path@) == path {
        Some(sizes[0].size)
    } else {
        size_at(sizes.skip(1), path)
    }
}

fn same_path(a: &Vec<PathField>, b: &Vec<PathField>) -> (r: bool)
    ensures
        r == (path_model(a@) == path_model(b@)),
{
    if a.len() != b.len() {
        assert(path_model(a@).len() != path_model(b@).len());
        return false;
    }
    for i in 0..a.len()
        invariant
            a@.len() == b@.len(),
            forall|k: int| 0 <= k < i ==> (#[trigger] a@[k])@ == b@[k]@,
    {
        let same = match (&a[i], &b[i]) {
            (PathField::Name(x), PathField::Name(y)) => str_equal(x.as_str(), y.as_str()),
            (PathField::ElementType, PathField::ElementType) => true,
            _ => false,
        };
        if !same {
            assert(path_model(a@)[i as int] != path_model(b@)[i as int]);
            return false;
        }
    }
    assert(path_model(a@) =~= path_model(b@));
    true
}

pub(crate) fn find_size(sizes: &Vec<FieldSize>, path: &Vec<PathField>) -> (r: Option<u64>)
    ensures
        r == size_at(sizes@, path_model(path@)),
{
    assert(sizes@.skip(0) =~= sizes@);
    for i in 0..sizes.len()
        invariant
            size_at(sizes@, path_model(path@)) == size_at(
                sizes@.skip(i as int),
                path_model(path@),
            ),
    {
        if same_path(&sizes[i].path, path) {
            return Some(sizes[i].size);
        }
        assert(sizes@.skip(i as int).skip(1) =~= sizes@.skip(i + 1));
    }
    None
}

/// Why data could not be pushed to the writer.
#[derive(Debug, PartialEq)]
pub enum PushError<E> {
    /// The writer stopped with this error.
    Writer(E),
    /// The writer stopped before all data was written.
    WriterStopped,
}

/// Why a chunk could not be taken in.
#[derive(Clone, Copy, Debug, PartialEq, Eq, Structural)]
pub enum SinkError {
    /// A UUID column of the chunk is malformed.
    Uuid(UuidStorageError),
    /// The sink was closed.
    SinkClosed,
}

/// A write in progress. Data goes through a sink to a writer task, whose end leaves the file
/// finished.
pub struct CopyFunctionGlobal {
    task_running: bool,
    finished: Option<FinishedWrite>,
    sink_open: bool,
    pushed_bytes: u64,
    stats: StatsAccumulators,
}

impl CopyFunctionGlobal {
    /// Whether there is a writer task to wait for.
    pub closed spec fn has_task(self) -> bool {
        self.task_running
    }

    /// The finished write, if it is finished.
    pub closed spec fn finished_write(self) -> Option<FinishedWrite> {
        self.finished
    }

    /// Whether data can be pushed.
    pub closed spec fn accepts_data(self) -> bool {
        self.sink_open
    }

    /// The bytes pushed so far.
    pub closed spec fn pushed(self) -> u64 {
        self.pushed_bytes
    }

    /// The statistics accumulated so far.
    pub closed spec fn accumulators(self) -> StatsAccumulators {
        self.stats
    }

    /// Whether this is a write that just started.
    pub open spec fn is_new(self) -> bool {
        &&& self.has_task()
        &&& self.finished_write() is None
        &&& self.accepts_data()
        &&& self.pushed() == 0
        &&& self.accumulators()@ == AccModel::empty()
    }

    /// Whether nothing but the statistics differs.
    pub open spec fn same_but_stats(self, other: CopyFunctionGlobal) -> bool {
        &&& self.has_task() == other.has_task()
        &&& self.finished_write() == other.finished_write()
        &&& self.accepts_data() == other.accepts_data()
        &&& self.pushed() == other.pushed()
    }

    /// After a send failed, takes the writer task, if there is one, to wait for its error.
    pub fn take_task(&mut self) -> (r: bool)
        ensures
            r == old(self).has_task(),
            !final(self).has_task(),
            final(self).finished_write() == old(self).finished_write(),
            final(self).accepts_data() == old(self).accepts_data(),
            final(self).pushed() == old(self).pushed(),
            final(self).accumulators() == old(self).accumulators(),
    {
        let running = self.task_running;
        self.task_running = false;
        running
    }

    /// Ends the write with the outcome of its task: the summary with the column sizes, if there
    /// are any, and the outcome of reading the field sizes.
    pub fn finish<E>(
        &mut self,
        outcome: Result<WriteSummary, E>,
        column_sizes: Option<Vec<u64>>,
        field_sizes: Result<Vec<FieldSize>, E>,
    ) -> (r: Result<(), E>)
        ensures
            r == (match (outcome, field_sizes) {
                (Err(e), _) => Err::<(), E>(e),
                (Ok(_), Err(e)) => Err(e),
                (Ok(_), Ok(_)) => Ok(()),
            }),
            r is Err ==> *final(self) == *old(self),
            r is Ok ==> {
                &&& final(self).finished_write() matches Some(finished)
                &&& finished.summary == outcome->Ok_0
                &&& finished.column_sizes@ == (match column_sizes {
                    Some(sizes) => sizes@,
                    None => seq![],
                })
                &&& finished.field_sizes == field_sizes->Ok_0
            },
            final(self).has_task() == old(self).has_task(),
            final(self).accepts_data() == old(self).accepts_data(),
            final(self).pushed() == old(self).pushed(),
            final(self).accumulators() == old(self).accumulators(),
    {
        let summary = match outcome {
            Ok(summary) => summary,
            Err(e) => return Err(e),
        };
        let column_sizes = match column_sizes {
            Some(sizes) => sizes,
            None => Vec::new(),
        };
        let field_sizes = match field_sizes {
            Ok(field_sizes) => field_sizes,
            Err(e) => return Err(e),
        };
        self.finished = Some(FinishedWrite { summary, column_sizes, field_sizes });
        Ok(())
    }
}

/// Counts an array of `nbytes` as pushed, and says whether it can be sent to the sink. The
/// bytes count even if not.
pub fn push_to_writer(global: &mut CopyFunctionGlobal, nbytes: u64) -> (r: Result<(), SinkError>)
    ensures
        r == (if old(global).accepts_data() {
            Ok::<(), SinkError>(())
        } else {
            Err(SinkError::SinkClosed)
        }),
        final(global).pushed() == (old(global).pushed() + nbytes) % 0x1_0000_0000_0000_0000,
        final(global).has_task() == old(global).has_task(),
        final(global).finished_write() == old(global).finished_write(),
        final(global).accepts_data() == old(global).accepts_data(),
        final(global).accumulators() == old(global).accumulators(),
{
    global.pushed_bytes = global.pushed_bytes.wrapping_add(nbytes);
    if global.sink_open {
        Ok(())
    } else {
        Err(SinkError::SinkClosed)
    }
}

/// The statistics of a chunk are merged into those of the write. A malformed chunk leaves the
/// write as it was.
pub fn accumulate_stats_chunk(global: &mut CopyFunctionGlobal, columns: Vec<NamedArray>) -> (r:
    Result<(), UuidStorageError>)
    requires
        fields_outcome(AccModel::empty(), seq![], columns, columns@.len(), 0).fits,
        old(global).accumulators()@.mergeable(
            fields_outcome(AccModel::empty(), seq![], columns, columns@.len(), 0).acc,
        ),
    ensures
        ({
            let out = fields_outcome(AccModel::empty(), seq![], columns, columns@.len(), 0);
            &&& r == (match out.error {
                None => Ok::<(), UuidStorageError>(()),
                Some(e) => Err(e),
            })
            &&& r is Err ==> *final(global) == *old(global)
            &&& r is Ok ==> final(global).accumulators()@ == old(global).accumulators()@.merged(
                out.acc,
            )
            &&& final(global).same_but_stats(*old(global))
        }),
{
    let mut stats = StatsAccumulators::new();
    match accumulate_chunk_leaf_stats(&mut stats, columns) {
        Ok(_) => {
            global.stats.merge(stats);
            Ok(())
        },
        Err(e) => Err(e),
    }
}

/// Takes in a chunk of `nbytes`: merges its statistics, then counts it as pushed. `Ok` says
/// that it is to be sent to the sink.
pub fn copy_to_sink(
    global: &mut CopyFunctionGlobal,
    columns: Vec<NamedArray>,
    nbytes: u64,
) -> (r: Result<(), SinkError>)
    requires
        fields_outcome(AccModel::empty(), seq![], columns, columns@.len(), 0).fits,
        old(global).accumulators()@.mergeable(
            fields_outcome(AccModel::empty(), seq![], columns, columns@.len(), 0).acc,
        ),
    ensures
        ({
            let out = fields_outcome(AccModel::empty(), seq![], columns, columns@.len(), 0);
            &&& r == (match out.error {
                Some(e) => Err::<(), SinkError>(SinkError::Uuid(e)),
                None => if old(global).accepts_data() {
                    Ok(())
                } else {
                    Err(SinkError::SinkClosed)
                },
            })
            &&& out.error is Some ==> *final(global) == *old(global)
            &&& out.error is None ==> {
                &&& final(global).accumulators()@ == old(global).accumulators()@.merged(out.acc)
                &&& final(global).pushed() == (old(global).pushed() + nbytes)
                    % 0x1_0000_0000_0000_0000
                &&& final(global).has_task() == old(global).has_task()
                &&& final(global).finished_write() == old(global).finished_write()
                &&& final(global).accepts_data() == old(global).accepts_data()
            }
        }),
{
    match accumulate_stats_chunk(global, columns) {
        Ok(_) => push_to_writer(global, nbytes),
        Err(e) => Err(SinkError::Uuid(e)),
    }
}

/// Merges the statistics of a prepared batch, once; a batch that was flushed has none left.
pub fn flush_batch(global: &mut CopyFunctionGlobal, batch: &mut CopyPreparedBatch)
    requires
        old(batch).stats matches Some(stats) ==> old(global).accumulators()@.mergeable(stats@),
    ensures
        final(batch).stats is None,
        final(batch).array_sizes == old(batch).array_sizes,
        final(global).accumulators()@ == (match old(batch).stats {
            Some(stats) => old(global).accumulators()@.merged(stats@),
            None => old(global).accumulators()@,
        }),
        final(global).same_but_stats(*old(global)),
{
    let mut taken: Option<StatsAccumulators> = None;
    std::mem::swap(&mut batch.stats, &mut taken);
    if let Some(stats) = taken {
        global.stats.merge(stats);
    }
}

/// The size of the file: once it is finished its real size, before that the bytes pushed, of
/// which compression leaves no more.
pub fn file_size_bytes(global: &CopyFunctionGlobal) -> (r: u64)
    ensures
        r == (match global.finished_write() {
            Some(finished) => finished.summary.size,
            None => global.pushed(),
        }),
{
    match &global.finished {
        Some(finished) => finished.summary.size,
        None => global.pushed_bytes,
    }
}

/// Starts the end of the write: closes the sink and takes the writer task to wait for.
pub fn copy_to_finalize(global: &mut CopyFunctionGlobal)
    requires
        old(global).has_task(),
    ensures
        !final(global).has_task(),
        !final(global).accepts_data(),
        final(global).finished_write() == old(global).finished_write(),
        final(global).pushed() == old(global).pushed(),
        final(global).accumulators() == old(global).accumulators(),
{
    global.sink_open = false;
    global.task_running = false;
}

/// The file-level statistics, once the write is finished.
pub fn written_file_stats(global: &CopyFunctionGlobal) -> (r: Option<WrittenFileStats>)
    ensures
        r == (match global.finished_write() {
            Some(finished) => Some(file_stats(finished.summary)),
            None => None,
        }),
{
    match &global.finished {
        Some(finished) => Some(file_stats_from_summary(&finished.summary)),
        None => None,
    }
}

/// How the statistics of a top-level column are made, once the write is finished: from the
/// footer, with the extrema of a UUID column or the longer bounds of a string or binary
/// column in place of the footer's bounds.
pub fn written_column_stats<'a>(global: &'a CopyFunctionGlobal, column_index: usize) -> (r: Result<
    Option<WrittenColumnPlan<'a>>,
    ColumnStatsError,
>)
    requires
        global.finished_write() matches Some(finished) ==> finished.summary.wf(),
    ensures
        match global.finished_write() {
            None => r matches Ok(None),
            Some(finished) => {
                let stats = finished.summary.statistics;
                let acc = global.accumulators();
                let key = top_level_key(*finished.summary.dtype, column_index);
                if stats is None {
                    r == Err::<Option<WrittenColumnPlan<'a>>, _>(ColumnStatsError::NoStatistics)
                } else if column_index >= stats->Some_0.stats_sets@.len() {
                    r == Err::<Option<WrittenColumnPlan<'a>>, _>(
                        ColumnStatsError::OutOfRange {
                            column_index,
                            num_columns: stats->Some_0.stats_sets@.len() as usize,
                        },
                    )
                } else {
                    let set = stats->Some_0.stats_sets@[column_index as int];
                    &&& r matches Ok(Some(plan))
                    &&& plan.footer == column_plan(
                        set,
                        *stats->Some_0.dtypes@[column_index as int],
                        exact_count(set.null_count),
                        finished.summary.row_count,
                        if column_index < finished.column_sizes@.len() {
                            Some(finished.column_sizes@[column_index as int])
                        } else {
                            None
                        },
                    )
                    &&& plan.uuid == uuid_under(acc, key)
                    &&& plan.varlen == varlen_under(acc, key)
                }
            },
        },
        r matches Ok(Some(plan)) ==> {
            let finished = global.finished_write()->Some_0;
            let set = finished.summary.statistics->Some_0.stats_sets@[column_index as int];
            let dtype = *finished.summary.statistics->Some_0.dtypes@[column_index as int];
            &&& plan.footer.min == bound_plan(set.min, BoundKind::Min, dtype)
            &&& plan.footer.max == bound_plan(set.max, BoundKind::Max, dtype)
            &&& plan.footer.has_nan == (match set.nan_count {
                Precision::Exact(n) => Some(n > 0),
                _ => None,
            })
            &&& plan.footer.null_count == (match set.null_count {
                Precision::Exact(n) => Some(n),
                _ => None,
            })
            &&& plan.footer.num_values == finished.summary.row_count
            &&& plan.footer.column_size_bytes == (if column_index < finished.column_sizes@.len() {
                Some(finished.column_sizes@[column_index as int])
            } else {
                None
            })
        },
{
    let finished = match &global.finished {
        Some(finished) => finished,
        None => return Ok(None),
    };
    let footer = match column_stats_from_summary(
        &finished.summary,
        column_index,
        finished.column_sizes.as_slice(),
    ) {
        Ok(footer) => footer,
        Err(e) => return Err(e),
    };
    let key = match top_level_stats_key(&finished.summary, column_index) {
        Some(key) => key,
        None => return Ok(Some(WrittenColumnPlan { footer, uuid: None, varlen: None })),
    };
    let uuid = global.stats.uuid.get(key.as_str());
    let varlen = match global.stats.varlen_bounds.get(key.as_str()) {
        Some(bounds) => Some(
            VarlenPlan {
                dtype: &bounds.dtype,
                min: plan_bound(&bounds.stats.min, BoundKind::Min, &bounds.dtype),
                max: plan_bound(&bounds.stats.max, BoundKind::Max, &bounds.dtype),
            },
        ),
        None => None,
    };
    Ok(Some(WrittenColumnPlan { footer, uuid, varlen }))
}

/// The number of leaf columns with statistics, once the write is finished; 0 before.
pub fn written_leaf_stats_count(global: &CopyFunctionGlobal) -> (r: u64)
    ensures
        global.accumulators().leaf@.dom().finite(),
        r == (if global.finished_write() is Some {
            global.accumulators().leaf@.dom().len()
        } else {
            0
        }),
{
    let n: usize = global.stats.leaf.len();
    if global.finished.is_none() {
        return 0;
    }
    n as u64
}

/// How the statistics of a leaf column are made, once the write is finished. Leaves are
/// numbered by the order of their keys.
pub fn written_leaf_stats<'a>(global: &'a CopyFunctionGlobal, index: usize) -> (r: Option<
    WrittenLeafPlan<'a>,
>)
    requires
        leaf_nulls_fit(global.accumulators()),
    ensures
        global.accumulators().leaf@.dom().finite(),
        r is Some <==> global.finished_write() is Some && index
            < global.accumulators().leaf@.dom().len(),
        r matches Some(plan) ==> {
            let acc = global.accumulators();
            let finished = global.finished_write()->Some_0;
            let leaf = acc.leaf@[plan.path@];
            &&& acc.leaf@.contains_key(plan.path@)
            &&& rank(acc.leaf@.dom(), plan.path@) == index
            &&& plan.stats == column_plan(
                leaf.stats,
                *leaf.dtype,
                leaf_null_count(leaf),
                leaf.num_values,
                size_at(finished.field_sizes@, path_model(leaf.path@)),
            )
            &&& plan.uuid == uuid_under(acc, Some(plan.path@))
            &&& plan.stats.has_nan == (match leaf.stats.nan_count {
                Precision::Exact(n) => Some(n > 0),
                _ => None,
            })
            &&& leaf.stats.null_count matches Precision::Exact(n) ==> (
            plan.stats.null_count matches Some(nulls) && nulls == n + leaf.extra_nulls)
            &&& !(leaf.stats.null_count is Exact) ==> plan.stats.null_count is None
            &&& plan.stats.num_values == leaf.num_values
            &&& plan.stats.min == bound_plan(leaf.stats.min, BoundKind::Min, *leaf.dtype)
            &&& plan.stats.max == bound_plan(leaf.stats.max, BoundKind::Max, *leaf.dtype)
        },
{
    let nth = global.stats.leaf.nth(index);
    let finished = match &global.finished {
        Some(finished) => finished,
        None => return None,
    };
    let (key, leaf) = match nth {
        Some((key, leaf)) => (key, leaf),
        None => return None,
    };
    let size = find_size(&finished.field_sizes, &leaf.path);
    let null_count = match &leaf.stats.null_count {
        Precision::Exact(count) => Some(*count + leaf.extra_nulls),
        _ => None,
    };
    let stats = plan_column(&leaf.stats, &leaf.dtype, null_count, leaf.num_values, size);
    let uuid = global.stats.uuid.get(key.as_str());
    Some(WrittenLeafPlan { path: key, stats, uuid })
}


/// The error of a push after a send failed: the writer's own, if its task was there to wait for
/// and ended in one.
pub fn failed_push<E>(task: Option<Result<(), E>>) -> (r: PushError<E>)
    ensures
        r == (match task {
            Some(Err(e)) => PushError::Writer(e),
            _ => PushError::WriterStopped,
        }),
{
    match task {
        Some(Err(e)) => PushError::Writer(e),
        _ => PushError::WriterStopped,
    }
}

/// The null count of a leaf column: the nulls among its values, and those that enclosing lists
/// contribute.
pub open spec fn leaf_null_count(leaf: LeafStatsAccum) -> Option<u64> {
    match leaf.stats.null_count {
        Precision::Exact(count) => Some((count + leaf.extra_nulls) as u64),
        _ => None,
    }
}

/// Whether the null counts of all leaf columns can be held.
pub open spec fn leaf_nulls_fit(acc: StatsAccumulators) -> bool {
    forall|k: Seq<char>| #[trigger]
        acc.leaf@.contains_key(k) ==> (exact_count(acc.leaf@[k].stats.null_count) matches Some(
            count,
        ) ==> count + acc.leaf@[k].extra_nulls <= u64::MAX)
}

/// Where no column has more nulls than values, the null counts can be held.
pub proof fn law_leaf_nulls_fit(acc: StatsAccumulators)
    requires
        nulls_are_values(acc@),
    ensures
        leaf_nulls_fit(acc),
{
    assert forall|k: Seq<char>| #[trigger] acc.leaf@.contains_key(k) implies (exact_count(
        acc.leaf@[k].stats.null_count,
    ) matches Some(count) ==> count + acc.leaf@[k].extra_nulls <= u64::MAX) by {
        assert(acc@.leaf.contains_key(k));
        assert(acc@.leaf[k] == acc.leaf@[k]@);
    }
}

/// Where the counts stay within the range of 64 bits together, the null counts can be held.
pub proof fn law_small_counts_report(acc: StatsAccumulators)
    requires
        counts_within(acc@, u64::MAX as int),
    ensures
        leaf_nulls_fit(acc),
{
    assert forall|k: Seq<char>| #[trigger] acc.leaf@.contains_key(k) implies (exact_count(
        acc.leaf@[k].stats.null_count,
    ) matches Some(count) ==> count + acc.leaf@[k].extra_nulls <= u64::MAX) by {
        assert(acc@.leaf.contains_key(k));
        assert(acc@.leaf[k] == acc.leaf@[k]@);
    }
}

/// The extrema under a key, if any.
pub open spec fn uuid_under<'a>(acc: StatsAccumulators, key: Option<Seq<char>>) -> Option<
    &'a UuidStats,
> {
    match key {
        Some(key) => if acc.uuid@.contains_key(key) {
            Some(&acc.uuid@[key])
        } else {
            None
        },
        None => None,
    }
}

/// How the untruncated bounds under a key are made, if there are any.
pub open spec fn varlen_under<'a>(acc: StatsAccumulators, key: Option<Seq<char>>) -> Option<
    VarlenPlan<'a>,
> {
    match key {
        Some(key) => if acc.varlen_bounds@.contains_key(key) {
            let bounds = acc.varlen_bounds@[key];
            Some(
                VarlenPlan {
                    dtype: &bounds.dtype,
                    min: bound_plan(bounds.stats.min, BoundKind::Min, *bounds.dtype),
                    max: bound_plan(bounds.stats.max, BoundKind::Max, *bounds.dtype),
                },
            )
        } else {
            None
        },
        None => None,
    }
}

/// How the statistics of a top-level column are made.
pub struct WrittenColumnPlan<'a> {
    /// From the footer.
    pub footer: ColumnStatsPlan<'a>,
    /// The extrema of a UUID column.
    pub uuid: Option<&'a UuidStats>,
    /// The bounds of a string or binary column, to be cut anew.
    pub varlen: Option<VarlenPlan<'a>>,
}

/// How the bounds of a string or binary column are made.
#[derive(Debug, PartialEq)]
pub struct VarlenPlan<'a> {
    pub dtype: &'a DType,
    pub min: BoundPlan<'a>,
    pub max: BoundPlan<'a>,
}

/// How the statistics of a leaf column are made.
pub struct WrittenLeafPlan<'a> {
    /// The column's key.
    pub path: &'a String,
    pub stats: ColumnStatsPlan<'a>,
    /// The extrema of a UUID column.
    pub uuid: Option<&'a UuidStats>,
}

/// The statistics of a top-level column, from its plan and what making its bounds came to.
pub fn finish_column_stats<'a, T>(
    plan: WrittenColumnPlan<'a>,
    footer_min: BoundOutcome<T>,
    footer_max: BoundOutcome<T>,
    varlen_min: BoundOutcome<T>,
    varlen_max: BoundOutcome<T>,
) -> (r: WrittenColumnStats<T>)
    ensures
        ({
            let footer = resolved(plan.footer, footer_min, footer_max);
            match plan.varlen {
                Some(VarlenPlan { dtype, min, max }) => r == (WrittenColumnStats {
                    min: bound_result(min, varlen_min).0,
                    max: bound_result(max, varlen_max).0,
                    min_is_exact: bound_result(min, varlen_min).1,
                    max_is_exact: bound_result(max, varlen_max).1,
                    ..footer
                }),
                None => match plan.uuid {
                    Some(uuid) => {
                        &&& shows_uuid(r.min, uuid.min)
                        &&& shows_uuid(r.max, uuid.max)
                        &&& r == (WrittenColumnStats { min: r.min, max: r.max, ..footer })
                    },
                    None => r == footer,
                },
            }
        }),
        r.null_count == plan.footer.null_count,
        r.num_values == plan.footer.num_values,
        r.column_size_bytes == plan.footer.column_size_bytes,
        r.has_nan == plan.footer.has_nan,
{
    let mut stats = resolve_column_stats(plan.footer, footer_min, footer_max);
    if let Some(uuid) = plan.uuid {
        crate::duckdb::copy_stats::apply_uuid_stats(&mut stats, uuid);
    }
    if let Some(VarlenPlan { min, max, .. }) = plan.varlen {
        let (min, min_is_exact) = stats_bound_to_duckdb(&min, varlen_min);
        let (max, max_is_exact) = stats_bound_to_duckdb(&max, varlen_max);
        stats.min = min;
        stats.min_is_exact = min_is_exact;
        stats.max = max;
        stats.max_is_exact = max_is_exact;
    }
    stats
}

/// The statistics of a leaf column, from its plan and what making its bounds came to.
pub fn finish_leaf_stats<'a, T>(
    plan: WrittenLeafPlan<'a>,
    min: BoundOutcome<T>,
    max: BoundOutcome<T>,
) -> (r: WrittenColumnStats<T>)
    ensures
        match plan.uuid {
            Some(uuid) => {
                &&& shows_uuid(r.min, uuid.min)
                &&& shows_uuid(r.max, uuid.max)
                &&& r == (WrittenColumnStats {
                    min: r.min,
                    max: r.max,
                    ..resolved(plan.stats, min, max)
                })
            },
            None => r == resolved(plan.stats, min, max),
        },
        r.null_count == plan.stats.null_count,
        r.num_values == plan.stats.num_values,
        r.column_size_bytes == plan.stats.column_size_bytes,
        r.has_nan == plan.stats.has_nan,
        r.min_is_exact == bound_result(plan.stats.min, min).1,
        r.max_is_exact == bound_result(plan.stats.max, max).1,
{
    let mut stats = resolve_column_stats(plan.stats, min, max);
    if let Some(uuid) = plan.uuid {
        crate::duckdb::copy_stats::apply_uuid_stats(&mut stats, uuid);
    }
    stats
}

/// Chunks made ready for a write, with their statistics, apart from the write itself.
pub struct CopyPreparedBatch {
    /// The bytes of each array in the batch.
    pub array_sizes: Vec<u64>,
    pub stats: Option<StatsAccumulators>,
}

impl CopyPreparedBatch {
    /// An empty batch.
    pub fn new() -> (r: Self)
        ensures
            r.array_sizes@ == Seq::<u64>::empty(),
            r.stats is None,
    {
        CopyPreparedBatch { array_sizes: Vec::new(), stats: None }
    }

    /// What the batch has accumulated.
    pub open spec fn accumulated(self) -> AccModel {
        match self.stats {
            Some(stats) => stats@,
            None => AccModel::empty(),
        }
    }
}

/// Adds a chunk of `nbytes` to the batch. A malformed chunk is not added, though its
/// statistics count up to the malformed column.
pub fn prepare_batch_push(
    batch: &mut CopyPreparedBatch,
    columns: Vec<NamedArray>,
    nbytes: u64,
) -> (r: Result<(), UuidStorageError>)
    requires
        fields_outcome(old(batch).accumulated(), seq![], columns, columns@.len(), 0).fits,
    ensures
        ({
            let out = fields_outcome(
                old(batch).accumulated(),
                seq![],
                columns,
                columns@.len(),
                0,
            );
            &&& r == (match out.error {
                None => Ok::<(), UuidStorageError>(()),
                Some(e) => Err(e),
            })
            &&& final(batch).stats matches Some(stats)
            &&& stats@ == out.acc
            &&& final(batch).array_sizes@ == (if r is Ok {
                old(batch).array_sizes@.push(nbytes)
            } else {
                old(batch).array_sizes@
            })
        }),
{
    let mut taken: Option<StatsAccumulators> = None;
    std::mem::swap(&mut batch.stats, &mut taken);
    let mut stats = match taken {
        Some(stats) => stats,
        None => StatsAccumulators::new(),
    };
    let r = accumulate_chunk_leaf_stats(&mut stats, columns);
    batch.stats = Some(stats);
    match r {
        Ok(_) => {
            batch.array_sizes.push(nbytes);
            Ok(())
        },
        Err(e) => Err(e),
    }
}


/// A field's size is that of the first entry with its path, and nothing without such an entry.
pub proof fn law_first_entry_gives_the_size(sizes: Seq<FieldSize>, path: Seq<PathModel>, i: int)
    ensures
        0 <= i < sizes.len() && path_model(sizes[i].path@) == path && (forall|k: int|
            0 <= k < i ==> path_model((#[trigger] sizes[k]).path@) != path) ==> size_at(sizes, path)
            == Some(sizes[i].size),
        (forall|k: int|
            0 <= k < sizes.len() ==> path_model((#[trigger] sizes[k]).path@) != path) ==> size_at(
            sizes,
            path,
        ) is None,
    decreases sizes.len(),
{
    if sizes.len() > 0 && path_model(sizes[0].path@) != path {
        law_first_entry_gives_the_size(sizes.skip(1), path, i - 1);
        if 0 <= i < sizes.len() && forall|k: int| 0 <= k < i ==> path_model((#[trigger] sizes[k]).path@) != path {
            assert forall|k: int| 0 <= k < i - 1 implies path_model(
                (#[trigger] sizes.skip(1)[k]).path@,
            ) != path by {
                assert(sizes.skip(1)[k] == sizes[k + 1]);
            }
        }
        if forall|k: int| 0 <= k < sizes.len() ==> path_model((#[trigger] sizes[k]).path@) != path {
            assert forall|k: int| 0 <= k < sizes.len() - 1 implies path_model(
                (#[trigger] sizes.skip(1)[k]).path@,
            ) != path by {
                assert(sizes.skip(1)[k] == sizes[k + 1]);
            }
        }
    }
}

/// The extrema and the bounds of a column are those under its own key.
pub proof fn law_extrema_are_found_by_key<'a>(acc: StatsAccumulators, key: Seq<char>)
    ensures
        acc.uuid@.contains_key(key) ==> (uuid_under(acc, Some(key)) matches Some(uuid) && *uuid
            == acc.uuid@[key]),
        !acc.uuid@.contains_key(key) ==> uuid_under(acc, Some(key)) is None,
        acc.varlen_bounds@.contains_key(key) ==> (varlen_under(acc, Some(key)) matches Some(plan)
            && plan.min == bound_plan(
            acc.varlen_bounds@[key].stats.min,
            BoundKind::Min,
            *acc.varlen_bounds@[key].dtype,
        ) && plan.max == bound_plan(
            acc.varlen_bounds@[key].stats.max,
            BoundKind::Max,
            *acc.varlen_bounds@[key].dtype,
        )),
        !acc.varlen_bounds@.contains_key(key) ==> varlen_under(acc, Some(key)) is None,
        uuid_under(acc, None) is None,
        varlen_under(acc, None) is None,
{
}

/// A write that just started has its task running and its sink open, and nothing pushed, finished
/// or accumulated. A batch that nothing was added to has accumulated nothing either.
pub proof fn law_writes_and_batches_start_empty(
    global: CopyFunctionGlobal,
    batch: CopyPreparedBatch,
    key: Seq<char>,
)
    ensures
        global.is_new() ==> {
            &&& global.has_task()
            &&& global.accepts_data()
            &&& global.finished_write() is None
            &&& global.pushed() == 0
            &&& !global.accumulators()@.leaf.contains_key(key)
            &&& !global.accumulators()@.uuid.contains_key(key)
            &&& !global.accumulators()@.varlen_bounds.contains_key(key)
        },
        batch.stats is None ==> {
            &&& !batch.accumulated().leaf.contains_key(key)
            &&& !batch.accumulated().uuid.contains_key(key)
            &&& !batch.accumulated().varlen_bounds.contains_key(key)
        },
        batch.stats matches Some(stats) ==> batch.accumulated() == stats@,
{
}

/// Where a write differs in its statistics alone, its task, its sink, its bytes and its end are
/// the same.
pub proof fn law_statistics_leave_the_write_alone(a: CopyFunctionGlobal, b: CopyFunctionGlobal)
    requires
        a.same_but_stats(b),
    ensures
        a.has_task() == b.has_task(),
        a.finished_write() == b.finished_write(),
        a.accepts_data() == b.accepts_data(),
        a.pushed() == b.pushed(),
{
}

} // verus!
