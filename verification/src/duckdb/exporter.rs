//! Turning arrays into database vectors.

use vstd::prelude::*;

use crate::bytes::be_value;
use crate::bytes::law_be_value_keeps_order;
use crate::bytes::lemma_be_value_concat;
use crate::bytes::lemma_byte_range_values;
use crate::bytes::read_be;
use crate::duckdb::ext_types::duck_ext_kind;
use crate::duckdb::ext_types::kind_of_id;
use crate::duckdb::ext_types::law_ids_identify_extensions;
use crate::duckdb::ext_types::DuckExtKind;
use crate::duckdb::ext_types::DuckdbIntervalPhysical;
use crate::order::lex_lt;

verus! {

/// Extensions that other parts of the system define, and all others.
#[derive(Clone, Copy, Debug, PartialEq, Eq, Structural)]
pub enum KnownExtension {
    Temporal,
    Uuid,
    WellKnownBinary,
    Point,
    LineString,
    MultiPoint,
    Polygon,
    MultiLineString,
    MultiPolygon,
    Other,
}

/// How an extension array is exported.
#[derive(Clone, Copy, Debug, PartialEq, Eq, Structural)]
pub enum ExporterKind {
    Temporal,
    Uuid,
    HugeInt { signed: bool },
    Interval,
    /// By its storage, an array of primitive values.
    Primitive,
    /// By its storage, an array of byte strings.
    VarBinView,
    /// By its storage, a struct array.
    Struct,
    WellKnownBinary,
    Point,
    LineString,
    MultiPoint,
    Polygon,
    MultiLineString,
    MultiPolygon,
}

/// How an extension array is exported: temporal types and UUIDs first, then the database's own
/// extensions by their ids, then geometries; nothing for any other.
pub open spec fn exporter_kind(known: KnownExtension, id: Seq<char>) -> Option<ExporterKind> {
    match known {
        KnownExtension::Temporal => Some(ExporterKind::Temporal),
        KnownExtension::Uuid => Some(ExporterKind::Uuid),
        _ => match kind_of_id(id) {
            Some(DuckExtKind::HugeInt) => Some(ExporterKind::HugeInt { signed: true }),
            Some(DuckExtKind::UHugeInt) => Some(ExporterKind::HugeInt { signed: false }),
            Some(DuckExtKind::Interval) => Some(ExporterKind::Interval),
            Some(DuckExtKind::Enum) => Some(ExporterKind::Primitive),
            Some(DuckExtKind::TimeTz) => Some(ExporterKind::Primitive),
            Some(DuckExtKind::Bit) => Some(ExporterKind::VarBinView),
            Some(DuckExtKind::Bignum) => Some(ExporterKind::VarBinView),
            Some(DuckExtKind::Variant) => Some(ExporterKind::Struct),
            None => match known {
                KnownExtension::WellKnownBinary => Some(ExporterKind::WellKnownBinary),
                KnownExtension::Point => Some(ExporterKind::Point),
                KnownExtension::LineString => Some(ExporterKind::LineString),
                KnownExtension::MultiPoint => Some(ExporterKind::MultiPoint),
                KnownExtension::Polygon => Some(ExporterKind::Polygon),
                KnownExtension::MultiLineString => Some(ExporterKind::MultiLineString),
                KnownExtension::MultiPolygon => Some(ExporterKind::MultiPolygon),
                _ => None,
            },
        },
    }
}

/// How an extension array with this id is exported, or nothing if there is no exporter for it.
pub fn new_exporter(known: KnownExtension, id: &str) -> (r: Option<ExporterKind>)
    ensures
        r == exporter_kind(known, id@),
{
    match known {
        KnownExtension::Temporal => return Some(ExporterKind::Temporal),
        KnownExtension::Uuid => return Some(ExporterKind::Uuid),
        _ => {},
    }
    match duck_ext_kind(id) {
        Some(DuckExtKind::HugeInt) => Some(ExporterKind::HugeInt { signed: true }),
        Some(DuckExtKind::UHugeInt) => Some(ExporterKind::HugeInt { signed: false }),
        Some(DuckExtKind::Interval) => Some(ExporterKind::Interval),
        Some(DuckExtKind::Enum) => Some(ExporterKind::Primitive),
        Some(DuckExtKind::TimeTz) => Some(ExporterKind::Primitive),
        Some(DuckExtKind::Bit) => Some(ExporterKind::VarBinView),
        Some(DuckExtKind::Bignum) => Some(ExporterKind::VarBinView),
        Some(DuckExtKind::Variant) => Some(ExporterKind::Struct),
        None => match known {
            KnownExtension::WellKnownBinary => Some(ExporterKind::WellKnownBinary),
            KnownExtension::Point => Some(ExporterKind::Point),
            KnownExtension::LineString => Some(ExporterKind::LineString),
            KnownExtension::MultiPoint => Some(ExporterKind::MultiPoint),
            KnownExtension::Polygon => Some(ExporterKind::Polygon),
            KnownExtension::MultiLineString => Some(ExporterKind::MultiLineString),
            KnownExtension::MultiPolygon => Some(ExporterKind::MultiPolygon),
            _ => None,
        },
    }
}

/// A 128-bit integer in two halves, as the database holds it.
#[derive(Clone, Copy, Debug, PartialEq, Eq, Structural)]
pub struct HugeInt {
    pub lower: u64,
    pub upper: i64,
}

impl HugeInt {
    /// The number, if the upper half has a sign.
    pub open spec fn signed_value(self) -> int {
        self.upper * 0x1_0000_0000_0000_0000 + self.lower
    }

    /// The number, if the upper half has none.
    pub open spec fn unsigned_value(self) -> int {
        (if self.upper < 0 {
            self.upper + 0x1_0000_0000_0000_0000
        } else {
            self.upper as int
        }) * 0x1_0000_0000_0000_0000 + self.lower
    }
}

/// The number that 16 stored bytes stand for: big-endian, moved up by half the range if signed.
pub open spec fn stored_hugeint(signed: bool, bytes: Seq<u8>) -> int {
    if signed {
        be_value(bytes) - 0x8000_0000_0000_0000_0000_0000_0000_0000
    } else {
        be_value(bytes) as int
    }
}

/// Whether a 128-bit integer is the one that 16 stored bytes stand for.
pub open spec fn is_stored_hugeint(signed: bool, bytes: Seq<u8>, value: HugeInt) -> bool {
    stored_hugeint(signed, bytes) == (if signed {
        value.signed_value()
    } else {
        value.unsigned_value()
    })
}

/// The 128-bit integers of an array.
pub struct HugeIntExporter {
    values: Vec<HugeInt>,
}

impl View for HugeIntExporter {
    type V = Seq<HugeInt>;

    closed spec fn view(&self) -> Seq<HugeInt> {
        self.values@
    }
}

fn read_hugeint(signed: bool, bytes: &[u8], at: usize) -> (r: HugeInt)
    requires
        at + 16 <= bytes@.len(),
    ensures
        is_stored_hugeint(signed, bytes@.subrange(at as int, at + 16), r),
{
    assert(bytes@.len() == bytes.len());
    let upper: u64 = read_be(bytes, at, 8);
    let lower: u64 = read_be(bytes, at + 8, 8);
    proof {
        let all = bytes@.subrange(at as int, at + 16);
        let front = bytes@.subrange(at as int, at + 8);
        let back = bytes@.subrange(at + 8, at + 16);
        assert(all =~= front + back);
        lemma_be_value_concat(front, back);
        lemma_byte_range_values();
    }
    let upper: i64 = if signed {
        (upper as i128 - 0x8000_0000_0000_0000) as i64
    } else if upper < 0x8000_0000_0000_0000 {
        upper as i64
    } else {
        (upper as i128 - 0x1_0000_0000_0000_0000) as i64
    };
    HugeInt { lower, upper }
}

/// The exporter of an array of 128-bit integers, from 16 stored bytes for each; nothing if all
/// are null. Bytes that make no whole value are left out.
pub fn new_hugeint_exporter(signed: bool, definitely_all_null: bool, bytes: &[u8]) -> (r: Option<
    HugeIntExporter,
>)
    ensures
        r is None <==> definitely_all_null,
        r matches Some(exporter) ==> {
            &&& exporter@.len() == bytes@.len() / 16
            &&& forall|i: int|
                0 <= i < exporter@.len() ==> is_stored_hugeint(
                    signed,
                    bytes@.subrange(i * 16, i * 16 + 16),
                    #[trigger] exporter@[i],
                )
            &&& forall|i: int|
                0 <= i < exporter@.len() && signed ==> (#[trigger] exporter@[i]).upper
                    * 0x1_0000_0000_0000_0000 + exporter@[i].lower
                    + 0x8000_0000_0000_0000_0000_0000_0000_0000 == be_value(
                    bytes@.subrange(i * 16, i * 16 + 16),
                )
            &&& forall|i: int|
                0 <= i < exporter@.len() && !signed ==> ((#[trigger] exporter@[i]).upper + (
                if exporter@[i].upper < 0 {
                    0x1_0000_0000_0000_0000int
                } else {
                    0
                })) * 0x1_0000_0000_0000_0000 + exporter@[i].lower == be_value(
                    bytes@.subrange(i * 16, i * 16 + 16),
                )
        },
{
    if definitely_all_null {
        return None;
    }
    let n: usize = bytes.len() / 16;
    let mut values: Vec<HugeInt> = Vec::new();
    for i in 0..n
        invariant
            n == bytes@.len() / 16,
            bytes@.len() <= usize::MAX,
            values@.len() == i,
            forall|k: int|
                0 <= k < i ==> is_stored_hugeint(
                    signed,
                    bytes@.subrange(k * 16, k * 16 + 16),
                    #[trigger] values@[k],
                ),
    {
        values.push(read_hugeint(signed, bytes, i * 16));
    }
    Some(HugeIntExporter { values })
}

impl HugeIntExporter {
    /// The `len` values from `offset` on.
    pub fn export(&self, offset: usize, len: usize) -> (r: &[HugeInt])
        requires
            offset + len <= self@.len(),
        ensures
            r@ == self@.subrange(offset as int, offset + len),
    {
        assert(self.values@.len() == self.values.len());
        vstd::slice::slice_subrange(self.values.as_slice(), offset, offset + len)
    }
}

/// The order of the stored bytes is the order of the numbers.
pub proof fn law_hugeint_bytes_keep_order(signed: bool, a: Seq<u8>, b: Seq<u8>)
    requires
        a.len() == 16,
        b.len() == 16,
    ensures
        lex_lt(a, b) <==> stored_hugeint(signed, a) < stored_hugeint(signed, b),
{
    law_be_value_keeps_order(a, b);
}

/// The intervals of an array.
pub struct IntervalExporter {
    values: Vec<DuckdbIntervalPhysical>,
}

impl View for IntervalExporter {
    type V = Seq<DuckdbIntervalPhysical>;

    closed spec fn view(&self) -> Seq<DuckdbIntervalPhysical> {
        self.values@
    }
}

/// The least of three numbers.
pub open spec fn min3(a: nat, b: nat, c: nat) -> nat {
    if a <= b && a <= c {
        a
    } else if b <= c {
        b
    } else {
        c
    }
}

/// The exporter of an array of intervals from its fields; nothing if all are null.
pub fn new_interval_exporter(
    definitely_all_null: bool,
    months: &[i32],
    days: &[i32],
    micros: &[i64],
) -> (r: Option<IntervalExporter>)
    ensures
        r is None <==> definitely_all_null,
        r matches Some(exporter) ==> exporter@ == Seq::new(
            min3(months@.len(), days@.len(), micros@.len()),
            |i: int|
                DuckdbIntervalPhysical { months: months@[i], days: days@[i], micros: micros@[i] },
        ),
        r matches Some(exporter) ==> {
            &&& exporter@.len() <= months@.len()
            &&& exporter@.len() <= days@.len()
            &&& exporter@.len() <= micros@.len()
            &&& exporter@.len() == months@.len() || exporter@.len() == days@.len() || exporter@.len()
                == micros@.len()
        },
{
    if definitely_all_null {
        return None;
    }
    let mut values: Vec<DuckdbIntervalPhysical> = Vec::new();
    let mut i: usize = 0;
    while i < months.len() && i < days.len() && i < micros.len()
        invariant
            i <= min3(months@.len(), days@.len(), micros@.len()),
            values@.len() == i,
            forall|k: int|
                0 <= k < i ==> (#[trigger] values@[k]) == (DuckdbIntervalPhysical {
                    months: months@[k],
                    days: days@[k],
                    micros: micros@[k],
                }),
        decreases months@.len() - i,
    {
        values.push(
            DuckdbIntervalPhysical { months: months[i], days: days[i], micros: micros[i] },
        );
        i += 1;
    }
    assert(values@ =~= Seq::new(
        min3(months@.len(), days@.len(), micros@.len()),
        |i: int|
            DuckdbIntervalPhysical { months: months@[i], days: days@[i], micros: micros@[i] },
    ));
    Some(IntervalExporter { values })
}

impl IntervalExporter {
    /// The `len` values from `offset` on.
    pub fn export(&self, offset: usize, len: usize) -> (r: &[DuckdbIntervalPhysical])
        requires
            offset + len <= self@.len(),
        ensures
            r@ == self@.subrange(offset as int, offset + len),
    {
        assert(self.values@.len() == self.values.len());
        vstd::slice::slice_subrange(self.values.as_slice(), offset, offset + len)
    }
}

/// The child that a tag selects: the first with that tag, or the number of tags if none has it.
pub open spec fn child_of_tag(tags: Seq<u8>, tag: u8) -> nat
    decreases tags.len(),
{
    if tags.len() == 0 || tags[0] == tag {
        0
    } else {
        1 + child_of_tag(tags.skip(1), tag)
    }
}

fn find_child(tags: &[u8], tag: u8) -> (r: Option<usize>)
    ensures
        r is Some <==> child_of_tag(tags@, tag) < tags@.len(),
        r matches Some(child) ==> child == child_of_tag(tags@, tag),
{
    assert(tags@.skip(0) =~= tags@);
    for i in 0..tags.len()
        invariant
            child_of_tag(tags@, tag) == i + child_of_tag(tags@.skip(i as int), tag),
    {
        if tags[i] == tag {
            return Some(i);
        }
        assert(tags@.skip(i as int).skip(1) =~= tags@.skip(i + 1));
    }
    None
}

/// Whether a row's tag selects a child that the database can number.
pub open spec fn row_maps(tags: Seq<u8>, valid: bool, tag: u8) -> bool {
    !valid || (child_of_tag(tags, tag) < tags.len() && child_of_tag(tags, tag) <= u8::MAX)
}

/// A union array whose tag has no member in the database.
#[derive(Clone, Copy, Debug, PartialEq, Eq, Structural)]
pub struct UnknownUnionTag(pub u8);

/// The database's member number of each row: that of the child its tag selects, and 0 for null
/// rows. The first row without a member is an error.
pub fn remap_union_tags(type_ids: &[u8], valid: &[bool], tags: &[u8]) -> (r: Result<
    Vec<u8>,
    UnknownUnionTag,
>)
    requires
        type_ids@.len() == valid@.len(),
    ensures
        r is Ok <==> forall|i: int|
            0 <= i < type_ids@.len() ==> row_maps(tags@, valid@[i], #[trigger] type_ids@[i]),
        r matches Ok(out) ==> out@ == Seq::new(
            type_ids@.len(),
            |i: int|
                if valid@[i] {
                    child_of_tag(tags@, type_ids@[i]) as u8
                } else {
                    0u8
                },
        ),
        r matches Err(UnknownUnionTag(tag)) ==> exists|i: int|
            #![trigger type_ids@[i]]
            0 <= i < type_ids@.len() && type_ids@[i] == tag && !row_maps(
                tags@,
                valid@[i],
                type_ids@[i],
            ) && (forall|k: int|
                0 <= k < i ==> row_maps(tags@, valid@[k], #[trigger] type_ids@[k])),
{
    let mut out: Vec<u8> = Vec::new();
    for i in 0..type_ids.len()
        invariant
            type_ids@.len() == valid@.len(),
            out@.len() == i,
            forall|k: int|
                0 <= k < i ==> row_maps(tags@, valid@[k], #[trigger] type_ids@[k]),
            forall|k: int|
                0 <= k < i ==> #[trigger] out@[k] == (if valid@[k] {
                    child_of_tag(tags@, type_ids@[k]) as u8
                } else {
                    0u8
                }),
    {
        if !valid[i] {
            out.push(0);
        } else {
            match find_child(tags, type_ids[i]) {
                Some(child) => {
                    if child > 255 {
                        return Err(UnknownUnionTag(type_ids[i]));
                    }
                    out.push(child as u8);
                },
                None => return Err(UnknownUnionTag(type_ids[i])),
            }
        }
    }
    assert(out@ =~= Seq::new(
        type_ids@.len(),
        |i: int|
            if valid@[i] {
                child_of_tag(tags@, type_ids@[i]) as u8
            } else {
                0u8
            },
    ));
    Ok(out)
}

/// The rows of a union array that a tag selects: valid ones that have it.
pub fn union_child_mask(type_ids: &[u8], valid: &[bool], tag: u8) -> (r: Vec<bool>)
    requires
        type_ids@.len() == valid@.len(),
    ensures
        r@ == Seq::new(type_ids@.len(), |i: int| valid@[i] && type_ids@[i] == tag),
{
    let mut out: Vec<bool> = Vec::new();
    for i in 0..type_ids.len()
        invariant
            type_ids@.len() == valid@.len(),
            out@.len() == i,
            forall|k: int| 0 <= k < i ==> out@[k] == (valid@[k] && type_ids@[k] == tag),
    {
        out.push(valid[i] && type_ids[i] == tag);
    }
    assert(out@ =~= Seq::new(type_ids@.len(), |i: int| valid@[i] && type_ids@[i] == tag));
    out
}

/// How a union array is exported.
#[derive(Debug, PartialEq)]
pub struct UnionPlan {
    /// The database's member number of each row.
    pub type_ids: Vec<u8>,
    /// For each child, the rows that it holds.
    pub child_masks: Vec<Vec<bool>>,
}

/// How a union array with `num_children` children is exported: the member numbers of its rows,
/// and for each child that has a tag the rows that select it.
pub fn new_union_exporter(
    type_ids: &[u8],
    valid: &[bool],
    tags: &[u8],
    num_children: usize,
) -> (r: Result<UnionPlan, UnknownUnionTag>)
    requires
        type_ids@.len() == valid@.len(),
    ensures
        r is Ok <==> forall|i: int|
            0 <= i < type_ids@.len() ==> row_maps(tags@, valid@[i], #[trigger] type_ids@[i]),
        r matches Err(UnknownUnionTag(tag)) ==> exists|i: int|
            #![trigger type_ids@[i]]
            0 <= i < type_ids@.len() && type_ids@[i] == tag && !row_maps(
                tags@,
                valid@[i],
                type_ids@[i],
            ) && (forall|k: int|
                0 <= k < i ==> row_maps(tags@, valid@[k], #[trigger] type_ids@[k])),
        r matches Ok(plan) ==> {
            &&& plan.type_ids@ == Seq::new(
                type_ids@.len(),
                |i: int|
                    if valid@[i] {
                        child_of_tag(tags@, type_ids@[i]) as u8
                    } else {
                        0u8
                    },
            )
            &&& plan.child_masks@.len() == (if num_children < tags@.len() {
                num_children as nat
            } else {
                tags@.len()
            })
            &&& forall|c: int|
                0 <= c < plan.child_masks@.len() ==> (#[trigger] plan.child_masks@[c])@ == Seq::new(
                    type_ids@.len(),
                    |i: int| valid@[i] && type_ids@[i] == tags@[c],
                )
        },
{
    let numbers = match remap_union_tags(type_ids, valid, tags) {
        Ok(numbers) => numbers,
        Err(e) => return Err(e),
    };
    let n: usize = if num_children < tags.len() {
        num_children
    } else {
        tags.len()
    };
    let mut child_masks: Vec<Vec<bool>> = Vec::new();
    for c in 0..n
        invariant
            type_ids@.len() == valid@.len(),
            n <= tags@.len(),
            child_masks@.len() == c,
            forall|k: int|
                0 <= k < c ==> (#[trigger] child_masks@[k])@ == Seq::new(
                    type_ids@.len(),
                    |i: int| valid@[i] && type_ids@[i] == tags@[k],
                ),
    {
        child_masks.push(union_child_mask(type_ids, valid, tags[c]));
    }
    Ok(UnionPlan { type_ids: numbers, child_masks })
}

/// A valid row is selected in exactly the child that its member number names, where no two
/// children have the same tag.
pub proof fn law_union_member_is_selected_child(tags: Seq<u8>, tag: u8, child: int)
    requires
        tags.no_duplicates(),
        0 <= child < tags.len(),
    ensures
        child_of_tag(tags, tag) == child <==> tags[child] == tag,
    decreases tags.len(),
{
    if tags[0] == tag {
        if tags[child] == tag {
            assert(child == 0);
        }
    } else if child > 0 {
        assert(tags.skip(1).no_duplicates());
        law_union_member_is_selected_child(tags.skip(1), tag, child - 1);
    }
}

/// Something that fills database vectors batch by batch.
pub trait ColumnExporter {
    /// The number of rows that the next batch from `offset` best has, out of `max_len`.
    closed spec fn batch_len(&self, offset: usize, max_len: usize) -> usize {
        arbitrary()
    }

    /// The number of rows that the next batch from `offset` best has, out of `max_len`.
    fn preferred_batch_len(&self, offset: usize, max_len: usize) -> (r: usize)
        ensures
            r == self.batch_len(offset, max_len),
    ;
}

/// The exporter of a union: one for its member numbers and one for each child.
pub struct UnionExporter<E: ColumnExporter> {
    pub type_ids: E,
    pub children: Vec<E>,
}

/// What the first `n` children in turn leave of a batch of `len` rows.
pub open spec fn narrowed<E: ColumnExporter>(
    children: Seq<E>,
    offset: usize,
    len: usize,
    n: nat,
) -> usize
    decreases n,
{
    if n == 0 {
        len
    } else {
        children[n - 1].batch_len(offset, narrowed(children, offset, len, (n - 1) as nat))
    }
}

impl<E: ColumnExporter> ColumnExporter for UnionExporter<E> {
    open spec fn batch_len(&self, offset: usize, max_len: usize) -> usize {
        narrowed(
            self.children@,
            offset,
            self.type_ids.batch_len(offset, max_len),
            self.children@.len(),
        )
    }

    fn preferred_batch_len(&self, offset: usize, max_len: usize) -> (r: usize) {
        let first: usize = self.type_ids.preferred_batch_len(offset, max_len);
        let mut len: usize = first;
        for i in 0..self.children.len()
            invariant
                len == narrowed(self.children@, offset, first, i as nat),
        {
            len = self.children[i].preferred_batch_len(offset, len);
        }
        len
    }
}

/// Temporal types and UUIDs are exported as such whatever their id; any other extension by its id
/// if that is one of the database's own.
pub proof fn law_extensions_are_exported_by_id(known: KnownExtension, id: Seq<char>)
    ensures
        exporter_kind(KnownExtension::Temporal, id) == Some(ExporterKind::Temporal),
        exporter_kind(KnownExtension::Uuid, id) == Some(ExporterKind::Uuid),
        known != KnownExtension::Temporal && known != KnownExtension::Uuid ==> {
            &&& exporter_kind(known, "vortex.hugeint"@) == Some(
                ExporterKind::HugeInt { signed: true },
            )
            &&& exporter_kind(known, "vortex.uhugeint"@) == Some(
                ExporterKind::HugeInt { signed: false },
            )
            &&& exporter_kind(known, "vortex.interval"@) == Some(ExporterKind::Interval)
            &&& exporter_kind(known, "vortex.enum"@) == Some(ExporterKind::Primitive)
            &&& exporter_kind(known, "vortex.duckdb.time_tz"@) == Some(ExporterKind::Primitive)
            &&& exporter_kind(known, "vortex.bit"@) == Some(ExporterKind::VarBinView)
            &&& exporter_kind(known, "vortex.bignum"@) == Some(ExporterKind::VarBinView)
            &&& exporter_kind(known, "vortex.duckdb.variant"@) == Some(ExporterKind::Struct)
        },
{
    law_ids_identify_extensions(DuckExtKind::HugeInt);
    law_ids_identify_extensions(DuckExtKind::UHugeInt);
    law_ids_identify_extensions(DuckExtKind::Interval);
    law_ids_identify_extensions(DuckExtKind::Enum);
    law_ids_identify_extensions(DuckExtKind::TimeTz);
    law_ids_identify_extensions(DuckExtKind::Bit);
    law_ids_identify_extensions(DuckExtKind::Bignum);
    law_ids_identify_extensions(DuckExtKind::Variant);
}

/// An extension that has none of the database's own ids is exported as the geometry that it is,
/// and not at all if it is none.
pub proof fn law_other_extensions_are_geometries(known: KnownExtension, id: Seq<char>)
    requires
        id != "vortex.hugeint"@,
        id != "vortex.uhugeint"@,
        id != "vortex.interval"@,
        id != "vortex.enum"@,
        id != "vortex.duckdb.time_tz"@,
        id != "vortex.bit"@,
        id != "vortex.bignum"@,
        id != "vortex.duckdb.variant"@,
    ensures
        exporter_kind(KnownExtension::WellKnownBinary, id) == Some(ExporterKind::WellKnownBinary),
        exporter_kind(KnownExtension::Point, id) == Some(ExporterKind::Point),
        exporter_kind(KnownExtension::LineString, id) == Some(ExporterKind::LineString),
        exporter_kind(KnownExtension::MultiPoint, id) == Some(ExporterKind::MultiPoint),
        exporter_kind(KnownExtension::Polygon, id) == Some(ExporterKind::Polygon),
        exporter_kind(KnownExtension::MultiLineString, id) == Some(ExporterKind::MultiLineString),
        exporter_kind(KnownExtension::MultiPolygon, id) == Some(ExporterKind::MultiPolygon),
        exporter_kind(KnownExtension::Other, id) is None,
{
}

/// A tag selects the first child that has it, and no child if none has.
pub proof fn law_tag_selects_the_first_child(tags: Seq<u8>, tag: u8, child: int)
    ensures
        0 <= child < tags.len() && tags[child] == tag && (forall|k: int|
            0 <= k < child ==> tags[k] != tag) ==> child_of_tag(tags, tag) == child,
        (forall|k: int| 0 <= k < tags.len() ==> tags[k] != tag) <==> child_of_tag(tags, tag)
            == tags.len(),
        child_of_tag(tags, tag) <= tags.len(),
    decreases tags.len(),
{
    if tags.len() > 0 && tags[0] != tag {
        law_tag_selects_the_first_child(tags.skip(1), tag, child - 1);
        assert(forall|k: int| 0 <= k < tags.len() - 1 ==> tags.skip(1)[k] == tags[k + 1]);
        if forall|k: int| 0 <= k < tags.len() - 1 ==> tags.skip(1)[k] != tag {
            assert forall|k: int| 0 <= k < tags.len() implies tags[k] != tag by {
                if k > 0 {
                    assert(tags.skip(1)[k - 1] != tag);
                }
            }
        }
    }
}

/// A row maps if it is null or if a child has its tag.
pub proof fn law_rows_map_to_known_tags(tags: Seq<u8>, valid: bool, tag: u8)
    requires
        tags.len() <= 256,
    ensures
        row_maps(tags, valid, tag) <==> !valid || tags.contains(tag),
{
    law_tag_selects_the_first_child(tags, tag, 0);
    if tags.contains(tag) {
        let k = choose|k: int| 0 <= k < tags.len() && tags[k] == tag;
        assert(tags[k] == tag);
    }
}

/// Each child in turn is asked for the batch that those before it leave.
pub proof fn law_children_narrow_in_turn<E: ColumnExporter>(
    children: Seq<E>,
    child: E,
    offset: usize,
    len: usize,
)
    ensures
        narrowed(Seq::<E>::empty(), offset, len, 0) == len,
        narrowed(children.push(child), offset, len, children.len() + 1) == child.batch_len(
            offset,
            narrowed(children, offset, len, children.len()),
        ),
{
    lemma_narrowed_prefix(children, child, offset, len, children.len());
}

proof fn lemma_narrowed_prefix<E: ColumnExporter>(
    children: Seq<E>,
    child: E,
    offset: usize,
    len: usize,
    n: nat,
)
    requires
        n <= children.len(),
    ensures
        narrowed(children.push(child), offset, len, n) == narrowed(children, offset, len, n),
    decreases n,
{
    if n > 0 {
        lemma_narrowed_prefix(children, child, offset, len, (n - 1) as nat);
    }
}

/// A batch of a union is first what its member numbers prefer, and then what each child in turn
/// leaves of it.
pub proof fn law_union_batches_start_from_the_member_numbers<E: ColumnExporter>(
    union: UnionExporter<E>,
    offset: usize,
    max_len: usize,
)
    ensures
        union.children@.len() == 0 ==> union.batch_len(offset, max_len) == union.type_ids.batch_len(
            offset,
            max_len,
        ),
        union.batch_len(offset, max_len) == narrowed(
            union.children@,
            offset,
            union.type_ids.batch_len(offset, max_len),
            union.children@.len(),
        ),
{
}

} // verus!
