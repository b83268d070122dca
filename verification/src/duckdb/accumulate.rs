//! Statistics of the leaf columns of nested data, accumulated chunk by chunk.

use std::sync::Arc;

use vstd::prelude::*;

use crate::dtype::DType;
use crate::duckdb::path_key::path_model;
use crate::duckdb::path_key::PathField;
use crate::duckdb::path_key::PathModel;
use crate::duckdb::uuid::law_uuid_union_associates;
use crate::duckdb::uuid::law_uuid_union_commutes;
use crate::duckdb::uuid::UuidModel;
use crate::duckdb::uuid::UuidStats;
use crate::sorted_map::lemma_keys_finite;
use crate::sorted_map::SortedMap;
use crate::stats::law_union_associates;
use crate::stats::law_union_commutes;
use crate::stats::StatsModel;
use crate::stats::StatsSet;

verus! {

/// Something that can be accumulated over disjoint chunks.
pub trait Mergeable: View + Sized {
    /// Whether two values can be joined.
    spec fn joinable(a: Self::V, b: Self::V) -> bool;

    /// What two values together stand for.
    spec fn joined(a: Self::V, b: Self::V) -> Self::V;

    /// Joins two values.
    fn join(self, other: Self) -> (r: Self)
        requires
            Self::joinable(self@, other@),
        ensures
            r@ == Self::joined(self@, other@),
    ;
}

/// Statistics of a leaf column below a top-level column.
pub struct LeafStatsAccum {
    pub path: Vec<PathField>,
    pub dtype: Arc<DType>,
    pub stats: StatsSet,
    pub num_values: u64,
    /// Nulls that enclosing lists contribute: a null or empty list counts as one null leaf value.
    pub extra_nulls: u64,
}

/// What a [`LeafStatsAccum`] stands for.
pub struct LeafModel {
    pub path: Seq<PathModel>,
    pub dtype: DType,
    pub stats: StatsModel,
    pub num_values: int,
    pub extra_nulls: int,
}

impl View for LeafStatsAccum {
    type V = LeafModel;

    open spec fn view(&self) -> LeafModel {
        LeafModel {
            path: path_model(self.path@),
            dtype: *self.dtype,
            stats: self.stats@,
            num_values: self.num_values as int,
            extra_nulls: self.extra_nulls as int,
        }
    }
}

impl Mergeable for LeafStatsAccum {
    open spec fn joinable(a: LeafModel, b: LeafModel) -> bool {
        &&& a.stats.union(b.stats).fits()
        &&& a.num_values + b.num_values <= u64::MAX
        &&& a.extra_nulls + b.extra_nulls <= u64::MAX
    }

    open spec fn joined(a: LeafModel, b: LeafModel) -> LeafModel {
        LeafModel {
            path: a.path,
            dtype: a.dtype,
            stats: a.stats.union(b.stats),
            num_values: a.num_values + b.num_values,
            extra_nulls: a.extra_nulls + b.extra_nulls,
        }
    }

    fn join(self, other: Self) -> (r: Self) {
        LeafStatsAccum {
            path: self.path,
            dtype: self.dtype,
            stats: self.stats.merge_unordered(other.stats),
            num_values: self.num_values + other.num_values,
            extra_nulls: self.extra_nulls + other.extra_nulls,
        }
    }
}

/// Bounds of a top-level string or binary column, not truncated.
pub struct VarlenBounds {
    pub dtype: Arc<DType>,
    pub stats: StatsSet,
}

/// What a [`VarlenBounds`] stands for.
pub struct VarlenModel {
    pub dtype: DType,
    pub stats: StatsModel,
}

impl View for VarlenBounds {
    type V = VarlenModel;

    open spec fn view(&self) -> VarlenModel {
        VarlenModel { dtype: *self.dtype, stats: self.stats@ }
    }
}

impl Mergeable for VarlenBounds {
    open spec fn joinable(a: VarlenModel, b: VarlenModel) -> bool {
        a.stats.union(b.stats).fits()
    }

    open spec fn joined(a: VarlenModel, b: VarlenModel) -> VarlenModel {
        VarlenModel { dtype: a.dtype, stats: a.stats.union(b.stats) }
    }

    fn join(self, other: Self) -> (r: Self) {
        VarlenBounds { dtype: self.dtype, stats: self.stats.merge_unordered(other.stats) }
    }
}

impl Mergeable for UuidStats {
    open spec fn joinable(a: UuidModel, b: UuidModel) -> bool {
        true
    }

    open spec fn joined(a: UuidModel, b: UuidModel) -> UuidModel {
        a.union(b)
    }

    fn join(self, other: Self) -> (r: Self) {
        self.union(other)
    }
}

/// The values of a map, each taken by its view.
pub open spec fn viewed<T: View>(m: Map<Seq<char>, T>) -> Map<Seq<char>, T::V> {
    Map::new(|k: Seq<char>| m.contains_key(k), |k: Seq<char>| m[k]@)
}

/// The value under `key` joined with `value`, or `value` alone if there is none.
pub open spec fn joined_at<T: Mergeable>(
    m: Map<Seq<char>, T::V>,
    key: Seq<char>,
    value: T::V,
) -> T::V {
    if m.contains_key(key) {
        T::joined(m[key], value)
    } else {
        value
    }
}

/// Both maps together, with values under a common key joined.
pub open spec fn joined_maps<T: Mergeable>(
    a: Map<Seq<char>, T::V>,
    b: Map<Seq<char>, T::V>,
) -> Map<Seq<char>, T::V> {
    Map::new(
        |k: Seq<char>| a.contains_key(k) || b.contains_key(k),
        |k: Seq<char>|
            if b.contains_key(k) {
                joined_at::<T>(a, k, b[k])
            } else {
                a[k]
            },
    )
}

/// Whether values under a common key can be joined.
pub open spec fn joinable_maps<T: Mergeable>(
    a: Map<Seq<char>, T::V>,
    b: Map<Seq<char>, T::V>,
) -> bool {
    forall|k: Seq<char>| #[trigger]
        a.contains_key(k) && #[trigger] b.contains_key(k) ==> T::joinable(a[k], b[k])
}

/// Joins `value` to what is under `key`.
pub(crate) fn join_at<T: Mergeable>(ours: &mut SortedMap<T>, key: String, value: T)
    requires
        viewed(old(ours)@).contains_key(key@) ==> T::joinable(viewed(old(ours)@)[key@], value@),
    ensures
        viewed(final(ours)@) == viewed(old(ours)@).insert(
            key@,
            joined_at::<T>(viewed(old(ours)@), key@, value@),
        ),
{
    let ghost before = ours@;
    let combined = match ours.remove(key.as_str()) {
        Some(present) => {
            assert(viewed(before)[key@] == present@);
            present.join(value)
        },
        None => value,
    };
    ours.insert(key, combined);
    assert(viewed(ours@) =~= viewed(before).insert(
        key@,
        joined_at::<T>(viewed(before), key@, value@),
    ));
}

/// Joins all of one map to another.
fn merge_maps<T: Mergeable>(ours: &mut SortedMap<T>, theirs: SortedMap<T>)
    requires
        joinable_maps::<T>(viewed(old(ours)@), viewed(theirs@)),
    ensures
        viewed(final(ours)@) == joined_maps::<T>(viewed(old(ours)@), viewed(theirs@)),
{
    let mut rest = theirs;
    let ghost target = joined_maps::<T>(viewed(ours@), viewed(rest@));
    let mut more = true;
    proof {
        lemma_keys_finite(rest);
    }
    while more
        invariant
            target == joined_maps::<T>(viewed(ours@), viewed(rest@)),
            joinable_maps::<T>(viewed(ours@), viewed(rest@)),
            !more ==> rest@ == Map::<Seq<char>, T>::empty(),
            rest@.dom().finite(),
        decreases rest@.dom().len() + (if more {
            1int
        } else {
            0
        }),
    {
        let ghost ours0 = viewed(ours@);
        let ghost rest0 = viewed(rest@);
        let ghost before = rest@;
        match rest.pop() {
            Some((key, value)) => {
                proof {
                    assert(before.dom().contains(key@));
                    assert(rest0.contains_key(key@) && rest0[key@] == value@);
                    if ours0.contains_key(key@) {
                        assert(T::joinable(ours0[key@], rest0[key@]));
                    }
                    assert(viewed(rest@) =~= rest0.remove(key@));
                }
                join_at(ours, key, value);
                proof {
                    assert(joined_maps::<T>(viewed(ours@), viewed(rest@)) =~= target);
                }
            },
            None => {
                more = false;
            },
        }
    }
    assert(viewed(rest@) =~= Map::<Seq<char>, T::V>::empty());
    assert(joined_maps::<T>(viewed(ours@), viewed(rest@)) =~= viewed(ours@));
}

/// Statistics accumulated on chunks, by the key of the path to the column.
pub struct StatsAccumulators {
    /// Leaf columns below a top-level column.
    pub leaf: SortedMap<LeafStatsAccum>,
    /// Extrema of UUID columns at any depth.
    pub uuid: SortedMap<UuidStats>,
    /// Bounds of top-level string and binary columns.
    pub varlen_bounds: SortedMap<VarlenBounds>,
}

/// What a [`StatsAccumulators`] stands for.
#[verifier::ext_equal]
pub struct AccModel {
    pub leaf: Map<Seq<char>, LeafModel>,
    pub uuid: Map<Seq<char>, UuidModel>,
    pub varlen_bounds: Map<Seq<char>, VarlenModel>,
}

impl View for StatsAccumulators {
    type V = AccModel;

    open spec fn view(&self) -> AccModel {
        AccModel {
            leaf: viewed(self.leaf@),
            uuid: viewed(self.uuid@),
            varlen_bounds: viewed(self.varlen_bounds@),
        }
    }
}

impl AccModel {
    /// Nothing accumulated.
    pub open spec fn empty() -> AccModel {
        AccModel { leaf: Map::empty(), uuid: Map::empty(), varlen_bounds: Map::empty() }
    }

    /// Both together.
    pub open spec fn merged(self, other: AccModel) -> AccModel {
        AccModel {
            leaf: joined_maps::<LeafStatsAccum>(self.leaf, other.leaf),
            uuid: joined_maps::<UuidStats>(self.uuid, other.uuid),
            varlen_bounds: joined_maps::<VarlenBounds>(self.varlen_bounds, other.varlen_bounds),
        }
    }

    /// Whether the counts of both together can be held.
    pub open spec fn mergeable(self, other: AccModel) -> bool {
        &&& joinable_maps::<LeafStatsAccum>(self.leaf, other.leaf)
        &&& joinable_maps::<VarlenBounds>(self.varlen_bounds, other.varlen_bounds)
    }

    /// Whether columns under a common key are the same column: same path and type.
    pub open spec fn same_columns(self, other: AccModel) -> bool {
        &&& forall|k: Seq<char>| #[trigger]
            self.leaf.contains_key(k) && #[trigger] other.leaf.contains_key(k) ==> self.leaf[k].path
                == other.leaf[k].path && self.leaf[k].dtype == other.leaf[k].dtype
        &&& forall|k: Seq<char>| #[trigger]
            self.varlen_bounds.contains_key(k) && #[trigger] other.varlen_bounds.contains_key(k)
                ==> self.varlen_bounds[k].dtype == other.varlen_bounds[k].dtype
    }
}

impl StatsAccumulators {
    /// Nothing accumulated.
    pub fn new() -> (r: Self)
        ensures
            r@ == AccModel::empty(),
            forall|k: Seq<char>|
                !(#[trigger] r.leaf@.contains_key(k)) && !(#[trigger] r.uuid@.contains_key(k)) && !(
                #[trigger] r.varlen_bounds@.contains_key(k)),
    {
        let r = StatsAccumulators {
            leaf: SortedMap::new(),
            uuid: SortedMap::new(),
            varlen_bounds: SortedMap::new(),
        };
        assert(r@ =~= AccModel::empty());
        r
    }

    /// Folds another accumulator, made on other chunks, into this one.
    pub fn merge(&mut self, other: StatsAccumulators)
        requires
            old(self)@.mergeable(other@),
        ensures
            final(self)@ == old(self)@.merged(other@),
    {
        merge_maps(&mut self.leaf, other.leaf);
        merge_maps(&mut self.uuid, other.uuid);
        merge_maps(&mut self.varlen_bounds, other.varlen_bounds);
    }
}

/// Merging gives the same in either order, for accumulators over the same columns.
pub proof fn law_merge_commutes(a: AccModel, b: AccModel)
    requires
        a.same_columns(b),
    ensures
        a.merged(b) == b.merged(a),
{
    assert forall|k: Seq<char>| a.leaf.contains_key(k) && b.leaf.contains_key(k) implies
        LeafStatsAccum::joined(a.leaf[k], b.leaf[k]) == LeafStatsAccum::joined(
        b.leaf[k],
        a.leaf[k],
    ) by {
        law_union_commutes(a.leaf[k].stats, b.leaf[k].stats);
    }
    assert forall|k: Seq<char>| a.uuid.contains_key(k) && b.uuid.contains_key(k) implies
        UuidStats::joined(a.uuid[k], b.uuid[k]) == UuidStats::joined(b.uuid[k], a.uuid[k]) by {
        law_uuid_union_commutes(a.uuid[k], b.uuid[k]);
    }
    assert forall|k: Seq<char>|
        a.varlen_bounds.contains_key(k) && b.varlen_bounds.contains_key(k) implies
        VarlenBounds::joined(a.varlen_bounds[k], b.varlen_bounds[k]) == VarlenBounds::joined(
        b.varlen_bounds[k],
        a.varlen_bounds[k],
    ) by {
        law_union_commutes(a.varlen_bounds[k].stats, b.varlen_bounds[k].stats);
    }
    assert(a.merged(b).leaf =~= b.merged(a).leaf);
    assert(a.merged(b).uuid =~= b.merged(a).uuid);
    assert(a.merged(b).varlen_bounds =~= b.merged(a).varlen_bounds);
}

/// Merging gives the same however the accumulators are grouped.
pub proof fn law_merge_associates(a: AccModel, b: AccModel, c: AccModel)
    ensures
        a.merged(b).merged(c) == a.merged(b.merged(c)),
{
    assert forall|k: Seq<char>|
        a.leaf.contains_key(k) && b.leaf.contains_key(k) && c.leaf.contains_key(k) implies
        LeafStatsAccum::joined(LeafStatsAccum::joined(a.leaf[k], b.leaf[k]), c.leaf[k])
        == LeafStatsAccum::joined(a.leaf[k], LeafStatsAccum::joined(b.leaf[k], c.leaf[k])) by {
        law_union_associates(a.leaf[k].stats, b.leaf[k].stats, c.leaf[k].stats);
    }
    assert forall|k: Seq<char>|
        a.uuid.contains_key(k) && b.uuid.contains_key(k) && c.uuid.contains_key(k) implies
        a.uuid[k].union(b.uuid[k]).union(c.uuid[k]) == a.uuid[k].union(
        b.uuid[k].union(c.uuid[k]),
    ) by {
        law_uuid_union_associates(a.uuid[k], b.uuid[k], c.uuid[k]);
    }
    assert forall|k: Seq<char>|
        a.varlen_bounds.contains_key(k) && b.varlen_bounds.contains_key(k)
            && c.varlen_bounds.contains_key(k) implies VarlenBounds::joined(
        VarlenBounds::joined(a.varlen_bounds[k], b.varlen_bounds[k]),
        c.varlen_bounds[k],
    ) == VarlenBounds::joined(
        a.varlen_bounds[k],
        VarlenBounds::joined(b.varlen_bounds[k], c.varlen_bounds[k]),
    ) by {
        law_union_associates(
            a.varlen_bounds[k].stats,
            b.varlen_bounds[k].stats,
            c.varlen_bounds[k].stats,
        );
    }
    let l = a.merged(b).merged(c);
    let r = a.merged(b.merged(c));
    assert(l.leaf =~= r.leaf);
    assert(l.uuid =~= r.uuid);
    assert(l.varlen_bounds =~= r.varlen_bounds);
}

/// Merging keeps what only one side has under a key and joins what both have: values and
/// contributed nulls add up, statistics are united, and the column stays the same.
pub proof fn law_merge_adds_up_by_key(a: AccModel, b: AccModel, k: Seq<char>)
    ensures
        ({
            let m = a.merged(b);
            &&& m.leaf.contains_key(k) <==> a.leaf.contains_key(k) || b.leaf.contains_key(k)
            &&& a.leaf.contains_key(k) && !b.leaf.contains_key(k) ==> m.leaf[k] == a.leaf[k]
            &&& !a.leaf.contains_key(k) && b.leaf.contains_key(k) ==> m.leaf[k] == b.leaf[k]
            &&& a.leaf.contains_key(k) && b.leaf.contains_key(k) ==> {
                &&& m.leaf[k].num_values == a.leaf[k].num_values + b.leaf[k].num_values
                &&& m.leaf[k].extra_nulls == a.leaf[k].extra_nulls + b.leaf[k].extra_nulls
                &&& m.leaf[k].stats == a.leaf[k].stats.union(b.leaf[k].stats)
                &&& m.leaf[k].path == a.leaf[k].path
                &&& m.leaf[k].dtype == a.leaf[k].dtype
            }
            &&& m.uuid.contains_key(k) <==> a.uuid.contains_key(k) || b.uuid.contains_key(k)
            &&& a.uuid.contains_key(k) && !b.uuid.contains_key(k) ==> m.uuid[k] == a.uuid[k]
            &&& !a.uuid.contains_key(k) && b.uuid.contains_key(k) ==> m.uuid[k] == b.uuid[k]
            &&& a.uuid.contains_key(k) && b.uuid.contains_key(k) ==> m.uuid[k] == a.uuid[k].union(
                b.uuid[k],
            )
            &&& m.varlen_bounds.contains_key(k) <==> a.varlen_bounds.contains_key(k)
                || b.varlen_bounds.contains_key(k)
            &&& a.varlen_bounds.contains_key(k) && !b.varlen_bounds.contains_key(k)
                ==> m.varlen_bounds[k] == a.varlen_bounds[k]
            &&& !a.varlen_bounds.contains_key(k) && b.varlen_bounds.contains_key(k)
                ==> m.varlen_bounds[k] == b.varlen_bounds[k]
            &&& a.varlen_bounds.contains_key(k) && b.varlen_bounds.contains_key(k) ==> {
                &&& m.varlen_bounds[k].stats == a.varlen_bounds[k].stats.union(
                    b.varlen_bounds[k].stats,
                )
                &&& m.varlen_bounds[k].dtype == a.varlen_bounds[k].dtype
            }
        }),
{
}

/// What accumulators stand for has the same keys, and under each the same counts, type and path.
pub proof fn law_accumulators_stand_for_themselves(acc: StatsAccumulators, k: Seq<char>)
    ensures
        acc@.leaf.contains_key(k) <==> acc.leaf@.contains_key(k),
        acc@.uuid.contains_key(k) <==> acc.uuid@.contains_key(k),
        acc@.varlen_bounds.contains_key(k) <==> acc.varlen_bounds@.contains_key(k),
        acc.leaf@.contains_key(k) ==> {
            &&& acc@.leaf[k].path == path_model(acc.leaf@[k].path@)
            &&& acc@.leaf[k].dtype == *acc.leaf@[k].dtype
            &&& acc@.leaf[k].stats == acc.leaf@[k].stats@
            &&& acc@.leaf[k].num_values == acc.leaf@[k].num_values
            &&& acc@.leaf[k].extra_nulls == acc.leaf@[k].extra_nulls
        },
        acc.uuid@.contains_key(k) ==> acc@.uuid[k] == acc.uuid@[k]@,
        acc.varlen_bounds@.contains_key(k) ==> {
            &&& acc@.varlen_bounds[k].dtype == *acc.varlen_bounds@[k].dtype
            &&& acc@.varlen_bounds[k].stats == acc.varlen_bounds@[k].stats@
        },
{
}

} // verus!
