//! Statistics of arrays: bounds and counts, each known exactly, approximately or not at all.

use vstd::prelude::*;

use crate::dtype::DType;
use crate::dtype::PType;
use crate::order::bytes_less;
use crate::order::lemma_lex_antisymmetric;
use crate::order::lemma_lex_irreflexive;
use crate::order::lemma_lex_total;
use crate::order::lemma_lex_transitive;
use crate::order::lemma_utf8_injective;
use crate::order::lex_lt;
use crate::order::str_less;
use crate::order::str_lt;
use vstd::utf8::encode_utf8;

verus! {

/// A primitive value. Floating-point values are held as their bits.
#[derive(Clone, Copy, Debug, PartialEq, Eq, Structural)]
pub enum PValue {
    U8(u8),
    U16(u16),
    U32(u32),
    U64(u64),
    I8(i8),
    I16(i16),
    I32(i32),
    I64(i64),
    F16(u16),
    F32(u32),
    F64(u64),
}

/// Where a float with these bits stands in the total order of its width, in which negative
/// values come first and `-0` comes before `0`.
pub open spec fn float_key(bits: nat, sign_bit: nat) -> int {
    if bits < sign_bit {
        bits as int
    } else {
        -(bits - sign_bit) - 1
    }
}

impl PValue {
    /// The type of the value.
    pub open spec fn ptype(self) -> PType {
        match self {
            PValue::U8(_) => PType::U8,
            PValue::U16(_) => PType::U16,
            PValue::U32(_) => PType::U32,
            PValue::U64(_) => PType::U64,
            PValue::I8(_) => PType::I8,
            PValue::I16(_) => PType::I16,
            PValue::I32(_) => PType::I32,
            PValue::I64(_) => PType::I64,
            PValue::F16(_) => PType::F16,
            PValue::F32(_) => PType::F32,
            PValue::F64(_) => PType::F64,
        }
    }

    /// The number by which values of one type are ordered.
    pub open spec fn key(self) -> int {
        match self {
            PValue::U8(x) => x as int,
            PValue::U16(x) => x as int,
            PValue::U32(x) => x as int,
            PValue::U64(x) => x as int,
            PValue::I8(x) => x as int,
            PValue::I16(x) => x as int,
            PValue::I32(x) => x as int,
            PValue::I64(x) => x as int,
            PValue::F16(bits) => float_key(bits as nat, 0x8000),
            PValue::F32(bits) => float_key(bits as nat, 0x8000_0000),
            PValue::F64(bits) => float_key(bits as nat, 0x8000_0000_0000_0000),
        }
    }

    fn order_key(&self) -> (r: i128)
        ensures
            r == self.key(),
    {
        match *self {
            PValue::U8(x) => x as i128,
            PValue::U16(x) => x as i128,
            PValue::U32(x) => x as i128,
            PValue::U64(x) => x as i128,
            PValue::I8(x) => x as i128,
            PValue::I16(x) => x as i128,
            PValue::I32(x) => x as i128,
            PValue::I64(x) => x as i128,
            PValue::F16(bits) => if bits < 0x8000 {
                bits as i128
            } else {
                -((bits - 0x8000) as i128) - 1
            },
            PValue::F32(bits) => if bits < 0x8000_0000 {
                bits as i128
            } else {
                -((bits - 0x8000_0000) as i128) - 1
            },
            PValue::F64(bits) => if bits < 0x8000_0000_0000_0000 {
                bits as i128
            } else {
                -((bits - 0x8000_0000_0000_0000) as i128) - 1
            },
        }
    }

    fn type_of(&self) -> (r: PType)
        ensures
            r == self.ptype(),
    {
        match *self {
            PValue::U8(_) => PType::U8,
            PValue::U16(_) => PType::U16,
            PValue::U32(_) => PType::U32,
            PValue::U64(_) => PType::U64,
            PValue::I8(_) => PType::I8,
            PValue::I16(_) => PType::I16,
            PValue::I32(_) => PType::I32,
            PValue::I64(_) => PType::I64,
            PValue::F16(_) => PType::F16,
            PValue::F32(_) => PType::F32,
            PValue::F64(_) => PType::F64,
        }
    }
}

/// A value without its logical type.
#[derive(Debug, PartialEq)]
pub enum ScalarValue {
    Bool(bool),
    Primitive(PValue),
    Decimal(i128),
    Utf8(String),
    Binary(Vec<u8>),
    List(Vec<Option<ScalarValue>>),
}

/// What a [`ScalarValue`] stands for.
#[verifier::ext_equal]
pub enum ScalarModel {
    Bool(bool),
    Primitive(PValue),
    Decimal(i128),
    Utf8(Seq<char>),
    Binary(Seq<u8>),
    List(Seq<Option<ScalarValue>>),
}

impl View for ScalarValue {
    type V = ScalarModel;

    open spec fn view(&self) -> ScalarModel {
        match *self {
            ScalarValue::Bool(b) => ScalarModel::Bool(b),
            ScalarValue::Primitive(p) => ScalarModel::Primitive(p),
            ScalarValue::Decimal(d) => ScalarModel::Decimal(d),
            ScalarValue::Utf8(s) => ScalarModel::Utf8(s@),
            ScalarValue::Binary(b) => ScalarModel::Binary(b@),
            ScalarValue::List(l) => ScalarModel::List(l@),
        }
    }
}

impl ScalarModel {
    /// Whether two values have an order: both of one kind, and no lists.
    pub open spec fn comparable(self, other: ScalarModel) -> bool {
        match (self, other) {
            (ScalarModel::Bool(_), ScalarModel::Bool(_)) => true,
            (ScalarModel::Primitive(a), ScalarModel::Primitive(b)) => a.ptype() == b.ptype(),
            (ScalarModel::Decimal(_), ScalarModel::Decimal(_)) => true,
            (ScalarModel::Utf8(_), ScalarModel::Utf8(_)) => true,
            (ScalarModel::Binary(_), ScalarModel::Binary(_)) => true,
            _ => false,
        }
    }

    /// Whether this value comes before the other, for comparable ones.
    pub open spec fn lt(self, other: ScalarModel) -> bool {
        match (self, other) {
            (ScalarModel::Bool(a), ScalarModel::Bool(b)) => !a && b,
            (ScalarModel::Primitive(a), ScalarModel::Primitive(b)) => a.key() < b.key(),
            (ScalarModel::Decimal(a), ScalarModel::Decimal(b)) => a < b,
            (ScalarModel::Utf8(a), ScalarModel::Utf8(b)) => str_lt(a, b),
            (ScalarModel::Binary(a), ScalarModel::Binary(b)) => lex_lt(a, b),
            _ => false,
        }
    }
}

/// Comparable values are strictly and totally ordered.
pub proof fn lemma_scalar_order(a: ScalarModel, b: ScalarModel)
    requires
        a.comparable(b),
    ensures
        b.comparable(a),
        a.lt(b) || b.lt(a) || a == b,
        !(a.lt(b) && b.lt(a)),
        !a.lt(a),
{
    match (a, b) {
        (ScalarModel::Utf8(x), ScalarModel::Utf8(y)) => {
            lemma_lex_irreflexive(encode_utf8(x));
            lemma_lex_total(encode_utf8(x), encode_utf8(y));
            if encode_utf8(x) == encode_utf8(y) {
                lemma_utf8_injective(x, y);
            }
            if str_lt(x, y) {
                lemma_lex_antisymmetric(encode_utf8(x), encode_utf8(y));
            }
        },
        (ScalarModel::Binary(x), ScalarModel::Binary(y)) => {
            lemma_lex_irreflexive(x);
            lemma_lex_total(x, y);
            if lex_lt(x, y) {
                lemma_lex_antisymmetric(x, y);
            }
        },
        _ => {},
    }
}

pub proof fn lemma_scalar_transitive(a: ScalarModel, b: ScalarModel, c: ScalarModel)
    requires
        a.comparable(b),
        b.comparable(c),
    ensures
        a.comparable(c),
        a.lt(b) && b.lt(c) ==> a.lt(c),
{
    if a.lt(b) && b.lt(c) {
        match (a, b, c) {
            (ScalarModel::Utf8(x), ScalarModel::Utf8(y), ScalarModel::Utf8(z)) => {
                lemma_lex_transitive(encode_utf8(x), encode_utf8(y), encode_utf8(z));
            },
            (ScalarModel::Binary(x), ScalarModel::Binary(y), ScalarModel::Binary(z)) => {
                lemma_lex_transitive(x, y, z);
            },
            _ => {},
        }
    }
}

impl ScalarValue {
    /// Whether the two values have an order.
    pub fn comparable_with(&self, other: &ScalarValue) -> (r: bool)
        ensures
            r == self@.comparable(other@),
    {
        match (self, other) {
            (ScalarValue::Bool(_), ScalarValue::Bool(_)) => true,
            (ScalarValue::Primitive(a), ScalarValue::Primitive(b)) => a.type_of() == b.type_of(),
            (ScalarValue::Decimal(_), ScalarValue::Decimal(_)) => true,
            (ScalarValue::Utf8(_), ScalarValue::Utf8(_)) => true,
            (ScalarValue::Binary(_), ScalarValue::Binary(_)) => true,
            _ => false,
        }
    }

    /// Whether this value comes before the other.
    pub fn less_than(&self, other: &ScalarValue) -> (r: bool)
        ensures
            r == self@.lt(other@),
            match (*self, *other) {
                (ScalarValue::Bool(a), ScalarValue::Bool(b)) => r == (!a && b),
                (ScalarValue::Decimal(a), ScalarValue::Decimal(b)) => r == (a < b),
                (ScalarValue::Utf8(a), ScalarValue::Utf8(b)) => r == lex_lt(
                    encode_utf8(a@),
                    encode_utf8(b@),
                ),
                (ScalarValue::Binary(a), ScalarValue::Binary(b)) => r == lex_lt(a@, b@),
                _ => true,
            },
    {
        match (self, other) {
            (ScalarValue::Bool(a), ScalarValue::Bool(b)) => !*a && *b,
            (ScalarValue::Primitive(a), ScalarValue::Primitive(b)) => a.order_key()
                < b.order_key(),
            (ScalarValue::Decimal(a), ScalarValue::Decimal(b)) => *a < *b,
            (ScalarValue::Utf8(a), ScalarValue::Utf8(b)) => str_less(a.as_str(), b.as_str()),
            (ScalarValue::Binary(a), ScalarValue::Binary(b)) => bytes_less(
                a.as_slice(),
                b.as_slice(),
            ),
            _ => false,
        }
    }
}

/// A value with its logical type.
#[derive(Debug, PartialEq)]
pub struct Scalar {
    pub dtype: DType,
    pub value: ScalarValue,
}

/// How well a statistic is known.
#[derive(Debug, PartialEq)]
pub enum Precision<T> {
    /// The value itself.
    Exact(T),
    /// A bound of the value.
    Inexact(T),
    /// Nothing is known.
    Absent,
}

impl<T> Precision<T> {
    /// The known value or bound.
    pub open spec fn value(self) -> Option<T> {
        match self {
            Precision::Exact(v) => Some(v),
            Precision::Inexact(v) => Some(v),
            Precision::Absent => None,
        }
    }

    /// Whether the value is known exactly.
    pub fn is_exact(&self) -> (r: bool)
        ensures
            r == (self is Exact),
    {
        matches!(self, Precision::Exact(_))
    }
}

impl<T: View> View for Precision<T> {
    type V = Precision<T::V>;

    open spec fn view(&self) -> Precision<T::V> {
        match *self {
            Precision::Exact(v) => Precision::Exact(v@),
            Precision::Inexact(v) => Precision::Inexact(v@),
            Precision::Absent => Precision::Absent,
        }
    }
}

/// The statistics kinds that bound the values of an array.
#[derive(Clone, Copy, Debug, PartialEq, Eq, Structural)]
pub enum BoundKind {
    Min,
    Max,
}

/// The bound of two arrays together, from the bounds of each. A bound that is missing on one
/// side, or that cannot be compared, leaves the union without one.
pub open spec fn union_bound(
    kind: BoundKind,
    a: Precision<ScalarModel>,
    b: Precision<ScalarModel>,
) -> Precision<ScalarModel> {
    match (a.value(), b.value()) {
        (Some(x), Some(y)) => if !x.comparable(y) {
            Precision::Absent
        } else if outer(kind, x, y) {
            a
        } else if outer(kind, y, x) {
            b
        } else if a is Exact || b is Exact {
            Precision::Exact(x)
        } else {
            Precision::Inexact(x)
        },
        _ => Precision::Absent,
    }
}

/// Whether `x` is strictly further out than `y`: below it for a minimum, above for a maximum.
pub open spec fn outer(kind: BoundKind, x: ScalarModel, y: ScalarModel) -> bool {
    match kind {
        BoundKind::Min => x.lt(y),
        BoundKind::Max => y.lt(x),
    }
}

/// The count over two arrays together.
pub open spec fn sum_counts(a: Precision<int>, b: Precision<int>) -> Precision<int> {
    match (a, b) {
        (Precision::Exact(x), Precision::Exact(y)) => Precision::Exact(x + y),
        (Precision::Absent, _) => Precision::Absent,
        (_, Precision::Absent) => Precision::Absent,
        _ => Precision::Inexact(a.value()->Some_0 + b.value()->Some_0),
    }
}

/// A count as a mathematical number.
pub open spec fn count_model(c: Precision<u64>) -> Precision<int> {
    match c {
        Precision::Exact(x) => Precision::Exact(x as int),
        Precision::Inexact(x) => Precision::Inexact(x as int),
        Precision::Absent => Precision::Absent,
    }
}

/// Whether a count can be held.
pub open spec fn count_fits(c: Precision<int>) -> bool {
    c.value() matches Some(x) ==> x <= u64::MAX
}

/// Statistics of an array.
#[derive(Debug, PartialEq)]
pub struct StatsSet {
    pub min: Precision<ScalarValue>,
    pub max: Precision<ScalarValue>,
    pub null_count: Precision<u64>,
    pub nan_count: Precision<u64>,
}

/// What a [`StatsSet`] stands for.
pub struct StatsModel {
    pub min: Precision<ScalarModel>,
    pub max: Precision<ScalarModel>,
    pub null_count: Precision<int>,
    pub nan_count: Precision<int>,
}

impl View for StatsSet {
    type V = StatsModel;

    open spec fn view(&self) -> StatsModel {
        StatsModel {
            min: self.min@,
            max: self.max@,
            null_count: count_model(self.null_count),
            nan_count: count_model(self.nan_count),
        }
    }
}

impl StatsModel {
    /// The statistics of two disjoint arrays together: the outer bounds and the sums.
    pub open spec fn union(self, other: StatsModel) -> StatsModel {
        StatsModel {
            min: union_bound(BoundKind::Min, self.min, other.min),
            max: union_bound(BoundKind::Max, self.max, other.max),
            null_count: sum_counts(self.null_count, other.null_count),
            nan_count: sum_counts(self.nan_count, other.nan_count),
        }
    }

    /// Whether the counts can be held.
    pub open spec fn fits(self) -> bool {
        count_fits(self.null_count) && count_fits(self.nan_count)
    }
}

fn merge_bound(kind: BoundKind, a: Precision<ScalarValue>, b: Precision<ScalarValue>) -> (r:
    Precision<ScalarValue>)
    ensures
        r@ == union_bound(kind, a@, b@),
{
    let a_exact = a.is_exact();
    let b_exact = b.is_exact();
    let x = match a {
        Precision::Exact(x) => x,
        Precision::Inexact(x) => x,
        Precision::Absent => return Precision::Absent,
    };
    let y = match b {
        Precision::Exact(y) => y,
        Precision::Inexact(y) => y,
        Precision::Absent => return Precision::Absent,
    };
    if !x.comparable_with(&y) {
        return Precision::Absent;
    }
    let (x_outer, y_outer) = match kind {
        BoundKind::Min => (x.less_than(&y), y.less_than(&x)),
        BoundKind::Max => (y.less_than(&x), x.less_than(&y)),
    };
    let (value, exact) = if x_outer {
        (x, a_exact)
    } else if y_outer {
        (y, b_exact)
    } else {
        (x, a_exact || b_exact)
    };
    if exact {
        Precision::Exact(value)
    } else {
        Precision::Inexact(value)
    }
}

fn merge_counts(a: Precision<u64>, b: Precision<u64>) -> (r: Precision<u64>)
    requires
        count_fits(sum_counts(count_model(a), count_model(b))),
    ensures
        count_model(r) == sum_counts(count_model(a), count_model(b)),
{
    match (a, b) {
        (Precision::Exact(x), Precision::Exact(y)) => Precision::Exact(x + y),
        (Precision::Exact(x), Precision::Inexact(y)) => Precision::Inexact(x + y),
        (Precision::Inexact(x), Precision::Exact(y)) => Precision::Inexact(x + y),
        (Precision::Inexact(x), Precision::Inexact(y)) => Precision::Inexact(x + y),
        _ => Precision::Absent,
    }
}

impl StatsSet {
    /// The statistics of two disjoint arrays together, whichever comes first.
    pub fn merge_unordered(self, other: StatsSet) -> (r: StatsSet)
        requires
            self@.union(other@).fits(),
        ensures
            r@ == self@.union(other@),
            r.min@ == union_bound(BoundKind::Min, self.min@, other.min@),
            r.max@ == union_bound(BoundKind::Max, self.max@, other.max@),
            forall|x: u64, y: u64|
                self.null_count == Precision::Exact(x) && other.null_count == Precision::Exact(y)
                    ==> (r.null_count matches Precision::Exact(n) && n == x + y),
            forall|x: u64, y: u64|
                self.nan_count == Precision::Exact(x) && other.nan_count == Precision::Exact(y)
                    ==> (r.nan_count matches Precision::Exact(n) && n == x + y),
            r.null_count is Exact <==> self.null_count is Exact && other.null_count is Exact,
            r.nan_count is Exact <==> self.nan_count is Exact && other.nan_count is Exact,
            self.null_count is Absent || other.null_count is Absent <==> r.null_count is Absent,
            self.nan_count is Absent || other.nan_count is Absent <==> r.nan_count is Absent,
    {
        StatsSet {
            min: merge_bound(BoundKind::Min, self.min, other.min),
            max: merge_bound(BoundKind::Max, self.max, other.max),
            null_count: merge_counts(self.null_count, other.null_count),
            nan_count: merge_counts(self.nan_count, other.nan_count),
        }
    }
}

proof fn lemma_union_bound_commutes(
    kind: BoundKind,
    a: Precision<ScalarModel>,
    b: Precision<ScalarModel>,
)
    ensures
        union_bound(kind, a, b) == union_bound(kind, b, a),
{
    if let (Some(x), Some(y)) = (a.value(), b.value()) {
        if x.comparable(y) {
            lemma_scalar_order(x, y);
        }
        if y.comparable(x) {
            lemma_scalar_order(y, x);
        }
    }
}

proof fn lemma_union_bound_associates(
    kind: BoundKind,
    a: Precision<ScalarModel>,
    b: Precision<ScalarModel>,
    c: Precision<ScalarModel>,
)
    ensures
        union_bound(kind, union_bound(kind, a, b), c) == union_bound(
            kind,
            a,
            union_bound(kind, b, c),
        ),
{
    if let (Some(x), Some(y), Some(z)) = (a.value(), b.value(), c.value()) {
        if x.comparable(y) && y.comparable(z) {
            lemma_scalar_order(x, y);
            lemma_scalar_order(y, z);
            lemma_scalar_transitive(x, y, z);
            lemma_scalar_transitive(z, y, x);
            lemma_scalar_transitive(y, x, z);
            lemma_scalar_transitive(x, z, y);
            lemma_scalar_transitive(z, x, y);
            lemma_scalar_transitive(y, z, x);
            lemma_scalar_order(x, z);
        }
    }
}

/// Merging statistics gives the same in either order.
pub proof fn law_union_commutes(a: StatsModel, b: StatsModel)
    ensures
        a.union(b) == b.union(a),
{
    lemma_union_bound_commutes(BoundKind::Min, a.min, b.min);
    lemma_union_bound_commutes(BoundKind::Max, a.max, b.max);
}

/// Merging statistics gives the same however the arrays are grouped.
pub proof fn law_union_associates(a: StatsModel, b: StatsModel, c: StatsModel)
    ensures
        a.union(b).union(c) == a.union(b.union(c)),
{
    lemma_union_bound_associates(BoundKind::Min, a.min, b.min, c.min);
    lemma_union_bound_associates(BoundKind::Max, a.max, b.max, c.max);
}

/// Of two string bounds, the merged minimum is the one whose UTF-8 bytes come first and the merged
/// maximum the other; byte strings likewise. Each keeps how well it was known.
pub proof fn law_text_bounds_merge_by_bytes(
    a: Precision<ScalarModel>,
    b: Precision<ScalarModel>,
    x: ScalarModel,
    y: ScalarModel,
)
    requires
        a == Precision::Exact(x) || a == Precision::Inexact(x),
        b == Precision::Exact(y) || b == Precision::Inexact(y),
        match (x, y) {
            (ScalarModel::Utf8(p), ScalarModel::Utf8(q)) => lex_lt(encode_utf8(p), encode_utf8(q)),
            (ScalarModel::Binary(p), ScalarModel::Binary(q)) => lex_lt(p, q),
            _ => false,
        },
    ensures
        union_bound(BoundKind::Min, a, b) == a,
        union_bound(BoundKind::Min, b, a) == a,
        union_bound(BoundKind::Max, a, b) == b,
        union_bound(BoundKind::Max, b, a) == b,
{
    lemma_scalar_order(x, y);
}

/// Of two bounds that are integers of one type, decimals or booleans, the merged minimum is the
/// lesser number and the merged maximum the greater, with `false` below `true`.
pub proof fn law_number_bounds_merge_by_value(
    a: Precision<ScalarModel>,
    b: Precision<ScalarModel>,
    x: ScalarModel,
    y: ScalarModel,
)
    requires
        a == Precision::Exact(x) || a == Precision::Inexact(x),
        b == Precision::Exact(y) || b == Precision::Inexact(y),
        match (x, y) {
            (ScalarModel::Bool(p), ScalarModel::Bool(q)) => !p && q,
            (ScalarModel::Decimal(p), ScalarModel::Decimal(q)) => p < q,
            (
                ScalarModel::Primitive(PValue::U8(p)),
                ScalarModel::Primitive(PValue::U8(q)),
            ) => p < q,
            (
                ScalarModel::Primitive(PValue::U16(p)),
                ScalarModel::Primitive(PValue::U16(q)),
            ) => p < q,
            (
                ScalarModel::Primitive(PValue::U32(p)),
                ScalarModel::Primitive(PValue::U32(q)),
            ) => p < q,
            (
                ScalarModel::Primitive(PValue::U64(p)),
                ScalarModel::Primitive(PValue::U64(q)),
            ) => p < q,
            (
                ScalarModel::Primitive(PValue::I8(p)),
                ScalarModel::Primitive(PValue::I8(q)),
            ) => p < q,
            (
                ScalarModel::Primitive(PValue::I16(p)),
                ScalarModel::Primitive(PValue::I16(q)),
            ) => p < q,
            (
                ScalarModel::Primitive(PValue::I32(p)),
                ScalarModel::Primitive(PValue::I32(q)),
            ) => p < q,
            (
                ScalarModel::Primitive(PValue::I64(p)),
                ScalarModel::Primitive(PValue::I64(q)),
            ) => p < q,
            _ => false,
        },
    ensures
        union_bound(BoundKind::Min, a, b) == a,
        union_bound(BoundKind::Min, b, a) == a,
        union_bound(BoundKind::Max, a, b) == b,
        union_bound(BoundKind::Max, b, a) == b,
{
    lemma_scalar_order(x, y);
}

/// Of two float bounds of one width, given by their bits, a negative one is below one that is not;
/// of two negative ones the one with the greater bits is below, of two others the one with the
/// lesser. The merged minimum is the lower of the two, the merged maximum the upper.
pub proof fn law_float_bounds_merge_by_total_order(
    a: Precision<ScalarModel>,
    b: Precision<ScalarModel>,
    x: ScalarModel,
    y: ScalarModel,
)
    requires
        a == Precision::Exact(x) || a == Precision::Inexact(x),
        b == Precision::Exact(y) || b == Precision::Inexact(y),
        match (x, y) {
            (
                ScalarModel::Primitive(PValue::F16(p)),
                ScalarModel::Primitive(PValue::F16(q)),
            ) => (p < 0x8000 && q < 0x8000 && p < q) || (p >= 0x8000 && q < 0x8000) || (p >= 0x8000 && q >= 0x8000
                && p > q),
            (
                ScalarModel::Primitive(PValue::F32(p)),
                ScalarModel::Primitive(PValue::F32(q)),
            ) => (p < 0x8000_0000 && q < 0x8000_0000 && p < q) || (p >= 0x8000_0000 && q < 0x8000_0000) || (p >= 0x8000_0000 && q >= 0x8000_0000
                && p > q),
            (
                ScalarModel::Primitive(PValue::F64(p)),
                ScalarModel::Primitive(PValue::F64(q)),
            ) => (p < 0x8000_0000_0000_0000 && q < 0x8000_0000_0000_0000 && p < q) || (p >= 0x8000_0000_0000_0000 && q < 0x8000_0000_0000_0000) || (p >= 0x8000_0000_0000_0000 && q >= 0x8000_0000_0000_0000
                && p > q),
            _ => false,
        },
    ensures
        union_bound(BoundKind::Min, a, b) == a,
        union_bound(BoundKind::Min, b, a) == a,
        union_bound(BoundKind::Max, a, b) == b,
        union_bound(BoundKind::Max, b, a) == b,
{
    lemma_scalar_order(x, y);
}

/// Two bounds that agree on a value merge to it, exactly where either side is exact.
pub proof fn law_equal_bounds_merge_to_the_value(
    kind: BoundKind,
    a: Precision<ScalarModel>,
    b: Precision<ScalarModel>,
    x: ScalarModel,
)
    requires
        a == Precision::Exact(x) || a == Precision::Inexact(x),
        b == Precision::Exact(x) || b == Precision::Inexact(x),
        !(x is List),
    ensures
        a is Exact || b is Exact ==> union_bound(kind, a, b) == Precision::Exact(x),
        a is Inexact && b is Inexact ==> union_bound(kind, a, b) == Precision::Inexact(x),
{
    lemma_scalar_order(x, x);
}

/// A bound that is missing on one side, that is a list, or that is of another type than the other
/// side's leaves the union without one.
pub proof fn law_unmatched_bounds_merge_to_nothing(
    kind: BoundKind,
    a: Precision<ScalarModel>,
    b: Precision<ScalarModel>,
    x: ScalarModel,
)
    requires
        a is Absent || a == Precision::Exact(x) || a == Precision::Inexact(x),
    ensures
        a is Absent ==> union_bound(kind, a, b) is Absent && union_bound(kind, b, a) is Absent,
        !(a is Absent) && x is List ==> union_bound(kind, a, b) is Absent && union_bound(
            kind,
            b,
            a,
        ) is Absent,
        forall|y: ScalarModel|
            (b == Precision::Exact(y) || b == Precision::Inexact(y)) && !(a is Absent) && ((x is Bool
                && !(y is Bool)) || (x is Primitive && !(y is Primitive)) || (x is Decimal
                && !(y is Decimal)) || (x is Utf8 && !(y is Utf8)) || (x is Binary && !(
            y is Binary))) ==> union_bound(kind, a, b) is Absent,
{
}

/// The merged bound is the bound of one of the two sides, and neither side reaches beyond it.
pub proof fn law_merged_bound_is_outermost(
    a: Precision<ScalarModel>,
    b: Precision<ScalarModel>,
    x: ScalarModel,
    y: ScalarModel,
)
    requires
        a == Precision::Exact(x) || a == Precision::Inexact(x),
        b == Precision::Exact(y) || b == Precision::Inexact(y),
        x.comparable(y),
    ensures
        union_bound(BoundKind::Min, a, b).value() == Some(x) || union_bound(
            BoundKind::Min,
            a,
            b,
        ).value() == Some(y),
        union_bound(BoundKind::Max, a, b).value() == Some(x) || union_bound(
            BoundKind::Max,
            a,
            b,
        ).value() == Some(y),
        forall|m: ScalarModel|
            union_bound(BoundKind::Min, a, b).value() == Some(m) ==> !x.lt(m) && !y.lt(m),
        forall|m: ScalarModel|
            union_bound(BoundKind::Max, a, b).value() == Some(m) ==> !m.lt(x) && !m.lt(y),
{
    lemma_scalar_order(x, y);
    lemma_scalar_order(x, x);
    lemma_scalar_order(y, y);
}

/// Merged counts add up: exactly where both are exact, approximately where one is not, and to
/// nothing where one is unknown.
pub proof fn law_union_adds_counts(a: StatsModel, b: StatsModel, x: int, y: int)
    ensures
        a.null_count == Precision::Exact(x) && b.null_count == Precision::Exact(y) ==> a.union(
            b,
        ).null_count == Precision::Exact(x + y),
        a.nan_count == Precision::Exact(x) && b.nan_count == Precision::Exact(y) ==> a.union(
            b,
        ).nan_count == Precision::Exact(x + y),
        a.null_count == Precision::Inexact(x) && (b.null_count == Precision::Exact(y)
            || b.null_count == Precision::Inexact(y)) ==> a.union(b).null_count
            == Precision::Inexact(x + y) && b.union(a).null_count == Precision::Inexact(x + y),
        a.nan_count == Precision::Inexact(x) && (b.nan_count == Precision::Exact(y) || b.nan_count
            == Precision::Inexact(y)) ==> a.union(b).nan_count == Precision::Inexact(x + y)
            && b.union(a).nan_count == Precision::Inexact(x + y),
        a.null_count is Absent ==> a.union(b).null_count is Absent && b.union(a).null_count is Absent,
        a.nan_count is Absent ==> a.union(b).nan_count is Absent && b.union(a).nan_count is Absent,
{
}

/// The minimum of a union comes from the two minima alone and the maximum from the two maxima.
pub proof fn law_union_merges_each_bound(a: StatsModel, b: StatsModel)
    ensures
        a.union(b).min == union_bound(BoundKind::Min, a.min, b.min),
        a.union(b).max == union_bound(BoundKind::Max, a.max, b.max),
{
}

/// Primitive bounds of two different types leave the union without one.
pub proof fn law_primitive_bounds_of_two_types_merge_to_nothing(
    kind: BoundKind,
    a: Precision<ScalarModel>,
    b: Precision<ScalarModel>,
    p: PValue,
    q: PValue,
)
    requires
        a == Precision::Exact(ScalarModel::Primitive(p)) || a == Precision::Inexact(
            ScalarModel::Primitive(p),
        ),
        b == Precision::Exact(ScalarModel::Primitive(q)) || b == Precision::Inexact(
            ScalarModel::Primitive(q),
        ),
        !(p is U8 && q is U8)
            && !(p is U16 && q is U16)
            && !(p is U32 && q is U32)
            && !(p is U64 && q is U64)
            && !(p is I8 && q is I8)
            && !(p is I16 && q is I16)
            && !(p is I32 && q is I32)
            && !(p is I64 && q is I64)
            && !(p is F16 && q is F16)
            && !(p is F32 && q is F32)
            && !(p is F64 && q is F64),
    ensures
        union_bound(kind, a, b) is Absent,
{
}

/// Values within the bounds of one side are within the merged bounds: nothing that is not below
/// one side's minimum is below the merged one, and nothing that is not above one side's maximum
/// is above the merged one.
pub proof fn law_merged_bounds_cover_both_sides(
    a: Precision<ScalarModel>,
    b: Precision<ScalarModel>,
    x: ScalarModel,
    y: ScalarModel,
    v: ScalarModel,
)
    requires
        a == Precision::Exact(x) || a == Precision::Inexact(x),
        b == Precision::Exact(y) || b == Precision::Inexact(y),
        x.comparable(y),
        v.comparable(x),
    ensures
        !v.lt(x) || !v.lt(y) ==> (union_bound(BoundKind::Min, a, b).value() matches Some(m) && !v.lt(
            m,
        )),
        !x.lt(v) || !y.lt(v) ==> (union_bound(BoundKind::Max, a, b).value() matches Some(m) && !m.lt(
            v,
        )),
{
    lemma_scalar_order(x, y);
    lemma_scalar_order(v, x);
    lemma_scalar_transitive(v, x, y);
    lemma_scalar_order(v, y);
    lemma_scalar_transitive(v, y, x);
    lemma_scalar_transitive(x, y, v);
    lemma_scalar_transitive(y, x, v);
}

/// What statistics stand for is as well known as they are, and is the same values.
pub proof fn law_models_keep_precision(stats: StatsSet, x: u64, v: ScalarValue)
    ensures
        stats.min == Precision::Exact(v) ==> stats@.min == Precision::Exact(v@),
        stats.min == Precision::Inexact(v) ==> stats@.min == Precision::Inexact(v@),
        stats.min is Absent ==> stats@.min is Absent,
        stats.max == Precision::Exact(v) ==> stats@.max == Precision::Exact(v@),
        stats.max == Precision::Inexact(v) ==> stats@.max == Precision::Inexact(v@),
        stats.max is Absent ==> stats@.max is Absent,
        stats.null_count == Precision::Exact(x) ==> stats@.null_count == Precision::Exact(x as int),
        stats.null_count == Precision::Inexact(x) ==> stats@.null_count == Precision::Inexact(
            x as int,
        ),
        stats.null_count is Absent ==> stats@.null_count is Absent,
        stats.nan_count == Precision::Exact(x) ==> stats@.nan_count == Precision::Exact(x as int),
        stats.nan_count == Precision::Inexact(x) ==> stats@.nan_count == Precision::Inexact(x as int),
        stats.nan_count is Absent ==> stats@.nan_count is Absent,
{
}

} // verus!
