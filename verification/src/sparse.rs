//! Sparse encoding of integers for arrays in which one value dominates.

use vstd::prelude::*;

use crate::dtype::DType;
use crate::dtype::Nullability;
use crate::stats::PValue;
use crate::table::FxTable;

verus! {

/// A value that can be counted: it has a key that no other value of its type has.
pub trait Countable: Copy {
    /// The value's key.
    spec fn key(self) -> (u64, u8);

    /// The value's key.
    fn to_key(self) -> (r: (u64, u8))
        ensures
            r == self.key(),
    ;

    /// Values with the same key are the same.
    proof fn lemma_key_identifies(a: Self, b: Self)
        requires
            a.key() == b.key(),
        ensures
            a == b,
    ;
}

impl Countable for u8 {
    open spec fn key(self) -> (u64, u8) {
        (self as u64, 0u8)
    }

    fn to_key(self) -> (r: (u64, u8)) {
        (self as u64, 0)
    }

    proof fn lemma_key_identifies(a: Self, b: Self) {
    }
}

impl Countable for u16 {
    open spec fn key(self) -> (u64, u8) {
        (self as u64, 1u8)
    }

    fn to_key(self) -> (r: (u64, u8)) {
        (self as u64, 1)
    }

    proof fn lemma_key_identifies(a: Self, b: Self) {
    }
}

impl Countable for u32 {
    open spec fn key(self) -> (u64, u8) {
        (self as u64, 2u8)
    }

    fn to_key(self) -> (r: (u64, u8)) {
        (self as u64, 2)
    }

    proof fn lemma_key_identifies(a: Self, b: Self) {
    }
}

impl Countable for u64 {
    open spec fn key(self) -> (u64, u8) {
        (self as u64, 3u8)
    }

    fn to_key(self) -> (r: (u64, u8)) {
        (self as u64, 3)
    }

    proof fn lemma_key_identifies(a: Self, b: Self) {
    }
}

impl Countable for i8 {
    open spec fn key(self) -> (u64, u8) {
        ((self + 0x8000_0000_0000_0000) as u64, 4u8)
    }

    fn to_key(self) -> (r: (u64, u8)) {
        ((self as i128 + 0x8000_0000_0000_0000) as u64, 4)
    }

    proof fn lemma_key_identifies(a: Self, b: Self) {
    }
}

impl Countable for i16 {
    open spec fn key(self) -> (u64, u8) {
        ((self + 0x8000_0000_0000_0000) as u64, 5u8)
    }

    fn to_key(self) -> (r: (u64, u8)) {
        ((self as i128 + 0x8000_0000_0000_0000) as u64, 5)
    }

    proof fn lemma_key_identifies(a: Self, b: Self) {
    }
}

impl Countable for i32 {
    open spec fn key(self) -> (u64, u8) {
        ((self + 0x8000_0000_0000_0000) as u64, 6u8)
    }

    fn to_key(self) -> (r: (u64, u8)) {
        ((self as i128 + 0x8000_0000_0000_0000) as u64, 6)
    }

    proof fn lemma_key_identifies(a: Self, b: Self) {
    }
}

impl Countable for i64 {
    open spec fn key(self) -> (u64, u8) {
        ((self + 0x8000_0000_0000_0000) as u64, 7u8)
    }

    fn to_key(self) -> (r: (u64, u8)) {
        ((self as i128 + 0x8000_0000_0000_0000) as u64, 7)
    }

    proof fn lemma_key_identifies(a: Self, b: Self) {
    }
}

impl Countable for PValue {
    open spec fn key(self) -> (u64, u8) {
        match self {
            PValue::U8(x) => x.key(),
            PValue::U16(x) => x.key(),
            PValue::U32(x) => x.key(),
            PValue::U64(x) => x.key(),
            PValue::I8(x) => x.key(),
            PValue::I16(x) => x.key(),
            PValue::I32(x) => x.key(),
            PValue::I64(x) => x.key(),
            PValue::F16(bits) => (bits as u64, 8u8),
            PValue::F32(bits) => (bits as u64, 9u8),
            PValue::F64(bits) => (bits, 10u8),
        }
    }

    fn to_key(self) -> (r: (u64, u8)) {
        match self {
            PValue::U8(x) => x.to_key(),
            PValue::U16(x) => x.to_key(),
            PValue::U32(x) => x.to_key(),
            PValue::U64(x) => x.to_key(),
            PValue::I8(x) => x.to_key(),
            PValue::I16(x) => x.to_key(),
            PValue::I32(x) => x.to_key(),
            PValue::I64(x) => x.to_key(),
            PValue::F16(bits) => (bits as u64, 8),
            PValue::F32(bits) => (bits as u64, 9),
            PValue::F64(bits) => (bits, 10),
        }
    }

    proof fn lemma_key_identifies(a: Self, b: Self) {
    }
}

/// The number of times that `value` occurs in `values`.
pub open spec fn occurrences<T>(values: Seq<T>, value: T) -> nat
    decreases values.len(),
{
    if values.len() == 0 {
        0
    } else {
        occurrences(values.drop_last(), value) + (if values.last() == value {
            1nat
        } else {
            0
        })
    }
}

/// Whether more than half of `values` are `value`.
pub open spec fn is_majority<T>(values: Seq<T>, value: T) -> bool {
    2 * occurrences(values, value) > values.len()
}

/// Whether some value is more than half of `values`.
pub open spec fn has_majority<T>(values: Seq<T>) -> bool {
    exists|value: T| #[trigger] is_majority(values, value)
}

/// Whether `r` is the majority of `values` with its count: nothing if there is no majority, or
/// if the count does not fit.
pub open spec fn is_majority_result<T>(values: Seq<T>, r: Option<(T, u32)>) -> bool {
    match r {
        Some((value, count)) => is_majority(values, value) && count == occurrences(values, value),
        None => forall|value: T| #[trigger]
            is_majority(values, value) ==> occurrences(values, value) > u32::MAX,
    }
}

/// Whether `r` is a most frequent value of `values` with its count: nothing if there are no
/// values, or if a majority's count does not fit.
pub open spec fn is_mode_result<T>(values: Seq<T>, r: Option<(T, u32)>) -> bool {
    match r {
        Some((value, count)) => {
            &&& count == occurrences(values, value)
            &&& count > 0
            &&& forall|other: T| #[trigger] occurrences(values, other) <= count
        },
        None => values.len() == 0 || exists|value: T| #[trigger]
            is_majority(values, value) && occurrences(values, value) > u32::MAX,
    }
}

/// No value occurs more often than there are values.
pub proof fn lemma_occurrences_bound<T>(values: Seq<T>, value: T)
    ensures
        occurrences(values, value) <= values.len(),
    decreases values.len(),
{
    if values.len() > 0 {
        lemma_occurrences_bound(values.drop_last(), value);
    }
}

proof fn lemma_occurrences_sum<T>(values: Seq<T>, a: T, b: T)
    requires
        a != b,
    ensures
        occurrences(values, a) + occurrences(values, b) <= values.len(),
    decreases values.len(),
{
    if values.len() > 0 {
        lemma_occurrences_sum(values.drop_last(), a, b);
    }
}

proof fn lemma_occurs<T>(values: Seq<T>, i: int)
    requires
        0 <= i < values.len(),
    ensures
        occurrences(values, values[i]) > 0,
    decreases values.len(),
{
    if i < values.len() - 1 {
        lemma_occurs(values.drop_last(), i);
        assert(values.drop_last()[i] == values[i]);
    }
}

proof fn lemma_occurrence_found<T>(values: Seq<T>, value: T)
    requires
        occurrences(values, value) > 0,
    ensures
        values.contains(value),
    decreases values.len(),
{
    if values.last() == value {
        assert(values[values.len() - 1] == value);
    } else {
        lemma_occurrence_found(values.drop_last(), value);
        let i = choose|i: int| 0 <= i < values.drop_last().len() && values.drop_last()[i] == value;
        assert(values[i] == value);
    }
}

/// There is at most one majority.
pub proof fn law_majority_is_unique<T>(values: Seq<T>, a: T, b: T)
    requires
        is_majority(values, a),
        is_majority(values, b),
    ensures
        a == b,
{
    if a != b {
        lemma_occurrences_sum(values, a, b);
    }
}

/// A value that nine tenths of the values are is their majority.
pub proof fn law_dominant_value_is_majority<T>(values: Seq<T>, value: T)
    requires
        values.len() > 0,
        10 * occurrences(values, value) >= 9 * values.len(),
    ensures
        is_majority(values, value),
{
}

/// How often a vote leaves each value possible: with `votes` ahead, the candidate occurs at most
/// `(n + votes) / 2` times and any other value at most `(n - votes) / 2` times.
spec fn vote_bounds<T>(values: Seq<T>, candidate: T, votes: nat) -> bool {
    forall|value: T| #[trigger]
        occurrences(values, value) * 2 <= values.len() + (if value == candidate {
            votes as int
        } else {
            -votes
        })
}

/// The candidate of a majority vote: no other value can be a majority.
fn vote<T: Countable>(values: &[T]) -> (r: Option<T>)
    ensures
        r is None <==> values@.len() == 0,
        r matches Some(candidate) ==> forall|value: T| #[trigger]
            is_majority(values@, value) ==> value == candidate,
{
    if values.len() == 0 {
        return None;
    }
    let mut candidate: T = values[0];
    let mut votes: usize = 0;
    assert(vote_bounds(values@.take(0), candidate, 0));
    for i in 0..values.len()
        invariant
            votes <= i <= values@.len(),
            vote_bounds(values@.take(i as int), candidate, votes as nat),
    {
        let value: T = values[i];
        let ghost seen = values@.take(i as int);
        let ghost next = values@.take(i + 1);
        let ghost old_candidate = candidate;
        let ghost old_votes = votes;
        let value_key: (u64, u8) = value.to_key();
        let candidate_key: (u64, u8) = candidate.to_key();
        proof {
            assert(next.drop_last() =~= seen);
            assert(next.last() == value);
            if value_key == candidate_key {
                T::lemma_key_identifies(value, candidate);
            }
        }
        if votes == 0 {
            candidate = value;
            votes = 1;
        } else if value_key.0 == candidate_key.0 && value_key.1 == candidate_key.1 {
            votes += 1;
        } else {
            votes -= 1;
        }
        assert(vote_bounds(next, candidate, votes as nat)) by {
            assert forall|w: T| #[trigger] occurrences(next, w) * 2 <= next.len() + (if w
                == candidate {
                votes as int
            } else {
                -votes
            }) by {
                assert(occurrences(seen, w) * 2 <= seen.len() + (if w == old_candidate {
                    old_votes as int
                } else {
                    -old_votes
                }));
            }
        }
    }
    assert(values@.take(values@.len() as int) =~= values@);
    Some(candidate)
}

fn count_of<T: Countable>(values: &[T], value: T) -> (r: usize)
    ensures
        r == occurrences(values@, value),
{
    let key: (u64, u8) = value.to_key();
    let mut count: usize = 0;
    for i in 0..values.len()
        invariant
            key == value.key(),
            count <= i,
            count == occurrences(values@.take(i as int), value),
    {
        let this: (u64, u8) = values[i].to_key();
        proof {
            assert(values@.take(i + 1).drop_last() =~= values@.take(i as int));
            if this == key {
                T::lemma_key_identifies(values@[i as int], value);
            }
        }
        if this.0 == key.0 && this.1 == key.1 {
            count += 1;
        }
    }
    assert(values@.take(values@.len() as int) =~= values@);
    count
}

/// Whether the table counts the values.
spec fn counts<T: Countable>(values: Seq<T>, table: Map<(u64, u8), usize>) -> bool {
    forall|value: T| #![trigger value.key()]
        if table.contains_key(value.key()) {
            table[value.key()] == occurrences(values, value)
        } else {
            occurrences(values, value) == 0
        }
}

/// A value that occurs most often, by a count of all values.
fn most_frequent<T: Countable>(values: &[T]) -> (r: Option<(T, usize)>)
    ensures
        r is None <==> values@.len() == 0,
        r matches Some((value, count)) ==> {
            &&& count == occurrences(values@, value)
            &&& count > 0
            &&& forall|other: T| #[trigger] occurrences(values@, other) <= count
        },
{
    let mut frequencies = FxTable::new();
    assert(counts(values@.take(0), frequencies@));
    for i in 0..values.len()
        invariant
            counts(values@.take(i as int), frequencies@),
    {
        let value: T = values[i];
        let key: (u64, u8) = value.to_key();
        let ghost seen = values@.take(i as int);
        let ghost next = values@.take(i + 1);
        let ghost before = frequencies@;
        proof {
            assert(next.drop_last() =~= seen);
            lemma_occurrences_bound(seen, value);
            assert(values@.len() == values.len());
            assert(key == value.key());
        }
        let count: usize = match frequencies.get(key) {
            Some(count) => count,
            None => 0,
        };
        assert(count == occurrences(seen, value));
        let _ = frequencies.insert(key, count + 1);
        assert(counts(next, frequencies@)) by {
            assert forall|w: T| #![trigger w.key()]
                if frequencies@.contains_key(w.key()) {
                    frequencies@[w.key()] == occurrences(next, w)
                } else {
                    occurrences(next, w) == 0
                } by {
                if w.key() == key {
                    T::lemma_key_identifies(w, value);
                }
                assert(before.contains_key(w.key()) || !before.contains_key(w.key()));
            }
        }
    }
    assert(values@.take(values@.len() as int) =~= values@);
    let mut best: Option<(T, usize)> = None;
    for i in 0..values.len()
        invariant
            counts(values@, frequencies@),
            best is None <==> i == 0,
            best matches Some((value, count)) ==> {
                &&& count == occurrences(values@, value)
                &&& count > 0
                &&& forall|k: int| 0 <= k < i ==> occurrences(values@, #[trigger] values@[k]) <= count
            },
    {
        let value: T = values[i];
        let key: (u64, u8) = value.to_key();
        proof {
            assert(key == value.key());
            lemma_occurs(values@, i as int);
        }
        let count: usize = match frequencies.get(key) {
            Some(count) => count,
            None => 0,
        };
        assert(count == occurrences(values@, value));
        let better = match best {
            Some((_, most)) => count > most,
            None => true,
        };
        if better {
            best = Some((value, count));
        }
    }
    proof {
        if let Some((value, count)) = best {
            assert forall|other: T| #[trigger] occurrences(values@, other) <= count by {
                if occurrences(values@, other) > 0 {
                    lemma_occurrence_found(values@, other);
                    let k = choose|k: int| 0 <= k < values@.len() && values@[k] == other;
                    assert(occurrences(values@, values@[k]) <= count);
                }
            }
        }
    }
    best
}

/// The value that more than half of `values` are, with its count. Without one, nothing, or with
/// `exact` a value that occurs most often.
pub fn mode_in<T: Countable>(values: &[T], exact: bool) -> (r: Option<(T, u32)>)
    requires
        exact ==> has_majority(values@) || forall|value: T| #[trigger]
            occurrences(values@, value) <= u32::MAX,
    ensures
        !exact || has_majority(values@) ==> is_majority_result(values@, r),
        exact ==> is_mode_result(values@, r),
        r matches Some((value, count)) ==> count == occurrences(values@, value) && count > 0,
        !exact ==> (r matches Some((value, count)) ==> 2 * count > values@.len()),
        !exact && r is None ==> forall|value: T|
            2 * (#[trigger] occurrences(values@, value)) > values@.len() ==> occurrences(
                values@,
                value,
            ) > u32::MAX,
        exact ==> (r matches Some((_, count)) ==> forall|other: T| #[trigger]
            occurrences(values@, other) <= count),
        values@.len() == 0 ==> r is None,
        exact && 0 < values@.len() <= u32::MAX ==> r is Some,
{
    let candidate: T = match vote(values) {
        Some(candidate) => candidate,
        None => return None,
    };
    let count: usize = count_of(values, candidate);
    if count > values.len() / 2 {
        proof {
            assert(is_majority(values@, candidate));
            assert forall|other: T| #[trigger] occurrences(values@, other) <= count by {
                if other != candidate {
                    lemma_occurrences_sum(values@, candidate, other);
                }
            }
        }
        if count as u64 > 0xffff_ffff {
            proof {
                lemma_occurrences_bound(values@, candidate);
                assert forall|value: T|
                    2 * (#[trigger] occurrences(values@, value)) > values@.len() implies occurrences(
                    values@,
                    value,
                ) > u32::MAX by {
                    assert(is_majority(values@, value));
                    law_majority_is_unique(values@, value, candidate);
                }
            }
            return None;
        }
        return Some((candidate, count as u32));
    }
    assert(!has_majority(values@)) by {
        assert forall|value: T| !#[trigger] is_majority(values@, value) by {
            assert(!is_majority(values@, candidate));
        }
    }
    assert forall|value: T| 2 * (#[trigger] occurrences(values@, value)) <= values@.len() by {
        assert(!is_majority(values@, value));
    }
    if !exact {
        return None;
    }
    match most_frequent(values) {
        Some((value, count)) => {
            assert(occurrences(values@, value) <= u32::MAX);
            Some((value, count as u32))
        },
        None => None,
    }
}

/// Integers of one type.
#[derive(Debug)]
pub enum IntArray {
    U8(Vec<u8>),
    U16(Vec<u16>),
    U32(Vec<u32>),
    U64(Vec<u64>),
    I8(Vec<i8>),
    I16(Vec<i16>),
    I32(Vec<i32>),
    I64(Vec<i64>),
}

impl View for IntArray {
    type V = Seq<PValue>;

    open spec fn view(&self) -> Seq<PValue> {
        match *self {
            IntArray::U8(values) => values@.map_values(|x: u8| PValue::U8(x)),
            IntArray::U16(values) => values@.map_values(|x: u16| PValue::U16(x)),
            IntArray::U32(values) => values@.map_values(|x: u32| PValue::U32(x)),
            IntArray::U64(values) => values@.map_values(|x: u64| PValue::U64(x)),
            IntArray::I8(values) => values@.map_values(|x: i8| PValue::I8(x)),
            IntArray::I16(values) => values@.map_values(|x: i16| PValue::I16(x)),
            IntArray::I32(values) => values@.map_values(|x: i32| PValue::I32(x)),
            IntArray::I64(values) => values@.map_values(|x: i64| PValue::I64(x)),
        }
    }
}

impl IntArray {
    /// The number of integers.
    pub fn len(&self) -> (r: usize)
        ensures
            r == self@.len(),
    {
        match self {
            IntArray::U8(values) => values.len(),
            IntArray::U16(values) => values.len(),
            IntArray::U32(values) => values.len(),
            IntArray::U64(values) => values.len(),
            IntArray::I8(values) => values.len(),
            IntArray::I16(values) => values.len(),
            IntArray::I32(values) => values.len(),
            IntArray::I64(values) => values.len(),
        }
    }

    /// The integer at `i`.
    pub fn get(&self, i: usize) -> (r: PValue)
        requires
            i < self@.len(),
        ensures
            r == self@[i as int],
    {
        match self {
            IntArray::U8(values) => PValue::U8(values[i]),
            IntArray::U16(values) => PValue::U16(values[i]),
            IntArray::U32(values) => PValue::U32(values[i]),
            IntArray::U64(values) => PValue::U64(values[i]),
            IntArray::I8(values) => PValue::I8(values[i]),
            IntArray::I16(values) => PValue::I16(values[i]),
            IntArray::I32(values) => PValue::I32(values[i]),
            IntArray::I64(values) => PValue::I64(values[i]),
        }
    }
}

/// The values that are valid.
pub open spec fn valid_values(values: Seq<PValue>, valid: Seq<bool>) -> Seq<PValue>
    decreases values.len(),
{
    if values.len() == 0 {
        seq![]
    } else {
        let front = valid_values(values.drop_last(), valid.drop_last());
        if valid.last() {
            front.push(values.last())
        } else {
            front
        }
    }
}

/// The mode of the valid values of an array: the majority, or with `exact` a value that occurs
/// most often.
pub fn compute_mode(array: &IntArray, valid: &[bool], exact: bool) -> (r: Option<(PValue, u32)>)
    requires
        array@.len() == valid@.len(),
        exact ==> has_majority(valid_values(array@, valid@)) || forall|value: PValue| #[trigger]
            occurrences(valid_values(array@, valid@), value) <= u32::MAX,
    ensures
        !exact || has_majority(valid_values(array@, valid@)) ==> is_majority_result(
            valid_values(array@, valid@),
            r,
        ),
        exact ==> is_mode_result(valid_values(array@, valid@), r),
{
    let mut kept: Vec<PValue> = Vec::new();
    for i in 0..valid.len()
        invariant
            array@.len() == valid@.len(),
            kept@ == valid_values(array@.take(i as int), valid@.take(i as int)),
    {
        proof {
            assert(array@.take(i + 1).drop_last() =~= array@.take(i as int));
            assert(valid@.take(i + 1).drop_last() =~= valid@.take(i as int));
        }
        if valid[i] {
            kept.push(array.get(i));
        }
    }
    proof {
        assert(array@.take(array@.len() as int) =~= array@);
        assert(valid@.take(valid@.len() as int) =~= valid@);
    }
    mode_in(kept.as_slice(), exact)
}

/// An integer array with what was found out about it.
pub struct ArrayAndStats {
    array: IntArray,
    nullability: Nullability,
    valid: Vec<bool>,
    /// The majority, once it was looked for.
    majority: Option<Option<(PValue, u32)>>,
}

impl ArrayAndStats {
    #[verifier::type_invariant]
    spec fn inv(self) -> bool {
        &&& self.array@.len() == self.valid@.len()
        &&& self.majority matches Some(found) ==> is_majority_result(
            valid_values(self.array@, self.valid@),
            found,
        )
    }

    /// The values of all rows.
    pub closed spec fn rows(self) -> Seq<PValue> {
        self.array@
    }

    /// The values of the valid rows.
    pub closed spec fn values(self) -> Seq<PValue> {
        valid_values(self.array@, self.valid@)
    }

    /// Whether the type of the array has null values.
    pub closed spec fn array_nullability(self) -> Nullability {
        self.nullability
    }

    /// An array of which nothing is known yet; nothing if the numbers of values and of validity
    /// flags differ.
    pub fn try_new(array: IntArray, nullability: Nullability, valid: Vec<bool>) -> (r: Option<
        ArrayAndStats,
    >)
        ensures
            r is Some <==> array@.len() == valid@.len(),
            r matches Some(data) ==> {
                &&& data.rows() == array@
                &&& data.values() == valid_values(array@, valid@)
                &&& data.array_nullability() == nullability
            },
    {
        if array.len() != valid.len() {
            return None;
        }
        Some(ArrayAndStats { array, nullability, valid, majority: None })
    }

    /// The number of rows.
    pub fn array_len(&self) -> (r: usize)
        ensures
            r == self.rows().len(),
    {
        self.array.len()
    }
}

/// The value that more than half of the valid values are, with its count. It is looked for once.
pub fn majority_value(data: &mut ArrayAndStats) -> (r: Option<(PValue, u32)>)
    ensures
        is_majority_result(old(data).values(), r),
        r matches Some((value, count)) ==> count == occurrences(old(data).values(), value) && 2 * count
            > old(data).values().len(),
        r is None ==> forall|value: PValue|
            2 * (#[trigger] occurrences(old(data).values(), value)) > old(data).values().len()
                ==> occurrences(old(data).values(), value) > u32::MAX,
        final(data).rows() == old(data).rows(),
        final(data).values() == old(data).values(),
        final(data).array_nullability() == old(data).array_nullability(),
{
    proof {
        use_type_invariant(&*data);
    }
    assert(forall|value: PValue|
        2 * (#[trigger] occurrences(data.values(), value)) > data.values().len() ==> is_majority(
            data.values(),
            value,
        ));
    match data.majority {
        Some(found) => found,
        None => {
            let found = compute_mode(&data.array, data.valid.as_slice(), false);
            data.majority = Some(found);
            found
        },
    }
}

/// The most frequent valid value with its count; 0 and a count of 0 if there is none.
pub fn most_frequent_value(data: &mut ArrayAndStats) -> (r: (PValue, u32))
    requires
        forall|value: PValue| #[trigger] occurrences(old(data).values(), value) <= u32::MAX,
    ensures
        final(data).rows() == old(data).rows(),
        final(data).values() == old(data).values(),
        final(data).array_nullability() == old(data).array_nullability(),
        old(data).values().len() == 0 ==> r == (PValue::U8(0), 0u32),
        old(data).values().len() > 0 ==> {
            &&& r.1 == occurrences(old(data).values(), r.0)
            &&& r.1 > 0
            &&& forall|other: PValue| #[trigger] occurrences(old(data).values(), other) <= r.1
        },
{
    let ghost values = data.values();
    match majority_value(data) {
        Some((value, count)) => {
            proof {
                assert forall|other: PValue| #[trigger] occurrences(values, other) <= count by {
                    if other != value {
                        lemma_occurrences_sum(values, value, other);
                    }
                }
                lemma_occurrences_bound(values, value);
            }
            (value, count)
        },
        None => {
            proof {
                use_type_invariant(&*data);
            }
            match compute_mode(&data.array, data.valid.as_slice(), true) {
                Some(found) => found,
                None => (PValue::U8(0), 0),
            }
        },
    }
}

/// What is to be expected of encoding an array.
#[derive(Clone, Copy, Debug, PartialEq, Eq, Structural)]
pub enum EstimateVerdict {
    /// Another encoding does better.
    Skip,
    /// The size goes down by the ratio of these numbers.
    Ratio { from: u64, to: u64 },
}

/// Statistics of an integer array.
#[derive(Clone, Copy, Debug, PartialEq, Eq, Structural)]
pub struct IntegerStats {
    /// The number of valid values.
    pub value_count: u32,
    /// The number of null rows.
    pub null_count: u32,
    /// The average number of equal valid values in a row.
    pub average_run_length: u32,
}

/// What is to be expected of encoding an array of `len` rows, if `majority` is the count of the
/// majority value.
pub open spec fn estimate(len: nat, stats: IntegerStats, majority: Option<u32>) -> EstimateVerdict {
    if stats.value_count == 0 {
        EstimateVerdict::Skip
    } else if 10 * stats.null_count > 9 * len {
        EstimateVerdict::Ratio { from: len as u64, to: stats.value_count as u64 }
    } else if stats.value_count >= 4 && stats.average_run_length < 2 {
        EstimateVerdict::Skip
    } else {
        match majority {
            None => EstimateVerdict::Skip,
            Some(count) => if count == stats.value_count || 10 * count < 9 * stats.value_count {
                EstimateVerdict::Skip
            } else {
                EstimateVerdict::Ratio {
                    from: stats.value_count as u64,
                    to: (stats.value_count - count) as u64,
                }
            },
        }
    }
}

/// A scheme that a child of a sparse array is not to be encoded with.
#[derive(Clone, Copy, Debug, PartialEq, Eq, Structural)]
pub enum ExcludedChildScheme {
    IntDict,
    RunEnd,
    IntRle,
    Sparse,
}

/// The exclusion of a scheme for one child.
#[derive(Clone, Copy, Debug, PartialEq, Eq, Structural)]
pub struct DescendantExclusion {
    pub excluded: ExcludedChildScheme,
    pub child: usize,
}

/// An encoding that the scheme produces.
#[derive(Clone, Copy, Debug, PartialEq, Eq, Structural)]
pub enum ProducedEncoding {
    Sparse,
    Constant,
}

/// Which statistics of an array are to be computed.
#[derive(Clone, Copy, Debug, PartialEq, Eq, Structural)]
pub struct GenerateStatsOptions {
    pub count_distinct_values: bool,
}

/// A step of compressing an array.
#[derive(Clone, Copy, Debug, PartialEq, Eq, Structural)]
pub enum CompressStep {
    /// The array is this value in all rows; the scalar is as nullable as the array.
    Constant { value: PValue, nullability: Nullability, len: usize },
    /// Encode the array with this value filled in where nothing else is stored; the scalar is as
    /// nullable as the array.
    Encode { fill: PValue, nullability: Nullability },
    /// Compress a child of the encoded array, after narrowing its type if so said.
    CompressChild { child: usize, narrow: bool },
    /// Put the compressed children together.
    Assemble,
    /// The encoded array is the result as it is.
    PassThrough,
}

/// Sparse encoding for arrays in which one value dominates.
#[derive(Clone, Copy, Debug, PartialEq, Eq, Structural)]
pub struct SparseScheme;

impl SparseScheme {
    /// The name of the scheme.
    pub fn scheme_name(&self) -> (r: &'static str)
        ensures
            r@ == "vortex.int.sparse"@,
    {
        "vortex.int.sparse"
    }

    /// Whether arrays of the type can be encoded: those of integers.
    pub fn matches(&self, dtype: &DType) -> (r: bool)
        ensures
            r == (dtype matches DType::Primitive(ptype, _) && !ptype.float()),
            r <==> *dtype is Primitive && !(dtype->Primitive_0 is F16) && !(dtype->Primitive_0 is F32)
                && !(dtype->Primitive_0 is F64),
    {
        match dtype {
            DType::Primitive(ptype, _) => !ptype.is_float(),
            _ => false,
        }
    }

    /// The encodings that come out.
    pub fn produced_encodings(&self) -> (r: Vec<ProducedEncoding>)
        ensures
            r@ == seq![ProducedEncoding::Sparse, ProducedEncoding::Constant],
    {
        vec![ProducedEncoding::Sparse, ProducedEncoding::Constant]
    }

    /// The statistics to be computed first: no count of distinct values, since only a majority is
    /// of interest, which two passes find.
    pub fn stats_options(&self) -> (r: GenerateStatsOptions)
        ensures
            !r.count_distinct_values,
    {
        GenerateStatsOptions { count_distinct_values: false }
    }

    /// The number of children: the values and the indices.
    pub fn num_children(&self) -> (r: usize)
        ensures
            r == 2,
    {
        2
    }

    /// The schemes that do no good on the indices, which only grow and are all different.
    pub fn descendant_exclusions(&self) -> (r: Vec<DescendantExclusion>)
        ensures
            r@ == seq![
                DescendantExclusion { excluded: ExcludedChildScheme::IntDict, child: 1 },
                DescendantExclusion { excluded: ExcludedChildScheme::RunEnd, child: 1 },
                DescendantExclusion { excluded: ExcludedChildScheme::IntRle, child: 1 },
                DescendantExclusion { excluded: ExcludedChildScheme::Sparse, child: 1 },
            ],
    {
        vec![
            DescendantExclusion { excluded: ExcludedChildScheme::IntDict, child: 1 },
            DescendantExclusion { excluded: ExcludedChildScheme::RunEnd, child: 1 },
            DescendantExclusion { excluded: ExcludedChildScheme::IntRle, child: 1 },
            DescendantExclusion { excluded: ExcludedChildScheme::Sparse, child: 1 },
        ]
    }

    /// What is to be expected of encoding an array: much if nine tenths of the rows are null, or
    /// if nine tenths of the valid values are one value, but not all of them.
    pub fn expected_compression_ratio(&self, data: &mut ArrayAndStats, stats: IntegerStats) -> (r:
        EstimateVerdict)
        requires
            stats.value_count == old(data).values().len(),
        ensures
            exists|found: Option<(PValue, u32)>|
                is_majority_result(old(data).values(), found) && r == #[trigger] estimate(
                    old(data).rows().len(),
                    stats,
                    majority_count(found),
                ),
            stats.value_count == 0 ==> r == EstimateVerdict::Skip,
            stats.value_count > 0 && 10 * stats.null_count > 9 * old(data).rows().len() ==> (
            r matches EstimateVerdict::Ratio { from, to } && from == old(data).rows().len() && to
                == stats.value_count),
            stats.value_count > 0 && 10 * stats.null_count <= 9 * old(data).rows().len() ==> (
            r matches EstimateVerdict::Ratio { from, to } ==> from == stats.value_count && exists|
                value: PValue,
            |
                10 * (#[trigger] occurrences(old(data).values(), value)) >= 9 * stats.value_count
                    && occurrences(old(data).values(), value) < stats.value_count && to
                    == stats.value_count - occurrences(old(data).values(), value)),
            forall|value: PValue|
                stats.value_count > 0 && 10 * stats.null_count <= 9 * old(data).rows().len() && (
                stats.value_count < 4 || stats.average_run_length >= 2) && 10 * (
                #[trigger] occurrences(old(data).values(), value)) >= 9 * stats.value_count
                    && occurrences(old(data).values(), value) < stats.value_count ==> (
                r matches EstimateVerdict::Ratio { from, to } && from == stats.value_count && to
                    == stats.value_count - occurrences(old(data).values(), value)),
            stats.value_count >= 4 && stats.average_run_length < 2 && 10 * stats.null_count <= 9
                * old(data).rows().len() ==> r == EstimateVerdict::Skip,
            final(data).rows() == old(data).rows(),
            final(data).values() == old(data).values(),
            final(data).array_nullability() == old(data).array_nullability(),
    {
        let len: usize = data.array_len();
        let ghost found0 = choose|found: Option<(PValue, u32)>|
            is_majority_result(data.values(), found);
        proof {
            lemma_majority_exists(data.values());
        }
        if stats.value_count == 0 {
            assert(estimate(data.rows().len(), stats, majority_count(found0))
                == EstimateVerdict::Skip);
            return EstimateVerdict::Skip;
        }
        if 10 * stats.null_count as u128 > 9 * len as u128 {
            let verdict = EstimateVerdict::Ratio {
                from: len as u64,
                to: stats.value_count as u64,
            };
            assert(estimate(data.rows().len(), stats, majority_count(found0)) == verdict);
            return verdict;
        }
        if stats.value_count >= 4 && stats.average_run_length < 2 {
            assert(estimate(data.rows().len(), stats, majority_count(found0))
                == EstimateVerdict::Skip);
            return EstimateVerdict::Skip;
        }
        let found = majority_value(data);
        proof {
            assert forall|value: PValue|
                10 * (#[trigger] occurrences(old(data).values(), value)) >= 9 * stats.value_count
                    && occurrences(old(data).values(), value) < stats.value_count implies (
            found matches Some((majority, _)) && majority == value) by {
                assert(is_majority(old(data).values(), value));
                if let Some((majority, _)) = found {
                    law_majority_is_unique(old(data).values(), majority, value);
                }
            }
        }
        let verdict = match found {
            None => EstimateVerdict::Skip,
            Some((value, count)) => {
                proof {
                    lemma_occurrences_bound(old(data).values(), value);
                }
                if count == stats.value_count || 10 * (count as u64) < 9 * (
                stats.value_count as u64) {
                    EstimateVerdict::Skip
                } else {
                    EstimateVerdict::Ratio {
                        from: stats.value_count as u64,
                        to: (stats.value_count - count) as u64,
                    }
                }
            },
        };
        assert(estimate(old(data).rows().len(), stats, majority_count(found)) == verdict);
        verdict
    }

    /// The first step of compressing an array: a constant if the most frequent value is in all
    /// rows, else an encoding with that value filled in.
    pub fn compress(&self, data: &mut ArrayAndStats) -> (r: CompressStep)
        requires
            forall|value: PValue| #[trigger] occurrences(old(data).values(), value) <= u32::MAX,
        ensures
            final(data).rows() == old(data).rows(),
            final(data).values() == old(data).values(),
            final(data).array_nullability() == old(data).array_nullability(),
            match r {
                CompressStep::Constant { value, nullability, len } => {
                    &&& nullability == old(data).array_nullability()
                    &&& len == old(data).rows().len()
                    &&& occurrences(old(data).values(), value) == len
                    &&& len == 0 ==> value == PValue::U8(0)
                },
                CompressStep::Encode { fill, nullability } => {
                    &&& nullability == old(data).array_nullability()
                    &&& forall|other: PValue| #[trigger]
                        occurrences(old(data).values(), other) <= occurrences(
                            old(data).values(),
                            fill,
                        )
                    &&& forall|other: PValue| #[trigger]
                        occurrences(old(data).values(), other) < old(data).rows().len()
                    &&& old(data).values().len() == 0 ==> fill == PValue::U8(0)
                },
                _ => false,
            },
    {
        let len: usize = data.array_len();
        let (value, count) = most_frequent_value(data);
        proof {
            lemma_valid_values_len(data.array@, data.valid@);
            lemma_occurrences_bound(data.values(), value);
            if data.values().len() == 0 {
                assert forall|other: PValue| #[trigger]
                    occurrences(data.values(), other) == 0 by {
                    lemma_occurrences_bound(data.values(), other);
                }
            }
        }
        if count as usize == len {
            return CompressStep::Constant { value, nullability: data.nullability, len };
        }
        CompressStep::Encode { fill: value, nullability: data.nullability }
    }

    /// The step after encoding: the children are compressed, values first, unless the encoding
    /// did not come out sparse.
    pub fn after_encode(&self, is_sparse: bool) -> (r: CompressStep)
        ensures
            r == (if is_sparse {
                CompressStep::CompressChild { child: 0, narrow: false }
            } else {
                CompressStep::PassThrough
            }),
    {
        if is_sparse {
            CompressStep::CompressChild { child: 0, narrow: false }
        } else {
            CompressStep::PassThrough
        }
    }

    /// The step after compressing a child: the indices, narrowed, follow the values, and then
    /// all is put together.
    pub fn after_child(&self, child: usize) -> (r: CompressStep)
        requires
            child < 2,
        ensures
            r == (if child == 0 {
                CompressStep::CompressChild { child: 1, narrow: true }
            } else {
                CompressStep::Assemble
            }),
    {
        if child == 0 {
            CompressStep::CompressChild { child: 1, narrow: true }
        } else {
            CompressStep::Assemble
        }
    }
}

/// The count of a majority, if there is one.
pub open spec fn majority_count(found: Option<(PValue, u32)>) -> Option<u32> {
    match found {
        Some((_, count)) => Some(count),
        None => None,
    }
}

proof fn lemma_majority_exists(values: Seq<PValue>)
    ensures
        exists|found: Option<(PValue, u32)>| is_majority_result(values, found),
{
    if exists|value: PValue| #[trigger]
        is_majority(values, value) && occurrences(values, value) <= u32::MAX {
        let value = choose|value: PValue| #[trigger]
            is_majority(values, value) && occurrences(values, value) <= u32::MAX;
        assert(is_majority_result(values, Some((value, occurrences(values, value) as u32))));
    } else {
        assert(is_majority_result(values, None));
    }
}

proof fn lemma_valid_values_len(values: Seq<PValue>, valid: Seq<bool>)
    ensures
        valid_values(values, valid).len() <= values.len(),
    decreases values.len(),
{
    if values.len() > 0 {
        lemma_valid_values_len(values.drop_last(), valid.drop_last());
    }
}

/// The number of runs of equal values.
pub open spec fn run_count<T>(values: Seq<T>) -> nat
    decreases values.len(),
{
    if values.len() == 0 {
        0
    } else if values.len() == 1 {
        1
    } else {
        run_count(values.drop_last()) + (if values.last() == values[values.len() - 2] {
            0nat
        } else {
            1
        })
    }
}

proof fn lemma_runs<T>(values: Seq<T>, value: T)
    ensures
        run_count(values) + occurrences(values, value) * 2 <= 2 * values.len() + 1,
        values.len() > 0 && values.last() != value ==> run_count(values) + occurrences(
            values,
            value,
        ) * 2 <= 2 * values.len(),
    decreases values.len(),
{
    if values.len() == 1 {
        assert(occurrences(values.drop_last(), value) == 0);
    } else if values.len() > 1 {
        let front = values.drop_last();
        lemma_runs(front, value);
        assert(front.last() == values[values.len() - 2]);
    }
}

/// An array of four or more values of which nine tenths are one value has runs of two or more on
/// average, so that shorter runs rule such a value out.
pub proof fn law_short_runs_rule_out_dominance<T>(values: Seq<T>, value: T)
    requires
        values.len() >= 4,
        10 * occurrences(values, value) >= 9 * values.len(),
    ensures
        2 * run_count(values) <= values.len(),
{
    lemma_runs(values, value);
    lemma_occurrences_bound(values, value);
    if values.len() < 10 {
        lemma_all_equal(values, value);
    }
}

proof fn lemma_all_equal<T>(values: Seq<T>, value: T)
    requires
        values.len() > 0,
        occurrences(values, value) == values.len(),
    ensures
        run_count(values) == 1,
        values.last() == value,
    decreases values.len(),
{
    lemma_occurrences_bound(values.drop_last(), value);
    if values.len() > 1 {
        lemma_all_equal(values.drop_last(), value);
        assert(values.drop_last().last() == values[values.len() - 2]);
    }
}

/// What is to be expected of encoding an array, without a look at its runs.
pub open spec fn estimate_by_counts(
    len: nat,
    value_count: u32,
    null_count: u32,
    majority: Option<u32>,
) -> EstimateVerdict {
    estimate(len, IntegerStats { value_count, null_count, average_run_length: 2 }, majority)
}

/// The look at the runs saves counting and changes nothing: where the average run length is that
/// of the values, rounded down, the estimate is the same without it.
pub proof fn law_run_length_shortcut_is_exact(
    len: nat,
    values: Seq<PValue>,
    stats: IntegerStats,
    found: Option<(PValue, u32)>,
)
    requires
        stats.value_count == values.len(),
        values.len() > 0 ==> stats.average_run_length == values.len() / run_count(values),
        is_majority_result(values, found),
    ensures
        estimate(len, stats, majority_count(found)) == estimate_by_counts(
            len,
            stats.value_count,
            stats.null_count,
            majority_count(found),
        ),
{
    if let Some((value, count)) = found {
        lemma_occurrences_bound(values, value);
        if values.len() >= 4 && 10 * count >= 9 * values.len() {
            law_short_runs_rule_out_dominance(values, value);
            lemma_has_runs(values);
            let n = values.len() as int;
            let r = run_count(values) as int;
            assert(n / r >= 2) by (nonlinear_arith)
                requires
                    2 * r <= n,
                    r > 0,
            ;
        }
    }
}

proof fn lemma_has_runs<T>(values: Seq<T>)
    requires
        values.len() > 0,
    ensures
        run_count(values) > 0,
    decreases values.len(),
{
    if values.len() > 1 {
        lemma_has_runs(values.drop_last());
    }
}

/// A value occurs as often as there are elements equal to it.
pub proof fn law_occurrences_count_equal_values<T>(values: Seq<T>, value: T)
    ensures
        occurrences(values, value) == values.filter(|x: T| x == value).len(),
    decreases values.len(),
{
    reveal(Seq::filter);
    if values.len() > 0 {
        law_occurrences_count_equal_values(values.drop_last(), value);
    }
}

/// The valid values are the values of the rows whose flag is set, in the order of the rows: a
/// valid row's value has as many values before it as there are flags set before the row's.
pub proof fn law_valid_values_are_those_flagged(values: Seq<PValue>, valid: Seq<bool>, i: int)
    requires
        values.len() == valid.len(),
    ensures
        valid_values(values, valid).len() == valid.filter(|flag: bool| flag).len(),
        0 <= i < values.len() && valid[i] ==> {
            let at = valid.take(i).filter(|flag: bool| flag).len() as int;
            &&& at < valid_values(values, valid).len()
            &&& valid_values(values, valid)[at] == values[i]
        },
    decreases values.len(),
{
    reveal(Seq::filter);
    if values.len() > 0 {
        law_valid_values_are_those_flagged(values.drop_last(), valid.drop_last(), i);
        if 0 <= i < values.len() - 1 {
            assert(valid.drop_last().take(i) =~= valid.take(i));
            assert(valid.drop_last()[i] == valid[i]);
            assert(values.drop_last()[i] == values[i]);
        } else if i == values.len() - 1 {
            assert(valid.take(i) =~= valid.drop_last());
        }
    }
}

/// A found majority is more than half of the values, and where some value is, and its count can be
/// held, one is found.
pub proof fn law_majority_is_more_than_half<T>(values: Seq<T>, found: Option<(T, u32)>)
    requires
        is_majority_result(values, found),
    ensures
        found matches Some((value, count)) ==> count == values.filter(|x: T| x == value).len() && 2
            * count > values.len(),
        (exists|value: T|
            2 * values.filter(|x: T| x == value).len() > values.len() && (
            #[trigger] occurrences(values, value)) <= u32::MAX) ==> found is Some,
{
    if let Some((value, count)) = found {
        law_occurrences_count_equal_values(values, value);
    }
    if exists|value: T|
        2 * values.filter(|x: T| x == value).len() > values.len() && (
        #[trigger] occurrences(values, value)) <= u32::MAX {
        let value = choose|value: T|
            2 * values.filter(|x: T| x == value).len() > values.len() && (
            #[trigger] occurrences(values, value)) <= u32::MAX;
        law_occurrences_count_equal_values(values, value);
        assert(is_majority(values, value));
    }
}

/// Where there is a valid value, null rows give a ratio exactly if they are more than nine tenths
/// of all: that of the rows to the valid values. Otherwise only a value that is nine tenths of
/// the valid values, but not all of them, gives one: that of these to the ones that differ.
pub proof fn law_null_rows_count_from_nine_tenths(
    len: nat,
    stats: IntegerStats,
    majority: Option<u32>,
)
    requires
        len <= u64::MAX,
    ensures
        stats.value_count > 0 && 10 * stats.null_count > 9 * len ==> (estimate(
            len,
            stats,
            majority,
        ) matches EstimateVerdict::Ratio { from, to } && from == len && to == stats.value_count),
        stats.value_count > 0 && 10 * stats.null_count <= 9 * len ==> (estimate(
            len,
            stats,
            majority,
        ) is Ratio <==> (stats.value_count < 4 || stats.average_run_length >= 2)
            && majority is Some && 10 * majority->Some_0 >= 9 * stats.value_count
            && majority->Some_0 != stats.value_count),
        stats.value_count > 0 && 10 * stats.null_count <= 9 * len && majority is Some
            && majority->Some_0 <= stats.value_count ==> (estimate(
            len,
            stats,
            majority,
        ) matches EstimateVerdict::Ratio { from, to } ==> from == stats.value_count && to
            == stats.value_count - majority->Some_0),
        stats.value_count == 0 ==> estimate(len, stats, majority) is Skip,
{
}

/// An integer array holds its integers in order, each with its type.
pub proof fn law_int_arrays_hold_their_integers(i: int, array: IntArray)
    requires
        0 <= i < array@.len(),
    ensures
        match array {
            IntArray::U8(values) => array@.len() == values@.len() && array@[i] == PValue::U8(values@[i]),
            IntArray::U16(values) => array@.len() == values@.len() && array@[i] == PValue::U16(
                values@[i],
            ),
            IntArray::U32(values) => array@.len() == values@.len() && array@[i] == PValue::U32(
                values@[i],
            ),
            IntArray::U64(values) => array@.len() == values@.len() && array@[i] == PValue::U64(
                values@[i],
            ),
            IntArray::I8(values) => array@.len() == values@.len() && array@[i] == PValue::I8(values@[i]),
            IntArray::I16(values) => array@.len() == values@.len() && array@[i] == PValue::I16(
                values@[i],
            ),
            IntArray::I32(values) => array@.len() == values@.len() && array@[i] == PValue::I32(
                values@[i],
            ),
            IntArray::I64(values) => array@.len() == values@.len() && array@[i] == PValue::I64(
                values@[i],
            ),
        },
{
}

} // verus!
