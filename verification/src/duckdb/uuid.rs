//! UUIDs as text, and the extrema of UUID columns.

use vstd::prelude::*;

use crate::order::bytes_less;
use crate::order::lemma_lex_antisymmetric;
use crate::order::lemma_lex_irreflexive;
use crate::order::lemma_lex_total;
use crate::order::lemma_lex_transitive;
use crate::order::lex_lt;
use crate::stats::PValue;
use crate::stats::ScalarValue;
use crate::text::hex_byte;
use crate::text::hex_digit;
use crate::text::lemma_hex_byte_injective;
use crate::text::push_char;
use crate::text::push_hex;

verus! {

/// Whether a hyphen stands before byte `i` of a UUID.
pub open spec fn hyphen_before(i: int) -> bool {
    i == 4 || i == 6 || i == 8 || i == 10
}

/// The first `n` bytes of a UUID in its hyphenated form.
pub open spec fn uuid_text(bytes: Seq<u8>, n: nat) -> Seq<char>
    decreases n,
{
    if n == 0 {
        seq![]
    } else {
        let front = uuid_text(bytes, (n - 1) as nat);
        let front = if hyphen_before(n - 1) {
            front.push('-')
        } else {
            front
        };
        front + hex_byte(bytes[n - 1])
    }
}

/// The hyphenated lower-case form of a UUID.
pub fn uuid_bytes_string(bytes: &[u8; 16]) -> (r: String)
    ensures
        r@ == uuid_text(bytes@, 16),
{
    let mut out = String::new();
    for i in 0..16usize
        invariant
            out@ == uuid_text(bytes@, i as nat),
    {
        if i == 4 || i == 6 || i == 8 || i == 10 {
            push_char(&mut out, '-');
        }
        push_hex(&mut out, bytes[i]);
    }
    out
}

proof fn lemma_uuid_text_len(bytes: Seq<u8>, n: nat)
    requires
        n <= 16,
    ensures
        uuid_text(bytes, n).len() == 2 * n + (if n > 10 {
            4int
        } else if n > 8 {
            3
        } else if n > 6 {
            2
        } else if n > 4 {
            1
        } else {
            0
        }),
    decreases n,
{
    if n > 0 {
        lemma_uuid_text_len(bytes, (n - 1) as nat);
    }
}

proof fn lemma_uuid_text_injective(a: Seq<u8>, b: Seq<u8>, n: nat)
    requires
        n <= 16,
        a.len() == 16,
        b.len() == 16,
        uuid_text(a, n) == uuid_text(b, n),
    ensures
        a.take(n as int) == b.take(n as int),
    decreases n,
{
    if n > 0 {
        let m = (n - 1) as nat;
        lemma_uuid_text_len(a, m);
        lemma_uuid_text_len(b, m);
        let fa = uuid_text(a, m);
        let fb = uuid_text(b, m);
        let ga = if hyphen_before(m as int) { fa.push('-') } else { fa };
        let gb = if hyphen_before(m as int) { fb.push('-') } else { fb };
        assert(uuid_text(a, n) == ga + hex_byte(a[m as int]));
        assert(uuid_text(b, n) == gb + hex_byte(b[m as int]));
        assert(fa =~= uuid_text(a, n).take(fa.len() as int));
        assert(fb =~= uuid_text(b, n).take(fb.len() as int));
        assert(hex_byte(a[m as int]) =~= uuid_text(a, n).skip(ga.len() as int));
        assert(hex_byte(b[m as int]) =~= uuid_text(b, n).skip(gb.len() as int));
        lemma_hex_byte_injective(a[m as int], b[m as int]);
        lemma_uuid_text_injective(a, b, m);
        assert(a.take(n as int) =~= a.take(m as int).push(a[m as int]));
        assert(b.take(n as int) =~= b.take(m as int).push(b[m as int]));
    } else {
        assert(a.take(0) =~= b.take(0));
    }
}

/// The text of a UUID has 36 characters and tells UUIDs apart.
pub proof fn law_uuid_text_identifies(a: Seq<u8>, b: Seq<u8>)
    requires
        a.len() == 16,
        b.len() == 16,
    ensures
        uuid_text(a, 16).len() == 36,
        uuid_text(a, 16) == uuid_text(b, 16) <==> a == b,
{
    lemma_uuid_text_len(a, 16);
    if uuid_text(a, 16) == uuid_text(b, 16) {
        lemma_uuid_text_injective(a, b, 16);
        assert(a.take(16) =~= a);
        assert(b.take(16) =~= b);
    }
}

/// Whether a scalar value is a list of exactly 16 bytes, none of them null.
pub open spec fn is_uuid_storage(value: ScalarValue) -> bool {
    value matches ScalarValue::List(l) && l@.len() == 16 && forall|i: int|
        0 <= i < 16 ==> (#[trigger] l@[i]) matches Some(ScalarValue::Primitive(PValue::U8(_)))
}

/// The bytes of a UUID held as a list.
pub open spec fn uuid_storage(value: ScalarValue) -> Seq<u8> {
    Seq::new(16, |i: int| value->List_0@[i]->Some_0->Primitive_0->U8_0)
}

/// The text of a UUID that is held as a list of 16 bytes; nothing for any other value.
pub fn uuid_stats_string(value: &ScalarValue) -> (r: Option<String>)
    ensures
        r is Some <==> is_uuid_storage(*value),
        r is Some ==> *value is List && value->List_0@.len() == 16,
        r matches Some(text) ==> text@ == uuid_text(uuid_storage(*value), 16),
{
    let elements = match value {
        ScalarValue::List(elements) => elements,
        _ => return None,
    };
    if elements.len() != 16 {
        return None;
    }
    let mut bytes: [u8; 16] = [0u8; 16];
    for i in 0..16usize
        invariant
            *value == ScalarValue::List(*elements),
            elements@.len() == 16,
            bytes@.len() == 16,
            forall|k: int|
                0 <= k < i ==> (#[trigger] elements@[k]) matches Some(
                    ScalarValue::Primitive(PValue::U8(_)),
                ),
            forall|k: int|
                0 <= k < i ==> bytes@[k] == (#[trigger] elements@[k])->Some_0->Primitive_0->U8_0,
    {
        match &elements[i] {
            Some(ScalarValue::Primitive(PValue::U8(b))) => {
                bytes[i] = *b;
            },
            _ => return None,
        }
    }
    assert(bytes@ =~= uuid_storage(*value));
    Some(uuid_bytes_string(&bytes))
}

/// The least and greatest UUID of a column, as far as any was seen.
pub struct UuidStats {
    pub min: Option<[u8; 16]>,
    pub max: Option<[u8; 16]>,
}

/// What a [`UuidStats`] stands for.
pub struct UuidModel {
    pub min: Option<Seq<u8>>,
    pub max: Option<Seq<u8>>,
}

/// The bytes of a UUID that may be missing.
pub open spec fn opt_bytes(value: Option<[u8; 16]>) -> Option<Seq<u8>> {
    match value {
        Some(b) => Some(b@),
        None => None,
    }
}

impl View for UuidStats {
    type V = UuidModel;

    open spec fn view(&self) -> UuidModel {
        UuidModel { min: opt_bytes(self.min), max: opt_bytes(self.max) }
    }
}

/// The lesser of two values, of which a missing one does not count.
pub open spec fn opt_min(a: Option<Seq<u8>>, b: Option<Seq<u8>>) -> Option<Seq<u8>> {
    match (a, b) {
        (Some(x), Some(y)) => if lex_lt(y, x) {
            b
        } else {
            a
        },
        (None, _) => b,
        _ => a,
    }
}

/// The greater of two values, of which a missing one does not count.
pub open spec fn opt_max(a: Option<Seq<u8>>, b: Option<Seq<u8>>) -> Option<Seq<u8>> {
    match (a, b) {
        (Some(x), Some(y)) => if lex_lt(x, y) {
            b
        } else {
            a
        },
        (None, _) => b,
        _ => a,
    }
}

impl UuidModel {
    /// The extrema of no UUIDs.
    pub open spec fn none() -> UuidModel {
        UuidModel { min: None, max: None }
    }

    /// The extrema of two columns together.
    pub open spec fn union(self, other: UuidModel) -> UuidModel {
        UuidModel { min: opt_min(self.min, other.min), max: opt_max(self.max, other.max) }
    }

    /// The extrema with one more UUID.
    pub open spec fn with(self, value: Seq<u8>) -> UuidModel {
        self.union(UuidModel { min: Some(value), max: Some(value) })
    }
}

impl UuidStats {
    /// The extrema of no UUIDs.
    pub fn new() -> (r: Self)
        ensures
            r@ == UuidModel::none(),
    {
        UuidStats { min: None, max: None }
    }

    /// The extrema of two columns together.
    pub fn union(self, other: UuidStats) -> (r: Self)
        ensures
            r@ == self@.union(other@),
    {
        let min = match (self.min, other.min) {
            (Some(ours), Some(theirs)) => if bytes_less(theirs.as_slice(), ours.as_slice()) {
                Some(theirs)
            } else {
                Some(ours)
            },
            (None, theirs) => theirs,
            (ours, None) => ours,
        };
        let max = match (self.max, other.max) {
            (Some(ours), Some(theirs)) => if bytes_less(ours.as_slice(), theirs.as_slice()) {
                Some(theirs)
            } else {
                Some(ours)
            },
            (None, theirs) => theirs,
            (ours, None) => ours,
        };
        UuidStats { min, max }
    }
}

proof fn lemma_opt_commutes(a: Option<Seq<u8>>, b: Option<Seq<u8>>)
    ensures
        opt_min(a, b) == opt_min(b, a),
        opt_max(a, b) == opt_max(b, a),
{
    if let (Some(x), Some(y)) = (a, b) {
        lemma_lex_total(x, y);
        if lex_lt(x, y) {
            lemma_lex_antisymmetric(x, y);
        }
        if lex_lt(y, x) {
            lemma_lex_antisymmetric(y, x);
        }
    }
}

proof fn lemma_opt_associates(a: Option<Seq<u8>>, b: Option<Seq<u8>>, c: Option<Seq<u8>>)
    ensures
        opt_min(opt_min(a, b), c) == opt_min(a, opt_min(b, c)),
        opt_max(opt_max(a, b), c) == opt_max(a, opt_max(b, c)),
{
    if let (Some(x), Some(y), Some(z)) = (a, b, c) {
        lemma_lex_total(x, y);
        lemma_lex_total(y, z);
        lemma_lex_total(x, z);
        lemma_lex_irreflexive(x);
        lemma_lex_irreflexive(y);
        lemma_lex_irreflexive(z);
        if lex_lt(x, y) {
            lemma_lex_antisymmetric(x, y);
            if lex_lt(y, z) {
                lemma_lex_transitive(x, y, z);
            }
        }
        if lex_lt(z, y) && lex_lt(y, x) {
            lemma_lex_transitive(z, y, x);
        }
        if lex_lt(y, z) {
            lemma_lex_antisymmetric(y, z);
        }
        if lex_lt(x, z) {
            lemma_lex_antisymmetric(x, z);
            if lex_lt(z, y) {
                lemma_lex_transitive(x, z, y);
            }
        }
        if lex_lt(y, x) && lex_lt(x, z) {
            lemma_lex_transitive(y, x, z);
        }
        if lex_lt(y, z) && lex_lt(z, x) {
            lemma_lex_transitive(y, z, x);
        }
        if lex_lt(z, x) && lex_lt(x, y) {
            lemma_lex_transitive(z, x, y);
        }
    }
}

/// Joining extrema gives the same in either order.
pub proof fn law_uuid_union_commutes(a: UuidModel, b: UuidModel)
    ensures
        a.union(b) == b.union(a),
{
    lemma_opt_commutes(a.min, b.min);
    lemma_opt_commutes(a.max, b.max);
}

/// Joining extrema gives the same however the columns are grouped.
pub proof fn law_uuid_union_associates(a: UuidModel, b: UuidModel, c: UuidModel)
    ensures
        a.union(b).union(c) == a.union(b.union(c)),
{
    lemma_opt_associates(a.min, b.min, c.min);
    lemma_opt_associates(a.max, b.max, c.max);
}

/// The storage of a UUID array: 16 bytes for each row, big-endian, so that the order of the
/// bytes is the order of the UUIDs.
pub struct UuidStorage {
    /// Whether each row holds a value.
    pub valid: Vec<bool>,
    /// Whether all rows are known to be null without looking at each.
    pub definitely_all_null: bool,
    /// The rows' bytes, one row after the other.
    pub bytes: Vec<u8>,
}

/// A UUID array whose storage has the wrong number of bytes.
#[derive(Clone, Copy, Debug, PartialEq, Eq, Structural)]
pub struct UuidStorageError {
    /// Bytes in the storage.
    pub actual: usize,
    /// Rows in the array, each of which should have 16 bytes.
    pub rows: usize,
}

impl UuidStorage {
    /// The bytes of a row.
    pub open spec fn row(self, i: int) -> Seq<u8> {
        self.bytes@.subrange(i * 16, i * 16 + 16)
    }

    /// Whether there is nothing to look at.
    pub open spec fn skipped(self) -> bool {
        self.valid@.len() == 0 || self.definitely_all_null
    }

    /// Whether looking at the rows fails.
    pub open spec fn malformed(self) -> bool {
        !self.skipped() && self.bytes@.len() != self.valid@.len() * 16
    }
}

/// The extrema after the first `n` rows, of which null ones do not count.
pub open spec fn uuid_scan(acc: UuidModel, storage: UuidStorage, n: nat) -> UuidModel
    decreases n,
{
    if n == 0 {
        acc
    } else {
        let front = uuid_scan(acc, storage, (n - 1) as nat);
        if storage.valid@[n - 1] {
            front.with(storage.row(n - 1))
        } else {
            front
        }
    }
}

/// The extrema after all rows of an array.
pub open spec fn uuid_accumulated(acc: UuidModel, storage: UuidStorage) -> UuidModel {
    if storage.skipped() || storage.malformed() {
        acc
    } else {
        uuid_scan(acc, storage, storage.valid@.len())
    }
}

/// Takes the rows of a UUID array into the extrema.
pub fn accumulate_uuid_stats(acc: &mut UuidStats, storage: &UuidStorage) -> (r: Result<
    (),
    UuidStorageError,
>)
    ensures
        r is Err <==> storage.malformed(),
        r is Err <==> storage.valid@.len() > 0 && !storage.definitely_all_null
            && storage.bytes@.len() != 16 * storage.valid@.len(),
        r is Err || storage.valid@.len() == 0 || storage.definitely_all_null ==> final(acc)@
            == old(acc)@,
        r matches Err(e) ==> e.actual == storage.bytes@.len() && e.rows == storage.valid@.len(),
        final(acc)@ == uuid_accumulated(old(acc)@, *storage),
{
    let len: usize = storage.valid.len();
    if len == 0 || storage.definitely_all_null {
        return Ok(());
    }
    if storage.bytes.len() / 16 != len || storage.bytes.len() % 16 != 0 {
        return Err(UuidStorageError { actual: storage.bytes.len(), rows: len });
    }
    for row in 0..len
        invariant
            len == storage.valid@.len(),
            storage.bytes@.len() == len * 16,
            acc@ == uuid_scan(old(acc)@, *storage, row as nat),
    {
        if storage.valid[row] {
            let mut value: [u8; 16] = [0u8; 16];
            assert(storage.bytes.len() == storage.bytes@.len());
            for i in 0..16usize
                invariant
                    row < len,
                    storage.bytes@.len() == len * 16,
                    storage.bytes@.len() <= usize::MAX,
                    value@.len() == 16,
                    forall|k: int| 0 <= k < i ==> value@[k] == storage.bytes@[row * 16 + k],
            {
                value[i] = storage.bytes[row * 16 + i];
            }
            assert(value@ =~= storage.row(row as int));
            let min = match acc.min {
                Some(min) => if bytes_less(value.as_slice(), min.as_slice()) {
                    value
                } else {
                    min
                },
                None => value,
            };
            let max = match acc.max {
                Some(max) => if bytes_less(max.as_slice(), value.as_slice()) {
                    value
                } else {
                    max
                },
                None => value,
            };
            acc.min = Some(min);
            acc.max = Some(max);
        }
    }
    Ok(())
}

/// Every valid row lies between the extrema that come out.
pub proof fn law_uuid_scan_bounds_rows(acc: UuidModel, storage: UuidStorage, n: nat, row: int)
    requires
        n <= storage.valid@.len(),
        storage.bytes@.len() == storage.valid@.len() * 16,
        0 <= row < n,
        storage.valid@[row],
    ensures
        uuid_scan(acc, storage, n).min matches Some(m) && !lex_lt(storage.row(row), m),
        uuid_scan(acc, storage, n).max matches Some(m) && !lex_lt(m, storage.row(row)),
    decreases n,
{
    let front = uuid_scan(acc, storage, (n - 1) as nat);
    let last = storage.row(n - 1);
    lemma_lex_irreflexive(last);
    if row < n - 1 {
        law_uuid_scan_bounds_rows(acc, storage, (n - 1) as nat, row);
        if storage.valid@[n - 1] {
            let value = storage.row(row);
            let lo = front.min->Some_0;
            let hi = front.max->Some_0;
            lemma_lex_total(lo, value);
            lemma_lex_total(hi, value);
            if lex_lt(last, lo) && lex_lt(value, last) {
                lemma_lex_transitive(value, last, lo);
            }
            if lex_lt(hi, last) && lex_lt(last, value) {
                lemma_lex_transitive(hi, last, value);
            }
        }
    } else {
        if let Some(lo) = front.min {
            lemma_lex_total(lo, last);
        }
        if let Some(hi) = front.max {
            lemma_lex_total(hi, last);
        }
    }
}

/// The text of a UUID has hyphens behind the fourth, sixth, eighth and tenth byte, and each byte
/// as two hexadecimal digits in its place.
pub proof fn law_uuid_text_layout(bytes: Seq<u8>, i: int)
    requires
        bytes.len() == 16,
        0 <= i < 16,
    ensures
        uuid_text(bytes, 16)[8] == '-',
        uuid_text(bytes, 16)[13] == '-',
        uuid_text(bytes, 16)[18] == '-',
        uuid_text(bytes, 16)[23] == '-',
        ({
            let at = 2 * i + (if i >= 10 {
                4int
            } else if i >= 8 {
                3
            } else if i >= 6 {
                2
            } else if i >= 4 {
                1
            } else {
                0
            });
            &&& uuid_text(bytes, 16)[at] == hex_digit(bytes[i] as int / 16)
            &&& uuid_text(bytes, 16)[at + 1] == hex_digit(bytes[i] as int % 16)
        }),
{
    lemma_uuid_text_prefix(bytes, (i + 1) as nat, 16);
    lemma_uuid_text_len(bytes, i as nat);
    lemma_uuid_text_len(bytes, (i + 1) as nat);
    lemma_uuid_hyphen(bytes, 4);
    lemma_uuid_hyphen(bytes, 6);
    lemma_uuid_hyphen(bytes, 8);
    lemma_uuid_hyphen(bytes, 10);
}

proof fn lemma_uuid_hyphen(bytes: Seq<u8>, h: nat)
    requires
        h == 4 || h == 6 || h == 8 || h == 10,
    ensures
        uuid_text(bytes, 16)[2 * h + (h - 4) / 2] == '-',
{
    lemma_uuid_text_prefix(bytes, h + 1, 16);
    lemma_uuid_text_len(bytes, h);
    lemma_uuid_text_len(bytes, h + 1);
    assert(uuid_text(bytes, h + 1)[2 * h + (h - 4) / 2] == '-');
}

proof fn lemma_uuid_text_prefix(bytes: Seq<u8>, m: nat, n: nat)
    requires
        m <= n,
    ensures
        uuid_text(bytes, m).len() <= uuid_text(bytes, n).len(),
        forall|k: int|
            0 <= k < uuid_text(bytes, m).len() ==> uuid_text(bytes, n)[k] == uuid_text(bytes, m)[k],
    decreases n,
{
    if m < n {
        lemma_uuid_text_prefix(bytes, m, (n - 1) as nat);
    }
}

/// A UUID is held as a list of 16 bytes, and these are its bytes in order.
pub proof fn law_uuid_storage_is_the_list(value: ScalarValue, bytes: Seq<u8>)
    requires
        bytes.len() == 16,
        value is List,
        value->List_0@.len() == 16,
        forall|i: int|
            0 <= i < 16 ==> #[trigger] value->List_0@[i] == Some(
                ScalarValue::Primitive(PValue::U8(bytes[i])),
            ),
    ensures
        is_uuid_storage(value),
        uuid_storage(value) == bytes,
{
    assert forall|i: int| 0 <= i < 16 implies (#[trigger] value->List_0@[i]) matches Some(
        ScalarValue::Primitive(PValue::U8(_)),
    ) by {
        assert(value->List_0@[i] == Some(ScalarValue::Primitive(PValue::U8(bytes[i]))));
    }
    assert forall|i: int| 0 <= i < 16 implies uuid_storage(value)[i] == bytes[i] by {
        assert(value->List_0@[i] == Some(ScalarValue::Primitive(PValue::U8(bytes[i]))));
    }
    assert(uuid_storage(value) =~= bytes);
}

/// Of two least UUIDs the one whose bytes come first is the least of both, and of two greatest the
/// other; a missing one does not count.
pub proof fn law_uuid_union_takes_the_outer_bytes(a: UuidModel, b: UuidModel, x: Seq<u8>, y: Seq<u8>)
    ensures
        a.min == Some(x) && b.min == Some(y) && lex_lt(x, y) ==> a.union(b).min == Some(x) && b.union(
            a,
        ).min == Some(x),
        a.max == Some(x) && b.max == Some(y) && lex_lt(x, y) ==> a.union(b).max == Some(y) && b.union(
            a,
        ).max == Some(y),
        a.min == b.min ==> a.union(b).min == a.min,
        a.max == b.max ==> a.union(b).max == a.max,
        a.min is None ==> a.union(b).min == b.min && b.union(a).min == b.min,
        a.max is None ==> a.union(b).max == b.max && b.union(a).max == b.max,
{
    if lex_lt(x, y) {
        lemma_lex_antisymmetric(x, y);
    }
}

/// The extrema that come out were there before or are valid rows: 16 bytes each, one row after the
/// other.
pub proof fn law_uuid_extrema_are_rows(acc: UuidModel, storage: UuidStorage)
    requires
        storage.bytes@.len() == 16 * storage.valid@.len(),
    ensures
        uuid_accumulated(acc, storage).min == acc.min || exists|i: int|
            0 <= i < storage.valid@.len() && #[trigger] storage.valid@[i] && uuid_accumulated(
                acc,
                storage,
            ).min == Some(storage.bytes@.subrange(16 * i, 16 * i + 16)),
        uuid_accumulated(acc, storage).max == acc.max || exists|i: int|
            0 <= i < storage.valid@.len() && #[trigger] storage.valid@[i] && uuid_accumulated(
                acc,
                storage,
            ).max == Some(storage.bytes@.subrange(16 * i, 16 * i + 16)),
{
    lemma_scan_attained(acc, storage, storage.valid@.len());
}

proof fn lemma_scan_attained(acc: UuidModel, storage: UuidStorage, n: nat)
    requires
        n <= storage.valid@.len(),
    ensures
        uuid_scan(acc, storage, n).min == acc.min || exists|i: int|
            0 <= i < n && #[trigger] storage.valid@[i] && uuid_scan(acc, storage, n).min == Some(
                storage.bytes@.subrange(16 * i, 16 * i + 16),
            ),
        uuid_scan(acc, storage, n).max == acc.max || exists|i: int|
            0 <= i < n && #[trigger] storage.valid@[i] && uuid_scan(acc, storage, n).max == Some(
                storage.bytes@.subrange(16 * i, 16 * i + 16),
            ),
    decreases n,
{
    if n > 0 {
        lemma_scan_attained(acc, storage, (n - 1) as nat);
        let i = n - 1;
        assert(storage.row(i) == storage.bytes@.subrange(16 * i, 16 * i + 16));
        if storage.valid@[i] {
            let r = uuid_scan(acc, storage, n);
            assert(r.min == Some(storage.row(i)) || r.min == uuid_scan(
                acc,
                storage,
                (n - 1) as nat,
            ).min);
        }
    }
}

/// No valid row of well-formed storage lies outside the extrema that come out, nor does any of the
/// extrema that were there before.
pub proof fn law_uuid_extrema_enclose_rows(acc: UuidModel, storage: UuidStorage, i: int)
    requires
        storage.bytes@.len() == 16 * storage.valid@.len(),
        !storage.definitely_all_null,
        0 <= i < storage.valid@.len(),
        storage.valid@[i],
    ensures
        uuid_accumulated(acc, storage).min matches Some(m) && !lex_lt(
            storage.bytes@.subrange(16 * i, 16 * i + 16),
            m,
        ),
        uuid_accumulated(acc, storage).max matches Some(m) && !lex_lt(
            m,
            storage.bytes@.subrange(16 * i, 16 * i + 16),
        ),
        acc.min matches Some(x) ==> !lex_lt(x, uuid_accumulated(acc, storage).min->Some_0),
        acc.max matches Some(x) ==> !lex_lt(uuid_accumulated(acc, storage).max->Some_0, x),
{
    let n = storage.valid@.len();
    law_uuid_scan_bounds_rows(acc, storage, n, i);
    assert(storage.row(i) == storage.bytes@.subrange(16 * i, 16 * i + 16));
    lemma_scan_widens(acc, storage, n);
}

proof fn lemma_scan_widens(acc: UuidModel, storage: UuidStorage, n: nat)
    ensures
        acc.min matches Some(x) ==> (uuid_scan(acc, storage, n).min matches Some(m) && !lex_lt(x, m)),
        acc.max matches Some(x) ==> (uuid_scan(acc, storage, n).max matches Some(m) && !lex_lt(m, x)),
    decreases n,
{
    if n > 0 {
        lemma_scan_widens(acc, storage, (n - 1) as nat);
        let front = uuid_scan(acc, storage, (n - 1) as nat);
        let row = storage.row(n - 1);
        if let Some(x) = acc.min {
            let m = front.min->Some_0;
            lemma_lex_total(m, x);
            if lex_lt(row, m) && lex_lt(x, row) {
                lemma_lex_transitive(x, row, m);
            }
        }
        if let Some(x) = acc.max {
            let m = front.max->Some_0;
            if lex_lt(m, row) && lex_lt(row, x) {
                lemma_lex_transitive(m, row, x);
            }
        }
    } else {
        if let Some(x) = acc.min {
            lemma_lex_irreflexive(x);
        }
        if let Some(x) = acc.max {
            lemma_lex_irreflexive(x);
        }
    }
}

/// What extrema stand for are the same bytes, the least as the least.
pub proof fn law_extrema_stand_for_their_bytes(stats: UuidStats)
    ensures
        stats.min is None <==> stats@.min is None,
        stats.max is None <==> stats@.max is None,
        stats.min matches Some(bytes) ==> stats@.min == Some(bytes@),
        stats.max matches Some(bytes) ==> stats@.max == Some(bytes@),
{
}

} // verus!
