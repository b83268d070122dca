//! Minimum and maximum of byte strings that are held as views.

use vstd::prelude::*;
use vstd::utf8::encode_utf8;
use vstd::utf8::valid_utf8;

use crate::bytes::be_value;
use crate::bytes::law_be_value_keeps_order;
use crate::bytes::law_le_value_inverts_le_bytes;
use crate::bytes::le_bytes;
use crate::bytes::le_value;
use crate::bytes::lemma_byte_range_values;
use crate::bytes::lemma_le_bytes_len;
use crate::bytes::push_le;
use crate::bytes::read_be;
use crate::bytes::read_le;
use crate::dtype::DType;
use crate::dtype::Nullability;
use crate::order::bytes_equal;
use crate::order::bytes_less;
use crate::order::lemma_lex_irreflexive;
use crate::order::lemma_lex_transitive;
use crate::order::lex_lt;
use crate::stats::Scalar;
use crate::stats::ScalarModel;
use crate::stats::ScalarValue;
use crate::text::string_from_utf8;

verus! {

/// A byte string in 16 bytes: its length in four bytes, little-endian, and then either the
/// string itself, if it has at most 12 bytes, or its first four bytes, the index of a buffer and
/// the position of the string in it.
#[derive(Clone, Copy, Debug)]
pub struct BinaryView {
    raw: [u8; 16],
}

/// The longest byte string that a view holds itself.
pub const MAX_INLINED_SIZE: usize = 12;

impl View for BinaryView {
    type V = Seq<u8>;

    closed spec fn view(&self) -> Seq<u8> {
        self.raw@
    }
}

/// The number in four bytes of a view from `at` on.
pub open spec fn field(raw: Seq<u8>, at: int) -> nat {
    le_value(raw.subrange(at, at + 4))
}

/// Whether a view's string lies in the buffers, and the bytes it holds itself are right.
pub open spec fn view_wf(raw: Seq<u8>, buffers: Seq<&[u8]>) -> bool {
    &&& raw.len() == 16
    &&& if field(raw, 0) <= 12 {
        forall|i: int| 4 + field(raw, 0) <= i < 8 ==> #[trigger] raw[i] == 0
    } else {
        &&& field(raw, 8) < buffers.len()
        &&& field(raw, 12) + field(raw, 0) <= buffers[field(raw, 8) as int]@.len()
        &&& raw.subrange(4, 8) == buffers[field(raw, 8) as int]@.subrange(
            field(raw, 12) as int,
            (field(raw, 12) + 4) as int,
        )
    }
}

/// The byte string that a view stands for.
pub open spec fn view_value(raw: Seq<u8>, buffers: Seq<&[u8]>) -> Seq<u8> {
    if field(raw, 0) <= 12 {
        raw.subrange(4, (4 + field(raw, 0)) as int)
    } else {
        buffers[field(raw, 8) as int]@.subrange(
            field(raw, 12) as int,
            (field(raw, 12) + field(raw, 0)) as int,
        )
    }
}

/// The bytes of a view of `value`.
pub open spec fn made_view(value: Seq<u8>, buffer_index: u32, offset: u32) -> Seq<u8> {
    le_bytes(value.len(), 4) + (if value.len() <= 12 {
        value + Seq::new((12 - value.len()) as nat, |i: int| 0u8)
    } else {
        value.take(4) + le_bytes(buffer_index as nat, 4) + le_bytes(offset as nat, 4)
    })
}

impl BinaryView {
    /// A view of `value`, which lies in buffer `buffer_index` at `offset` if it has more than 12
    /// bytes.
    pub fn make_view(value: &[u8], buffer_index: u32, offset: u32) -> (r: BinaryView)
        requires
            value@.len() <= u32::MAX,
        ensures
            r@ == made_view(value@, buffer_index, offset),
    {
        let n: usize = value.len();
        let mut out: Vec<u8> = Vec::new();
        push_le(&mut out, n as u64, 4);
        proof {
            lemma_le_bytes_len(n as nat, 4);
            lemma_le_bytes_len(buffer_index as nat, 4);
            lemma_le_bytes_len(offset as nat, 4);
        }
        if n <= 12 {
            out.extend_from_slice(value);
            assert(out@ =~= le_bytes(n as nat, 4) + value@);
            while out.len() < 16
                invariant
                    n == value@.len(),
                    n <= 12,
                    le_bytes(n as nat, 4).len() == 4,
                    4 + n <= out@.len() <= 16,
                    out@ == le_bytes(n as nat, 4) + value@ + Seq::new(
                        (out@.len() - 4 - n) as nat,
                        |i: int| 0u8,
                    ),
                decreases 16 - out@.len(),
            {
                out.push(0);
                assert(out@ =~= le_bytes(n as nat, 4) + value@ + Seq::new(
                    (out@.len() - 4 - n) as nat,
                    |i: int| 0u8,
                ));
            }
        } else {
            out.extend_from_slice(vstd::slice::slice_subrange(value, 0, 4));
            push_le(&mut out, buffer_index as u64, 4);
            push_le(&mut out, offset as u64, 4);
        }
        assert(out@ =~= made_view(value@, buffer_index, offset));
        let mut raw: [u8; 16] = [0u8; 16];
        for i in 0..16usize
            invariant
                out@.len() == 16,
                raw@.len() == 16,
                forall|k: int| 0 <= k < i ==> raw@[k] == out@[k],
        {
            raw[i] = out[i];
        }
        assert(raw@ =~= out@);
        BinaryView { raw }
    }

    /// The byte string that the view stands for.
    pub fn bytes<'a>(&'a self, buffers: &[&'a [u8]]) -> (r: &'a [u8])
        requires
            view_wf(self@, buffers@),
        ensures
            r@ == view_value(self@, buffers@),
    {
        let size: usize = read_le(self.raw.as_slice(), 0, 4) as usize;
        proof {
            lemma_byte_range_values();
            crate::bytes::law_le_bytes_inverts_le_value(self.raw@.subrange(0, 4));
            crate::bytes::law_le_bytes_inverts_le_value(self.raw@.subrange(8, 12));
            crate::bytes::law_le_bytes_inverts_le_value(self.raw@.subrange(12, 16));
        }
        if size <= MAX_INLINED_SIZE {
            vstd::slice::slice_subrange(self.raw.as_slice(), 4, 4 + size)
        } else {
            let index: usize = read_le(self.raw.as_slice(), 8, 4) as usize;
            let offset: usize = read_le(self.raw.as_slice(), 12, 4) as usize;
            let buffer: &'a [u8] = buffers[index];
            assert(buffer@.len() == buffer.len());
            vstd::slice::slice_subrange(buffer, offset, offset + size)
        }
    }
}

/// A view of a string stands for that string, in buffers that hold it where the view says.
pub proof fn law_made_view_stands_for_value(
    value: Seq<u8>,
    buffer_index: u32,
    offset: u32,
    buffers: Seq<&[u8]>,
)
    requires
        value.len() <= u32::MAX,
        value.len() > 12 ==> {
            &&& buffer_index < buffers.len()
            &&& offset + value.len() <= buffers[buffer_index as int]@.len()
            &&& buffers[buffer_index as int]@.subrange(offset as int, (offset + value.len()) as int)
                == value
        },
    ensures
        view_wf(made_view(value, buffer_index, offset), buffers),
        view_value(made_view(value, buffer_index, offset), buffers) == value,
{
    let raw = made_view(value, buffer_index, offset);
    lemma_byte_range_values();
    lemma_le_bytes_len(value.len(), 4);
    lemma_le_bytes_len(buffer_index as nat, 4);
    lemma_le_bytes_len(offset as nat, 4);
    law_le_value_inverts_le_bytes(value.len(), 4);
    law_le_value_inverts_le_bytes(buffer_index as nat, 4);
    law_le_value_inverts_le_bytes(offset as nat, 4);
    assert(raw.subrange(0, 4) =~= le_bytes(value.len(), 4));
    if value.len() <= 12 {
        assert(raw.subrange(4, (4 + value.len()) as int) =~= value);
    } else {
        assert(raw.subrange(8, 12) =~= le_bytes(buffer_index as nat, 4));
        assert(raw.subrange(12, 16) =~= le_bytes(offset as nat, 4));
        let buffer = buffers[buffer_index as int]@;
        let stored = buffer.subrange(offset as int, (offset + value.len()) as int);
        assert(raw.subrange(4, 8) =~= value.take(4));
        assert(stored.take(4) =~= buffer.subrange(offset as int, offset + 4));
    }
}

/// The first `n` bytes of a string, with zeros where it is shorter.
pub open spec fn padded(value: Seq<u8>, n: nat) -> Seq<u8> {
    Seq::new(
        n,
        |i: int|
            if i < value.len() {
                value[i]
            } else {
                0u8
            },
    )
}

/// The number that the first four bytes of a string stand for, most significant first, with
/// zeros where it is shorter.
pub open spec fn key_of(value: Seq<u8>) -> nat {
    be_value(padded(value, 4))
}

/// The key of the string that a view stands for.
pub fn prefix_key(view: &BinaryView) -> (r: u32)
    ensures
        r == be_value(view@.subrange(4, 8)),
{
    proof {
        lemma_byte_range_values();
        crate::bytes::lemma_be_value_bound(view.raw@.subrange(4, 8));
    }
    read_be(view.raw.as_slice(), 4, 4) as u32
}

proof fn lemma_view_key(raw: Seq<u8>, buffers: Seq<&[u8]>)
    requires
        view_wf(raw, buffers),
    ensures
        be_value(raw.subrange(4, 8)) == key_of(view_value(raw, buffers)),
{
    let value = view_value(raw, buffers);
    if field(raw, 0) > 12 {
        let buffer = buffers[field(raw, 8) as int]@;
        let at = field(raw, 12) as int;
        assert forall|i: int| 0 <= i < 4 implies raw.subrange(4, 8)[i] == padded(value, 4)[i] by {
            assert(buffer.subrange(at, at + 4)[i] == value[i]);
        }
    }
    assert(raw.subrange(4, 8) =~= padded(value, 4));
}

proof fn lemma_zeros_least(a: Seq<u8>, n: nat)
    requires
        a.len() == n,
    ensures
        !lex_lt(a, padded(Seq::empty(), n)),
    decreases n,
{
    if n > 0 {
        let zeros = padded(Seq::empty(), n);
        lemma_zeros_least(a.skip(1), (n - 1) as nat);
        assert(zeros.skip(1) =~= padded(Seq::empty(), (n - 1) as nat));
    }
}

proof fn lemma_padded_order(a: Seq<u8>, b: Seq<u8>, n: nat)
    requires
        lex_lt(padded(a, n), padded(b, n)),
    ensures
        lex_lt(a, b),
    decreases n,
{
    if b.len() == 0 {
        assert(padded(b, n) =~= padded(Seq::empty(), n));
        lemma_zeros_least(padded(a, n), n);
    } else if a.len() > 0 && n > 0 && a[0] == b[0] {
        assert(padded(a, n).skip(1) =~= padded(a.skip(1), (n - 1) as nat));
        assert(padded(b, n).skip(1) =~= padded(b.skip(1), (n - 1) as nat));
        lemma_padded_order(a.skip(1), b.skip(1), (n - 1) as nat);
    }
}

/// Different keys order as the strings do.
pub proof fn law_keys_order_values(a: Seq<u8>, b: Seq<u8>)
    requires
        key_of(a) < key_of(b),
    ensures
        lex_lt(a, b),
{
    law_be_value_keeps_order(padded(a, 4), padded(b, 4));
    lemma_padded_order(a, b, 4);
}

/// Whether `a`'s string comes before `b`'s, where `a_key` and `b_key` are the views' keys.
fn view_less(a: &BinaryView, a_key: u32, b: &BinaryView, b_key: u32, buffers: &[&[u8]]) -> (r: bool)
    requires
        view_wf(a@, buffers@),
        view_wf(b@, buffers@),
        a_key == be_value(a@.subrange(4, 8)),
        b_key == be_value(b@.subrange(4, 8)),
    ensures
        r == lex_lt(view_value(a@, buffers@), view_value(b@, buffers@)),
{
    let ghost x = view_value(a@, buffers@);
    let ghost y = view_value(b@, buffers@);
    proof {
        lemma_view_key(a@, buffers@);
        lemma_view_key(b@, buffers@);
        if a_key < b_key {
            law_keys_order_values(x, y);
        } else if b_key < a_key {
            law_keys_order_values(y, x);
            crate::order::lemma_lex_antisymmetric(y, x);
        }
        lemma_lex_irreflexive(x);
    }
    if a_key != b_key {
        return a_key < b_key;
    }
    if bytes_equal(a.raw.as_slice(), b.raw.as_slice()) {
        return false;
    }
    bytes_less(a.bytes(buffers), b.bytes(buffers))
}

/// The views of the least and the greatest string; nothing if there are no views.
#[verifier::rlimit(40)]
pub fn view_extrema<'a>(views: &[&'a BinaryView], buffers: &[&[u8]]) -> (r: Option<
    (&'a BinaryView, &'a BinaryView),
>)
    requires
        forall|i: int| 0 <= i < views@.len() ==> view_wf((#[trigger] views@[i])@, buffers@),
    ensures
        r is None <==> views@.len() == 0,
        r matches Some((min, max)) ==> {
            &&& exists|i: int| 0 <= i < views@.len() && (#[trigger] views@[i])@ == min@
            &&& exists|i: int| 0 <= i < views@.len() && (#[trigger] views@[i])@ == max@
            &&& forall|i: int|
                0 <= i < views@.len() ==> {
                    &&& !lex_lt(
                        view_value((#[trigger] views@[i])@, buffers@),
                        view_value(min@, buffers@),
                    )
                    &&& !lex_lt(view_value(max@, buffers@), view_value(views@[i]@, buffers@))
                }
        },
{
    if views.len() == 0 {
        return None;
    }
    let mut min: &'a BinaryView = views[0];
    let mut max: &'a BinaryView = views[0];
    let mut min_key: u32 = prefix_key(min);
    let mut max_key: u32 = min_key;
    let ghost mut min_at: int = 0;
    let ghost mut max_at: int = 0;
    proof {
        lemma_lex_irreflexive(view_value(min@, buffers@));
    }
    for i in 1..views.len()
        invariant
            views@.len() > 0,
            forall|k: int| 0 <= k < views@.len() ==> view_wf((#[trigger] views@[k])@, buffers@),
            0 <= min_at < views@.len(),
            0 <= max_at < views@.len(),
            views@[min_at]@ == min@,
            views@[max_at]@ == max@,
            min_key == be_value(min@.subrange(4, 8)),
            max_key == be_value(max@.subrange(4, 8)),
            forall|k: int|
                0 <= k < i ==> {
                    &&& !lex_lt(
                        view_value((#[trigger] views@[k])@, buffers@),
                        view_value(min@, buffers@),
                    )
                    &&& !lex_lt(view_value(max@, buffers@), view_value(views@[k]@, buffers@))
                },
    {
        let view: &'a BinaryView = views[i];
        let key: u32 = prefix_key(view);
        let ghost old_min = view_value(min@, buffers@);
        let ghost old_max = view_value(max@, buffers@);
        let ghost this = view_value(view@, buffers@);
        if view_less(view, key, min, min_key, buffers) {
            min = view;
            min_key = key;
            proof {
                min_at = i as int;
            }
        }
        if view_less(max, max_key, view, key, buffers) {
            max = view;
            max_key = key;
            proof {
                max_at = i as int;
            }
        }
        proof {
            lemma_lex_irreflexive(this);
            assert forall|k: int| 0 <= k < i + 1 implies {
                &&& !lex_lt(
                    view_value((#[trigger] views@[k])@, buffers@),
                    view_value(min@, buffers@),
                )
                &&& !lex_lt(view_value(max@, buffers@), view_value(views@[k]@, buffers@))
            } by {
                let value = view_value(views@[k]@, buffers@);
                if k < i {
                    if lex_lt(this, old_min) && lex_lt(value, this) {
                        lemma_lex_transitive(value, this, old_min);
                    }
                    if lex_lt(old_max, this) && lex_lt(this, value) {
                        lemma_lex_transitive(old_max, this, value);
                    }
                }
            }
        }
    }
    Some((min, max))
}

/// The least and the greatest value of an array.
#[derive(Debug, PartialEq)]
pub struct MinMaxResult {
    pub min: Scalar,
    pub max: Scalar,
}

/// Whether a scalar holds the bytes as a value of the type, in its form without nulls.
pub open spec fn holds_bytes(dtype: DType, value: Seq<u8>, scalar: Scalar) -> bool {
    match dtype {
        DType::Binary(_) => {
            &&& scalar.dtype == DType::Binary(Nullability::NonNullable)
            &&& scalar.value matches ScalarValue::Binary(bytes)
            &&& bytes@ == value
        },
        DType::Utf8(_) => {
            &&& scalar.dtype == DType::Utf8(Nullability::NonNullable)
            &&& scalar.value matches ScalarValue::Utf8(text)
            &&& encode_utf8(text@) == value
        },
        _ => false,
    }
}

/// Whether the bytes are a value of the type.
pub open spec fn is_value_of(dtype: DType, value: Seq<u8>) -> bool {
    dtype is Binary || (dtype is Utf8 && valid_utf8(value))
}

/// The bytes as a value of the type, in its form without nulls.
pub fn make_scalar(dtype: &DType, value: &[u8]) -> (r: Scalar)
    requires
        is_value_of(*dtype, value@),
    ensures
        holds_bytes(*dtype, value@, r),
        *dtype is Binary ==> r.dtype == DType::Binary(Nullability::NonNullable) && (
        r.value matches ScalarValue::Binary(bytes) && bytes@ == value@),
        *dtype is Utf8 ==> r.dtype == DType::Utf8(Nullability::NonNullable) && (
        r.value matches ScalarValue::Utf8(text) && encode_utf8(text@) == value@),
{
    if let DType::Utf8(_) = dtype {
        if let Some(text) = string_from_utf8(value) {
            return Scalar {
                dtype: DType::Utf8(Nullability::NonNullable),
                value: ScalarValue::Utf8(text),
            };
        }
    }
    let mut bytes: Vec<u8> = Vec::new();
    bytes.extend_from_slice(value);
    assert(bytes@ =~= value@);
    Scalar { dtype: DType::Binary(Nullability::NonNullable), value: ScalarValue::Binary(bytes) }
}

/// The least and greatest value among the valid rows of an array; nothing if there are none.
#[verifier::rlimit(40)]
pub fn varbin_compute_min_max(
    views: &[BinaryView],
    valid: &[bool],
    buffers: &[&[u8]],
    dtype: &DType,
) -> (r: Option<MinMaxResult>)
    requires
        views@.len() == valid@.len(),
        forall|i: int|
            0 <= i < views@.len() && valid@[i] ==> view_wf((#[trigger] views@[i])@, buffers@)
                && is_value_of(*dtype, view_value(views@[i]@, buffers@)),
    ensures
        r is None <==> forall|i: int| 0 <= i < valid@.len() ==> !#[trigger] valid@[i],
        r matches Some(result) ==> {
            &&& exists|i: int|
                0 <= i < views@.len() && valid@[i] && holds_bytes(
                    *dtype,
                    view_value((#[trigger] views@[i])@, buffers@),
                    result.min,
                ) && (forall|k: int|
                    0 <= k < views@.len() && valid@[k] ==> !lex_lt(
                        view_value((#[trigger] views@[k])@, buffers@),
                        view_value(views@[i]@, buffers@),
                    ))
            &&& exists|i: int|
                0 <= i < views@.len() && valid@[i] && holds_bytes(
                    *dtype,
                    view_value((#[trigger] views@[i])@, buffers@),
                    result.max,
                ) && (forall|k: int|
                    0 <= k < views@.len() && valid@[k] ==> !lex_lt(
                        view_value(views@[i]@, buffers@),
                        view_value((#[trigger] views@[k])@, buffers@),
                    ))
        },
{
    let mut kept: Vec<&BinaryView> = Vec::new();
    let ghost mut origin: Seq<int> = seq![];
    for i in 0..views.len()
        invariant
            views@.len() == valid@.len(),
            kept@.len() == origin.len(),
            forall|j: int|
                0 <= j < kept@.len() ==> 0 <= #[trigger] origin[j] < i && valid@[origin[j]]
                    && *kept@[j] == views@[origin[j]],
            forall|k: int| 0 <= k < i && #[trigger] valid@[k] ==> origin.contains(k),
    {
        if valid[i] {
            let ghost before = origin;
            kept.push(&views[i]);
            proof {
                origin = origin.push(i as int);
                assert forall|k: int| 0 <= k < i + 1 && #[trigger] valid@[k] implies origin.contains(
                    k,
                ) by {
                    if k < i {
                        let j = choose|j: int| 0 <= j < before.len() && before[j] == k;
                        assert(origin[j] == k);
                    } else {
                        assert(origin[before.len() as int] == k);
                    }
                }
            }
        }
    }
    proof {
        assert forall|j: int| 0 <= j < kept@.len() implies view_wf(
            (#[trigger] kept@[j])@,
            buffers@,
        ) by {
            assert(view_wf(views@[origin[j]]@, buffers@));
        }
    }
    match view_extrema(kept.as_slice(), buffers) {
        None => {
            proof {
                assert forall|i: int| 0 <= i < valid@.len() implies !#[trigger] valid@[i] by {
                    if valid@[i] {
                        assert(origin.contains(i));
                    }
                }
            }
            None
        },
        Some((min, max)) => {
            let ghost a = choose|j: int| 0 <= j < kept@.len() && (#[trigger] kept@[j])@ == min@;
            let ghost b = choose|j: int| 0 <= j < kept@.len() && (#[trigger] kept@[j])@ == max@;
            proof {
                assert(view_wf(views@[origin[a]]@, buffers@));
                assert(view_wf(views@[origin[b]]@, buffers@));
                assert forall|k: int| 0 <= k < views@.len() && valid@[k] implies {
                    &&& !lex_lt(
                        view_value((#[trigger] views@[k])@, buffers@),
                        view_value(min@, buffers@),
                    )
                    &&& !lex_lt(view_value(max@, buffers@), view_value(views@[k]@, buffers@))
                } by {
                    assert(origin.contains(k));
                    let j = choose|j: int| 0 <= j < origin.len() && origin[j] == k;
                    assert(*kept@[j] == views@[origin[j]]);
                }
            }
            let min_value = make_scalar(dtype, min.bytes(buffers));
            let max_value = make_scalar(dtype, max.bytes(buffers));
            Some(MinMaxResult { min: min_value, max: max_value })
        },
    }
}

/// A view is 16 bytes: the length of the string in the first four, and then the string itself and
/// zeros if it has at most 12 bytes, or else its first four bytes, the index of the buffer and the
/// position in it, four bytes each. Numbers have their lowest byte first.
pub proof fn law_view_layout(value: Seq<u8>, buffer_index: u32, offset: u32)
    requires
        value.len() <= u32::MAX,
    ensures
        ({
            let raw = made_view(value, buffer_index, offset);
            &&& raw.len() == 16
            &&& le_value(raw.subrange(0, 4)) == value.len()
            &&& value.len() <= 12 ==> {
                &&& raw.subrange(4, 4 + value.len() as int) == value
                &&& forall|i: int| 4 + value.len() <= i < 16 ==> raw[i] == 0
            }
            &&& value.len() > 12 ==> {
                &&& raw.subrange(4, 8) == value.subrange(0, 4)
                &&& le_value(raw.subrange(8, 12)) == buffer_index
                &&& le_value(raw.subrange(12, 16)) == offset
            }
        }),
{
    let raw = made_view(value, buffer_index, offset);
    lemma_byte_range_values();
    lemma_le_bytes_len(value.len(), 4);
    lemma_le_bytes_len(buffer_index as nat, 4);
    lemma_le_bytes_len(offset as nat, 4);
    law_le_value_inverts_le_bytes(value.len(), 4);
    law_le_value_inverts_le_bytes(buffer_index as nat, 4);
    law_le_value_inverts_le_bytes(offset as nat, 4);
    assert(raw.subrange(0, 4) =~= le_bytes(value.len(), 4));
    if value.len() <= 12 {
        assert(raw.subrange(4, 4 + value.len() as int) =~= value);
    } else {
        assert(raw.subrange(4, 8) =~= value.subrange(0, 4));
        assert(raw.subrange(8, 12) =~= le_bytes(buffer_index as nat, 4));
        assert(raw.subrange(12, 16) =~= le_bytes(offset as nat, 4));
    }
}

/// The string of a view: a length up to 12 says how many of the bytes behind it are the string,
/// and a longer one how much of the buffer is, at the position that the view gives.
pub proof fn law_view_value_is_where_the_view_says(raw: Seq<u8>, buffers: Seq<&[u8]>)
    requires
        view_wf(raw, buffers),
    ensures
        ({
            let len = le_value(raw.subrange(0, 4)) as int;
            let index = le_value(raw.subrange(8, 12)) as int;
            let at = le_value(raw.subrange(12, 16)) as int;
            &&& raw.len() == 16
            &&& len <= 12 ==> view_value(raw, buffers) == raw.subrange(4, 4 + len)
            &&& len > 12 ==> view_value(raw, buffers) == buffers[index]@.subrange(at, at + len)
            &&& len > 12 ==> raw.subrange(4, 8) == view_value(raw, buffers).subrange(0, 4)
            &&& view_value(raw, buffers).len() == len
        }),
{
    let len = le_value(raw.subrange(0, 4)) as int;
    let at = le_value(raw.subrange(12, 16)) as int;
    if len > 12 {
        let buffer = buffers[le_value(raw.subrange(8, 12)) as int]@;
        assert(buffer.subrange(at, at + len).subrange(0, 4) =~= buffer.subrange(at, at + 4));
    }
}

/// The key of a string is the number of its first four bytes, the first counting most; a shorter
/// string has zeros in place of what it lacks.
pub proof fn law_key_is_the_first_four_bytes(value: Seq<u8>)
    ensures
        ({
            let byte = |i: int|
                if i < value.len() {
                    value[i] as nat
                } else {
                    0
                };
            key_of(value) == 0x100_0000 * byte(0) + 0x1_0000 * byte(1) + 0x100 * byte(2) + byte(3)
        }),
{
    let four = padded(value, 4);
    reveal_with_fuel(be_value, 5);
    assert(four.drop_last().drop_last().drop_last().drop_last().len() == 0);
}

/// A scalar that holds bytes is of the type without nulls, with the bytes as they are or as the
/// string whose UTF-8 they are. Only strings and bytes have such values.
pub proof fn law_scalars_hold_their_bytes(dtype: DType, value: Seq<u8>, scalar: Scalar)
    requires
        holds_bytes(dtype, value, scalar),
    ensures
        dtype is Binary || dtype is Utf8,
        dtype is Binary ==> scalar.dtype == DType::Binary(Nullability::NonNullable) && scalar.value@
            == ScalarModel::Binary(value),
        dtype is Utf8 ==> scalar.dtype == DType::Utf8(Nullability::NonNullable) && (
        scalar.value@ matches ScalarModel::Utf8(text) && encode_utf8(text) == value),
{
}

} // verus!
