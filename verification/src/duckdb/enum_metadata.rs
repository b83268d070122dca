//! The names of an ENUM's members as bytes: for each a little-endian length and its UTF-8.

use vstd::prelude::*;
use vstd::utf8::decode_utf8;
use vstd::utf8::encode_utf8;
use vstd::utf8::valid_utf8;

use crate::bytes::law_le_bytes_inverts_le_value;
use crate::bytes::law_le_value_inverts_le_bytes;
use crate::bytes::le_bytes;
use crate::bytes::le_value;
use crate::bytes::lemma_byte_range_values;
use crate::bytes::lemma_le_bytes_len;
use crate::bytes::push_le;
use crate::bytes::read_le;
use crate::text::decimal_text;
use crate::text::push_decimal;
use crate::text::string_from_utf8;

verus! {

/// The names of an ENUM's members.
#[derive(Clone, Debug, Default, PartialEq, Eq, Hash)]
pub struct EnumMetadata {
    pub names: Vec<String>,
}

impl View for EnumMetadata {
    type V = Seq<Seq<char>>;

    open spec fn view(&self) -> Seq<Seq<char>> {
        self.names@.map_values(|s: String| s@)
    }
}

/// Why bytes hold no member names.
#[derive(Clone, Copy, Debug, PartialEq, Eq, Structural)]
pub enum EnumMetadataError {
    /// They end inside a length.
    Truncated,
    /// They end inside a name.
    TruncatedName,
    /// A name is not UTF-8.
    NameNotUtf8,
}

/// The length in front of a name of `n` bytes.
pub open spec fn name_len(n: nat) -> nat {
    if n <= u32::MAX {
        n
    } else {
        u32::MAX as nat
    }
}

/// A name as bytes.
pub open spec fn encoded_name(name: Seq<char>) -> Seq<u8> {
    le_bytes(name_len(encode_utf8(name).len()), 4) + encode_utf8(name)
}

/// Names as bytes, one after the other.
pub open spec fn encoded(names: Seq<Seq<char>>) -> Seq<u8>
    decreases names.len(),
{
    if names.len() == 0 {
        seq![]
    } else {
        encoded_name(names[0]) + encoded(names.skip(1))
    }
}

/// The names that bytes hold, or the first fault in them.
pub open spec fn decoded(data: Seq<u8>) -> Result<Seq<Seq<char>>, EnumMetadataError>
    decreases data.len(),
{
    if data.len() == 0 {
        Ok(seq![])
    } else if data.len() < 4 {
        Err(EnumMetadataError::Truncated)
    } else {
        let len = le_value(data.take(4));
        if 4 + len > data.len() {
            Err(EnumMetadataError::TruncatedName)
        } else {
            let name = data.subrange(4, (4 + len) as int);
            if !valid_utf8(name) {
                Err(EnumMetadataError::NameNotUtf8)
            } else {
                prepended(seq![decode_utf8(name)], decoded(data.skip((4 + len) as int)))
            }
        }
    }
}

/// More names in front of those that were read.
pub open spec fn prepended(
    names: Seq<Seq<char>>,
    rest: Result<Seq<Seq<char>>, EnumMetadataError>,
) -> Result<Seq<Seq<char>>, EnumMetadataError> {
    match rest {
        Ok(rest) => Ok(names + rest),
        Err(e) => Err(e),
    }
}

proof fn lemma_encoded_push(names: Seq<Seq<char>>, name: Seq<char>)
    ensures
        encoded(names.push(name)) == encoded(names) + encoded_name(name),
    decreases names.len(),
{
    if names.len() > 0 {
        lemma_encoded_push(names.skip(1), name);
        assert(names.push(name).skip(1) =~= names.skip(1).push(name));
        assert(encoded(names.push(name)) =~= encoded(names) + encoded_name(name));
    } else {
        assert(names.push(name).skip(1) =~= Seq::<Seq<char>>::empty());
        assert(encoded(Seq::<Seq<char>>::empty()) =~= Seq::<u8>::empty());
        assert(names =~= Seq::<Seq<char>>::empty());
        assert(encoded(names.push(name)) =~= encoded_name(name));
        assert(encoded(names) + encoded_name(name) =~= encoded_name(name));
    }
}

impl EnumMetadata {
    /// The names as bytes. The length of a name saturates at `u32::MAX`.
    pub fn encode(&self) -> (r: Vec<u8>)
        ensures
            r@ == encoded(self@),
    {
        let mut out: Vec<u8> = Vec::new();
        assert(encoded(self@.take(0)) =~= Seq::<u8>::empty());
        for i in 0..self.names.len()
            invariant
                out@ == encoded(self@.take(i as int)),
        {
            let bytes = self.names[i].as_str().as_bytes();
            let len: u64 = if bytes.len() as u64 > 0xffff_ffff {
                0xffff_ffff
            } else {
                bytes.len() as u64
            };
            let ghost before = out@;
            push_le(&mut out, len, 4);
            out.extend_from_slice(bytes);
            proof {
                let name = self@[i as int];
                assert(bytes@ == encode_utf8(name));
                lemma_encoded_push(self@.take(i as int), name);
                assert(self@.take(i as int).push(name) =~= self@.take(i + 1));
                assert(out@ =~= before + encoded_name(name));
            }
        }
        assert(self@.take(self@.len() as int) =~= self@);
        out
    }

    /// The names that bytes hold.
    #[verifier::rlimit(40)]
    pub fn decode(data: &[u8]) -> (r: Result<EnumMetadata, EnumMetadataError>)
        ensures
            match decoded(data@) {
                Ok(names) => r matches Ok(metadata) && metadata@ == names,
                Err(e) => r == Err::<EnumMetadata, _>(e),
            },
    {
        let mut names: Vec<String> = Vec::new();
        let mut i: usize = 0;
        let ghost read: Seq<Seq<char>> = seq![];
        assert(data@.skip(0) =~= data@);
        proof {
            if decoded(data@) is Ok {
                assert(seq![] + decoded(data@)->Ok_0 =~= decoded(data@)->Ok_0);
            }
        }
        while i < data.len()
            invariant
                i <= data@.len(),
                read == names@.map_values(|s: String| s@),
                decoded(data@) == prepended(read, decoded(data@.skip(i as int))),
            decreases data@.len() - i,
        {
            let ghost rest = data@.skip(i as int);
            let left: usize = data.len() - i;
            if left < 4 {
                return Err(EnumMetadataError::Truncated);
            }
            let len: u64 = read_le(data, i, 4);
            proof {
                assert(data@.subrange(i as int, i + 4) =~= rest.take(4));
                law_le_bytes_inverts_le_value(rest.take(4));
                lemma_byte_range_values();
            }
            if len > (left - 4) as u64 {
                return Err(EnumMetadataError::TruncatedName);
            }
            let start: usize = i + 4;
            let end: usize = start + len as usize;
            let bytes = vstd::slice::slice_subrange(data, start, end);
            assert(bytes@ =~= rest.subrange(4, (4 + len) as int));
            let name = match string_from_utf8(bytes) {
                Some(name) => name,
                None => return Err(EnumMetadataError::NameNotUtf8),
            };
            proof {
                vstd::utf8::encode_utf8_decode_utf8(name@);
                assert(name@ == decode_utf8(bytes@));
                assert(rest.skip((4 + len) as int) =~= data@.skip(end as int));
                if let Ok(later) = decoded(data@.skip(end as int)) {
                    assert(read + (seq![name@] + later) =~= read.push(name@) + later);
                }
                read = read.push(name@);
            }
            i = end;
            let ghost before = names@;
            names.push(name);
            assert(names@.map_values(|s: String| s@) =~= before.map_values(|s: String| s@).push(
                name@,
            ));
        }
        proof {
            assert(data@.skip(i as int) =~= Seq::<u8>::empty());
            assert(read + seq![] =~= read);
        }
        Ok(EnumMetadata { names })
    }

    /// The number of members in words.
    pub fn display(&self) -> (r: String)
        ensures
            r@ == decimal_text(self@.len()) + " members"@,
    {
        let mut out = String::new();
        push_decimal(&mut out, self.names.len() as u64);
        out.append(" members");
        assert(out@ =~= decimal_text(self@.len()) + " members"@);
        out
    }
}

/// Names read back as they were written, if each is shorter than 4 GiB.
pub proof fn law_decoding_inverts_encoding(names: Seq<Seq<char>>)
    requires
        forall|i: int| 0 <= i < names.len() ==> encode_utf8(#[trigger] names[i]).len() <= u32::MAX,
    ensures
        decoded(encoded(names)) == Ok::<Seq<Seq<char>>, EnumMetadataError>(names),
    decreases names.len(),
{
    if names.len() > 0 {
        let name = names[0];
        let bytes = encode_utf8(name);
        let n = bytes.len();
        assert(encode_utf8(names[0]).len() <= u32::MAX);
        let rest = names.skip(1);
        assert forall|i: int| 0 <= i < rest.len() implies encode_utf8(#[trigger] rest[i]).len()
            <= u32::MAX by {
            assert(rest[i] == names[i + 1]);
        }
        law_decoding_inverts_encoding(rest);
        let data = encoded(names);
        lemma_le_bytes_len(n, 4);
        lemma_byte_range_values();
        law_le_value_inverts_le_bytes(n, 4);
        assert(data.take(4) =~= le_bytes(n, 4));
        assert(data.subrange(4, (4 + n) as int) =~= bytes);
        assert(data.skip((4 + n) as int) =~= encoded(rest));
        vstd::utf8::encode_utf8_valid_utf8(name);
        vstd::utf8::encode_utf8_decode_utf8(name);
        assert(seq![name] + rest =~= names);
    } else {
        assert(encoded(names) =~= Seq::<u8>::empty());
        assert(names =~= Seq::<Seq<char>>::empty());
    }
}

/// Bytes that can be read are written back as they were.
pub proof fn law_encoding_inverts_decoding(data: Seq<u8>)
    requires
        decoded(data) is Ok,
    ensures
        encoded(decoded(data)->Ok_0) == data,
    decreases data.len(),
{
    if data.len() > 0 {
        let len = le_value(data.take(4));
        let bytes = data.subrange(4, (4 + len) as int);
        let rest = data.skip((4 + len) as int);
        law_encoding_inverts_decoding(rest);
        law_le_bytes_inverts_le_value(data.take(4));
        lemma_byte_range_values();
        vstd::utf8::decode_utf8_encode_utf8(bytes);
        let names = decoded(data)->Ok_0;
        assert(names == seq![decode_utf8(bytes)] + decoded(rest)->Ok_0);
        assert(names.skip(1) =~= decoded(rest)->Ok_0);
        assert(encode_utf8(names[0]) == bytes);
        assert(encoded(names) =~= data);
    } else {
        assert(decoded(data)->Ok_0 =~= Seq::<Seq<char>>::empty());
        assert(encoded(Seq::<Seq<char>>::empty()) =~= data);
    }
}

/// A name is written as the length of its UTF-8 in four bytes, the lowest first, and then that
/// UTF-8; a length that four bytes cannot hold is written as the greatest that they can. Several
/// names are written one after the other.
pub proof fn law_encoding_layout(a: Seq<Seq<char>>, b: Seq<Seq<char>>, name: Seq<char>)
    ensures
        encoded(Seq::empty()) == Seq::<u8>::empty(),
        encoded(a + b) == encoded(a) + encoded(b),
        encoded(seq![name]).len() == 4 + encode_utf8(name).len(),
        encoded(seq![name]).skip(4) == encode_utf8(name),
        encode_utf8(name).len() <= u32::MAX ==> le_value(encoded(seq![name]).take(4)) == encode_utf8(
            name,
        ).len(),
        encode_utf8(name).len() > u32::MAX ==> le_value(encoded(seq![name]).take(4)) == u32::MAX,
    decreases b.len(),
{
    let none = Seq::<Seq<char>>::empty();
    let n = name_len(encode_utf8(name).len());
    assert(encoded(none) =~= Seq::<u8>::empty());
    lemma_encoded_push(none, name);
    assert(none.push(name) =~= seq![name]);
    assert(encoded(seq![name]) =~= encoded_name(name));
    lemma_le_bytes_len(n, 4);
    lemma_byte_range_values();
    law_le_value_inverts_le_bytes(n, 4);
    assert(encoded_name(name).take(4) =~= le_bytes(n, 4));
    assert(encoded_name(name).skip(4) =~= encode_utf8(name));
    if b.len() > 0 {
        law_encoding_layout(a, b.drop_last(), name);
        lemma_encoded_push(a + b.drop_last(), b.last());
        lemma_encoded_push(b.drop_last(), b.last());
        assert((a + b.drop_last()).push(b.last()) =~= a + b);
        assert(b.drop_last().push(b.last()) =~= b);
        assert(encoded(a + b) =~= encoded(a) + encoded(b));
    } else {
        assert(a + b =~= a);
        assert(b =~= none);
        assert(encoded(a + b) =~= encoded(a) + encoded(b));
    }
}

/// Bytes behind whole names are looked at alone: one to three bytes are a truncated length, a
/// length that reaches past the end is a truncated name, and a name that is not UTF-8 is a fault
/// too, unless there is one before it.
pub proof fn law_decoding_finds_the_first_fault(names: Seq<Seq<char>>, tail: Seq<u8>)
    requires
        forall|i: int| 0 <= i < names.len() ==> encode_utf8(#[trigger] names[i]).len() <= u32::MAX,
    ensures
        1 <= tail.len() < 4 ==> decoded(encoded(names) + tail) == Err::<Seq<Seq<char>>, _>(
            EnumMetadataError::Truncated,
        ),
        tail.len() >= 4 && 4 + le_value(tail.take(4)) > tail.len() ==> decoded(encoded(names) + tail)
            == Err::<Seq<Seq<char>>, _>(EnumMetadataError::TruncatedName),
        tail.len() >= 4 && 4 + le_value(tail.take(4)) <= tail.len() && !valid_utf8(
            tail.subrange(4, 4 + le_value(tail.take(4)) as int),
        ) ==> decoded(encoded(names) + tail) == Err::<Seq<Seq<char>>, _>(
            EnumMetadataError::NameNotUtf8,
        ),
        decoded(encoded(names) + tail) is Ok <==> decoded(tail) is Ok,
    decreases names.len(),
{
    if names.len() > 0 {
        let name = names[0];
        let bytes = encode_utf8(name);
        let n = bytes.len();
        assert(encode_utf8(names[0]).len() <= u32::MAX);
        let rest = names.skip(1);
        assert forall|i: int| 0 <= i < rest.len() implies encode_utf8(#[trigger] rest[i]).len()
            <= u32::MAX by {
            assert(rest[i] == names[i + 1]);
        }
        law_decoding_finds_the_first_fault(rest, tail);
        let data = encoded(names) + tail;
        lemma_le_bytes_len(n, 4);
        lemma_byte_range_values();
        law_le_value_inverts_le_bytes(n, 4);
        assert(data.take(4) =~= le_bytes(n, 4));
        assert(data.subrange(4, (4 + n) as int) =~= bytes);
        assert(data.skip((4 + n) as int) =~= encoded(rest) + tail);
        vstd::utf8::encode_utf8_valid_utf8(name);
    } else {
        assert(encoded(names) + tail =~= tail);
    }
}

} // verus!
