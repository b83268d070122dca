//! Byte strings of up to eight bytes packed into integers.

use vstd::arithmetic::power::pow;
use vstd::prelude::*;

use crate::bytes::byte_range;
use crate::bytes::law_byte_range_is_a_power;
use crate::bytes::law_le_bytes_inverts_le_value;
use crate::bytes::le_value;
use crate::bytes::lemma_byte_range_product;
use crate::bytes::read_le;

verus! {

/// Tokens up to this length are found by their bytes; longer ones are grouped by as many of
/// their first bytes.
pub const PREFIX_LEN: usize = 8;

/// The length of the longest tokens.
pub const MAX_TOKEN: usize = 16;

/// The length of the longest tokens past their prefix.
pub const MAX_SUFFIX: usize = 8;

/// The lesser of two numbers.
pub open spec fn min2(a: nat, b: nat) -> nat {
    if a <= b {
        a
    } else {
        b
    }
}

/// The first up to 8 bytes of a byte string.
pub open spec fn low_bytes(data: Seq<u8>) -> Seq<u8> {
    data.take(min2(data.len(), 8) as int)
}

/// The next up to 8 bytes after the first 8.
pub open spec fn high_bytes(data: Seq<u8>) -> Seq<u8> {
    if data.len() <= 8 {
        seq![]
    } else {
        data.subrange(8, min2(data.len(), 16) as int)
    }
}

/// Packs the first up to 16 bytes of `data` into two integers, least significant byte first.
pub fn load_window(data: &[u8]) -> (r: (u64, u64))
    requires
        data@.len() > 0,
    ensures
        r.0 as nat == le_value(low_bytes(data@)),
        r.1 as nat == le_value(high_bytes(data@)),
        data@.len() <= 8 ==> r.0 == le_value(data@) && r.1 == 0,
        data@.len() > 8 ==> r.0 == le_value(data@.subrange(0, 8)),
        8 < data@.len() <= 16 ==> r.1 == le_value(data@.subrange(8, data@.len() as int)),
        data@.len() > 16 ==> r.1 == le_value(data@.subrange(8, 16)),
{
    let n: usize = data.len();
    let low: usize = if n < 8 {
        n
    } else {
        8
    };
    let lo: u64 = read_le(data, 0, low);
    assert(data@.subrange(0, low as int) =~= low_bytes(data@));
    let hi: u64 = if n <= 8 {
        0
    } else if n >= 16 {
        read_le(data, 8, 8)
    } else {
        read_le(data, 8, n - 8)
    };
    assert(le_value(Seq::<u8>::empty()) == 0);
    assert(n <= 8 ==> data@.subrange(0, low as int) =~= data@);
    (lo, hi)
}

/// Packs the first `min(len, data.len(), 8)` bytes of `data` into an integer, least significant
/// byte first.
pub fn load_le_u64(data: &[u8], len: usize) -> (r: u64)
    ensures
        r as nat == le_value(data@.take(min2(min2(len as nat, data@.len()), 8) as int)),
        len <= data@.len() && len <= 8 ==> r == le_value(data@.take(len as int)),
        data@.len() <= len && data@.len() <= 8 ==> r == le_value(data@),
        len >= 8 && data@.len() >= 8 ==> r == le_value(data@.take(8)),
{
    let mut n: usize = 8;
    if len < n {
        n = len;
    }
    if data.len() < n {
        n = data.len();
    }
    let ghost taken = min2(min2(len as nat, data@.len()), 8);
    assert(data@.subrange(0, n as int) =~= data@.take(taken as int));
    assert(data@.take(data@.len() as int) =~= data@);
    read_le(data, 0, n)
}

/// A mask of the low `len` bytes of an integer.
pub open spec fn byte_mask(len: nat) -> u64 {
    if len >= 8 {
        u64::MAX
    } else {
        (byte_range(len) - 1) as u64
    }
}

/// A mask of the low `len` bytes of an integer.
pub fn mask_u64(len: usize) -> (r: u64)
    ensures
        r == byte_mask(len as nat),
        len < 8 ==> r + 1 == pow(256, len as nat),
        len >= 8 ==> r == u64::MAX,
{
    proof {
        reveal_with_fuel(byte_range, 9);
        law_byte_range_is_a_power(len as nat);
    }
    match len {
        0 => 0,
        1 => 0xff,
        2 => 0xffff,
        3 => 0xff_ffff,
        4 => 0xffff_ffff,
        5 => 0xff_ffff_ffff,
        6 => 0xffff_ffff_ffff,
        7 => 0xff_ffff_ffff_ffff,
        _ => u64::MAX,
    }
}

/// Masking keeps the remainder by the number of values of as many bytes.
pub proof fn lemma_mask(x: u64, len: nat)
    requires
        len <= 8,
    ensures
        (x & byte_mask(len)) as nat == x as nat % byte_range(len),
{
    reveal_with_fuel(byte_range, 9);
    if len == 0 {
        assert(byte_mask(0) == 0);
        assert(x & 0 == 0) by (bit_vector);
        assert(x as nat % 1 == 0);
    } else if len == 1 {
        assert(byte_mask(1) == 0xff);
        assert(x & 0xff == x % 0x100) by (bit_vector);
    } else if len == 2 {
        assert(byte_mask(2) == 0xffff);
        assert(x & 0xffff == x % 0x1_0000) by (bit_vector);
    } else if len == 3 {
        assert(byte_mask(3) == 0xff_ffff);
        assert(x & 0xff_ffff == x % 0x100_0000) by (bit_vector);
    } else if len == 4 {
        assert(byte_mask(4) == 0xffff_ffff);
        assert(x & 0xffff_ffff == x % 0x1_0000_0000) by (bit_vector);
    } else if len == 5 {
        assert(byte_mask(5) == 0xff_ffff_ffff);
        assert(x & 0xff_ffff_ffff == x % 0x100_0000_0000) by (bit_vector);
    } else if len == 6 {
        assert(byte_mask(6) == 0xffff_ffff_ffff);
        assert(x & 0xffff_ffff_ffff == x % 0x1_0000_0000_0000) by (bit_vector);
    } else if len == 7 {
        assert(byte_mask(7) == 0xff_ffff_ffff_ffff);
        assert(x & 0xff_ffff_ffff_ffff == x % 0x100_0000_0000_0000) by (bit_vector);
    } else {
        assert(byte_mask(8) == 0xffff_ffff_ffff_ffff);
        assert(x & 0xffff_ffff_ffff_ffff == x) by (bit_vector);
        assert(x as nat % 0x1_0000_0000_0000_0000 == x as nat);
    }
}

/// The remainder by the number of values of `len` bytes packs the first `len` bytes.
pub proof fn lemma_le_value_take(s: Seq<u8>, len: nat)
    requires
        len <= s.len(),
    ensures
        le_value(s) % byte_range(len) == le_value(s.take(len as int)),
    decreases len,
{
    lemma_byte_range_product(0, len);
    if len == 0 {
        assert(s.take(0).len() == 0);
    } else {
        let tail = s.skip(1);
        let head = s.take(len as int);
        lemma_le_value_take(tail, (len - 1) as nat);
        assert(head.skip(1) =~= tail.take(len - 1));
        law_le_bytes_inverts_le_value(head);
        let r = byte_range((len - 1) as nat);
        lemma_byte_range_product(0, (len - 1) as nat);
        let w = le_value(tail);
        let b = s[0] as nat;
        assert(le_value(s) == b + 256 * w);
        assert(le_value(head) == b + 256 * (w % r));
        vstd::arithmetic::div_mod::lemma_fundamental_div_mod(w as int, r as int);
        let q = (w / r) as int;
        let m = byte_range(len) as int;
        assert(b + 256 * w == q * m + (b + 256 * (w % r))) by (nonlinear_arith)
            requires
                w == r * q + w % r,
                m == 256 * r,
        ;
        vstd::arithmetic::div_mod::lemma_fundamental_div_mod_converse(
            le_value(s) as int,
            m,
            q,
            le_value(head) as int,
        );
    }
}

/// Byte strings of one length that pack into the same integer are the same.
pub proof fn lemma_le_value_injective(a: Seq<u8>, b: Seq<u8>)
    requires
        a.len() == b.len(),
        le_value(a) == le_value(b),
    ensures
        a == b,
{
    law_le_bytes_inverts_le_value(a);
    law_le_bytes_inverts_le_value(b);
}

} // verus!
