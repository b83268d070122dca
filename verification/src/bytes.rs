//! Encodings of unsigned integers, little-endian and big-endian.

use vstd::arithmetic::power::pow;
use vstd::prelude::*;

use crate::order::lex_lt;

verus! {

/// The number that `s` encodes, least significant byte first.
pub open spec fn le_value(s: Seq<u8>) -> nat
    decreases s.len(),
{
    if s.len() == 0 {
        0
    } else {
        s[0] as nat + 256 * le_value(s.skip(1))
    }
}

/// The `n` least significant bytes of `x`, least significant byte first.
pub open spec fn le_bytes(x: nat, n: nat) -> Seq<u8>
    decreases n,
{
    if n == 0 {
        seq![]
    } else {
        seq![(x % 256) as u8] + le_bytes(x / 256, (n - 1) as nat)
    }
}

/// `256` to the power `n`: the number of values that `n` bytes can hold.
pub open spec fn byte_range(n: nat) -> nat
    decreases n,
{
    if n == 0 {
        1
    } else {
        256 * byte_range((n - 1) as nat)
    }
}

pub proof fn lemma_byte_range_values()
    ensures
        byte_range(0) == 1,
        byte_range(1) == 0x100,
        byte_range(2) == 0x1_0000,
        byte_range(4) == 0x1_0000_0000,
        byte_range(8) == 0x1_0000_0000_0000_0000,
{
    reveal_with_fuel(byte_range, 9);
}

/// An encoding has as many bytes as were asked for.
pub proof fn lemma_le_bytes_len(x: nat, n: nat)
    ensures
        le_bytes(x, n).len() == n,
    decreases n,
{
    if n > 0 {
        lemma_le_bytes_len(x / 256, (n - 1) as nat);
    }
}

/// Decoding gives back the encoded number, for every number that fits in `n` bytes.
pub proof fn law_le_value_inverts_le_bytes(x: nat, n: nat)
    requires
        x < byte_range(n),
    ensures
        le_value(le_bytes(x, n)) == x,
    decreases n,
{
    if n > 0 {
        let tail = le_bytes(x / 256, (n - 1) as nat);
        law_le_value_inverts_le_bytes(x / 256, (n - 1) as nat);
        assert(le_bytes(x, n).skip(1) =~= tail);
    }
}

/// Encoding gives back the decoded bytes.
#[verifier::rlimit(40)]
pub proof fn law_le_bytes_inverts_le_value(s: Seq<u8>)
    ensures
        le_bytes(le_value(s), s.len()) == s,
        le_value(s) < byte_range(s.len()),
    decreases s.len(),
{
    if s.len() > 0 {
        let tail = s.skip(1);
        law_le_bytes_inverts_le_value(tail);
        let v = le_value(s);
        let w = le_value(tail);
        assert(v == s[0] as nat + 256 * w);
        assert(v % 256 == s[0] as nat && v / 256 == w) by (nonlinear_arith)
            requires
                v == s[0] as nat + 256 * w,
                s[0] as nat <= 255,
        ;
        assert(le_bytes(v, s.len()) == seq![(v % 256) as u8] + le_bytes(
            v / 256,
            (s.len() - 1) as nat,
        ));
        assert(seq![s[0]] + tail =~= s);
    } else {
        assert(le_bytes(0, 0) =~= s);
    }
}

/// Appends the `n` least significant bytes of `x` to `out`, least significant byte first.
pub fn push_le(out: &mut Vec<u8>, x: u64, n: usize)
    ensures
        final(out)@ == old(out)@ + le_bytes(x as nat, n as nat),
{
    let mut rest: u64 = x;
    let mut i: usize = 0;
    assert(le_bytes(x as nat, n as nat).take(0) =~= seq![]);
    assert(out@ =~= old(out)@ + seq![]);
    while i < n
        invariant
            i <= n,
            out@ + le_bytes(rest as nat, (n - i) as nat) == old(out)@ + le_bytes(
                x as nat,
                n as nat,
            ),
        decreases n - i,
    {
        let ghost before = out@;
        let ghost r0 = rest as nat;
        out.push((rest % 256) as u8);
        rest = rest / 256;
        i += 1;
        assert(out@ + le_bytes(rest as nat, (n - i) as nat) =~= before + le_bytes(
            r0,
            (n - i + 1) as nat,
        ));
    }
    assert(out@ + le_bytes(rest as nat, 0) =~= out@);
}

/// The number in the first `n` bytes of `data` from position `at` on, least significant first.
pub fn read_le(data: &[u8], at: usize, n: usize) -> (r: u64)
    requires
        n <= 8,
        at + n <= data@.len(),
    ensures
        r as nat == le_value(data@.subrange(at as int, at + n)),
{
    let mut value: u64 = 0;
    let mut i: usize = n;
    let ghost whole = data@.subrange(at as int, at + n);
    proof {
        law_le_bytes_inverts_le_value(whole.skip(n as int));
        assert(whole.skip(n as int).len() == 0);
        assert(data@.len() == data.len());
        lemma_byte_range_values();
    }
    while i > 0
        invariant
            i <= n <= 8,
            at + n <= data@.len() <= usize::MAX,
            whole == data@.subrange(at as int, at + n),
            value as nat == le_value(whole.skip(i as int)),
            value as nat * byte_range(i as nat) < 0x1_0000_0000_0000_0000,
        decreases i,
    {
        let ghost next = whole.skip(i - 1);
        i -= 1;
        proof {
            assert(next.skip(1) =~= whole.skip(i + 1));
            assert(next[0] == whole[i as int]);
            law_le_bytes_inverts_le_value(next);
            lemma_byte_range_product(next.len(), i as nat);
            lemma_byte_range_monotone(next.len() + i as nat, 8);
            lemma_byte_range_values();
            assert(le_value(next) * byte_range(i as nat) < byte_range(next.len()) * byte_range(
                i as nat,
            )) by (nonlinear_arith)
                requires
                    le_value(next) < byte_range(next.len()),
                    byte_range(i as nat) > 0,
            ;
            lemma_byte_range_monotone(next.len(), 8);
        }
        value = value * 256 + data[at + i] as u64;
    }
    assert(whole.skip(0) =~= whole);
    value
}

pub proof fn lemma_byte_range_product(a: nat, b: nat)
    ensures
        byte_range(a) * byte_range(b) == byte_range(a + b),
        byte_range(b) > 0,
    decreases a, b,
{
    if a > 0 {
        lemma_byte_range_product((a - 1) as nat, b);
        let r = byte_range((a - 1) as nat);
        let q = byte_range(b);
        assert((256 * r) * q == 256 * (r * q)) by (nonlinear_arith);
        assert(byte_range(a + b) == 256 * byte_range((a + b - 1) as nat));
    } else if b > 0 {
        lemma_byte_range_product(0, (b - 1) as nat);
    }
}

pub proof fn lemma_byte_range_monotone(a: nat, b: nat)
    requires
        a <= b,
    ensures
        byte_range(a) <= byte_range(b),
    decreases b,
{
    if a < b {
        lemma_byte_range_monotone(a, (b - 1) as nat);
    }
}

/// The number that `s` encodes, most significant byte first.
pub open spec fn be_value(s: Seq<u8>) -> nat
    decreases s.len(),
{
    if s.len() == 0 {
        0
    } else {
        256 * be_value(s.drop_last()) + s.last() as nat
    }
}

/// A number of `n` bytes is below [`byte_range`] of `n`.
pub proof fn lemma_be_value_bound(s: Seq<u8>)
    ensures
        be_value(s) < byte_range(s.len()),
    decreases s.len(),
{
    if s.len() > 0 {
        lemma_be_value_bound(s.drop_last());
    }
}

/// The bytes in front count for as many as the bytes behind can hold.
pub proof fn lemma_be_value_concat(a: Seq<u8>, b: Seq<u8>)
    ensures
        be_value(a + b) == be_value(a) * byte_range(b.len()) + be_value(b),
    decreases b.len(),
{
    if b.len() > 0 {
        lemma_be_value_concat(a, b.drop_last());
        assert((a + b).drop_last() =~= a + b.drop_last());
        let x = be_value(a);
        let r = byte_range((b.len() - 1) as nat);
        assert(256 * (x * r) == x * (256 * r)) by (nonlinear_arith);
    } else {
        assert(a + b =~= a);
        assert(be_value(a) * 1 == be_value(a));
    }
}

/// Byte strings of one length are ordered as the numbers they encode most significant byte first.
pub proof fn law_be_value_keeps_order(a: Seq<u8>, b: Seq<u8>)
    requires
        a.len() == b.len(),
    ensures
        lex_lt(a, b) <==> be_value(a) < be_value(b),
    decreases a.len(),
{
    if a.len() > 0 {
        let n = (a.len() - 1) as nat;
        law_be_value_keeps_order(a.skip(1), b.skip(1));
        lemma_be_value_bound(a.skip(1));
        lemma_be_value_bound(b.skip(1));
        lemma_be_value_concat(seq![a[0]], a.skip(1));
        lemma_be_value_concat(seq![b[0]], b.skip(1));
        assert(seq![a[0]] + a.skip(1) =~= a);
        assert(seq![b[0]] + b.skip(1) =~= b);
        assert(be_value(seq![a[0]]) == a[0] as nat) by {
            assert(seq![a[0]].drop_last() =~= Seq::<u8>::empty());
            assert(be_value(Seq::<u8>::empty()) == 0);
        }
        assert(be_value(seq![b[0]]) == b[0] as nat) by {
            assert(seq![b[0]].drop_last() =~= Seq::<u8>::empty());
            assert(be_value(Seq::<u8>::empty()) == 0);
        }
        let r = byte_range(n);
        let x = a[0] as nat;
        let y = b[0] as nat;
        let p = be_value(a.skip(1));
        let q = be_value(b.skip(1));
        assert(x < y ==> x * r + p < y * r + q) by (nonlinear_arith)
            requires
                p < r,
        ;
        assert(y < x ==> y * r + q < x * r + p) by (nonlinear_arith)
            requires
                q < r,
        ;
    }
}

/// The number in the `n` bytes of `data` from position `at` on, most significant first.
pub fn read_be(data: &[u8], at: usize, n: usize) -> (r: u64)
    requires
        n <= 8,
        at + n <= data@.len(),
    ensures
        r as nat == be_value(data@.subrange(at as int, at + n)),
{
    let mut value: u64 = 0;
    assert(data@.len() == data.len());
    assert(data@.subrange(at as int, at as int) =~= Seq::<u8>::empty());
    for i in 0..n
        invariant
            n <= 8,
            at + n <= data@.len() <= usize::MAX,
            value as nat == be_value(data@.subrange(at as int, at + i)),
    {
        proof {
            let next = data@.subrange(at as int, at + i + 1);
            assert(next.drop_last() =~= data@.subrange(at as int, at + i));
            assert(next.last() == data@[at + i]);
            lemma_be_value_bound(next);
            lemma_byte_range_monotone(next.len(), 8);
            lemma_byte_range_values();
        }
        value = value * 256 + data[at + i] as u64;
    }
    value
}

/// Byte `i` of a little-endian encoding is digit `i` of the number to the base 256.
pub proof fn law_le_bytes_are_digits(x: nat, n: nat, i: nat)
    requires
        i < n,
    ensures
        le_bytes(x, n).len() == n,
        le_bytes(x, n)[i as int] == x / (pow(256, i) as nat) % 256,
    decreases n,
{
    lemma_le_bytes_len(x, n);
    lemma_le_bytes_len(x / 256, (n - 1) as nat);
    reveal(pow);
    if i > 0 {
        let j = (i - 1) as nat;
        law_le_bytes_are_digits(x / 256, (n - 1) as nat, j);
        vstd::arithmetic::power::lemma_pow_positive(256, j);
        let p = pow(256, j);
        assert(pow(256, i) == 256 * p);
        vstd::arithmetic::div_mod::lemma_div_denominator(x as int, 256, p);
        assert(le_bytes(x, n)[i as int] == le_bytes(x / 256, (n - 1) as nat)[j as int]);
    } else {
        assert(pow(256, 0) == 1);
        assert(x / 1 == x);
    }
}

/// A little-endian number is the sum of its bytes times powers of 256: the last byte counts most.
pub proof fn law_le_value_sums_digits(s: Seq<u8>, b: u8)
    ensures
        le_value(Seq::empty()) == 0,
        le_value(s.push(b)) == le_value(s) + b * pow(256, s.len()),
    decreases s.len(),
{
    reveal(pow);
    if s.len() > 0 {
        law_le_value_sums_digits(s.skip(1), b);
        assert(s.push(b).skip(1) =~= s.skip(1).push(b));
        let p = pow(256, (s.len() - 1) as nat);
        assert(pow(256, s.len()) == 256 * p);
        assert(256 * (b * p) == b * (256 * p)) by (nonlinear_arith);
    } else {
        assert(s.push(b).skip(1) =~= Seq::<u8>::empty());
        assert(s.push(b)[0] == b);
        assert(pow(256, 0) == 1);
        assert(s =~= Seq::<u8>::empty());
    }
}

/// A big-endian number is the little-endian number of the bytes in reverse.
pub proof fn law_be_value_reverses_le_value(s: Seq<u8>)
    ensures
        be_value(s) == le_value(s.reverse()),
    decreases s.len(),
{
    if s.len() > 0 {
        law_be_value_reverses_le_value(s.drop_last());
        assert(s.reverse().skip(1) =~= s.drop_last().reverse());
        assert(s.reverse()[0] == s.last());
    } else {
        assert(s.reverse() =~= Seq::<u8>::empty());
    }
}

/// `n` bytes hold 256 to the power of `n` numbers.
pub proof fn law_byte_range_is_a_power(n: nat)
    ensures
        byte_range(n) == pow(256, n),
    decreases n,
{
    reveal(pow);
    if n > 0 {
        law_byte_range_is_a_power((n - 1) as nat);
    }
}

} // verus!
