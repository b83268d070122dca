//! Building strings.

use vstd::prelude::*;

verus! {

/// `String::push`: appends one character.
#[verifier::external_body]
pub(crate) fn push_char(s: &mut String, c: char)
    ensures
        final(s)@ == old(s)@.push(c),
{
    s.push(c);
}

/// The lower-case hexadecimal digit for a value below 16.
pub open spec fn hex_digit(d: int) -> char {
    if d == 0 {
        '0'
    } else if d == 1 {
        '1'
    } else if d == 2 {
        '2'
    } else if d == 3 {
        '3'
    } else if d == 4 {
        '4'
    } else if d == 5 {
        '5'
    } else if d == 6 {
        '6'
    } else if d == 7 {
        '7'
    } else if d == 8 {
        '8'
    } else if d == 9 {
        '9'
    } else if d == 10 {
        'a'
    } else if d == 11 {
        'b'
    } else if d == 12 {
        'c'
    } else if d == 13 {
        'd'
    } else if d == 14 {
        'e'
    } else {
        'f'
    }
}

/// A byte as two lower-case hexadecimal digits.
pub open spec fn hex_byte(b: u8) -> Seq<char> {
    seq![hex_digit(b as int / 16), hex_digit(b as int % 16)]
}

fn digit(d: u8) -> (r: char)
    requires
        d < 16,
    ensures
        r == hex_digit(d as int),
{
    match d {
        0 => '0',
        1 => '1',
        2 => '2',
        3 => '3',
        4 => '4',
        5 => '5',
        6 => '6',
        7 => '7',
        8 => '8',
        9 => '9',
        10 => 'a',
        11 => 'b',
        12 => 'c',
        13 => 'd',
        14 => 'e',
        _ => 'f',
    }
}

/// Appends a byte as two lower-case hexadecimal digits.
pub fn push_hex(s: &mut String, b: u8)
    ensures
        final(s)@ == old(s)@ + hex_byte(b),
{
    push_char(s, digit(b / 16));
    push_char(s, digit(b % 16));
    assert(s@ =~= old(s)@ + hex_byte(b));
}

/// Two bytes with the same digits are the same.
pub proof fn lemma_hex_byte_injective(a: u8, b: u8)
    requires
        hex_byte(a) == hex_byte(b),
    ensures
        a == b,
{
    assert(hex_byte(a)[0] == hex_byte(b)[0]);
    assert(hex_byte(a)[1] == hex_byte(b)[1]);
}

/// The decimal digit for a value below 10.
pub open spec fn decimal_digit(d: nat) -> char {
    hex_digit(d as int)
}

/// A number in decimal.
pub open spec fn decimal_text(n: nat) -> Seq<char>
    decreases n,
{
    if n < 10 {
        seq![decimal_digit(n)]
    } else {
        decimal_text(n / 10).push(decimal_digit(n % 10))
    }
}

/// Appends a number in decimal.
pub fn push_decimal(s: &mut String, n: u64)
    ensures
        final(s)@ == old(s)@ + decimal_text(n as nat),
    decreases n,
{
    if n >= 10 {
        push_decimal(s, n / 10);
    }
    push_char(s, digit((n % 10) as u8));
    assert(s@ =~= old(s)@ + decimal_text(n as nat));
}

/// `std::str::from_utf8`: the string whose UTF-8 encoding the bytes are, or nothing if they are
/// not valid UTF-8.
#[verifier::external_body]
pub(crate) fn string_from_utf8(bytes: &[u8]) -> (r: Option<String>)
    ensures
        r is Some <==> vstd::utf8::valid_utf8(bytes@),
        r matches Some(s) ==> vstd::utf8::encode_utf8(s@) == bytes@,
{
    match std::str::from_utf8(bytes) {
        Ok(s) => Some(s.to_owned()),
        Err(_) => None,
    }
}

/// The digits below ten are `0` to `9` and those from ten on `a` to `f`, in order.
pub proof fn law_hex_digits_are_in_order(d: int)
    ensures
        0 <= d < 10 ==> hex_digit(d) as u32 == '0' as u32 + d,
        10 <= d < 16 ==> hex_digit(d) as u32 == 'a' as u32 + (d - 10),
{
}

/// A byte is written with its high half first.
pub proof fn law_hex_byte_has_the_high_digit_first(high: u8, low: u8)
    requires
        high < 16,
        low < 16,
    ensures
        hex_byte((16 * high + low) as u8) == seq![hex_digit(high as int), hex_digit(low as int)],
{
}

/// A decimal number ends in its units, and what stands before them is the number of tens, without
/// leading zeros.
pub proof fn law_decimal_text_is_positional(n: nat, d: nat)
    requires
        d < 10,
    ensures
        n > 0 ==> decimal_text(10 * n + d) == decimal_text(n).push(hex_digit(d as int)),
        decimal_text(d) == seq![hex_digit(d as int)],
{
    assert((10 * n + d) / 10 == n);
    assert((10 * n + d) % 10 == d);
}

} // verus!
