//! Address arithmetic and address parsing.

use vstd::prelude::*;

verus! {

/// The number of bytes in a machine word.
pub open spec fn word_bytes() -> int {
    (usize::BITS / 8) as int
}

/// The greatest word-aligned address that is not above `addr`.
pub open spec fn align_down(addr: int) -> int {
    addr - addr % word_bytes()
}

/// The start of the word that holds the byte at `addr`.
pub open spec fn word_start(addr: usize) -> usize {
    align_down(addr as int) as usize
}

/// The place of the byte at `addr` in the word that holds it.
pub open spec fn byte_offset(addr: usize) -> int {
    addr - align_down(addr as int)
}

/// The word that holds a byte starts at or below the byte, and the byte lies
/// within it.
pub proof fn lemma_word_of(addr: usize)
    ensures
        word_bytes() == 4 || word_bytes() == 8,
        word_start(addr) == align_down(addr as int),
        word_start(addr) + byte_offset(addr) == addr,
        0 <= byte_offset(addr) < word_bytes(),
{
    assert(usize::BITS == 32 || usize::BITS == 64);
}

/// Rounds `addr` down to the start of the machine word that contains it.
pub fn align_addr_to_word(addr: usize) -> (aligned: usize)
    ensures
        aligned == align_down(addr as int),
        aligned == word_start(addr),
        addr - aligned == byte_offset(addr),
        aligned <= addr < aligned + word_bytes(),
        aligned % (word_bytes() as usize) == 0,
{
    let width: usize = (usize::BITS / 8) as usize;
    assert(width == 4 || width == 8);
    let low: usize = width - 1;
    let aligned: usize = addr & !low;
    assert(addr & !3usize == addr - addr % 4 && (addr & !3usize) % 4 == 0) by (bit_vector);
    assert(addr & !7usize == addr - addr % 8 && (addr & !7usize) % 8 == 0) by (bit_vector);
    aligned
}

} // verus!

verus! {

/// Whether `c` is one of `0`-`9`, `a`-`f`, `A`-`F`.
pub open spec fn is_hex_digit(c: char) -> bool {
    ('0' <= c <= '9') || ('a' <= c <= 'f') || ('A' <= c <= 'F')
}

/// The value of the hexadecimal digit `c`.
pub open spec fn hex_digit_value(c: char) -> nat
    recommends
        is_hex_digit(c),
{
    if '0' <= c <= '9' {
        (c as u32 - '0' as u32) as nat
    } else if 'a' <= c <= 'f' {
        (c as u32 - 'a' as u32 + 10) as nat
    } else {
        (c as u32 - 'A' as u32 + 10) as nat
    }
}

/// Whether every character of `s` is a hexadecimal digit.
pub open spec fn all_hex_digits(s: Seq<char>) -> bool {
    forall|i: int| 0 <= i < s.len() ==> is_hex_digit(#[trigger] s[i])
}

/// The number that the hexadecimal digits `s` write, most significant first.
pub open spec fn hex_number(s: Seq<char>) -> nat
    decreases s.len(),
{
    if s.len() == 0 {
        0
    } else {
        16 * hex_number(s.drop_last()) + hex_digit_value(s.last())
    }
}

/// Whether `s` begins with `0x` or `0X`.
pub open spec fn has_hex_prefix(s: Seq<char>) -> bool {
    s.len() >= 2 && s[0] == '0' && (s[1] == 'x' || s[1] == 'X')
}

/// `s` without a leading `0x` or `0X`.
pub open spec fn without_hex_prefix(s: Seq<char>) -> Seq<char> {
    if has_hex_prefix(s) {
        s.skip(2)
    } else {
        s
    }
}

/// `s` without a leading `+`.
pub open spec fn without_plus(s: Seq<char>) -> Seq<char> {
    if s.len() >= 1 && s[0] == '+' {
        s.skip(1)
    } else {
        s
    }
}

/// The digits of an address token: what is left of `s` once an optional `0x`
/// and then an optional `+` are taken off.
pub open spec fn address_digits(s: Seq<char>) -> Seq<char> {
    without_plus(without_hex_prefix(s))
}

/// The address that the token `s` writes, if it writes one: at least one
/// hexadecimal digit, with a value that fits a machine address.
pub open spec fn address_of(s: Seq<char>) -> Option<usize> {
    let digits = address_digits(s);
    if digits.len() > 0 && all_hex_digits(digits) && hex_number(digits) <= usize::MAX {
        Some(hex_number(digits) as usize)
    } else {
        None
    }
}

/// Appending digits never makes the number smaller.
pub proof fn lemma_hex_number_grows(s: Seq<char>, k: int)
    requires
        0 <= k <= s.len(),
    ensures
        hex_number(s.take(k)) <= hex_number(s),
    decreases s.len() - k,
{
    if k < s.len() {
        lemma_hex_number_grows(s, k + 1);
        assert(s.take(k + 1).drop_last() =~= s.take(k));
    } else {
        assert(s.take(k) =~= s);
    }
}

fn hex_digit(c: char) -> (value: Option<usize>)
    ensures
        value is Some <==> is_hex_digit(c),
        value matches Some(v) ==> v == hex_digit_value(c) && v < 16,
{
    let code: u32 = c as u32;
    if '0' as u32 <= code && code <= '9' as u32 {
        Some((code - '0' as u32) as usize)
    } else if 'a' as u32 <= code && code <= 'f' as u32 {
        Some((code - 'a' as u32 + 10) as usize)
    } else if 'A' as u32 <= code && code <= 'F' as u32 {
        Some((code - 'A' as u32 + 10) as usize)
    } else {
        None
    }
}

/// Reads a hexadecimal address, with or without a leading `0x`.
///
/// The token is accepted exactly when, after the optional prefix and an
/// optional `+`, it consists of one or more hexadecimal digits whose value
/// fits a machine address.
pub fn parse_address(addr: &str) -> (parsed: Option<usize>)
    ensures
        parsed == address_of(addr@),
{
    let len: usize = addr.unicode_len();
    let mut start: usize = 0;
    if len >= 2 && addr.get_char(0) == '0' {
        let second: char = addr.get_char(1);
        if second == 'x' || second == 'X' {
            start = 2;
        }
    }
    assert(addr@.skip(start as int) =~= without_hex_prefix(addr@));
    if start < len && addr.get_char(start) == '+' {
        assert(addr@.skip(start as int).skip(1) =~= addr@.skip(start + 1));
        start = start + 1;
    }
    let ghost digits = address_digits(addr@);
    assert(digits =~= addr@.skip(start as int));
    if start == len {
        return None;
    }
    let mut value: usize = 0;
    let mut i: usize = start;
    while i < len
        invariant
            start <= i <= len,
            len == addr@.len(),
            digits == addr@.skip(start as int),
            digits == address_digits(addr@),
            all_hex_digits(digits.take(i - start)),
            value == hex_number(digits.take(i - start)),
        decreases len - i,
    {
        let ghost seen = digits.take(i - start);
        let ghost next = digits.take(i - start + 1);
        assert(next.drop_last() =~= seen);
        assert(next.last() == addr@[i as int]);
        match hex_digit(addr.get_char(i)) {
            None => {
                assert(!is_hex_digit(digits[i - start]));
                return None;
            },
            Some(d) => {
                if value > (usize::MAX - d) / 16 {
                    proof {
                        lemma_hex_number_grows(digits, i - start + 1);
                        assert(hex_number(next) == 16 * value + d);
                    }
                    return None;
                }
                value = 16 * value + d;
                i = i + 1;
            },
        }
    }
    assert(digits.take(len - start) =~= digits);
    Some(value)
}

} // verus!
