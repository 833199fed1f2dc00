//! Account addresses as text.
//!
//! An address is 32 bytes. As a hex literal it is written `0x` and then up
//! to 64 hex digits, leading zeros left out at will. As plain text it is
//! either that literal or exactly 64 hex digits.

use crate::types::PeerId;
use vstd::prelude::*;
use vstd::string::StrSliceExecFns;

verus! {

/// The address of an account.
pub type AccountAddress = PeerId;

/// The value of a hex digit, and `-1` for what is none.
pub open spec fn digit_of(c: char) -> int {
    let v = c as u32;
    if 0x30 <= v <= 0x39 {
        v - 0x30
    } else if 0x61 <= v <= 0x66 {
        v - 0x61 + 10
    } else if 0x41 <= v <= 0x46 {
        v - 0x41 + 10
    } else {
        -1
    }
}

/// Whether all of `digits` are hex digits.
pub open spec fn all_hex(digits: Seq<char>) -> bool {
    forall|i: int| 0 <= i < digits.len() ==> digit_of(#[trigger] digits[i]) >= 0
}

/// Whether the text is the hex literal of an address: `0x`, then at most 64
/// hex digits.
pub open spec fn is_address_literal(text: Seq<char>) -> bool {
    &&& 2 <= text.len() <= 66
    &&& text[0] == '0'
    &&& text[1] == 'x'
    &&& all_hex(text.subrange(2, text.len() as int))
}

/// Whether the text is an address: its hex literal, or exactly 64 hex
/// digits.
pub open spec fn is_address_text(text: Seq<char>) -> bool {
    is_address_literal(text) || (text.len() == 64 && all_hex(text))
}

/// The digit at place `k` of the 64 that `digits` stand for, zeros filled
/// in before them.
pub open spec fn padded_digit(digits: Seq<char>, k: int) -> int {
    let pad = 64 - digits.len();
    if k < pad {
        0
    } else {
        digit_of(digits[k - pad])
    }
}

/// The 32 bytes that at most 64 hex digits stand for.
pub open spec fn digits_bytes(digits: Seq<char>) -> Seq<u8> {
    Seq::new(
        32,
        |k: int| (16 * padded_digit(digits, 2 * k) + padded_digit(digits, 2 * k + 1)) as u8,
    )
}

/// The bytes of the address that a hex literal stands for.
pub open spec fn address_bytes(text: Seq<char>) -> Seq<u8> {
    digits_bytes(text.subrange(2, text.len() as int))
}

/// The bytes of the address that a text stands for.
pub open spec fn address_text_bytes(text: Seq<char>) -> Seq<u8> {
    if is_address_literal(text) {
        address_bytes(text)
    } else {
        digits_bytes(text)
    }
}

/// The value of a hex digit.
pub fn hex_digit(c: char) -> (r: Option<u8>)
    ensures
        r is Some == (digit_of(c) >= 0),
        r matches Some(v) ==> v == digit_of(c) && v < 16,
{
    let v: u32 = c as u32;
    if 0x30 <= v && v <= 0x39 {
        Some((v - 0x30) as u8)
    } else if 0x61 <= v && v <= 0x66 {
        Some((v - 0x61 + 10) as u8)
    } else if 0x41 <= v && v <= 0x46 {
        Some((v - 0x41 + 10) as u8)
    } else {
        None
    }
}

/// Reads the hex digits of `text` from place `from` on, at most 64 of them,
/// as the bytes of an address.
fn parse_digits(text: &str, from: usize, len: usize) -> (r: Option<[u8; 32]>)
    requires
        len == text@.len(),
        from <= len,
        len - from <= 64,
    ensures
        r is Some == all_hex(text@.subrange(from as int, len as int)),
        r matches Some(a) ==> a@ == digits_bytes(text@.subrange(from as int, len as int)),
{
    let ghost digits = text@.subrange(from as int, len as int);
    let n: usize = len - from;
    let pad: usize = 64 - n;
    let mut values: Vec<u8> = Vec::new();
    let mut i: usize = 0;
    while i < 64
        invariant
            i <= 64,
            n == len - from,
            pad == 64 - n,
            len == text@.len(),
            from <= len,
            digits == text@.subrange(from as int, len as int),
            values@.len() == i,
            forall|k: int| 0 <= k < i ==> (#[trigger] values@[k]) == padded_digit(digits, k),
            forall|k: int| 0 <= k < i ==> (#[trigger] values@[k]) < 16,
            forall|j: int| 0 <= j < i - pad ==> digit_of(#[trigger] digits[j]) >= 0,
        decreases 64 - i,
    {
        if i < pad {
            values.push(0);
        } else {
            let c = text.get_char(from + (i - pad));
            assert(c == digits[i - pad]);
            match hex_digit(c) {
                Some(v) => {
                    values.push(v);
                },
                None => {
                    assert(!all_hex(digits));
                    return None;
                },
            }
        }
        i += 1;
    }
    assert(all_hex(digits));
    let mut out = [0u8; 32];
    let mut k: usize = 0;
    while k < 32
        invariant
            k <= 32,
            values@.len() == 64,
            forall|j: int| 0 <= j < 64 ==> (#[trigger] values@[j]) == padded_digit(digits, j),
            forall|j: int| 0 <= j < 64 ==> (#[trigger] values@[j]) < 16,
            forall|j: int|
                0 <= j < k ==> out@[j] == (16 * padded_digit(digits, 2 * j) + padded_digit(
                    digits,
                    2 * j + 1,
                )) as u8,
        decreases 32 - k,
    {
        let hi: u8 = values[2 * k];
        let lo: u8 = values[2 * k + 1];
        out[k] = 16 * hi + lo;
        k += 1;
    }
    assert(out@ =~= digits_bytes(digits));
    Some(out)
}

/// Reads the hex literal of an address.
pub fn parse_address(text: &str) -> (r: Option<[u8; 32]>)
    ensures
        r is Some == is_address_literal(text@),
        r matches Some(a) ==> a@ == address_bytes(text@),
{
    let len = text.unicode_len();
    if len < 2 || len > 66 {
        return None;
    }
    if text.get_char(0) != '0' || text.get_char(1) != 'x' {
        return None;
    }
    parse_digits(text, 2, len)
}

/// Reads an address: its hex literal, or exactly 64 hex digits.
pub fn parse_address_text(text: &str) -> (r: Option<[u8; 32]>)
    ensures
        r is Some == is_address_text(text@),
        r matches Some(a) ==> a@ == address_text_bytes(text@),
{
    match parse_address(text) {
        Some(a) => Some(a),
        None => {
            let len = text.unicode_len();
            if len != 64 {
                return None;
            }
            assert(text@.subrange(0, 64) =~= text@);
            parse_digits(text, 0, len)
        },
    }
}

} // verus!
