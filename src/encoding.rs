//! Text encodings of bytes and strings, each from the crate that provides it.
use vstd::prelude::*;
use crate::crypto::hex_digit;

verus! {

/// A digit of the RFC 4648 base32 alphabet: `A`–`Z`, then `2`–`7`.
pub open spec fn b32_char(v: nat) -> char {
    if v < 26 {
        ((v + 'A' as u32) as u32) as char
    } else {
        ((v - 26 + '2' as u32) as u32) as char
    }
}

/// Byte `i` of `b`, or 0 past its end.
pub open spec fn byte_or_zero(b: Seq<u8>, i: int) -> nat {
    if 0 <= i < b.len() {
        b[i] as nat
    } else {
        0
    }
}

/// The first five bytes of `b` (zero-filled) as one 40-bit number, first byte highest.
pub open spec fn group40(b: Seq<u8>) -> nat {
    byte_or_zero(b, 0) * 0x1_0000_0000 + byte_or_zero(b, 1) * 0x100_0000 + byte_or_zero(b, 2)
        * 0x1_0000 + byte_or_zero(b, 3) * 0x100 + byte_or_zero(b, 4)
}

/// The eight base32 digits of a 40-bit group, most significant first.
pub open spec fn b32_group(n: nat) -> Seq<char> {
    seq![
        b32_char((n / 0x8_0000_0000) % 32),
        b32_char((n / 0x4000_0000) % 32),
        b32_char((n / 0x200_0000) % 32),
        b32_char((n / 0x10_0000) % 32),
        b32_char((n / 0x8000) % 32),
        b32_char((n / 0x400) % 32),
        b32_char((n / 0x20) % 32),
        b32_char(n % 32),
    ]
}

/// RFC 4648 base32 of `b`, without padding: each group of five bytes gives eight digits,
/// and a last shorter group of `k` bytes gives the first `(8k + 4) / 5` of its digits.
pub open spec fn base32_of(b: Seq<u8>) -> Seq<char>
    decreases b.len(),
{
    if b.len() == 0 {
        Seq::empty()
    } else {
        let k: int = if b.len() < 5 {
            b.len() as int
        } else {
            5
        };
        b32_group(group40(b)).take((k * 8 + 4) / 5) + base32_of(b.skip(k))
    }
}

/// A digit of the standard base64 alphabet: `A`–`Z`, `a`–`z`, `0`–`9`, `+`, `/`.
pub open spec fn b64_char(v: nat) -> char {
    if v < 26 {
        ((v + 'A' as u32) as u32) as char
    } else if v < 52 {
        ((v - 26 + 'a' as u32) as u32) as char
    } else if v < 62 {
        ((v - 52 + '0' as u32) as u32) as char
    } else if v == 62 {
        '+'
    } else {
        '/'
    }
}

/// Standard base64 of `b`, with padding: each group of three bytes gives four digits; a
/// last group of one or two bytes gives two or three digits and `=` up to four.
pub open spec fn base64_of(b: Seq<u8>) -> Seq<char>
    decreases b.len(),
{
    if b.len() == 0 {
        Seq::empty()
    } else {
        let b0 = byte_or_zero(b, 0);
        let b1 = byte_or_zero(b, 1);
        let b2 = byte_or_zero(b, 2);
        let d0 = b64_char(b0 / 4);
        let d1 = b64_char((b0 % 4) * 16 + b1 / 16);
        let d2 = b64_char((b1 % 16) * 4 + b2 / 64);
        let d3 = b64_char(b2 % 64);
        if b.len() == 1 {
            seq![d0, d1, '=', '=']
        } else if b.len() == 2 {
            seq![d0, d1, d2, '=']
        } else {
            seq![d0, d1, d2, d3] + base64_of(b.skip(3))
        }
    }
}

/// What one character becomes inside a JSON string: `"` and `\` are escaped with a
/// backslash, backspace, tab, line feed, form feed and carriage return get their short
/// escapes, other characters below U+0020 become `\u00XX` in lower-case hexadecimal, and
/// every other character stays as it is.
pub open spec fn json_char(c: char) -> Seq<char> {
    let u = c as u32;
    if c == '"' {
        seq!['\\', '"']
    } else if c == '\\' {
        seq!['\\', '\\']
    } else if u == 8 {
        seq!['\\', 'b']
    } else if u == 9 {
        seq!['\\', 't']
    } else if u == 10 {
        seq!['\\', 'n']
    } else if u == 12 {
        seq!['\\', 'f']
    } else if u == 13 {
        seq!['\\', 'r']
    } else if u < 0x20 {
        seq!['\\', 'u', '0', '0', hex_digit(u as nat / 16), hex_digit(u as nat % 16)]
    } else {
        seq![c]
    }
}

/// The escaped characters of `s`, in order.
pub open spec fn json_escaped(s: Seq<char>) -> Seq<char>
    decreases s.len(),
{
    if s.len() == 0 {
        Seq::empty()
    } else {
        json_escaped(s.drop_last()) + json_char(s.last())
    }
}

/// `s` as a JSON string literal: between double quotes, each character escaped.
pub open spec fn json_quote(s: Seq<char>) -> Seq<char> {
    seq!['"'] + json_escaped(s) + seq!['"']
}

/// The bytes that `base64::decode` reads from a text, or `None` when it refuses it.
pub uninterp spec fn base64_decoded(s: Seq<char>) -> Option<Seq<u8>>;

/// RFC 4648 base32 of `b`, without padding.
/// Relies on `base32::encode` with `Alphabet::RFC4648 { padding: false }`.
#[verifier::external_body]
pub fn base32_text(b: &[u8]) -> (r: String)
    ensures
        r@ == base32_of(b@),
{
    base32::encode(base32::Alphabet::RFC4648 { padding: false }, b)
}

/// Standard base64 of `b`.
/// Relies on `base64::encode`, which uses the standard alphabet with padding.
#[verifier::external_body]
pub fn base64_text(b: &[u8]) -> (r: String)
    ensures
        r@ == base64_of(b@),
{
    base64::encode(b)
}

/// The bytes that a standard base64 text stands for, or `None` when it is not valid
/// base64.
/// Relies on `base64::decode`, which reverses `base64::encode`.
#[verifier::external_body]
pub fn base64_bytes(s: &str) -> (r: Option<Vec<u8>>)
    ensures
        r.is_some() == base64_decoded(s@).is_some(),
        r.is_some() ==> r.unwrap()@ == base64_decoded(s@).unwrap(),
        forall|b: Seq<u8>| s@ == base64_of(b) ==> r.is_some() && r.unwrap()@ == b,
{
    match base64::decode(s) {
        Ok(b) => Some(b),
        Err(_) => None,
    }
}

/// `s` as a JSON string literal.
/// Relies on `serde_json::to_string` on a `str`, which cannot fail.
#[verifier::external_body]
pub fn json_string(s: &str) -> (r: String)
    ensures
        r@ == json_quote(s@),
{
    match serde_json::to_string(s) {
        Ok(t) => t,
        Err(_) => String::new(),
    }
}

} // verus!
