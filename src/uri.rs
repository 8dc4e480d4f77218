//! Decoding the ABI-encoded string that a token-URI contract call returns:
//! an offset word, a length word, then the string's bytes as hex.
use crate::codec::string_from_utf8;
use vstd::prelude::*;
use vstd::string::StrSliceExecFns;
use vstd::utf8::{decode_utf8, valid_utf8};

verus! {

/// Value of one hexadecimal digit, in either case.
pub open spec fn hex_digit(c: char) -> Option<nat> {
    if '0' <= c <= '9' {
        Some((c as nat - '0' as nat) as nat)
    } else if 'a' <= c <= 'f' {
        Some((c as nat - 'a' as nat + 10) as nat)
    } else if 'A' <= c <= 'F' {
        Some((c as nat - 'A' as nat + 10) as nat)
    } else {
        None
    }
}

/// Value of a string of hexadecimal digits, most significant first.
pub open spec fn hex_digits_value(s: Seq<char>) -> Option<nat>
    decreases s.len(),
{
    if s.len() == 0 {
        Some(0)
    } else {
        match (hex_digits_value(s.drop_last()), hex_digit(s.last())) {
            (Some(v), Some(d)) => Some(16 * v + d),
            _ => None,
        }
    }
}

/// A hexadecimal numeral as std reads it: an optional `+`, then at least one
/// digit.
pub open spec fn hex_numeral(s: Seq<char>) -> Option<nat> {
    let body = if s.len() > 0 && s[0] == '+' {
        s.drop_first()
    } else {
        s
    };
    if body.len() == 0 {
        None
    } else {
        hex_digits_value(body)
    }
}

/// Relies on `u64::from_str_radix` with radix 16: an optional plus sign and
/// hexadecimal digits of either case, refused when empty or too large.
#[verifier::external_body]
fn parse_hex_u64(s: &str) -> (r: Option<u64>)
    ensures
        r == (match hex_numeral(s@) {
            Some(v) => if v <= u64::MAX {
                Some(v as u64)
            } else {
                None
            },
            None => None,
        }),
{
    u64::from_str_radix(s, 16).ok()
}

/// The text without a leading `0x`.
pub open spec fn without_hex_prefix(s: Seq<char>) -> Seq<char> {
    if s.len() >= 2 && s[0] == '0' && s[1] == 'x' {
        s.subrange(2, s.len() as int)
    } else {
        s
    }
}

/// The string length that the length word gives; zero when it is unreadable.
pub open spec fn length_word(h: Seq<char>) -> nat {
    match hex_numeral(h.subrange(64, 128)) {
        Some(v) => if v <= u64::MAX {
            v
        } else {
            0
        },
        None => 0,
    }
}

/// The bytes of the first `n` hex pairs of `data`; unreadable pairs are skipped.
pub open spec fn pair_bytes(data: Seq<char>, n: nat) -> Seq<u8>
    decreases n,
{
    if n == 0 {
        Seq::empty()
    } else {
        let prev = pair_bytes(data, (n - 1) as nat);
        match hex_numeral(data.subrange(2 * (n - 1) as int, 2 * n as int)) {
            Some(v) => if v <= u64::MAX {
                prev.push(v as u8)
            } else {
                prev
            },
            None => prev,
        }
    }
}

/// The bytes of the URI that the response holds.
pub open spec fn uri_bytes(h: Seq<char>) -> Seq<u8> {
    let data = h.subrange(128, h.len() as int);
    let pairs = if length_word(h) <= data.len() / 2 {
        length_word(h)
    } else {
        data.len() / 2
    };
    pair_bytes(data, pairs)
}

/// The URI in a hex-encoded contract response: after an optional `0x`, a
/// 64-digit offset, a 64-digit length and the string's bytes as hex pairs.
pub fn decode_token_uri_result(hex_result: &str) -> (r: Result<String, String>)
    ensures
        ({
            let h = without_hex_prefix(hex_result@);
            if h.len() < 128 {
                r is Err
            } else if valid_utf8(uri_bytes(h)) {
                r is Ok && r->Ok_0@ == decode_utf8(uri_bytes(h))
            } else {
                r is Err
            }
        }),
{
    let n = hex_result.unicode_len();
    let hex_str = if n >= 2 && hex_result.get_char(0) == '0' && hex_result.get_char(1) == 'x' {
        hex_result.substring_char(2, n)
    } else {
        hex_result
    };
    let len = hex_str.unicode_len();
    if len < 128 {
        return Err(String::from_str("Invalid response format"));
    }
    let length = match parse_hex_u64(hex_str.substring_char(64, 128)) {
        Some(v) => v,
        None => 0,
    };
    let data = hex_str.substring_char(128, len);
    let data_len = len - 128;
    let pairs: usize = if length <= (data_len / 2) as u64 {
        length as usize
    } else {
        data_len / 2
    };
    let mut uri: Vec<u8> = Vec::new();
    let mut k: usize = 0;
    while k < pairs
        invariant
            k <= pairs,
            2 * pairs <= data@.len(),
            data@ == without_hex_prefix(hex_result@).subrange(128, len as int),
            data@.len() == data_len,
            uri@ == pair_bytes(data@, k as nat),
        decreases pairs - k,
    {
        match parse_hex_u64(data.substring_char(2 * k, 2 * k + 2)) {
            Some(v) => uri.push(v as u8),
            None => {},
        }
        k = k + 1;
    }
    match string_from_utf8(uri) {
        Some(s) => Ok(s),
        None => Err(String::from_str("Failed to decode URI")),
    }
}

} // verus!
