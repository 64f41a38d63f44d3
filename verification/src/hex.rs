//! Hex payload handling: decoding `0x`-prefixed hex strings into bytes and
//! encoding bytes back, plus the one bridge from raw bytes to `String`.

use vstd::prelude::*;
use vstd::utf8::{valid_utf8, decode_utf8, is_leading_byte_width_1, valid_first_scalar,
    pop_first_scalar, decode_first_scalar, length_of_first_scalar};

verus! {

/// Relies on `String::from_utf8`: returns the string decoding the given
/// bytes exactly when they are valid UTF-8.
#[verifier::external_body]
pub fn bytes_to_string(v: Vec<u8>) -> (r: Option<String>)
    ensures
        match r {
            Some(s) => valid_utf8(v@) && s@ == decode_utf8(v@),
            None => !valid_utf8(v@),
        },
{
    match String::from_utf8(v) {
        Ok(s) => Some(s),
        Err(_) => None,
    }
}

/// Bytes below 128 are valid UTF-8 and decode to themselves, character for
/// character.
pub proof fn lemma_ascii_decode(bytes: Seq<u8>)
    requires
        forall|i: int| 0 <= i < bytes.len() ==> #[trigger] bytes[i] < 128,
    ensures
        valid_utf8(bytes),
        decode_utf8(bytes) == bytes.map_values(|b: u8| b as char),
    decreases bytes.len(),
{
    if bytes.len() == 0 {
        assert(decode_utf8(bytes) =~= bytes.map_values(|b: u8| b as char));
    } else {
        let b0 = bytes[0];
        assert(is_leading_byte_width_1(b0));
        assert(b0 & 0x7f == b0) by (bit_vector)
            requires
                b0 < 128,
        ;
        assert(valid_first_scalar(bytes));
        assert(length_of_first_scalar(bytes) == 1);
        let rest = pop_first_scalar(bytes);
        assert(rest =~= bytes.drop_first());
        lemma_ascii_decode(rest);
        assert(decode_first_scalar(bytes) == b0 as u32);
        assert((b0 as u32) as char == b0 as char);
        assert(decode_utf8(bytes) =~= bytes.map_values(|b: u8| b as char));
    }
}

/// The value of one hex digit character, or `None` when the character is not
/// a hex digit.
pub open spec fn hex_digit_value(c: char) -> Option<u8> {
    let u = c as u32;
    if 48 <= u <= 57 {
        Some((u - 48) as u8)
    } else if 97 <= u <= 102 {
        Some((u - 87) as u8)
    } else if 65 <= u <= 70 {
        Some((u - 55) as u8)
    } else {
        None
    }
}

/// The byte written at position `k` of a hex string whose digits are all
/// valid.
pub open spec fn hex_byte_at(s: Seq<char>, k: int) -> u8 {
    (16 * hex_digit_value(s[2 * k])->0 + hex_digit_value(s[2 * k + 1])->0) as u8
}

/// The bytes denoted by a hex string: defined exactly when the length is
/// even and every character is a hex digit.
pub open spec fn hex_decode_spec(s: Seq<char>) -> Option<Seq<u8>> {
    if s.len() % 2 == 0 && (forall|i: int| 0 <= i < s.len() ==> hex_digit_value(#[trigger] s[i]) is Some) {
        Some(Seq::new(s.len() / 2, |k: int| hex_byte_at(s, k)))
    } else {
        None
    }
}

/// The lower-case hex digit character for a value below 16.
pub open spec fn hex_char_of(d: u8) -> char {
    if d < 10 {
        ((48 + d) as u8) as char
    } else {
        ((87 + d) as u8) as char
    }
}

/// The lower-case hex spelling of a byte string, two digits per byte, without
/// a `0x` prefix.
pub open spec fn hex_encode_spec(b: Seq<u8>) -> Seq<char> {
    Seq::new(
        2 * b.len(),
        |i: int| if i % 2 == 0 {
            hex_char_of((b[i / 2] / 16) as u8)
        } else {
            hex_char_of((b[i / 2] % 16) as u8)
        },
    )
}

/// The string with one leading `0x` removed, when it has one.
pub open spec fn strip_hex_prefix_spec(s: Seq<char>) -> Seq<char> {
    if s.len() >= 2 && s[0] == '0' && s[1] == 'x' {
        s.skip(2)
    } else {
        s
    }
}

/// The value of one hex digit character.
pub fn hex_digit(c: char) -> (r: Option<u8>)
    ensures
        r == hex_digit_value(c),
{
    let u = c as u32;
    if 48 <= u && u <= 57 {
        Some((u - 48) as u8)
    } else if 97 <= u && u <= 102 {
        Some((u - 87) as u8)
    } else if 65 <= u && u <= 70 {
        Some((u - 55) as u8)
    } else {
        None
    }
}

/// Decodes a hex string (without prefix) into bytes; fails on an odd digit
/// count or a character outside `0-9a-fA-F`.
pub fn hex_decode(s: &str) -> (r: Option<Vec<u8>>)
    ensures
        match r {
            Some(v) => hex_decode_spec(s@) == Some(v@),
            None => hex_decode_spec(s@) is None,
        },
{
    let n = s.unicode_len();
    if n % 2 != 0 {
        return None;
    }
    let mut out: Vec<u8> = Vec::new();
    let mut i: usize = 0;
    while i < n
        invariant
            n == s@.len(),
            i <= n,
            i % 2 == 0,
            n % 2 == 0,
            forall|k: int| 0 <= k < i ==> hex_digit_value(#[trigger] s@[k]) is Some,
            out@.len() == i / 2,
            forall|k: int| 0 <= k < i / 2 ==> out@[k] == #[trigger] hex_byte_at(s@, k),
        decreases n - i,
    {
        let c1 = s.get_char(i);
        let c2 = s.get_char(i + 1);
        let d1 = hex_digit(c1);
        let d2 = hex_digit(c2);
        match (d1, d2) {
            (Some(h), Some(l)) => {
                out.push(16 * h + l);
            },
            _ => {
                return None;
            },
        }
        i = i + 2;
    }
    proof {
        let expected = Seq::new(s@.len() / 2, |k: int| hex_byte_at(s@, k));
        assert(out@ =~= expected);
    }
    Some(out)
}

/// Encodes bytes as lower-case hex without a prefix.
pub fn hex_encode(b: &Vec<u8>) -> (r: String)
    ensures
        r@ == hex_encode_spec(b@),
{
    let mut ascii: Vec<u8> = Vec::new();
    let mut i: usize = 0;
    while i < b.len()
        invariant
            i <= b@.len(),
            ascii@.len() == 2 * i,
            forall|k: int| 0 <= k < ascii@.len() ==> #[trigger] ascii@[k] < 128,
            forall|k: int| 0 <= k < ascii@.len() ==> ascii@[k] as char == #[trigger] hex_encode_spec(b@)[k],
        decreases b@.len() - i,
    {
        let byte = b[i];
        let hi = byte / 16;
        let lo = byte % 16;
        let hi_c: u8 = if hi < 10 { 48 + hi } else { 87 + hi };
        let lo_c: u8 = if lo < 10 { 48 + lo } else { 87 + lo };
        ascii.push(hi_c);
        ascii.push(lo_c);
        i = i + 1;
    }
    proof {
        lemma_ascii_decode(ascii@);
        assert(decode_utf8(ascii@) =~= hex_encode_spec(b@));
    }
    let r = bytes_to_string(ascii);
    match r {
        Some(s) => s,
        None => vstd::pervasive::unreached(),
    }
}

/// Strips one leading `0x` from a hex string, when present.
pub fn strip_hex_prefix<'a>(s: &'a str) -> (r: &'a str)
    ensures
        r@ == strip_hex_prefix_spec(s@),
{
    let n = s.unicode_len();
    if n >= 2 {
        let c0 = s.get_char(0);
        let c1 = s.get_char(1);
        if c0 == '0' && c1 == 'x' {
            let r = s.substring_char(2, n);
            proof {
                assert(r@ =~= s@.skip(2));
            }
            return r;
        }
    }
    s
}

} // verus!
