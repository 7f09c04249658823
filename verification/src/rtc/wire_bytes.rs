//! Bytes as they stand in a wire message.
//!
//! Bytes are written as a `"b64:"`-prefixed base64 text. The older forms, plain
//! hexadecimal text and a list of numbers, are still read.
use base64::prelude::{Engine, BASE64_STANDARD};
use vstd::prelude::*;
use vstd::utf8::encode_utf8;

use crate::identity::{lower_hex, lower_hex_digit};
use crate::text;
use crate::text::has_prefix;

verus! {

/// The text that `BASE64_STANDARD.encode` gives for bytes.
pub uninterp spec fn base64_encoding(bytes: Seq<u8>) -> Seq<char>;

/// What `BASE64_STANDARD.decode` gives for a text: the bytes, or the error in
/// words.
pub uninterp spec fn base64_decoding(encoded: Seq<char>) -> Result<Seq<u8>, Seq<char>>;

/// The words of the error that `hex::decode` gives for a text.
pub uninterp spec fn hex_decoding_error(encoded: Seq<char>) -> Seq<char>;

/// The number of bytes whose base64 text fits into memory.
pub open spec fn encodable(len: int) -> bool {
    len / 3 * 4 + 4 <= isize::MAX
}

/// Base64 text from which `BASE64_STANDARD.decode` reads some bytes.
pub open spec fn reads_back(encoded: Seq<char>, bytes: Seq<u8>) -> bool {
    base64_decoding(encoded) == Ok::<Seq<u8>, Seq<char>>(bytes)
}

/// Calls `Engine::encode` of `base64`'s standard engine. The result has a name,
/// and the same engine's `decode` gives the bytes back. Lengths on which
/// `encode` panics are left out.
#[verifier::external_body]
fn base64_encode(bytes: &[u8]) -> (r: String)
    requires
        encodable(bytes@.len() as int),
    ensures
        r@ == base64_encoding(bytes@) && reads_back(r@, bytes@),
{
    BASE64_STANDARD.encode(bytes)
}

/// Calls `Engine::decode` of `base64`'s standard engine. The result has a name;
/// the error is turned into its words.
#[verifier::external_body]
fn base64_decode(encoded: &str) -> (r: Result<Vec<u8>, String>)
    ensures
        match r {
            Ok(bytes) => base64_decoding(encoded@) matches Ok(b) && b == bytes@,
            Err(message) => base64_decoding(encoded@) matches Err(m) && m == message@,
        },
{
    match BASE64_STANDARD.decode(encoded) {
        Ok(bytes) => Ok(bytes),
        Err(e) => Err(e.to_string()),
    }
}

/// The value of a hexadecimal digit, or -1 for any other character.
pub open spec fn hex_value(c: char) -> int {
    if '0' <= c <= '9' {
        c as int - '0' as int
    } else if 'a' <= c <= 'f' {
        c as int - 'a' as int + 10
    } else if 'A' <= c <= 'F' {
        c as int - 'A' as int + 10
    } else {
        -1
    }
}

/// Pairs of hexadecimal digits.
pub open spec fn is_hex(s: Seq<char>) -> bool {
    &&& s.len() % 2 == 0
    &&& forall|i: int| 0 <= i < s.len() ==> hex_value(#[trigger] s[i]) >= 0
}

/// The bytes that pairs of hexadecimal digits stand for.
pub open spec fn hex_bytes(s: Seq<char>) -> Seq<u8> {
    Seq::new(s.len() / 2, |i: int| (16 * hex_value(s[2 * i]) + hex_value(s[2 * i + 1])) as u8)
}

/// Calls `hex::decode`: pairs of hexadecimal digits of either case give their
/// bytes, anything else an error, whose words have a name. An odd number of
/// bytes is reported before all else, in fixed words.
#[verifier::external_body]
fn hex_decode(encoded: &str) -> (r: Result<Vec<u8>, String>)
    ensures
        match r {
            Ok(bytes) => is_hex(encoded@) && bytes@ == hex_bytes(encoded@),
            Err(message) => {
                &&& !is_hex(encoded@)
                &&& message@ == hex_decoding_error(encoded@)
                &&& encode_utf8(encoded@).len() % 2 != 0 ==> message@ == "Odd number of digits"@
            },
        },
{
    match hex::decode(encoded) {
        Ok(bytes) => Ok(bytes),
        Err(e) => Err(e.to_string()),
    }
}

/// Bytes as they were read from a message.
pub enum BytesRepr {
    /// A `"b64:"`-prefixed base64 text, or plain hexadecimal digits.
    Str(String),
    /// A list of numbers.
    Legacy(Vec<u8>),
}

/// What is wrong with a text that is not hexadecimal.
pub open spec fn hex_error(encoded: Seq<char>) -> Seq<char> {
    if encode_utf8(encoded).len() % 2 != 0 {
        "Odd number of digits"@
    } else {
        hex_decoding_error(encoded)
    }
}

/// The bytes that a text stands for, or what is wrong with it.
pub open spec fn decoded(encoded: Seq<char>) -> Result<Seq<u8>, Seq<char>> {
    if has_prefix(encoded, "b64:"@) {
        base64_decoding(encoded.skip("b64:"@.len() as int))
    } else if is_hex(encoded) {
        Ok(hex_bytes(encoded))
    } else {
        Err(hex_error(encoded))
    }
}

/// Marks a text as base64.
pub fn mark_base64(encoded: &str) -> (r: String)
    ensures
        r@ == "b64:"@ + encoded@,
{
    text::cat2("b64:", encoded)
}

/// Writes bytes as a text, from which `decode_string` reads them back.
pub fn encode_bytes(bytes: &[u8]) -> (r: String)
    requires
        encodable(bytes@.len() as int),
    ensures
        r@ == "b64:"@ + base64_encoding(bytes@),
        decoded(r@) == Ok::<Seq<u8>, Seq<char>>(bytes@),
{
    let encoded = base64_encode(bytes);
    let r = mark_base64(encoded.as_str());
    assert(r@.take("b64:"@.len() as int) =~= "b64:"@);
    assert(r@.skip("b64:"@.len() as int) =~= encoded@);
    r
}

/// Reads bytes from a text.
pub fn decode_string(encoded: &str) -> (r: Result<Vec<u8>, String>)
    ensures
        match r {
            Ok(bytes) => decoded(encoded@) == Ok::<Seq<u8>, Seq<char>>(bytes@),
            Err(message) => decoded(encoded@) == Err::<Seq<u8>, Seq<char>>(message@),
        },
{
    match text::strip_prefix(encoded, "b64:") {
        Some(base64) => base64_decode(base64),
        None => hex_decode(encoded),
    }
}

/// Reads bytes in any of their forms.
pub fn decode_repr(repr: BytesRepr) -> (r: Result<Vec<u8>, String>)
    ensures
        match repr {
            BytesRepr::Str(encoded) => match r {
                Ok(bytes) => decoded(encoded@) == Ok::<Seq<u8>, Seq<char>>(bytes@),
                Err(message) => decoded(encoded@) == Err::<Seq<u8>, Seq<char>>(message@),
            },
            BytesRepr::Legacy(bytes) => r == Ok::<Vec<u8>, String>(bytes),
        },
{
    match repr {
        BytesRepr::Str(encoded) => decode_string(encoded.as_str()),
        BytesRepr::Legacy(bytes) => Ok(bytes),
    }
}

/// Plain hexadecimal digits are never taken for base64.
pub proof fn law_hex_is_not_mistaken(s: Seq<char>)
    requires
        is_hex(s),
    ensures
        decoded(s) == Ok::<Seq<u8>, Seq<char>>(hex_bytes(s)),
{
    reveal_strlit("b64:");
    if has_prefix(s, "b64:"@) {
        assert(s.take("b64:"@.len() as int)[3] == ':');
        assert(s[3] == ':');
        assert(hex_value(s[3]) >= 0);
    }
}

/// Bytes that were written in hexadecimal digits are read back as they were, and so is
/// base64 behind its mark; a text that is neither is refused.
pub proof fn law_older_forms_are_read(bytes: Seq<u8>, encoded: Seq<char>)
    ensures
        decoded(lower_hex(bytes)) == Ok::<Seq<u8>, Seq<char>>(bytes),
        decoded("b64:"@ + encoded) == base64_decoding(encoded),
        reads_back(encoded, bytes) ==> decoded("b64:"@ + encoded) == Ok::<Seq<u8>, Seq<char>>(bytes),
        !has_prefix(encoded, "b64:"@) && !is_hex(encoded) ==> decoded(encoded) is Err,
{
    let s = lower_hex(bytes);
    assert forall|n: int| 0 <= n < 16 implies hex_value(#[trigger] lower_hex_digit(n)) == n by {}
    assert forall|i: int| 0 <= i < s.len() implies hex_value(#[trigger] s[i]) >= 0 by {
        let n = if i % 2 == 0 {
            bytes[i / 2] as int / 16
        } else {
            bytes[i / 2] as int % 16
        };
        assert(s[i] == lower_hex_digit(n));
        assert(hex_value(lower_hex_digit(n)) == n);
    }
    law_hex_is_not_mistaken(s);
    assert forall|i: int| 0 <= i < bytes.len() implies #[trigger] hex_bytes(s)[i] == bytes[i] by {
        let b = bytes[i] as int;
        assert((2 * i) / 2 == i && (2 * i + 1) / 2 == i && (2 * i) % 2 == 0 && (2 * i + 1) % 2
            == 1);
        assert(s[2 * i] == lower_hex_digit(b / 16));
        assert(s[2 * i + 1] == lower_hex_digit(b % 16));
        assert(hex_value(lower_hex_digit(b / 16)) == b / 16);
        assert(hex_value(lower_hex_digit(b % 16)) == b % 16);
    }
    assert(hex_bytes(s) =~= bytes);
    let mark = "b64:"@;
    assert((mark + encoded).take(mark.len() as int) =~= mark);
    assert((mark + encoded).skip(mark.len() as int) =~= encoded);
}

/// A text is hexadecimal where it consists of pairs of digits, in either case; one that is
/// not, and has an odd number of bytes, is refused for that.
pub proof fn law_hex_comes_in_pairs(s: Seq<char>)
    ensures
        is_hex(s) <==> s.len() % 2 == 0 && forall|i: int|
            0 <= i < s.len() ==> '0' <= #[trigger] s[i] <= '9' || 'a' <= s[i] <= 'f' || 'A' <= s[i]
                <= 'F',
        encode_utf8(s).len() % 2 != 0 ==> hex_error(s) == "Odd number of digits"@,
        encode_utf8(s).len() % 2 == 0 ==> hex_error(s) == hex_decoding_error(s),
        is_hex(s) ==> hex_bytes(s).len() == s.len() / 2,
{
    assert forall|i: int| 0 <= i < s.len() implies (hex_value(#[trigger] s[i]) >= 0 <==> '0' <= s[i]
        <= '9' || 'a' <= s[i] <= 'f' || 'A' <= s[i] <= 'F') by {}
    if s.len() % 2 == 0 && forall|i: int|
        0 <= i < s.len() ==> '0' <= #[trigger] s[i] <= '9' || 'a' <= s[i] <= 'f' || 'A' <= s[i]
            <= 'F' {
        assert forall|i: int| 0 <= i < s.len() implies hex_value(#[trigger] s[i]) >= 0 by {}
    }
}

} // verus!
