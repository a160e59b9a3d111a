//! UTF-8 decoding of header bytes.

use vstd::prelude::*;
use vstd::utf8::{
    decode_utf8, encode_utf8, encode_utf8_decode_utf8, encode_utf8_valid_utf8, is_ascii_chars,
    is_ascii_chars_encode_utf8, valid_utf8,
};

use crate::iptext::dec;
use crate::textfacts::{is_dec_digit, lemma_dec_shape};

verus! {

/// What `String::from_utf8_lossy` makes of `bytes`.
pub uninterp spec fn spec_utf8_lossy(bytes: Seq<u8>) -> Seq<char>;

/// Calls `std::str::from_utf8`. Its documentation: the result is `Ok` with the
/// decoded string exactly when the bytes are valid UTF-8.
#[verifier::external_body]
pub(crate) fn str_from_utf8(bytes: &[u8]) -> (r: Option<&str>)
    ensures
        r is Some <==> valid_utf8(bytes@),
        r matches Some(s) ==> s@ == decode_utf8(bytes@),
{
    std::str::from_utf8(bytes).ok()
}

/// Calls `String::from_utf8_lossy` and takes the owned string. Its documentation:
/// valid UTF-8 is decoded as is, and invalid sequences are replaced with U+FFFD,
/// so an invalid input gives a string that holds that character. Which
/// replacements it makes is left to the name `spec_utf8_lossy`.
#[verifier::external_body]
pub(crate) fn utf8_lossy(bytes: &[u8]) -> (r: String)
    ensures
        r@ == spec_utf8_lossy(bytes@),
        valid_utf8(bytes@) ==> r@ == decode_utf8(bytes@),
        !valid_utf8(bytes@) ==> r@.contains('\u{FFFD}'),
{
    String::from_utf8_lossy(bytes).into_owned()
}

/// The text a TLV value stands for: its decoding when it is valid UTF-8, the
/// lossy decoding otherwise.
pub open spec fn text_of(bytes: Seq<u8>) -> Seq<char> {
    if valid_utf8(bytes) {
        decode_utf8(bytes)
    } else {
        spec_utf8_lossy(bytes)
    }
}

/// Decodes `bytes` as UTF-8, replacing invalid sequences.
pub fn bytes_to_string(bytes: &[u8]) -> (r: String)
    ensures
        r@ == text_of(bytes@),
        !valid_utf8(bytes@) ==> r@.contains('\u{FFFD}'),
{
    match str_from_utf8(bytes) {
        Some(s) => s.to_owned(),
        None => utf8_lossy(bytes),
    }
}

/// The decimal digits of `n` as characters.
pub open spec fn dec_chars(n: nat) -> Seq<char> {
    crate::iptext::dec(n).map_values(|b: u8| b as char)
}

/// Bytes below 128 are valid UTF-8 and decode to one character each.
pub proof fn lemma_ascii_decode(b: Seq<u8>)
    requires
        forall|k: int| 0 <= k < b.len() ==> #[trigger] b[k] < 128,
    ensures
        valid_utf8(b),
        decode_utf8(b) == b.map_values(|x: u8| x as char),
{
    let chars = b.map_values(|x: u8| x as char);
    assert(is_ascii_chars(chars)) by {
        assert forall|i: int| 0 <= i < chars.len() implies '\0' <= #[trigger] chars[i] <= '\u{7f}' by {
            assert(b[i] < 128);
        }
    }
    is_ascii_chars_encode_utf8(chars);
    assert(encode_utf8(chars) =~= b) by {
        assert forall|i: int| 0 <= i < b.len() implies #[trigger] encode_utf8(chars)[i] == b[i] by {
            assert(chars[i] as u8 == encode_utf8(chars)[i]);
            assert(b[i] < 128);
        }
    }
    encode_utf8_valid_utf8(chars);
    encode_utf8_decode_utf8(chars);
}

/// The decimal digits of `n`.
fn dec_digits(n: usize) -> (r: Vec<u8>)
    ensures
        r@ == dec(n as nat),
    decreases n,
{
    if n < 10 {
        let mut v: Vec<u8> = Vec::new();
        v.push((0x30 + n) as u8);
        v
    } else {
        let mut v = dec_digits(n / 10);
        v.push((0x30 + n % 10) as u8);
        v
    }
}

/// The decimal digits of `n` as a string, without leading zeros.
pub(crate) fn decimal_string(n: usize) -> (r: String)
    ensures
        r@ == dec_chars(n as nat),
{
    let b = dec_digits(n);
    proof {
        lemma_dec_shape(n as nat);
        assert forall|k: int| 0 <= k < b@.len() implies #[trigger] b@[k] < 128 by {
            assert(is_dec_digit(dec(n as nat)[k]));
        }
        lemma_ascii_decode(b@);
    }
    match str_from_utf8(b.as_slice()) {
        Some(s) => s.to_owned(),
        None => String::new(),
    }
}

/// What the `Debug` implementation of `str` writes for a string: the string
/// in double quotes, with quotes, backslashes and other characters escaped.
pub uninterp spec fn spec_debug_text(s: Seq<char>) -> Seq<char>;

/// Calls the `Debug` implementation of `str` through `format!`. The escaping
/// rules it follows are left to the name `spec_debug_text`.
#[verifier::external_body]
pub(crate) fn debug_string(s: &str) -> (r: String)
    ensures
        r@ == spec_debug_text(s@),
{
    format!("{:?}", s)
}

} // verus!
