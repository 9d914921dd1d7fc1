//! Hexadecimal text of bytes, through the `hex` crate.

use vstd::prelude::*;
use crate::text::hex_text;

verus! {

/// The value of an ASCII hexadecimal digit of either case.
pub open spec fn hex_digit_value(c: u8) -> nat {
    if 0x30 <= c <= 0x39 {
        (c - 0x30) as nat
    } else if 0x41 <= c <= 0x46 {
        (c - 0x41 + 10) as nat
    } else {
        (c - 0x61 + 10) as nat
    }
}

/// Whether a byte is an ASCII hexadecimal digit of either case.
pub open spec fn is_hex_digit(c: u8) -> bool {
    (0x30 <= c <= 0x39) || (0x41 <= c <= 0x46) || (0x61 <= c <= 0x66)
}

/// Whether text is an even number of hexadecimal digits.
pub open spec fn is_hex_text(text: Seq<u8>) -> bool {
    &&& text.len() % 2 == 0
    &&& forall|i: int| 0 <= i < text.len() ==> is_hex_digit(#[trigger] text[i])
}

/// The bytes that hexadecimal text denotes, two digits per byte, high digit
/// first.
pub open spec fn hex_decoded(text: Seq<u8>) -> Seq<u8> {
    Seq::new(
        text.len() / 2,
        |i: int| (16 * hex_digit_value(text[2 * i]) + hex_digit_value(text[2 * i + 1])) as u8,
    )
}

/// Calls `hex::encode`: two lowercase hexadecimal digits per byte.
#[verifier::external_body]
pub(crate) fn encode_hex(bytes: &[u8]) -> (r: String)
    ensures
        r@ == hex_text(bytes@),
{
    hex::encode(bytes)
}

/// The error that `hex::decode` reports.
#[verifier::external_type_specification]
#[verifier::external_body]
pub struct ExFromHexError(hex::FromHexError);

/// Calls `hex::decode`: the bytes that the text denotes, or an error when it
/// is not an even number of hexadecimal digits.  Which error it reports (an
/// odd length or the first bad character) is left unsaid.
#[verifier::external_body]
pub(crate) fn decode_hex(text: &[u8]) -> (r: Result<Vec<u8>, hex::FromHexError>)
    ensures
        r is Ok <==> is_hex_text(text@),
        r matches Ok(bytes) ==> bytes@ == hex_decoded(text@),
{
    hex::decode(text)
}

/// Text with every leading `0x` removed.
pub open spec fn without_hex_prefixes(text: Seq<u8>) -> Seq<u8>
    decreases text.len(),
{
    if text.len() >= 2 && text[0] == 0x30 && text[1] == 0x78 {
        without_hex_prefixes(text.skip(2))
    } else {
        text
    }
}

/// The bytecode that hexadecimal text denotes, after every leading `0x` is
/// removed; `None` when the rest is not an even number of hexadecimal digits.
pub fn parse_bytecode(text: &[u8]) -> (r: Option<Vec<u8>>)
    ensures
        r is Some <==> is_hex_text(without_hex_prefixes(text@)),
        r matches Some(bytes) ==> bytes@ == hex_decoded(without_hex_prefixes(text@)),
{
    let mut start: usize = 0;
    assert(text@.skip(0) =~= text@);
    while text.len() - start >= 2 && text[start] == 0x30 && text[start + 1] == 0x78
        invariant
            start <= text@.len(),
            without_hex_prefixes(text@.skip(start as int)) == without_hex_prefixes(text@),
        decreases text@.len() - start,
    {
        assert(text@.skip(start as int).skip(2) =~= text@.skip(start + 2));
        start = start + 2;
    }
    let rest = vstd::slice::slice_subrange(text, start, text.len());
    assert(rest@ =~= text@.skip(start as int));
    match decode_hex(rest) {
        Ok(bytes) => Some(bytes),
        Err(_) => None,
    }
}

} // verus!
