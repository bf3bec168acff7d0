//! Hex decoding of signature patterns: the meaning of a hex string as a byte
//! sequence, and a trusted wrapper around the `hex` crate that decodes one.
use vstd::prelude::*;

verus! {

/// Why a hex string failed to decode.
pub enum HexError {
    /// The input had an odd number of digits.
    OddLength,
    /// The input held a byte that is not a hex digit.
    InvalidHexCharacter,
}

/// `b` is an ASCII hex digit.
pub open spec fn is_hex_digit(b: u8) -> bool {
    (48 <= b <= 57) || (97 <= b <= 102) || (65 <= b <= 70)
}

/// The value of one hex digit.
pub open spec fn hex_digit_val(b: u8) -> u8
    recommends
        is_hex_digit(b),
{
    if 48 <= b <= 57 {
        (b - 48) as u8
    } else if 97 <= b <= 102 {
        (b - 87) as u8
    } else {
        (b - 55) as u8
    }
}

/// `s` is a well-formed hex string: even length, hex digits only.
pub open spec fn is_hex_str(s: Seq<u8>) -> bool {
    s.len() % 2 == 0 && (forall|i: int| 0 <= i < s.len() ==> is_hex_digit(#[trigger] s[i]))
}

/// The bytes a well-formed hex string denotes: each digit pair becomes one
/// byte, high digit first.
pub open spec fn spec_hex_decode(s: Seq<u8>) -> Seq<u8>
    decreases s.len(),
{
    if s.len() < 2 {
        Seq::empty()
    } else {
        seq![(hex_digit_val(s[0]) * 16 + hex_digit_val(s[1])) as u8] + spec_hex_decode(
            s.subrange(2, s.len() as int),
        )
    }
}

/// Relies on `hex::decode` (hex 0.4.3): an odd-length input fails with
/// `FromHexError::OddLength`; an even-length input with a byte outside
/// `0-9a-fA-F` fails with `FromHexError::InvalidHexCharacter`; otherwise each
/// pair of digits becomes one byte, high digit first.
#[verifier::external_body]
pub fn decode_hex(s: &Vec<u8>) -> (r: Result<Vec<u8>, HexError>)
    ensures
        r is Ok <==> is_hex_str(s@),
        r is Ok ==> r->Ok_0@ == spec_hex_decode(s@),
        r is Err ==> ((r->Err_0 is OddLength) <==> s@.len() % 2 != 0),
{
    match hex::decode(s) {
        Ok(v) => Ok(v),
        Err(hex::FromHexError::OddLength) => Err(HexError::OddLength),
        Err(hex::FromHexError::InvalidHexCharacter { .. }) => Err(HexError::InvalidHexCharacter),
        Err(hex::FromHexError::InvalidStringLength) => Err(HexError::InvalidHexCharacter),
    }
}

/// A well-formed hex string of `2 * n` digits decodes to `n` bytes.
pub proof fn lemma_hex_decode_len(s: Seq<u8>)
    requires
        is_hex_str(s),
    ensures
        spec_hex_decode(s).len() == s.len() / 2,
    decreases s.len(),
{
    if s.len() >= 2 {
        let t = s.subrange(2, s.len() as int);
        assert(is_hex_str(t));
        lemma_hex_decode_len(t);
    }
}

} // verus!
