//! Hex decoding of the user-supplied constructor payload, through the
//! `hex` crate.

use vstd::prelude::*;

verus! {

/// An ASCII hex digit, upper or lower case.
pub open spec fn is_hex_digit(b: u8) -> bool {
    (48 <= b <= 57) || (65 <= b <= 70) || (97 <= b <= 102)
}

pub open spec fn hex_val(b: u8) -> nat {
    if 48 <= b <= 57 {
        (b - 48) as nat
    } else if 65 <= b <= 70 {
        (b - 65 + 10) as nat
    } else if 97 <= b <= 102 {
        (b - 97 + 10) as nat
    } else {
        0
    }
}

/// Hex text is valid when its length is even and every byte is a digit.
pub open spec fn valid_hex(s: Seq<u8>) -> bool {
    s.len() % 2 == 0 && forall|i: int| 0 <= i < s.len() ==> is_hex_digit(#[trigger] s[i])
}

/// The bytes denoted by valid hex text: two digits for each byte.
pub open spec fn hex_decode_spec(s: Seq<u8>) -> Seq<u8> {
    Seq::new(s.len() / 2, |i: int| (16 * hex_val(s[2 * i]) + hex_val(s[2 * i + 1])) as u8)
}

#[verifier::external_type_specification]
#[verifier::external_body]
pub struct ExFromHexError(hex::FromHexError);

/// Relies on hex::decode: it returns the decoded bytes exactly when the
/// input has even length and holds hex digits only (`0-9`, `a-f`, `A-F`),
/// two digits for each output byte, most significant first.
#[verifier::external_body]
fn hex_decode_raw(data: &Vec<u8>) -> (r: Result<Vec<u8>, hex::FromHexError>)
    ensures
        r is Ok <==> valid_hex(data@),
        r matches Ok(v) ==> v@ == hex_decode_spec(data@),
{
    hex::decode(data)
}

/// Decodes hex text into bytes, or reports that the text is not hex.
pub fn hex_decode(data: &Vec<u8>) -> (r: Option<Vec<u8>>)
    ensures
        r is Some <==> valid_hex(data@),
        r matches Some(v) ==> v@ == hex_decode_spec(data@),
{
    match hex_decode_raw(data) {
        Ok(v) => Some(v),
        Err(_) => None,
    }
}

} // verus!
