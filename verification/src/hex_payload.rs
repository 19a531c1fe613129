//! Turning an operator's hex string into frame payload bytes, as the
//! command-line sender reads them: two digits per byte, upper or lower
//! case; anything malformed falls back to an empty payload.

use vstd::prelude::*;

verus! {

/// Whether `c` is an ASCII hex digit, in either case.
pub open spec fn spec_is_hex_digit(c: char) -> bool {
    (48 <= c as int && c as int <= 57)  // '0'..='9'
     || (97 <= c as int && c as int <= 102)  // 'a'..='f'
     || (65 <= c as int && c as int <= 70)  // 'A'..='F'

}

/// The value of one hex digit.
pub open spec fn spec_hex_digit_value(c: char) -> u8 {
    if 48 <= c as int && c as int <= 57 {
        (c as int - 48) as u8
    } else if 97 <= c as int && c as int <= 102 {
        (c as int - 87) as u8
    } else {
        (c as int - 55) as u8
    }
}

/// Whether a whole string is decodable hex: an even number of characters,
/// every one a hex digit.
pub open spec fn spec_is_valid_hex(s: Seq<char>) -> bool {
    s.len() % 2 == 0 && (forall|i: int| 0 <= i < s.len() ==> spec_is_hex_digit(#[trigger] s[i]))
}

/// The bytes a hex string stands for, two digits each.
pub open spec fn spec_hex_decode(s: Seq<char>) -> Seq<u8>
    decreases s.len(),
{
    if s.len() < 2 {
        Seq::empty()
    } else {
        seq![(spec_hex_digit_value(s[0]) * 16 + spec_hex_digit_value(s[1])) as u8]
            + spec_hex_decode(s.skip(2))
    }
}

#[verifier::external_type_specification]
#[verifier::external_body]
pub struct ExFromHexError(hex::FromHexError);

/// Relies on hex::decode: it accepts exactly the even-length strings of hex
/// digits (either case) and pairs each two digits into one byte, high
/// digit first.
#[verifier::external_body]
fn hex_decode(s: &str) -> (r: Result<Vec<u8>, hex::FromHexError>)
    ensures
        r is Ok <==> spec_is_valid_hex(s@),
        r is Ok ==> r.unwrap()@ == spec_hex_decode(s@),
{
    hex::decode(s)
}

/// Decodes a hex string into payload bytes; a string that is not valid hex
/// yields an empty payload instead.
pub fn decode_hex_string_into_payload(hex_string: &str) -> (r: Vec<u8>)
    ensures
        spec_is_valid_hex(hex_string@) ==> r@ == spec_hex_decode(hex_string@),
        !spec_is_valid_hex(hex_string@) ==> r@ == Seq::<u8>::empty(),
{
    match hex_decode(hex_string) {
        Ok(bytes) => bytes,
        Err(_) => Vec::new(),
    }
}

} // verus!
