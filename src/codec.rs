//! Byte payloads as base64 text.
use vstd::prelude::*;

verus! {

/// The standard base64 text of a byte sequence.
pub uninterp spec fn base64_of(b: Seq<u8>) -> Seq<char>;

/// Relies on `base64::encode`: the standard, padded base64 text of the bytes.
#[verifier::external_body]
pub(crate) fn encode_base64(b: &Vec<u8>) -> (r: String)
    ensures
        r@ == base64_of(b@),
{
    base64::encode(b)
}

/// Relies on `base64::decode`: the text that `base64::encode` makes of some
/// bytes decodes back to those bytes.
#[verifier::external_body]
pub(crate) fn decode_base64(s: &String) -> (r: Option<Vec<u8>>)
    ensures
        (exists|b: Seq<u8>| #[trigger] base64_of(b) == s@) ==> r is Some,
        r matches Some(v) ==> forall|b: Seq<u8>| #[trigger] base64_of(b) == s@ ==> v@ == b,
{
    base64::decode(s).ok()
}

} // verus!
