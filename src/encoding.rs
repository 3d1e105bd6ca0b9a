use vstd::prelude::*;
use base64::Engine;

verus! {

/// A byte of the standard base64 alphabet, padding included.
pub open spec fn is_base64_byte(b: u8) -> bool {
    (65 <= b <= 90) || (97 <= b <= 122) || (48 <= b <= 57) || b == 43 || b == 47 || b == 61
}

/// Standard base64 text (with padding) that the base64 crate writes for `data`.
pub uninterp spec fn base64_text(data: Seq<u8>) -> Seq<u8>;

/// What the base64 crate's standard engine decodes `text` to, `None` where
/// it reports an error.
pub uninterp spec fn base64_decoded(text: Seq<u8>) -> Option<Seq<u8>>;

/// `data`'s base64 text is made of the alphabet alone and decodes back to
/// `data`.
pub open spec fn base64_round_trips(data: Seq<u8>) -> bool {
    &&& forall|i: int| 0 <= i < base64_text(data).len() ==> is_base64_byte(#[trigger] base64_text(data)[i])
    &&& base64_decoded(base64_text(data)) == Some(data)
}

/// Relies on base64's `STANDARD.encode`: padded text over the standard
/// alphabet, which `STANDARD.decode` reads back to the input.
#[verifier::external_body]
pub(crate) fn base64_encode(data: &[u8]) -> (r: Vec<u8>)
    ensures
        r@ == base64_text(data@),
        forall|i: int| 0 <= i < r@.len() ==> is_base64_byte(#[trigger] r@[i]),
        base64_decoded(r@) == Some(data@),
{
    base64::engine::general_purpose::STANDARD.encode(data).into_bytes()
}

/// Relies on base64's `STANDARD.decode`: the decoded bytes, or an error for
/// text that is not padded standard base64.
#[verifier::external_body]
pub(crate) fn base64_decode(text: &[u8]) -> (r: Option<Vec<u8>>)
    ensures
        r matches Some(v) ==> base64_decoded(text@) == Some(v@),
        r is None ==> base64_decoded(text@) is None,
{
    base64::engine::general_purpose::STANDARD.decode(text).ok()
}

} // verus!
