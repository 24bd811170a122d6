//! The base64 calls that the text fallback for binary payloads makes.
use vstd::prelude::*;
use vstd::string::StringSliceAdditionalSpecFns;

verus! {

#[verifier::external_type_specification]
#[verifier::external_body]
pub struct ExDecodeError(base64::DecodeError);

/// The standard, padded base64 text of the bytes `b`.
pub uninterp spec fn base64_of(b: Seq<u8>) -> Seq<char>;

/// The bytes that the base64 text `s` stands for, or `None` where it is not
/// accepted as standard base64.
pub uninterp spec fn base64_decoded(s: Seq<char>) -> Option<Seq<u8>>;

/// Relies on `base64::encode` (standard alphabet, with padding): its text
/// depends on the bytes alone. It panics only where the length of its output
/// overflows `usize`, which no input of at most `isize::MAX` bytes reaches.
#[verifier::external_body]
pub(crate) fn encode(b: &[u8]) -> (r: String)
    requires
        b@.len() <= isize::MAX,
    ensures
        r@ == base64_of(b@),
{
    base64::encode(b)
}

/// Relies on `base64::decode` (standard alphabet): its result depends on the
/// text alone, and text that `base64::encode` wrote is read back as the bytes
/// that were encoded. It panics only where the input length plus 3 overflows
/// `usize`.
#[verifier::external_body]
pub(crate) fn decode(s: &str) -> (r: Result<Vec<u8>, base64::DecodeError>)
    requires
        s.spec_bytes().len() <= isize::MAX,
    ensures
        r is Ok <==> base64_decoded(s@) is Some,
        r is Ok ==> r->Ok_0@ == base64_decoded(s@)->Some_0,
        forall|b: Seq<u8>| #[trigger] base64_of(b) == s@ ==> (r is Ok && r->Ok_0@ == b),
{
    base64::decode(s)
}

} // verus!
