//! The one bridge from raw bytes to text: a checked view of a byte slice as
//! UTF-8, stated against vstd's model of the encoding.

use vstd::prelude::*;

use vstd::string::StringSliceAdditionalSpecFns;
use vstd::utf8::valid_utf8;

verus! {

/// Relies on std::str::from_utf8: it returns `Ok` exactly on valid UTF-8,
/// and the returned view holds the given bytes unchanged.
#[verifier::external_body]
pub fn bytes_as_str(v: &[u8]) -> (r: Option<&str>)
    ensures
        r is Some <==> valid_utf8(v@),
        r matches Some(s) ==> s.spec_bytes() == v@,
{
    std::str::from_utf8(v).ok()
}

} // verus!
