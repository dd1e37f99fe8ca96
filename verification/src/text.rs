//! Byte and text helpers shared by the parsers.

use vstd::prelude::*;
use vstd::utf8::*;
use crate::scan::range_eq;

verus! {

/// Big-endian 16-bit value at `i`.
pub open spec fn be16(d: Seq<u8>, i: int) -> int {
    d[i] as int * 256 + d[i + 1] as int
}

/// Big-endian 24-bit value at `i`.
pub open spec fn be24(d: Seq<u8>, i: int) -> int {
    be16(d, i) * 256 + d[i + 2] as int
}

/// Big-endian 32-bit value at `i`.
pub open spec fn be32(d: Seq<u8>, i: int) -> int {
    be16(d, i) * 65536 + be16(d, i + 2)
}

/// What `String::from_utf8_lossy` makes of a byte sequence.
pub uninterp spec fn utf8_lossy(b: Seq<u8>) -> Seq<char>;

/// `String::from_utf8_lossy(b).into_owned()`. The characters are named by
/// `utf8_lossy`; for valid UTF-8 the standard library documents that they are
/// the decoded characters.
#[verifier::external_body]
pub(crate) fn string_from_bytes_lossy(b: &[u8]) -> (s: String)
    ensures
        s@ == utf8_lossy(b@),
        valid_utf8(b@) ==> s@ == decode_utf8(b@),
{
    String::from_utf8_lossy(b).into_owned()
}

/// The text of an optional string.
pub open spec fn opt_view(o: Option<String>) -> Option<Seq<char>> {
    match o {
        Some(s) => Some(s@),
        None => None,
    }
}

/// The two texts are the same characters.
pub fn same_text(a: &str, b: &str) -> (r: bool)
    ensures
        r == (a@ == b@),
{
    let x = a.as_bytes();
    let y = b.as_bytes();
    let r = range_eq(x, 0, x.len(), y);
    proof {
        encode_utf8_decode_utf8(a@);
        encode_utf8_decode_utf8(b@);
        assert(x@.subrange(0, x@.len() as int) =~= x@);
    }
    r
}

} // verus!
