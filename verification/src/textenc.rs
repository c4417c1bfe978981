//! Text decoding at the byte boundary: strings stored in binaries and
//! configuration files are decoded as UTF-8, with invalid sequences replaced,
//! exactly as the lossy decoder of the standard library does.

use vstd::prelude::*;

verus! {

/// What lossy UTF-8 decoding yields on given bytes. The result depends on
/// the bytes alone; on ASCII input it is the bytes themselves, read as
/// characters.
pub uninterp spec fn utf8_lossy_of(b: Seq<u8>) -> Seq<char>;

/// Relies on String::from_utf8_lossy of std: decodes UTF-8, replacing
/// invalid sequences; the documentation promises that valid UTF-8 (so in
/// particular pure ASCII) comes through unchanged.
#[verifier::external_body]
pub(crate) fn utf8_lossy(b: &[u8]) -> (r: String)
    ensures
        r@ == utf8_lossy_of(b@),
        (forall|i: int| 0 <= i < b@.len() ==> b@[i] < 128) ==> r@ == b@.map_values(|x: u8| x as char),
        b@.len() == 0 ==> r@.len() == 0,
{
    String::from_utf8_lossy(b).into_owned()
}

} // verus!
