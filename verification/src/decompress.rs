//! Inflating the compressed registry blob. The blob travels gzip-compressed;
//! whether it inflates, and to what, is a function of its bytes alone.

use vstd::prelude::*;

verus! {

/// What a gzip stream inflates to: the decompressed bytes, or nothing when
/// the stream is corrupt or truncated.
pub uninterp spec fn gunzip_of(compressed: Seq<u8>) -> Option<Seq<u8>>;

/// Relies on flate2::read::GzDecoder driven by std's Read::read_to_end: the
/// outcome depends on the input bytes alone, and a truncated or corrupt
/// stream fails rather than yielding a partial buffer, since read_to_end
/// demands a well-formed end of stream.
#[verifier::external_body]
pub(crate) fn inflate(data: &[u8]) -> (r: Option<Vec<u8>>)
    ensures
        r is Some <==> gunzip_of(data@) is Some,
        r matches Some(v) ==> gunzip_of(data@) == Some(v@),
{
    let mut decoder = flate2::read::GzDecoder::new(data);
    let mut out = Vec::new();
    match std::io::Read::read_to_end(&mut decoder, &mut out) {
        Ok(_) => Some(out),
        Err(_) => None,
    }
}

} // verus!
