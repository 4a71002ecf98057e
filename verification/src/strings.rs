//! Text primitives the engine relies on: case folding, substring search and
//! UTF-8 recovery. Case folding is named rather than spelled out; substring
//! search and UTF-8 recovery have exact contracts over vstd's models.

use vstd::prelude::*;
use vstd::utf8::{encode_utf8, valid_utf8};

verus! {

/// Whether `needle` occurs in `hay` as a contiguous run of characters.
/// The empty sequence occurs in every sequence.
pub open spec fn is_substring_of(needle: Seq<char>, hay: Seq<char>) -> bool {
    exists|i: int|
        0 <= i && i + needle.len() <= hay.len() && #[trigger] hay.subrange(i, i + needle.len())
            == needle
}

/// The lowercase folding of a character sequence, as Unicode defines it.
pub uninterp spec fn lower_of(s: Seq<char>) -> Seq<char>;

/// Relies on str::to_lowercase: the result depends on the characters alone,
/// and an empty string stays empty.
#[verifier::external_body]
pub(crate) fn lowercase(s: &str) -> (r: String)
    ensures
        r@ == lower_of(s@),
        s@.len() == 0 ==> r@.len() == 0,
{
    s.to_lowercase()
}

/// Relies on str::contains with a str pattern: it reports whether the pattern
/// occurs as a substring, and on valid UTF-8 a byte-level occurrence is
/// exactly a character-level one.
#[verifier::external_body]
pub(crate) fn contains_sub(hay: &str, needle: &str) -> (r: bool)
    ensures
        r == is_substring_of(needle@, hay@),
{
    hay.contains(needle)
}

/// Relies on String::from_utf8: it succeeds exactly on valid UTF-8 input, and
/// the string it returns holds exactly the given bytes.
#[verifier::external_body]
pub(crate) fn string_from_utf8(bytes: Vec<u8>) -> (r: Option<String>)
    ensures
        r is Some <==> valid_utf8(bytes@),
        r matches Some(s) ==> encode_utf8(s@) == bytes@,
{
    match String::from_utf8(bytes) {
        Ok(s) => Some(s),
        Err(_) => None,
    }
}

} // verus!
