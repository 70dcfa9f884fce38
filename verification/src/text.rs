//! The two text operations that reporting a failed `cargo metadata` run
//! needs, taken from std.

use vstd::prelude::*;

verus! {

/// What `String::from_utf8_lossy` decodes a byte string to.
pub uninterp spec fn spec_utf8_lossy(bytes: Seq<u8>) -> Seq<char>;

/// What `str::trim` leaves of a text.
pub uninterp spec fn spec_trim(text: Seq<char>) -> Seq<char>;

/// `String::from_utf8_lossy`: the text of `bytes`, with each invalid UTF-8
/// sequence replaced by U+FFFD. The contract claims only that the result is a
/// function of the bytes; the decoding itself is left to std.
#[verifier::external_body]
pub(crate) fn utf8_lossy(bytes: &[u8]) -> (text: String)
    ensures
        text@ == spec_utf8_lossy(bytes@),
{
    String::from_utf8_lossy(bytes).into_owned()
}

/// `str::trim`: `text` without leading and trailing (Unicode) whitespace. The
/// contract claims only that the result is a function of the text; which
/// characters are whitespace is left to std.
#[verifier::external_body]
pub(crate) fn trim_text(text: &str) -> (trimmed: String)
    ensures
        trimmed@ == spec_trim(text@),
{
    text.trim().to_string()
}

} // verus!
