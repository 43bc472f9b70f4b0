//! Conversions between byte buffers and string slices.
use vstd::prelude::*;
use vstd::string::StringSliceAdditionalSpecFns;
use vstd::utf8::valid_utf8;

verus! {

/// Calls `core::str::from_utf8`, which by its documentation turns a byte slice
/// into a string slice over the same bytes and fails exactly when the bytes are
/// not valid UTF-8. The contract claims that: `Some` iff the bytes are valid
/// UTF-8, and then the string's bytes are the input bytes.
#[verifier::external_body]
pub(crate) fn str_from_utf8(bytes: &[u8]) -> (r: Option<&str>)
    ensures
        r is Some <==> valid_utf8(bytes@),
        r matches Some(s) ==> s.spec_bytes() == bytes@,
{
    core::str::from_utf8(bytes).ok()
}

/// `s` cut to `n` characters, then padded on the right with spaces to `n`
/// characters.
pub open spec fn fit_chars(s: Seq<char>, n: int) -> Seq<char> {
    if s.len() >= n {
        s.take(n)
    } else {
        s + Seq::new((n - s.len()) as nat, |i: int| ' ')
    }
}

/// Calls `format!("{:12.12}", s)`. By the documentation of `std::fmt`, for a
/// string the precision is the maximum number of characters kept and the
/// width the minimum number of characters, filled with spaces after the text
/// (strings are left-aligned). The contract claims exactly that: the result's
/// characters are `s` cut and padded to 12 characters.
#[verifier::external_body]
pub(crate) fn format_cell12(s: &str) -> (r: String)
    ensures
        r@ == fit_chars(s@, 12),
{
    format!("{:12.12}", s)
}

} // verus!
