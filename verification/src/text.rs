//! The string operations that the library relies on, most of them calls
//! into std.
use vstd::prelude::*;
use vstd::utf8::{decode_utf8, valid_utf8};

verus! {

/// Calls `String::from_utf8`. Claimed: the bytes are accepted exactly when
/// they are valid UTF-8 (vstd's `valid_utf8`), and the string then holds
/// the characters they encode (`decode_utf8`), as std documents.
#[verifier::external_body]
pub(crate) fn utf8_to_string(bytes: &[u8]) -> (r: Option<String>)
    ensures
        r is Some <==> valid_utf8(bytes@),
        r matches Some(s) ==> s@ == decode_utf8(bytes@),
{
    String::from_utf8(bytes.to_vec()).ok()
}

} // verus!

verus! {

/// What `str::to_lowercase` returns for a string with these characters.
pub uninterp spec fn lowercase(s: Seq<char>) -> Seq<char>;

/// Calls `str::to_lowercase`. Claimed: the result is `lowercase` of the
/// argument's characters (Unicode's lower-case mapping, which depends on
/// the characters alone); nothing more is stated of it.
#[verifier::external_body]
pub(crate) fn to_lowercase(s: &str) -> (r: String)
    ensures
        r@ == lowercase(s@),
{
    s.to_lowercase()
}

} // verus!

verus! {

/// Whether two strings hold the same characters.
pub(crate) fn str_eq(a: &str, b: &str) -> (r: bool)
    ensures
        r == (a@ == b@),
{
    a.to_owned() == b.to_owned()
}

} // verus!

verus! {

/// Calls `str::starts_with` with a `str` pattern. Claimed: true exactly
/// when `prefix`'s characters begin `s`.
#[verifier::external_body]
pub(crate) fn str_starts_with(s: &str, prefix: &str) -> (r: bool)
    ensures
        r == (prefix@.len() <= s@.len() && s@.subrange(0, prefix@.len() as int) == prefix@),
{
    s.starts_with(prefix)
}

/// Calls `str::contains` with a `str` pattern. Claimed: true exactly when
/// `part`'s characters stand somewhere in `s`, one after the other.
#[verifier::external_body]
pub(crate) fn str_contains(s: &str, part: &str) -> (r: bool)
    ensures
        r == (exists|i: int|
            0 <= i && i + part@.len() <= s@.len() && #[trigger] s@.subrange(i, i + part@.len())
                == part@),
{
    s.contains(part)
}

} // verus!
