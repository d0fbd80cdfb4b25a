//! Small helpers shared by the command layer.
use vstd::prelude::*;

verus! {

/// Relies on `str`'s equality of std: true exactly when the two strings hold
/// the same characters.
#[verifier::external_body]
fn str_eq(a: &str, b: &str) -> (r: bool)
    ensures
        r == (a@ == b@),
{
    a == b
}

/// Whether a directory at the storage root is hidden from plain listings.
pub fn is_hidden_dir(name: &str) -> (r: bool)
    ensures
        r == (name@ == "archive"@),
{
    str_eq(name, "archive")
}

} // verus!
