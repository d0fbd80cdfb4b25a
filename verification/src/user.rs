//! Names as shown to the user: directories and files are coloured through
//! the `colored` crate. Whether colour codes are actually added depends on
//! the terminal and environment, so the contracts promise only that the name
//! itself is never shortened.
use vstd::prelude::*;
use colored::Colorize;

verus! {

/// Relies on `colored`'s `blue` and `bold`: the name, possibly wrapped in
/// terminal colour codes. Whether codes are added depends on the terminal
/// and environment, so no more than a length bound is assumed.
#[verifier::external_body]
fn blue_bold(name: &str) -> (r: String)
    ensures
        r@.len() >= name@.len(),
{
    format!("{}", name.blue().bold())
}

/// Relies on `colored`'s `green` and `bold`: as `blue_bold`.
#[verifier::external_body]
fn green_bold(name: &str) -> (r: String)
    ensures
        r@.len() >= name@.len(),
{
    format!("{}", name.green().bold())
}

/// A directory name as shown to the user: coloured, never shortened.
pub fn dir_name_string(name: &str) -> (r: String)
    ensures
        r@.len() >= name@.len(),
{
    blue_bold(name)
}

/// A file name as shown to the user: coloured, never shortened.
pub fn file_name_string(name: &str) -> (r: String)
    ensures
        r@.len() >= name@.len(),
{
    green_bold(name)
}

} // verus!
