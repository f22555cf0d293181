//! Base names of paths.
//!
//! Splitting a path into components is left to the standard library and to
//! `fsio`, which agree on it. What they return is given a name here,
//! [`base_name`], so that contracts elsewhere can speak of "the base name of
//! this path" without restating the parsing rules.

use vstd::prelude::*;

verus! {

/// The final component of `path`, if it has one: what
/// `std::path::Path::file_name` returns for the path written as `path`. It is
/// `None` for a path that ends in `..` or that has no component to name (the
/// root, or the empty path). The result depends on the text of the path
/// alone, by the path syntax of the platform the library is built for;
/// nothing is looked up in the file system.
pub uninterp spec fn base_name(path: Seq<char>) -> Option<Seq<char>>;

/// The base name of a path, by `std::path::Path::file_name`.
///
/// Trusted: the result is taken to be [`base_name`] of the path. A component
/// of a path given as a string is itself a string, so copying it out of the
/// platform's representation changes nothing.
#[verifier::external_body]
pub(crate) fn file_name(path: &str) -> (name: Option<String>)
    ensures
        name.deep_view() == base_name(path@),
{
    std::path::Path::new(path).file_name().map(|name| name.to_string_lossy().into_owned())
}

/// The base name of a path, by `fsio::path::get_basename`.
///
/// Trusted: `get_basename` takes `Path::file_name` of its argument and
/// copies it into a `String`, so for a path given as a string the result is
/// taken to be [`base_name`] of the path as well.
#[verifier::external_body]
pub(crate) fn basename(path: &str) -> (name: Option<String>)
    ensures
        name.deep_view() == base_name(path@),
{
    fsio::path::get_basename(path)
}

} // verus!
