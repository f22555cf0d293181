//! Concatenating two files.

use vstd::prelude::*;
use vstd::string::StringExecFns;
use crate::walk::ErrorKind;

verus! {

/// The first text followed by the second, with nothing in between.
pub fn cat(first: &str, second: &str) -> (text: String)
    ensures
        text@ == first@ + second@,
{
    let mut text = first.to_owned();
    text.append(second);
    text
}

/// What concatenating two files gives, from what reading each of them gave.
pub open spec fn concatenated(
    first: Result<Seq<char>, ErrorKind>,
    second: Result<Seq<char>, ErrorKind>,
) -> Result<Seq<char>, ErrorKind> {
    match (first, second) {
        (Ok(first), Ok(second)) => Ok(first + second),
        (Err(error), _) => Err(error),
        (Ok(_), Err(error)) => Err(error),
    }
}

/// The contents of two files one after the other, given what reading each
/// of them gave.
///
/// All or nothing: the result is a text exactly when both files were read,
/// and then it is the first followed by the second. Otherwise it is the
/// error of the first file that failed.
pub fn concatenate(first: Result<String, ErrorKind>, second: Result<String, ErrorKind>) -> (outcome:
    Result<String, ErrorKind>)
    ensures
        text_of(outcome) == concatenated(text_of(first), text_of(second)),
{
    match first {
        Err(error) => Err(error),
        Ok(first) => match second {
            Err(error) => Err(error),
            Ok(second) => Ok(cat(first.as_str(), second.as_str())),
        },
    }
}

/// The mathematical content of the outcome of reading a text.
pub open spec fn text_of(outcome: Result<String, ErrorKind>) -> Result<Seq<char>, ErrorKind> {
    match outcome {
        Ok(text) => Ok(text@),
        Err(error) => Err(error),
    }
}

} // verus!
