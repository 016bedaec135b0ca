//! The diff that goes into the prompt.

use vstd::prelude::*;

use crate::text::{decode_lossy, utf8_lossy};

verus! {

/// The failure to obtain a diff.
#[derive(Debug, PartialEq, Eq, Structural)]
pub enum DiffError {
    /// Nothing is staged: the diff is empty.
    EmptyDiff,
}

/// Accepts the text of the staged diff, which must not be empty.
pub fn staged_diff(text: String) -> (r: Result<String, DiffError>)
    ensures
        text@.len() == 0 ==> r == Err::<String, DiffError>(DiffError::EmptyDiff),
        text@.len() > 0 ==> (r matches Ok(d) && d@ == text@),
{
    if text.as_str().unicode_len() == 0 {
        Err(DiffError::EmptyDiff)
    } else {
        Ok(text)
    }
}

/// Reads the staged diff from the output of the version-control tool, decoded
/// as UTF-8 with invalid sequences replaced; an empty diff is refused.
pub fn staged_diff_from_output(output: &[u8]) -> (r: Result<String, DiffError>)
    ensures
        utf8_lossy(output@).len() == 0 ==> r == Err::<String, DiffError>(DiffError::EmptyDiff),
        utf8_lossy(output@).len() > 0 ==> (r matches Ok(d) && d@ == utf8_lossy(output@)),
        output@.len() == 0 ==> r == Err::<String, DiffError>(DiffError::EmptyDiff),
        output@.len() > 0 ==> r is Ok,
{
    staged_diff(decode_lossy(output))
}

} // verus!
