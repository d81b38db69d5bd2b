//! The length rule that the texts of payloads are held to.

use vstd::prelude::*;

verus! {

/// How a text breaks the bounds on its length.
#[derive(Debug, Clone, Copy, PartialEq, Eq)]
pub enum LengthError {
    /// The text has fewer characters than the lower bound.
    TooShort,
    /// The text has more characters than the upper bound.
    TooLong,
}

/// Whether a text of `len` characters respects the bounds that are given.
pub open spec fn length_allowed(len: nat, min: Option<u64>, max: Option<u64>) -> bool {
    &&& min matches Some(least) ==> least <= len
    &&& max matches Some(most) ==> len <= most
}

/// What checking a text of `len` characters against both bounds gives. The
/// lower bound is looked at first.
pub open spec fn length_checked(len: nat, min: u64, max: u64) -> Result<(), LengthError> {
    if len < min {
        Err(LengthError::TooShort)
    } else if len > max {
        Err(LengthError::TooLong)
    } else {
        Ok(())
    }
}

/// `validator::validate_length`, called on a string, with the bounds given
/// and without a length to be met exactly. Trusted: the function counts the
/// characters of the string, which are the elements of its view, and says
/// whether the count is no less than `min` and no more than `max`, a bound
/// that is `None` being no bound.
#[verifier::external_body]
pub(crate) fn has_length(text: &String, min: Option<u64>, max: Option<u64>) -> (ok: bool)
    ensures
        ok == length_allowed(text@.len(), min, max),
{
    validator::validate_length(text, min, max, None)
}

/// Checks the number of characters of `text` against a lower and an upper
/// bound.
pub fn check_length(text: &String, min: u64, max: u64) -> (result: Result<(), LengthError>)
    ensures
        result == length_checked(text@.len(), min, max),
{
    if !has_length(text, Some(min), None) {
        Err(LengthError::TooShort)
    } else if !has_length(text, None, Some(max)) {
        Err(LengthError::TooLong)
    } else {
        Ok(())
    }
}

} // verus!
