//! The library's error type.

use crate::text::{push_str, NumberError};
use vstd::prelude::*;

verus! {

/// What went wrong, by kind: bad input of the user, an answer of a backend,
/// a failure of transport or storage, or a broken assumption inside the
/// mapping between a backend and the common model.
#[derive(Debug)]
pub enum AcariError {
    Io(String),
    Time(String),
    Request(String),
    Json(String),
    Url(String),
    /// A backend's error: its status code and message.
    Mite(u16, String),
    UserError(String),
    InternalError(String),
    ParseNum(NumberError),
}

/// The usual wording of a number problem.
pub open spec fn number_error_text(e: NumberError) -> Seq<char> {
    match e {
        NumberError::Empty => "cannot parse integer from empty string"@,
        NumberError::InvalidDigit => "invalid digit found in string"@,
        NumberError::TooLarge => "number too large to fit in target type"@,
    }
}

impl NumberError {
    /// The usual wording of this problem.
    pub fn message(&self) -> (r: &'static str)
        ensures
            r@ == number_error_text(*self),
    {
        match self {
            NumberError::Empty => "cannot parse integer from empty string",
            NumberError::InvalidDigit => "invalid digit found in string",
            NumberError::TooLarge => "number too large to fit in target type",
        }
    }
}

/// A string made of a prefix and the wording of a number problem.
pub fn describe(prefix: &str, e: NumberError) -> (r: String)
    ensures
        r@ == prefix@ + number_error_text(e),
{
    let mut r = String::new();
    push_str(&mut r, prefix);
    push_str(&mut r, e.message());
    assert(r@ =~= prefix@ + number_error_text(e));
    r
}

} // verus!
