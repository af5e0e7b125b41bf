//! The older newsletter delivery route's data and errors.

use vstd::prelude::*;

verus! {

/// The two bodies of a newsletter issue.
pub struct Content {
    pub html: String,
    pub text: String,
}

/// The submitted issue.
pub struct BodyData {
    pub title: String,
    pub content: Content,
}

/// Failure of the delivery route, carrying the text of its underlying error.
pub enum PublishError {
    UnexpectedError(String),
}

impl PublishError {
    /// Every failure of this route is an internal error.
    pub fn status_code(&self) -> (r: u16)
        ensures
            r == 500,
    {
        match self {
            PublishError::UnexpectedError(_) => 500,
        }
    }
}

} // verus!
