//! The subscription confirmation route's decision logic.

use vstd::prelude::*;
use crate::response::ResponseSnapshot;

verus! {

/// The query parameters of the confirmation link.
pub struct Parameters {
    pub subscription_token: String,
}

/// Failure of the confirm route.
pub enum ConfirmationError {
    /// A storage failure, carrying its description.
    UnexpectedError(String),
    /// There is no subscriber associated with the provided token.
    UnknownToken,
}

impl ConfirmationError {
    /// The status the route answers with: a storage failure is an internal
    /// error, an unknown token is unauthorized.
    pub fn status_code(&self) -> (r: u16)
        ensures
            match self {
                ConfirmationError::UnexpectedError(_) => r == 500,
                ConfirmationError::UnknownToken => r == 401,
            },
    {
        match self {
            ConfirmationError::UnexpectedError(_) => 500,
            ConfirmationError::UnknownToken => 401,
        }
    }
}

/// The confirm route's decision on the result of the token lookup: a storage
/// failure is surfaced, an unknown token is rejected, and a found subscriber
/// is handed back with the empty 200 response owed once the caller marks the
/// subscription confirmed in storage.
pub fn confirm(lookup: Result<Option<u128>, String>) -> (r: Result<
    (u128, ResponseSnapshot),
    ConfirmationError,
>)
    ensures
        match lookup {
            Ok(Some(subscriber_id)) => r matches Ok((id, resp)) && id == subscriber_id
                && resp@.status == 200 && resp@.headers == Seq::<(Seq<u8>, Seq<u8>)>::empty()
                && resp@.body == Seq::<u8>::empty() && resp.well_formed(),
            Ok(None) => r matches Err(ConfirmationError::UnknownToken),
            Err(msg) => r matches Err(ConfirmationError::UnexpectedError(m)) && m@ == msg@,
        },
{
    match lookup {
        Ok(Some(subscriber_id)) => Ok((subscriber_id, ResponseSnapshot::with_status(200))),
        Ok(None) => Err(ConfirmationError::UnknownToken),
        Err(msg) => Err(ConfirmationError::UnexpectedError(msg)),
    }
}

} // verus!
