//! The authenticated caller of the admin routes.

use vstd::prelude::*;
use vstd::string::StringSliceAdditionalSpecFns;
use crate::response::{see_other, ResponseSnapshot};

verus! {

/// The identifier of a logged-in user, as the 128-bit value of its unique id.
#[derive(Clone, Copy, Debug, PartialEq, Eq, Hash, Structural)]
pub struct Userid {
    id: u128,
}

impl View for Userid {
    type V = u128;

    closed spec fn view(&self) -> u128 {
        self.id
    }
}

impl Userid {
    pub fn new(id: u128) -> (r: Userid)
        ensures
            r@ == id,
    {
        Userid { id }
    }

    /// The underlying 128-bit value.
    pub fn value(&self) -> (r: u128)
        ensures
            r == self@,
    {
        self.id
    }
}

/// Stands in front of every admin route: a request whose session names no
/// user is sent to the login form, every other request proceeds as that user.
pub fn reject_anonymous_users(session_user: Option<Userid>) -> (r: Result<Userid, ResponseSnapshot>)
    ensures
        match r {
            Ok(u) => session_user == Some(u),
            Err(resp) => {
                &&& session_user is None
                &&& resp@.status == 303
                &&& resp@.headers == seq![("Location".spec_bytes(), "/login".spec_bytes())]
                &&& resp@.body == Seq::<u8>::empty()
            },
        },
{
    match session_user {
        Some(u) => Ok(u),
        None => Err(see_other("/login")),
    }
}

} // verus!
