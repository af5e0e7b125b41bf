//! Validated idempotency tokens.

use vstd::prelude::*;
use vstd::string::StrSliceExecFns;

verus! {

/// Longest accepted idempotency key, in characters. The bound keeps the token
/// usable as a primary-key component without unbounded storage growth.
pub const MAX_KEY_CHARS: usize = 50;

/// A raw token is accepted when it is non-empty and no longer than
/// `MAX_KEY_CHARS` characters.
pub open spec fn valid_key(s: Seq<char>) -> bool {
    0 < s.len() <= MAX_KEY_CHARS
}

/// Rejection of a raw idempotency key at the boundary, before any storage
/// interaction.
#[derive(Clone, Copy, Debug, PartialEq, Eq, Structural)]
pub enum ValidationError {
    /// The raw token was empty.
    EmptyKey,
    /// The raw token was longer than `MAX_KEY_CHARS` characters.
    OverlongKey,
}

/// A validated, opaque idempotency token supplied by the client once per
/// logical submission. The raw token is the identity: no normalization is
/// applied.
#[derive(Clone, Debug)]
pub struct IdempotencyKey {
    key: String,
}

impl View for IdempotencyKey {
    type V = Seq<char>;

    closed spec fn view(&self) -> Seq<char> {
        self.key@
    }
}

impl IdempotencyKey {
    pub open spec fn well_formed(&self) -> bool {
        valid_key(self@)
    }

    /// Validates a raw token. An empty token and an overlong token are
    /// rejected with the matching `ValidationError`; every other token is
    /// accepted unchanged.
    pub fn parse(raw: String) -> (r: Result<IdempotencyKey, ValidationError>)
        ensures
            match r {
                Ok(k) => valid_key(raw@) && k@ == raw@,
                Err(e) => !valid_key(raw@)
                    && (e == ValidationError::EmptyKey <==> raw@.len() == 0)
                    && (e == ValidationError::OverlongKey <==> raw@.len() > MAX_KEY_CHARS),
            },
    {
        let n = raw.as_str().unicode_len();
        if n == 0 {
            Err(ValidationError::EmptyKey)
        } else if n > MAX_KEY_CHARS {
            Err(ValidationError::OverlongKey)
        } else {
            Ok(IdempotencyKey { key: raw })
        }
    }

    /// The validated token.
    pub fn as_str(&self) -> (r: &str)
        ensures
            r@ == self@,
    {
        self.key.as_str()
    }

    /// The validated token, as the owned string it was parsed from.
    pub fn as_string(&self) -> (r: &String)
        ensures
            r@ == self@,
    {
        &self.key
    }
}

} // verus!
