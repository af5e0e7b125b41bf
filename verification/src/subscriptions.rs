//! The subscribe route's computation: form data, its errors, the
//! subscription token and the confirmation email content.

use vstd::prelude::*;
use vstd::string::{StrSliceExecFns, StringExecFns};

verus! {

/// The submitted subscribe form.
pub struct FormData {
    pub email: String,
    pub name: String,
}

/// A database failure while storing a subscription token.
pub struct StoreTokenError(pub String);

impl StoreTokenError {
    /// The fixed text the error shows a caller.
    pub fn message(&self) -> (r: String)
        ensures
            r@ == "A database failure was encountered while trying to store a subscription token."@,
    {
        String::from_str(
            "A database failure was encountered while trying to store a subscription token.",
        )
    }
}

/// Failure of the subscribe route, each variant carrying the text of its
/// underlying error.
pub enum SubscribeError {
    ValidationError(String),
    DatabaseError(String),
    StoreTokenError(StoreTokenError),
    SendEmailError(String),
}

impl SubscribeError {
    /// The status the route answers with: a rejected form is a bad request,
    /// every storage or delivery failure an internal error.
    pub fn status_code(&self) -> (r: u16)
        ensures
            match self {
                SubscribeError::ValidationError(_) => r == 400,
                SubscribeError::DatabaseError(_) => r == 500,
                SubscribeError::StoreTokenError(_) => r == 500,
                SubscribeError::SendEmailError(_) => r == 500,
            },
    {
        match self {
            SubscribeError::ValidationError(_) => 400,
            SubscribeError::DatabaseError(_) => 500,
            SubscribeError::StoreTokenError(_) => 500,
            SubscribeError::SendEmailError(_) => 500,
        }
    }
}

impl From<String> for SubscribeError {
    fn from(e: String) -> Self {
        SubscribeError::ValidationError(e)
    }
}

impl vstd::std_specs::convert::FromSpecImpl<String> for SubscribeError {
    open spec fn obeys_from_spec() -> bool {
        true
    }

    open spec fn from_spec(e: String) -> Self {
        SubscribeError::ValidationError(e)
    }
}

impl From<StoreTokenError> for SubscribeError {
    fn from(e: StoreTokenError) -> Self {
        SubscribeError::StoreTokenError(e)
    }
}

impl vstd::std_specs::convert::FromSpecImpl<StoreTokenError> for SubscribeError {
    open spec fn obeys_from_spec() -> bool {
        true
    }

    open spec fn from_spec(e: StoreTokenError) -> Self {
        SubscribeError::StoreTokenError(e)
    }
}

/// The views of a run of cause texts, in order.
pub open spec fn cause_views(causes: Seq<String>) -> Seq<Seq<char>> {
    Seq::new(causes.len(), |i: int| causes[i]@)
}

/// One `Caused by:` line per cause, in order.
pub open spec fn spec_cause_lines(causes: Seq<Seq<char>>) -> Seq<char>
    decreases causes.len(),
{
    if causes.len() == 0 {
        Seq::empty()
    } else {
        spec_cause_lines(causes.drop_last()) + "Caused by:\n\t"@ + causes.last() + "\n"@
    }
}

/// The rendering of an error chain: the top error, a blank line, then each
/// cause on its own `Caused by:` line.
pub open spec fn spec_error_chain(top: Seq<char>, causes: Seq<Seq<char>>) -> Seq<char> {
    top + "\n\n"@ + spec_cause_lines(causes)
}

/// Renders an error and the chain of its causes, outermost first.
pub fn error_chain_fmt(error: &String, causes: &Vec<String>) -> (r: String)
    ensures
        r@ == spec_error_chain(error@, cause_views(causes@)),
{
    let mut out = error.clone();
    out.append("\n\n");
    let n = causes.len();
    let mut i: usize = 0;
    while i < n
        invariant
            i <= n,
            n == causes@.len(),
            out@ == error@ + "\n\n"@ + spec_cause_lines(cause_views(causes@).take(i as int)),
        decreases n - i,
    {
        out.append("Caused by:\n\t");
        out.append(causes[i].as_str());
        out.append("\n");
        proof {
            let cv = cause_views(causes@);
            assert(cv.take(i as int + 1).drop_last() =~= cv.take(i as int));
            assert(cv.take(i as int + 1).last() == causes@[i as int]@);
            assert(out@ =~= error@ + "\n\n"@ + spec_cause_lines(cv.take(i as int + 1)));
        }
        i = i + 1;
    }
    proof {
        assert(cause_views(causes@).take(n as int) =~= cause_views(causes@));
    }
    out
}

/// An ASCII letter or digit, as a byte.
pub open spec fn is_alphanumeric_byte(b: u8) -> bool {
    (65 <= b <= 90) || (97 <= b <= 122) || (48 <= b <= 57)
}

/// An ASCII letter or digit, as a character.
pub open spec fn is_alphanumeric_char(c: char) -> bool {
    ('A' <= c && c <= 'Z') || ('a' <= c && c <= 'z') || ('0' <= c && c <= '9')
}

#[verifier::external_type_specification]
#[verifier::external_body]
pub struct ExThreadRng(rand::rngs::ThreadRng);

/// Relies on rand::thread_rng: a handle to the thread-local generator.
#[verifier::external_body]
fn thread_rng_handle() -> rand::rngs::ThreadRng {
    rand::thread_rng()
}

/// Relies on rand's `Alphanumeric` distribution: every sample is drawn from
/// the ASCII letters and digits, whatever the generator returns.
#[verifier::external_body]
fn sample_alphanumeric(rng: &mut rand::rngs::ThreadRng) -> (b: u8)
    ensures
        is_alphanumeric_byte(b),
{
    rand::Rng::sample(rng, rand::distributions::Alphanumeric)
}

/// Relies on String::from_utf8: ASCII bytes are valid UTF-8 and decode to
/// the characters with the same values.
#[verifier::external_body]
fn ascii_bytes_to_string(bytes: Vec<u8>) -> (r: String)
    requires
        forall|i: int| 0 <= i < bytes@.len() ==> bytes@[i] < 128,
    ensures
        r@.len() == bytes@.len(),
        forall|i: int| 0 <= i < bytes@.len() ==> r@[i] == bytes@[i] as char,
{
    String::from_utf8(bytes).unwrap_or_default()
}

/// Length of a subscription token, in characters.
pub const TOKEN_CHARS: usize = 25;

/// A fresh case-sensitive subscription token: `TOKEN_CHARS` characters
/// sampled from the ASCII letters and digits.
pub fn generate_subscription_token() -> (r: String)
    ensures
        r@.len() == TOKEN_CHARS,
        forall|i: int| 0 <= i < r@.len() ==> is_alphanumeric_char(#[trigger] r@[i]),
{
    let mut rng = thread_rng_handle();
    let mut bytes: Vec<u8> = Vec::new();
    let mut i: usize = 0;
    while i < TOKEN_CHARS
        invariant
            i <= TOKEN_CHARS,
            bytes@.len() == i,
            forall|j: int| 0 <= j < bytes@.len() ==> is_alphanumeric_byte(#[trigger] bytes@[j]),
        decreases TOKEN_CHARS - i,
    {
        bytes.push(sample_alphanumeric(&mut rng));
        i = i + 1;
    }
    let r = ascii_bytes_to_string(bytes);
    proof {
        assert forall|j: int| 0 <= j < r@.len() implies is_alphanumeric_char(
            #[trigger] r@[j],
        ) by {
            assert(is_alphanumeric_byte(bytes@[j]));
            assert(r@[j] == bytes@[j] as char);
        }
    }
    r
}

/// The confirmation email sent to a new subscriber: the link it must follow
/// and the two bodies that carry it.
pub struct ConfirmationEmail {
    pub subject: String,
    pub confirmation_link: String,
    pub plain_text: String,
    pub html_text: String,
}

/// The confirmation link for a token, under the application's base URL.
pub open spec fn spec_confirmation_link(base_url: Seq<char>, token: Seq<char>) -> Seq<char> {
    base_url + "/subscriptions/confirm?subscription_token="@ + token
}

/// Builds the welcome email for a new subscriber around its confirmation
/// link; sending it is the caller's side effect.
pub fn confirmation_email_content(base_url: &str, subscription_token: &str) -> (r:
    ConfirmationEmail)
    ensures
        r.subject@ == "Welcome!"@,
        r.confirmation_link@ == spec_confirmation_link(base_url@, subscription_token@),
        r.plain_text@ == "Welcome to our newsletter!\nVisit "@ + r.confirmation_link@
            + " to confirm your subscription."@,
        r.html_text@ == "Welcome to our newsletter!<br />Click <a href=\""@ + r.confirmation_link@
            + "\"here</a> to confirm your subscription."@,
{
    let mut confirmation_link = String::from_str(base_url);
    confirmation_link.append("/subscriptions/confirm?subscription_token=");
    confirmation_link.append(subscription_token);
    let mut plain_text = String::from_str("Welcome to our newsletter!\nVisit ");
    plain_text.append(confirmation_link.as_str());
    plain_text.append(" to confirm your subscription.");
    let mut html_text = String::from_str("Welcome to our newsletter!<br />Click <a href=\"");
    html_text.append(confirmation_link.as_str());
    html_text.append("\"here</a> to confirm your subscription.");
    ConfirmationEmail {
        subject: String::from_str("Welcome!"),
        confirmation_link,
        plain_text,
        html_text,
    }
}

} // verus!
