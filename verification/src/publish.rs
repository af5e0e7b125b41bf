//! The admin "publish a newsletter issue" route: the idempotent workflow
//! around the deduplication coordinator.
//!
//! The route validates the submitted idempotency key, asks the coordinator
//! whether this submission is the first for `(user, key)`, and either walks
//! the confirmed subscribers producing one email dispatch per valid address
//! before saving its redirect response, or replays the saved response with no
//! dispatch at all.

use vstd::prelude::*;
use vstd::string::StringSliceAdditionalSpecFns;
use crate::auth::Userid;
use crate::key::{valid_key, IdempotencyKey, ValidationError, MAX_KEY_CHARS};
use crate::response::{see_other, ResponseSnapshot};
use crate::store::{IdempotencyStore, NextAction};

verus! {

/// The submitted publish form.
pub struct FormData {
    pub title: String,
    pub html_content: String,
    pub text_content: String,
    pub idempotency_key: String,
}

/// Failure of the publish route.
pub enum PublishError {
    /// Authentication failed.
    AuthError(String),
    /// Any other failure, carrying its description.
    UnexpectedError(String),
}

impl PublishError {
    /// The response the route answers with when it fails: an internal error
    /// is a bare 500; an authentication failure is a 401 naming the basic
    /// authentication realm.
    pub fn error_response(&self) -> (r: ResponseSnapshot)
        ensures
            r.well_formed(),
            r@.body == Seq::<u8>::empty(),
            match self {
                PublishError::UnexpectedError(_) => r@.status == 500 && r@.headers
                    == Seq::<(Seq<u8>, Seq<u8>)>::empty(),
                PublishError::AuthError(_) => r@.status == 401 && r@.headers == seq![
                    ("WWW-Authenticate".spec_bytes(), "Basic realm=\"publish\"".spec_bytes()),
                ],
            },
    {
        match self {
            PublishError::UnexpectedError(_) => ResponseSnapshot::with_status(500),
            PublishError::AuthError(_) => {
                let mut response = ResponseSnapshot::with_status(401);
                response.insert_header("WWW-Authenticate", "Basic realm=\"publish\"");
                proof {
                    assert(response@.headers =~= seq![
                        ("WWW-Authenticate".spec_bytes(), "Basic realm=\"publish\"".spec_bytes()),
                    ]);
                }
                response
            },
        }
    }
}

/// One email the caller must send: recipient and the issue's content.
pub struct EmailDispatch {
    pub recipient: String,
    pub title: String,
    pub html_content: String,
    pub text_content: String,
}

/// The flash message shown once an issue is published.
pub fn success_message() -> (r: String)
    ensures
        r@ == "The newsletter issue has been published!"@,
{
    String::from_str("The newsletter issue has been published!")
}

/// The addresses of the fetched subscriber rows that parsed as valid, in
/// order; a row that failed to parse carries its error and is skipped.
pub open spec fn ok_emails(subs: Seq<Result<String, String>>) -> Seq<Seq<char>>
    decreases subs.len(),
{
    if subs.len() == 0 {
        Seq::empty()
    } else {
        ok_emails(subs.drop_last()) + (match subs.last() {
            Ok(email) => seq![email@],
            Err(_) => Seq::<Seq<char>>::empty(),
        })
    }
}

/// The recipients of a dispatch run, in order.
pub open spec fn recipients(sends: Seq<EmailDispatch>) -> Seq<Seq<char>> {
    Seq::new(sends.len(), |i: int| sends[i].recipient@)
}

/// Every dispatch of the run carries exactly the submitted issue.
pub open spec fn dispatches_content(
    sends: Seq<EmailDispatch>,
    title: Seq<char>,
    html_content: Seq<char>,
    text_content: Seq<char>,
) -> bool {
    forall|i: int|
        0 <= i < sends.len() ==> (#[trigger] sends[i]).title@ == title && sends[i].html_content@
            == html_content && sends[i].text_content@ == text_content
}

/// Publishes a newsletter issue at most once per `(user, idempotency key)`.
///
/// The submitted key is validated first: a rejected key never reaches the
/// store. A first submission claims the pair, produces one dispatch per
/// valid subscriber address, and commits the redirect response under the
/// pair; a duplicate submission produces no dispatch and returns the saved
/// response unchanged.
pub fn publish_newsletter(
    store: &mut IdempotencyStore,
    user: Userid,
    form: FormData,
    subscribers: &Vec<Result<String, String>>,
    now: u64,
) -> (r: Result<(ResponseSnapshot, Vec<EmailDispatch>), ValidationError>)
    requires
        old(store).wf(),
        !old(store).claim_set().contains((user@, form.idempotency_key@)),
    ensures
        final(store).wf(),
        final(store).claim_set() == old(store).claim_set(),
        match r {
            Err(e) => {
                &&& !valid_key(form.idempotency_key@)
                &&& (e == ValidationError::EmptyKey <==> form.idempotency_key@.len() == 0)
                &&& (e == ValidationError::OverlongKey <==> form.idempotency_key@.len()
                    > MAX_KEY_CHARS)
                &&& final(store).committed() == old(store).committed()
            },
            Ok((resp, sends)) => {
                &&& valid_key(form.idempotency_key@)
                &&& resp.well_formed()
                &&& if old(store).committed().dom().contains((user@, form.idempotency_key@)) {
                    &&& resp@ == old(store).committed()[(user@, form.idempotency_key@)]
                    &&& sends@.len() == 0
                    &&& final(store).committed() == old(store).committed()
                } else {
                    &&& resp@.status == 303
                    &&& resp@.headers == seq![
                        ("Location".spec_bytes(), "/admin/newsletters".spec_bytes()),
                    ]
                    &&& resp@.body == Seq::<u8>::empty()
                    &&& recipients(sends@) == ok_emails(subscribers@)
                    &&& dispatches_content(
                        sends@,
                        form.title@,
                        form.html_content@,
                        form.text_content@,
                    )
                    &&& final(store).committed() == old(store).committed().insert(
                        (user@, form.idempotency_key@),
                        resp@,
                    )
                }
            },
        },
{
    let FormData { title, html_content, text_content, idempotency_key } = form;
    let key = match IdempotencyKey::parse(idempotency_key) {
        Ok(key) => key,
        Err(e) => {
            return Err(e);
        },
    };
    match store.try_processing(&key, user, now) {
        NextAction::ReturnSavedResponse(saved_response) => Ok((saved_response, Vec::new())),
        NextAction::StartProcessing(txn) => {
            let n = subscribers.len();
            let mut sends: Vec<EmailDispatch> = Vec::new();
            let mut i: usize = 0;
            while i < n
                invariant
                    i <= n,
                    n == subscribers@.len(),
                    recipients(sends@) == ok_emails(subscribers@.take(i as int)),
                    dispatches_content(sends@, title@, html_content@, text_content@),
                decreases n - i,
            {
                let ghost old_sends = sends@;
                match &subscribers[i] {
                    Ok(email) => {
                        sends.push(
                            EmailDispatch {
                                recipient: email.clone(),
                                title: title.clone(),
                                html_content: html_content.clone(),
                                text_content: text_content.clone(),
                            },
                        );
                    },
                    Err(_) => {
                        // A stored contact that no longer parses is skipped.
                    },
                }
                proof {
                    assert(subscribers@.take(i as int + 1).drop_last() =~= subscribers@.take(
                        i as int,
                    ));
                    assert(subscribers@.take(i as int + 1).last() == subscribers@[i as int]);
                    if subscribers@[i as int] is Ok {
                        assert(recipients(sends@) =~= recipients(old_sends).push(
                            sends@.last().recipient@,
                        ));
                        assert(recipients(sends@) =~= ok_emails(subscribers@.take(i as int + 1)));
                    } else {
                        assert(recipients(sends@) =~= ok_emails(subscribers@.take(i as int + 1)));
                    }
                }
                i = i + 1;
            }
            proof {
                assert(subscribers@.take(n as int) =~= subscribers@);
            }
            let response = see_other("/admin/newsletters");
            let response = store.save_response(txn, response);
            Ok((response, sends))
        },
    }
}

} // verus!
