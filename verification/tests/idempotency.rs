//! The deduplication coordinator, the publish workflow and the snapshot
//! codec, driven through concrete submissions.

use newsletter::auth::Userid;
use newsletter::codec::{decode_snapshot, encode_snapshot};
use newsletter::key::IdempotencyKey;
use newsletter::publish::{publish_newsletter, FormData};
use newsletter::response::{see_other, HeaderPair, ResponseSnapshot};
use newsletter::store::{IdempotencyStore, NextAction};

fn valid_key(raw: &str) -> IdempotencyKey {
    IdempotencyKey::parse(raw.to_string()).expect("the key should be accepted")
}

fn published_response() -> ResponseSnapshot {
    let mut response = ResponseSnapshot::with_status(200);
    response.set_body(b"published".to_vec());
    response
}

fn publish_form(key: &str) -> FormData {
    FormData {
        title: "Newsletter title".to_string(),
        html_content: "<p>Newsletter body as HTML</p>".to_string(),
        text_content: "Newsletter body as plain text".to_string(),
        idempotency_key: key.to_string(),
    }
}

#[test]
fn first_submission_claims_and_replay_returns_saved_bytes() {
    let mut store = IdempotencyStore::new();
    let user = Userid::new(1);
    let key = valid_key("abc123");

    let txn = match store.try_processing(&key, user, 7) {
        NextAction::StartProcessing(txn) => txn,
        NextAction::ReturnSavedResponse(_) => panic!("a fresh pair must be claimed"),
    };
    assert_eq!(txn.user().value(), 1);
    assert_eq!(txn.key().as_str(), "abc123");
    assert_eq!(txn.created_at(), 7);

    let saved = store.save_response(txn, published_response());
    assert_eq!(saved, published_response());

    match store.try_processing(&key, user, 99) {
        NextAction::StartProcessing(_) => panic!("a completed pair must replay"),
        NextAction::ReturnSavedResponse(snapshot) => {
            assert_eq!(snapshot.status_code, 200);
            assert_eq!(snapshot.headers, Vec::<HeaderPair>::new());
            assert_eq!(snapshot.body, b"published".to_vec());
            assert_eq!(snapshot, published_response());
        }
    }
}

#[test]
fn same_key_different_users_do_not_collide() {
    let mut store = IdempotencyStore::new();
    let first_user = Userid::new(10);
    let second_user = Userid::new(20);
    let key = valid_key("shared-token");

    let txn = match store.try_processing(&key, first_user, 0) {
        NextAction::StartProcessing(txn) => txn,
        NextAction::ReturnSavedResponse(_) => panic!("a fresh pair must be claimed"),
    };
    store.save_response(txn, published_response());

    match store.try_processing(&key, second_user, 0) {
        NextAction::StartProcessing(_) => {}
        NextAction::ReturnSavedResponse(_) => {
            panic!("another user's completion must not be replayed")
        }
    }
}

#[test]
fn rollback_releases_the_claim_for_a_fresh_attempt() {
    let mut store = IdempotencyStore::new();
    let user = Userid::new(3);
    let key = valid_key("retry-after-crash");

    let txn = match store.try_processing(&key, user, 0) {
        NextAction::StartProcessing(txn) => txn,
        NextAction::ReturnSavedResponse(_) => panic!("a fresh pair must be claimed"),
    };
    store.rollback(txn);

    match store.try_processing(&key, user, 1) {
        NextAction::StartProcessing(_) => {}
        NextAction::ReturnSavedResponse(_) => panic!("a rolled-back pair holds no response"),
    }
}

// The linearized shape of two simultaneous identical submissions: the second
// is held behind the first one's row lock, so it reads only after the
// holder's commit — and then must replay the identical bytes, with the side
// effect run exactly once.
#[test]
fn concurrent_duplicates_serialize_to_one_send_run() {
    let mut store = IdempotencyStore::new();
    let user = Userid::new(4);
    let subscribers = vec![Ok("one@example.com".to_string())];

    let first = publish_newsletter(&mut store, user, publish_form("same-token"), &subscribers, 0)
        .expect("a valid key must be accepted");
    // The duplicate's read linearizes only here, after the commit.
    let second = publish_newsletter(&mut store, user, publish_form("same-token"), &subscribers, 1)
        .expect("a valid key must be accepted");

    assert_eq!(first.1.len(), 1);
    assert_eq!(second.1.len(), 0);
    assert_eq!(first.0.status_code, second.0.status_code);
    assert_eq!(first.0.headers, second.0.headers);
    assert_eq!(first.0.body, second.0.body);
}

#[test]
fn publish_sends_to_each_valid_subscriber_once() {
    let mut store = IdempotencyStore::new();
    let user = Userid::new(1);
    let subscribers = vec![
        Ok("first@example.com".to_string()),
        Err("stored contact details are invalid".to_string()),
        Ok("second@example.com".to_string()),
        Ok("third@example.com".to_string()),
    ];

    let (response, sends) =
        publish_newsletter(&mut store, user, publish_form("issue-1"), &subscribers, 0)
            .expect("a valid key must be accepted");
    assert_eq!(response.status_code, 303);
    assert_eq!(response.headers.len(), 1);
    assert_eq!(response.headers[0].name, b"Location".to_vec());
    assert_eq!(response.headers[0].value, b"/admin/newsletters".to_vec());
    assert_eq!(sends.len(), 3);
    assert_eq!(sends[0].recipient, "first@example.com");
    assert_eq!(sends[1].recipient, "second@example.com");
    assert_eq!(sends[2].recipient, "third@example.com");
    for send in &sends {
        assert_eq!(send.title, "Newsletter title");
        assert_eq!(send.html_content, "<p>Newsletter body as HTML</p>");
        assert_eq!(send.text_content, "Newsletter body as plain text");
    }

    let (replayed, replay_sends) =
        publish_newsletter(&mut store, user, publish_form("issue-1"), &subscribers, 5)
            .expect("a valid key must be accepted");
    assert_eq!(replay_sends.len(), 0);
    assert_eq!(replayed, response);
}

#[test]
fn empty_key_is_rejected_before_any_storage_work() {
    let mut store = IdempotencyStore::new();
    let user = Userid::new(1);
    let subscribers = vec![Ok("one@example.com".to_string())];

    let rejected = publish_newsletter(&mut store, user, publish_form(""), &subscribers, 0);
    assert!(rejected.is_err());

    // The pair was never claimed nor created: a later valid retry is first.
    match store.try_processing(&valid_key("x"), user, 0) {
        NextAction::StartProcessing(_) => {}
        NextAction::ReturnSavedResponse(_) => panic!("nothing may have been stored"),
    }
}

#[test]
fn key_of_fifty_one_characters_is_rejected() {
    let mut store = IdempotencyStore::new();
    let user = Userid::new(1);
    let subscribers: Vec<Result<String, String>> = Vec::new();
    let oversized = "a".repeat(51);

    let rejected = publish_newsletter(&mut store, user, publish_form(&oversized), &subscribers, 0);
    assert!(rejected.is_err());

    let at_bound = "a".repeat(50);
    let accepted = publish_newsletter(&mut store, user, publish_form(&at_bound), &subscribers, 0);
    assert!(accepted.is_ok());
}

#[test]
fn snapshot_encoding_is_byte_stable_and_invertible() {
    let mut snapshot = ResponseSnapshot::with_status(200);
    snapshot.set_body(b"hi".to_vec());
    let encoded = encode_snapshot(&snapshot);
    let mut expected: Vec<u8> = Vec::new();
    expected.extend_from_slice(&200u16.to_le_bytes());
    expected.extend_from_slice(&0u64.to_le_bytes());
    expected.extend_from_slice(&2u64.to_le_bytes());
    expected.extend_from_slice(b"hi");
    assert_eq!(encoded, expected);

    let decoded = decode_snapshot(&encoded).expect("a stored snapshot must decode");
    assert_eq!(decoded, snapshot);
}

#[test]
fn snapshot_with_headers_round_trips_exactly() {
    let mut snapshot = see_other("/admin/newsletters");
    snapshot.insert_header("Content-Type", "text/html; charset=utf-8");
    snapshot.set_body(b"<p><i>The newsletter issue has been published!</i></p>".to_vec());

    let encoded = encode_snapshot(&snapshot);
    let decoded = decode_snapshot(&encoded).expect("a stored snapshot must decode");
    assert_eq!(decoded.status_code, snapshot.status_code);
    assert_eq!(decoded.headers, snapshot.headers);
    assert_eq!(decoded.body, snapshot.body);
}

#[test]
fn malformed_stored_bytes_are_refused() {
    assert!(decode_snapshot(&Vec::new()).is_none());
    assert!(decode_snapshot(&vec![0u8; 9]).is_none());
    // Status 0 is no valid HTTP status.
    assert!(decode_snapshot(&vec![0u8; 18]).is_none());
    // A header count the bytes cannot hold.
    let mut truncated: Vec<u8> = Vec::new();
    truncated.extend_from_slice(&200u16.to_le_bytes());
    truncated.extend_from_slice(&5u64.to_le_bytes());
    assert!(decode_snapshot(&truncated).is_none());
}
