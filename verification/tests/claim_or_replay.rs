//! The claim-or-replay protocol, driven as the newsletter handler drives it.

use idempotency::coordinator::start;
use idempotency::coordinator::NextAction;
use idempotency::key::IdempotencyKey;
use idempotency::snapshot::HeaderPair;
use idempotency::snapshot::ResponseSnapshot;
use idempotency::store::complete;
use idempotency::store::ClaimStore;
use idempotency::store::InsertOutcome;
use idempotency::store::PendingClaim;

fn key(raw: &str) -> IdempotencyKey {
    IdempotencyKey::parse(String::from(raw)).unwrap()
}

fn assert_snapshot_eq(a: &ResponseSnapshot, b: &ResponseSnapshot) {
    assert_eq!(a.status, b.status);
    assert_eq!(a.headers.len(), b.headers.len());
    for (ha, hb) in a.headers.iter().zip(b.headers.iter()) {
        assert_eq!(ha.name, hb.name);
        assert_eq!(ha.value, hb.value);
    }
    assert_eq!(a.body, b.body);
}

fn own_claim(action: NextAction) -> PendingClaim {
    match action {
        NextAction::StartProcessing(claim) => claim,
        NextAction::ReturnSaved(_) => panic!("expected to own the slot"),
    }
}

fn saved(action: NextAction) -> ResponseSnapshot {
    match action {
        NextAction::StartProcessing(_) => panic!("expected a saved response"),
        NextAction::ReturnSaved(snapshot) => snapshot,
    }
}

#[test]
fn retry_after_commit_replays_the_committed_snapshot() {
    let mut store = ClaimStore::new();
    let k = key("request-1");
    let requester: u128 = 11;

    let claim = own_claim(start(&mut store, requester, &k));
    assert_eq!(claim.requester(), requester);
    assert!(claim.key().matches(&k));

    let snapshot = ResponseSnapshot::new(
        200,
        vec![HeaderPair { name: b"Content-Type".to_vec(), value: b"text/html".to_vec() }],
        b"<p>done</p>".to_vec(),
    );
    let expected = snapshot.clone_snapshot();
    store.commit(complete(claim, snapshot));

    let replay = saved(start(&mut store, requester, &k));
    assert_snapshot_eq(&replay, &expected);

    let replay_again = saved(start(&mut store, requester, &k));
    assert_snapshot_eq(&replay_again, &expected);
}

#[test]
fn rollback_frees_the_slot_for_a_real_retry() {
    let mut store = ClaimStore::new();
    let k = key("request-2");
    let requester: u128 = 11;

    let claim = own_claim(start(&mut store, requester, &k));
    store.rollback(claim);

    let second = start(&mut store, requester, &k);
    assert!(matches!(second, NextAction::StartProcessing(_)));
}

#[test]
fn same_key_under_two_requesters_names_two_slots() {
    let mut store = ClaimStore::new();
    let k = key("shared-key");

    let first = start(&mut store, 1, &k);
    let second = start(&mut store, 2, &k);
    assert!(matches!(first, NextAction::StartProcessing(_)));
    assert!(matches!(second, NextAction::StartProcessing(_)));
}

#[test]
fn insert_placeholder_reports_a_committed_slot() {
    let mut store = ClaimStore::new();
    let k = key("request-3");

    let outcome = store.insert_placeholder(9, &k);
    let claim = match outcome {
        InsertOutcome::Inserted(claim) => claim,
        InsertOutcome::AlreadyExists => panic!("slot was vacant"),
    };
    store.commit(complete(claim, ResponseSnapshot::new(200, Vec::new(), Vec::new())));

    let outcome = store.insert_placeholder(9, &k);
    assert!(matches!(outcome, InsertOutcome::AlreadyExists));
    let read = store.read_completed_snapshot(9, &k);
    assert_eq!(read.status, 200);
}

#[test]
fn newsletter_submission_is_idempotent() {
    // Submit under requester U1 with key K1: the fan-out notifies one
    // recipient and the handler commits a 303 redirect. The re-submission
    // replays that redirect and notifies nobody.
    let mut store = ClaimStore::new();
    let k = key("K1");
    let u1: u128 = 1;
    let recipients = ["subscriber@example.com"];
    let mut notifications: usize = 0;

    match start(&mut store, u1, &k) {
        NextAction::StartProcessing(claim) => {
            for _recipient in recipients.iter() {
                notifications += 1;
            }
            let response = ResponseSnapshot::see_other(b"/admin/newsletter".to_vec());
            store.commit(complete(claim, response));
        }
        NextAction::ReturnSaved(_) => panic!("first submission owns the slot"),
    }
    assert_eq!(notifications, 1);

    match start(&mut store, u1, &k) {
        NextAction::StartProcessing(_) => panic!("re-submission must not re-run side effects"),
        NextAction::ReturnSaved(response) => {
            assert_eq!(response.status, 303);
            assert_eq!(response.headers.len(), 1);
            assert_eq!(response.headers[0].name, b"Location".to_vec());
            assert_eq!(response.headers[0].value, b"/admin/newsletter".to_vec());
            assert!(response.body.is_empty());
        }
    }
    assert_eq!(notifications, 1);
}

#[test]
fn two_attempts_on_one_slot_resolve_to_one_owner() {
    // Two attempts race for (U1, K1). The store serializes them: the loser's
    // insert blocks while the winner's transaction is open and resumes once
    // it commits, so its call runs against the committed store and replays
    // the winner's snapshot — byte-identical, with no second owner.
    let mut store = ClaimStore::new();
    let k = key("K1");
    let u1: u128 = 1;

    let winner = own_claim(start(&mut store, u1, &k));
    let committed = ResponseSnapshot::see_other(b"/admin/newsletter".to_vec());
    let expected = committed.clone_snapshot();
    store.commit(complete(winner, committed));

    let loser = start(&mut store, u1, &k);
    let replay = saved(loser);
    assert_snapshot_eq(&replay, &expected);
}
