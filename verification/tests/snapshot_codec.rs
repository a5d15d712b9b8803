//! Byte framing of response snapshots.

use idempotency::errors::error_status;
use idempotency::errors::ProcessingError;
use idempotency::snapshot::HeaderPair;
use idempotency::snapshot::ResponseSnapshot;

#[test]
fn encoding_round_trips() {
    let snapshot = ResponseSnapshot::new(
        303,
        vec![
            HeaderPair { name: b"Location".to_vec(), value: b"/admin/newsletter".to_vec() },
            HeaderPair { name: b"Set-Cookie".to_vec(), value: b"first=0".to_vec() },
            HeaderPair { name: b"Set-Cookie".to_vec(), value: b"second=1".to_vec() },
        ],
        b"body bytes".to_vec(),
    );
    let bytes = snapshot.to_bytes();
    let decoded = ResponseSnapshot::from_bytes(&bytes).unwrap();
    assert_eq!(decoded.status, snapshot.status);
    assert_eq!(decoded.headers.len(), 3);
    for (a, b) in decoded.headers.iter().zip(snapshot.headers.iter()) {
        assert_eq!(a.name, b.name);
        assert_eq!(a.value, b.value);
    }
    assert_eq!(decoded.body, snapshot.body);
}

#[test]
fn encoding_of_a_small_snapshot_is_exact() {
    let snapshot = ResponseSnapshot::new(
        200,
        vec![HeaderPair { name: b"ab".to_vec(), value: b"c".to_vec() }],
        b"xy".to_vec(),
    );
    let bytes = snapshot.to_bytes();
    let mut expected: Vec<u8> = Vec::new();
    expected.extend_from_slice(&[0, 200]); // status 200, big endian
    expected.extend_from_slice(&[0, 0, 0, 0, 0, 0, 0, 1]); // one header
    expected.extend_from_slice(&[0, 0, 0, 0, 0, 0, 0, 2]); // name length
    expected.extend_from_slice(b"ab");
    expected.extend_from_slice(&[0, 0, 0, 0, 0, 0, 0, 1]); // value length
    expected.extend_from_slice(b"c");
    expected.extend_from_slice(b"xy"); // body is the remainder
    assert_eq!(bytes, expected);
}

#[test]
fn empty_snapshot_encodes_to_ten_bytes() {
    let snapshot = ResponseSnapshot::new(404, Vec::new(), Vec::new());
    let bytes = snapshot.to_bytes();
    assert_eq!(bytes, vec![1, 148, 0, 0, 0, 0, 0, 0, 0, 0]);
    let decoded = ResponseSnapshot::from_bytes(&bytes).unwrap();
    assert_eq!(decoded.status, 404);
    assert!(decoded.headers.is_empty());
    assert!(decoded.body.is_empty());
}

#[test]
fn truncated_bytes_are_rejected() {
    assert!(ResponseSnapshot::from_bytes(&Vec::new()).is_none());
    assert!(ResponseSnapshot::from_bytes(&vec![1, 44]).is_none());
    // Claims one header but ends before its name length.
    assert!(ResponseSnapshot::from_bytes(&vec![1, 44, 0, 0, 0, 0, 0, 0, 0, 1]).is_none());
    // Claims a 4-byte header name but carries only 2 bytes.
    let mut bytes = vec![1, 44, 0, 0, 0, 0, 0, 0, 0, 1];
    bytes.extend_from_slice(&[0, 0, 0, 0, 0, 0, 0, 4]);
    bytes.extend_from_slice(b"ab");
    assert!(ResponseSnapshot::from_bytes(&bytes).is_none());
}

#[test]
fn see_other_carries_the_location() {
    let r = ResponseSnapshot::see_other(b"/admin/newsletter".to_vec());
    assert_eq!(r.status, 303);
    assert_eq!(r.headers.len(), 1);
    assert_eq!(r.headers[0].name, b"Location".to_vec());
    assert_eq!(r.headers[0].value, b"/admin/newsletter".to_vec());
    assert!(r.body.is_empty());
}

#[test]
fn error_statuses_follow_the_taxonomy() {
    assert_eq!(error_status(&ProcessingError::MalformedKey), 400);
    assert_eq!(error_status(&ProcessingError::StoreFailure), 500);
    assert_eq!(error_status(&ProcessingError::SideEffectFailure), 500);
}
