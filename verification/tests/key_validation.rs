//! Validation of the caller-supplied idempotency token.

use idempotency::key::IdempotencyKey;
use idempotency::key::MalformedKey;
use idempotency::key::MAX_KEY_LEN;

#[test]
fn empty_token_is_rejected() {
    let r = IdempotencyKey::parse(String::new());
    assert!(matches!(r, Err(MalformedKey)));
}

#[test]
fn overlong_token_is_rejected() {
    let raw = "x".repeat(MAX_KEY_LEN + 1);
    let r = IdempotencyKey::parse(raw);
    assert!(matches!(r, Err(MalformedKey)));
}

#[test]
fn one_character_token_is_accepted() {
    let k = IdempotencyKey::parse(String::from("a")).unwrap();
    assert_eq!(k.as_str(), "a");
}

#[test]
fn max_length_token_is_accepted() {
    let raw = "x".repeat(MAX_KEY_LEN);
    let k = IdempotencyKey::parse(raw.clone()).unwrap();
    assert_eq!(k.as_str(), raw.as_str());
}

#[test]
fn token_is_preserved_verbatim() {
    let k = IdempotencyKey::parse(String::from("  MiXeD case \t")).unwrap();
    assert_eq!(k.as_str(), "  MiXeD case \t");
    let copy = k.clone_key();
    assert!(copy.matches(&k));
    assert_eq!(copy.as_str(), k.as_str());
}

#[test]
fn length_is_counted_in_characters() {
    let raw = "é".repeat(MAX_KEY_LEN);
    assert!(raw.len() > MAX_KEY_LEN);
    let k = IdempotencyKey::parse(raw.clone()).unwrap();
    assert_eq!(k.as_str(), raw.as_str());
}
