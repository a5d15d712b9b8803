//! The submission forms and the handler's first decision.

use idempotency::errors::ProcessingError;
use idempotency::newsletter;
use idempotency::subscriptions;

#[test]
fn newsletter_form_key_is_validated() {
    let form = newsletter::FormData {
        title: String::from("Newsletter title"),
        html: String::from("<p>Newsletter body as HTML</p>"),
        text: String::from("Newsletter body as plain text"),
        idempotency_key: String::from("K1"),
    };
    let k = newsletter::parse_form_key(&form).unwrap();
    assert_eq!(k.as_str(), "K1");
}

#[test]
fn newsletter_form_with_empty_key_is_a_client_error() {
    let form = newsletter::FormData {
        title: String::from("Newsletter title"),
        html: String::from("<p>Newsletter body as HTML</p>"),
        text: String::from("Newsletter body as plain text"),
        idempotency_key: String::new(),
    };
    let e = newsletter::parse_form_key(&form).unwrap_err();
    assert!(matches!(e, ProcessingError::MalformedKey));
}

#[test]
fn subscription_form_carries_name_and_email() {
    let form = subscriptions::FormData {
        name: String::from("le guin"),
        email: String::from("ursula_le_guin@gmail.com"),
    };
    assert_eq!(form.name, "le guin");
    assert_eq!(form.email, "ursula_le_guin@gmail.com");
}
