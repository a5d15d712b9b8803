//! The newsletter submission form: the issue's content and the caller-chosen
//! idempotency token that scopes retries of this submission.

use vstd::prelude::*;

use crate::errors::ProcessingError;
use crate::key::IdempotencyKey;
use crate::key::valid_key;

verus! {

/// What a newsletter submission carries.
pub struct FormData {
    pub title: String,
    pub html: String,
    pub text: String,
    pub idempotency_key: String,
}

/// Validates the form's idempotency token: the handler's first step, failing
/// with the client error before any store access.
pub fn parse_form_key(form: &FormData) -> (r: Result<IdempotencyKey, ProcessingError>)
    ensures
        r is Ok <==> valid_key(form.idempotency_key@),
        r matches Ok(k) ==> k@ == form.idempotency_key@,
        r matches Err(e) ==> e is MalformedKey,
{
    match IdempotencyKey::parse(form.idempotency_key.clone()) {
        Ok(k) => Ok(k),
        Err(_) => Err(ProcessingError::MalformedKey),
    }
}

} // verus!
