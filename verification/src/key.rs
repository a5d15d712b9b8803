//! Validated idempotency key: the caller-chosen token that scopes "the same
//! logical request" across retries.

use vstd::prelude::*;

verus! {

/// Longest token accepted, in characters.
pub const MAX_KEY_LEN: usize = 50;

/// Error returned when a raw token fails validation: it is empty or longer
/// than [`MAX_KEY_LEN`] characters.
#[derive(Clone, Copy, PartialEq, Eq, Structural, Debug)]
pub struct MalformedKey;

/// A validated idempotency token. Immutable once constructed; built only by
/// [`IdempotencyKey::parse`].
#[derive(Debug)]
pub struct IdempotencyKey {
    token: String,
}

impl View for IdempotencyKey {
    type V = Seq<char>;

    closed spec fn view(&self) -> Seq<char> {
        self.token@
    }
}

/// Whether a raw token is acceptable as an idempotency key: non-empty and at
/// most [`MAX_KEY_LEN`] characters. No other normalization is applied.
pub open spec fn valid_key(raw: Seq<char>) -> bool {
    0 < raw.len() <= MAX_KEY_LEN
}

impl IdempotencyKey {
    /// Validating factory: succeeds exactly on non-empty tokens of at most
    /// [`MAX_KEY_LEN`] characters, preserving the token verbatim.
    pub fn parse(raw: String) -> (r: Result<IdempotencyKey, MalformedKey>)
        ensures
            r is Ok <==> valid_key(raw@),
            r matches Ok(k) ==> k@ == raw@,
    {
        let n = raw.as_str().unicode_len();
        if n == 0 || n > MAX_KEY_LEN {
            Err(MalformedKey)
        } else {
            Ok(IdempotencyKey { token: raw })
        }
    }

    /// The token as a string slice.
    pub fn as_str(&self) -> (r: &str)
        ensures
            r@ == self@,
    {
        self.token.as_str()
    }

    /// Whether two keys carry the same token.
    pub fn matches(&self, other: &IdempotencyKey) -> (r: bool)
        ensures
            r == (self@ == other@),
    {
        self.token == other.token
    }

    /// A copy of the key, equal to the original.
    pub fn clone_key(&self) -> (r: IdempotencyKey)
        ensures
            r@ == self@,
    {
        IdempotencyKey { token: self.token.clone() }
    }
}

} // verus!
