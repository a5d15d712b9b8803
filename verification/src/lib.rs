//! Idempotent-processing coordinator for a mutating HTTP operation.
//!
//! A caller attaches an idempotency key to each submission; the coordinator
//! claims exclusive ownership of the (requester, key) slot before side effects
//! run, and replays the recorded response to every later attempt for the same
//! slot instead of re-executing the side effects.

pub mod codec;
pub mod coordinator;
pub mod errors;
pub mod key;
pub mod laws;
pub mod newsletter;
pub mod snapshot;
pub mod store;
pub mod subscriptions;

pub use key::IdempotencyKey;
pub use key::MalformedKey;
