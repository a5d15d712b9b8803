//! Claim-or-replay: either hand the caller exclusive ownership of processing
//! for a (requester, key) slot, or replay the snapshot a previous owner
//! committed.
//!
//! The intended use: call [`start`]; on [`NextAction::StartProcessing`]
//! perform the side effects, build the outcome snapshot, pass the claim
//! through [`crate::store::complete`] and commit it; on any failure before
//! that, roll the claim back. On [`NextAction::ReturnSaved`] serve the
//! returned snapshot as the response, running no side effects.

use vstd::prelude::*;

use crate::key::IdempotencyKey;
use crate::snapshot::ResponseSnapshot;
use crate::store::Action;
use crate::store::ClaimStore;
use crate::store::InsertOutcome;
use crate::store::PendingClaim;
use crate::store::claim_step;
use crate::store::next_action;

verus! {

/// What the caller of [`start`] must do next.
pub enum NextAction {
    /// The caller owns the slot: run the side effects, then complete and
    /// commit the claim — or roll it back on failure.
    StartProcessing(PendingClaim),
    /// A previous owner committed this snapshot for the slot: serve it
    /// verbatim and run no side effects.
    ReturnSaved(ResponseSnapshot),
}

/// Claims the slot or replays its committed snapshot.
///
/// Exactly one of two outcomes, decided by the slot's committed record. The
/// replayed snapshot is the committed one; a fresh claim leaves the committed
/// records untouched and marks the slot owned. A slot held open by a
/// concurrent owner blocks the underlying insert until that owner resolves,
/// which the `requires` on the open set states.
pub fn start(store: &mut ClaimStore, requester: u128, key: &IdempotencyKey) -> (r: NextAction)
    requires
        old(store).inv(),
        !old(store)@.open.contains((requester, key@)),
    ensures
        final(store).inv(),
        ({
            let p = (requester, key@);
            match next_action(old(store)@, p) {
                Action::Replay(s) => r matches NextAction::ReturnSaved(snap) && snap@ == s
                    && *final(store) == *old(store),
                Action::Claim => r matches NextAction::StartProcessing(c) && c.id() == p
                    && final(store)@ == claim_step(old(store)@, p),
            }
        }),
{
    match store.insert_placeholder(requester, key) {
        InsertOutcome::Inserted(claim) => NextAction::StartProcessing(claim),
        InsertOutcome::AlreadyExists => {
            let saved = store.read_completed_snapshot(requester, key);
            NextAction::ReturnSaved(saved)
        },
    }
}

} // verus!
