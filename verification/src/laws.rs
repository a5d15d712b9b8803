//! The guarantees of the claim-or-replay protocol, stated over the store
//! model and its transition steps and proved once for every store.

use vstd::prelude::*;

use crate::snapshot::SnapshotModel;
use crate::store::Action;
use crate::store::SlotId;
use crate::store::StoreModel;
use crate::store::claim_step;
use crate::store::commit_step;
use crate::store::model_inv;
use crate::store::next_action;
use crate::store::release_step;

verus! {

/// A first attempt on a vacant slot claims it; once the owner commits a
/// snapshot, every later attempt on that slot — a sequential retry as much as
/// a waiter released by the commit — is owed exactly that snapshot, never a
/// second claim.
pub proof fn law_claim_then_replay(m: StoreModel, p: SlotId, s: SnapshotModel)
    requires
        !m.committed.contains_key(p),
    ensures
        next_action(m, p) is Claim,
        next_action(commit_step(claim_step(m, p), p, s), p) == Action::Replay(s),
{
}

/// Two racing attempts on one vacant slot resolve to exactly one owner. The
/// loser's insert blocks while the slot is open; once the owner commits, the
/// slot is no longer open and the loser is owed the owner's snapshot, not a
/// claim of its own.
pub proof fn law_single_owner(m: StoreModel, p: SlotId, s: SnapshotModel)
    requires
        !m.committed.contains_key(p),
        !m.open.contains(p),
    ensures
        next_action(m, p) is Claim,
        claim_step(m, p).open.contains(p),
        !commit_step(claim_step(m, p), p, s).open.contains(p),
        next_action(commit_step(claim_step(m, p), p, s), p) == Action::Replay(s),
        !(next_action(commit_step(claim_step(m, p), p, s), p) is Claim),
{
}

/// A claim whose owning transaction rolls back leaves no durable trace: the
/// store is exactly what it was, and the next attempt on the slot claims it
/// again — a failed attempt is re-executed, not replayed.
pub proof fn law_rollback_frees_slot(m: StoreModel, p: SlotId)
    requires
        !m.committed.contains_key(p),
        !m.open.contains(p),
    ensures
        next_action(m, p) is Claim,
        release_step(claim_step(m, p), p) == m,
        next_action(release_step(claim_step(m, p), p), p) is Claim,
{
    assert(release_step(claim_step(m, p), p).open =~= m.open);
    assert(release_step(claim_step(m, p), p) =~= m);
}

/// Slots are scoped per requester: the same key under two requesters names
/// two slots, so one requester's open claim neither blocks nor pre-empts the
/// other's — both proceed independently.
pub proof fn law_independent_requesters(m: StoreModel, r1: u128, r2: u128, k: Seq<char>)
    requires
        r1 != r2,
        !m.committed.contains_key((r1, k)),
        !m.committed.contains_key((r2, k)),
        !m.open.contains((r2, k)),
    ensures
        next_action(m, (r1, k)) is Claim,
        !claim_step(m, (r1, k)).open.contains((r2, k)),
        next_action(claim_step(m, (r1, k)), (r2, k)) is Claim,
{
}

/// A committed snapshot never changes: no later claim, commit or rollback —
/// each necessarily on some other, still-open slot — touches it, so replays
/// of a completed slot are byte-identical forever.
pub proof fn law_snapshot_immutable(m: StoreModel, p: SlotId, q: SlotId, s: SnapshotModel)
    requires
        model_inv(m),
        m.committed.contains_key(p),
        m.open.contains(q),
    ensures
        claim_step(m, q).committed == m.committed,
        release_step(m, q).committed == m.committed,
        commit_step(m, q, s).committed.contains_key(p),
        commit_step(m, q, s).committed[p] == m.committed[p],
{
    assert(q != p);
}

/// Each protocol step preserves the store invariant: an open claim never has
/// a committed record — the visibility rule behind replaying only completed
/// records.
pub proof fn law_steps_preserve_inv(m: StoreModel, p: SlotId, s: SnapshotModel)
    requires
        model_inv(m),
    ensures
        !m.committed.contains_key(p) ==> model_inv(claim_step(m, p)),
        m.open.contains(p) ==> model_inv(commit_step(m, p, s)),
        model_inv(release_step(m, p)),
{
    if !m.committed.contains_key(p) {
        assert forall|q: SlotId| claim_step(m, p).open.contains(q) implies !claim_step(
            m,
            p,
        ).committed.contains_key(q) by {
            if q != p {
                assert(m.open.contains(q));
            }
        }
    }
    if m.open.contains(p) {
        assert forall|q: SlotId| commit_step(m, p, s).open.contains(q) implies !commit_step(
            m,
            p,
            s,
        ).committed.contains_key(q) by {
            assert(m.open.contains(q) && q != p);
        }
    }
    assert forall|q: SlotId| release_step(m, p).open.contains(q) implies !release_step(
        m,
        p,
    ).committed.contains_key(q) by {
        assert(m.open.contains(q));
    }
}

} // verus!
