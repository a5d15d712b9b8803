//! Transactional claim store: one record per (requester, key) slot, unique on
//! that composite key.
//!
//! A slot moves through three stages: vacant, pending (claimed by an open
//! transaction) and completed (carrying the committed snapshot). A pending
//! claim is state of its owning transaction, not of the durable store: it is
//! tracked here as ghost state, and the durable records hold completed slots
//! only. That renders the store's visibility rule — a conflicting attempt
//! never observes the owner's record until the owner has committed, and the
//! owner commits only after recording its snapshot — so every record a loser
//! can read is completed.
//!
//! In the running system a second `insert_placeholder` for a pending slot
//! blocks until the owning transaction commits or rolls back; calls here are
//! therefore ordered by that resolution, which the `requires` on the open set
//! states.

use vstd::prelude::*;

use crate::key::IdempotencyKey;
use crate::snapshot::ResponseSnapshot;
use crate::snapshot::SnapshotModel;

verus! {

/// A slot identity: requester and key token.
pub type SlotId = (u128, Seq<char>);

/// Mathematical model of the store: the committed snapshots, and the slots
/// currently claimed by open transactions.
#[verifier::ext_equal]
pub struct StoreModel {
    pub committed: Map<SlotId, SnapshotModel>,
    pub open: Set<SlotId>,
}

/// The store's structural invariant: a slot claimed by an open transaction
/// has no committed record yet.
pub open spec fn model_inv(m: StoreModel) -> bool {
    forall|p: SlotId| m.open.contains(p) ==> !m.committed.contains_key(p)
}

/// Claiming a vacant slot: the slot joins the open set.
pub open spec fn claim_step(m: StoreModel, p: SlotId) -> StoreModel {
    StoreModel { committed: m.committed, open: m.open.insert(p) }
}

/// Committing an open claim with its snapshot: the slot leaves the open set
/// and its record becomes durable.
pub open spec fn commit_step(m: StoreModel, p: SlotId, s: SnapshotModel) -> StoreModel {
    StoreModel { committed: m.committed.insert(p, s), open: m.open.remove(p) }
}

/// Rolling the owning transaction back: the claim vanishes without a trace.
pub open spec fn release_step(m: StoreModel, p: SlotId) -> StoreModel {
    StoreModel { committed: m.committed, open: m.open.remove(p) }
}

/// What an attempt on a slot is owed once no transaction holds the slot open:
/// ownership of processing, or the committed snapshot to replay.
pub enum Action {
    Claim,
    Replay(SnapshotModel),
}

/// The outcome an attempt observes on a resolved slot.
pub open spec fn next_action(m: StoreModel, p: SlotId) -> Action {
    if m.committed.contains_key(p) {
        Action::Replay(m.committed[p])
    } else {
        Action::Claim
    }
}

/// A pending claim: exclusive ownership of a slot, held by the transaction
/// that must either commit a snapshot or roll back.
pub struct PendingClaim {
    requester: u128,
    key: IdempotencyKey,
}

impl PendingClaim {
    /// The slot this claim owns.
    pub closed spec fn id(&self) -> SlotId {
        (self.requester, self.key@)
    }

    /// The claiming requester.
    pub fn requester(&self) -> (r: u128)
        ensures
            r == self.id().0,
    {
        self.requester
    }

    /// The claimed key.
    pub fn key(&self) -> (r: &IdempotencyKey)
        ensures
            r@ == self.id().1,
    {
        &self.key
    }
}

/// A claim whose snapshot has been recorded, ready to commit.
pub struct CompletedClaim {
    requester: u128,
    key: IdempotencyKey,
    snapshot: ResponseSnapshot,
}

impl CompletedClaim {
    /// The slot this claim owns.
    pub closed spec fn id(&self) -> SlotId {
        (self.requester, self.key@)
    }

    /// The snapshot that will become the slot's durable record.
    pub closed spec fn snapshot_model(&self) -> SnapshotModel {
        self.snapshot@
    }
}

/// Records the snapshot on a pending claim, yielding a claim ready to
/// commit. In the running system this updates the pending row inside the
/// owning transaction; durably it takes effect only at commit.
pub fn complete(claim: PendingClaim, snapshot: ResponseSnapshot) -> (r: CompletedClaim)
    ensures
        r.id() == claim.id(),
        r.snapshot_model() == snapshot@,
{
    CompletedClaim { requester: claim.requester, key: claim.key, snapshot }
}

struct CommittedRecord {
    requester: u128,
    key: IdempotencyKey,
    snapshot: ResponseSnapshot,
}

spec fn rec_id(r: CommittedRecord) -> SlotId {
    (r.requester, r.key@)
}

spec fn committed_of(s: Seq<CommittedRecord>) -> Map<SlotId, SnapshotModel>
    decreases s.len(),
{
    if s.len() == 0 {
        Map::empty()
    } else {
        committed_of(s.drop_last()).insert(rec_id(s.last()), s.last().snapshot@)
    }
}

spec fn unique_ids(s: Seq<CommittedRecord>) -> bool {
    forall|i: int, j: int| 0 <= i < j < s.len() ==> rec_id(s[i]) != rec_id(s[j])
}

proof fn lemma_committed_of_contains(s: Seq<CommittedRecord>, p: SlotId)
    ensures
        committed_of(s).contains_key(p) <==> exists|i: int| 0 <= i < s.len() && rec_id(s[i]) == p,
    decreases s.len(),
{
    if s.len() > 0 {
        lemma_committed_of_contains(s.drop_last(), p);
        if rec_id(s.last()) == p {
            assert(rec_id(s[s.len() - 1]) == p);
        } else if committed_of(s).contains_key(p) {
            let i = choose|i: int| 0 <= i < s.drop_last().len() && rec_id(s.drop_last()[i]) == p;
            assert(rec_id(s[i]) == p);
        } else {
            assert forall|i: int| 0 <= i < s.len() implies rec_id(s[i]) != p by {
                if i < s.len() - 1 {
                    assert(s.drop_last()[i] == s[i]);
                }
            }
        }
    }
}

proof fn lemma_committed_of_at(s: Seq<CommittedRecord>, i: int)
    requires
        unique_ids(s),
        0 <= i < s.len(),
    ensures
        committed_of(s).contains_key(rec_id(s[i])),
        committed_of(s)[rec_id(s[i])] == s[i].snapshot@,
    decreases s.len(),
{
    lemma_committed_of_contains(s, rec_id(s[i]));
    if i == s.len() - 1 {
        assert(s.last() == s[i]);
    } else {
        assert(forall|a: int, b: int|
            0 <= a < b < s.drop_last().len() ==> rec_id(s.drop_last()[a]) != rec_id(
                s.drop_last()[b],
            ));
        assert(s.drop_last()[i] == s[i]);
        lemma_committed_of_at(s.drop_last(), i);
        assert(rec_id(s.last()) == rec_id(s[s.len() - 1]));
        assert(rec_id(s[i]) != rec_id(s.last()));
    }
}

/// The outcome of `ClaimStore::insert_placeholder`.
pub enum InsertOutcome {
    /// The attempt became the owner of a formerly vacant slot.
    Inserted(PendingClaim),
    /// A committed record for the slot already exists.
    AlreadyExists,
}

/// The durable claim store, shared by every attempt. Holds one committed
/// record per slot, plus the ghost set of slots claimed by open
/// transactions.
pub struct ClaimStore {
    records: Vec<CommittedRecord>,
    open: Ghost<Set<SlotId>>,
}

impl View for ClaimStore {
    type V = StoreModel;

    closed spec fn view(&self) -> StoreModel {
        StoreModel { committed: committed_of(self.records@), open: self.open@ }
    }
}

impl ClaimStore {
    /// The store's representation invariant: record slots are unique, and no
    /// open claim has a committed record.
    pub closed spec fn inv(&self) -> bool {
        unique_ids(self.records@) && model_inv(self@)
    }

    /// An empty store: no records, no open claims.
    pub fn new() -> (r: ClaimStore)
        ensures
            r.inv(),
            r@.committed == Map::<SlotId, SnapshotModel>::empty(),
            r@.open == Set::<SlotId>::empty(),
    {
        ClaimStore { records: Vec::new(), open: Ghost(Set::empty()) }
    }

    /// The invariant makes the model invariant public knowledge.
    pub proof fn lemma_inv_model(&self)
        requires
            self.inv(),
        ensures
            model_inv(self@),
    {
    }

    fn find_committed(&self, requester: u128, key: &IdempotencyKey) -> (r: Option<usize>)
        requires
            self.inv(),
        ensures
            match r {
                Some(i) => i < self.records@.len() && rec_id(self.records@[i as int]) == (
                requester,
                key@,
                ) && self@.committed.contains_key((requester, key@)) && self@.committed[
                    (requester, key@)
                ] == self.records@[i as int].snapshot@,
                None => !self@.committed.contains_key((requester, key@)),
            },
    {
        let ghost p: SlotId = (requester, key@);
        let mut i: usize = 0;
        while i < self.records.len()
            invariant
                self.inv(),
                i <= self.records@.len(),
                forall|j: int| 0 <= j < i ==> rec_id(self.records@[j]) != (requester, key@),
            decreases self.records@.len() - i,
        {
            let rec = &self.records[i];
            if rec.requester == requester && rec.key.matches(key) {
                proof {
                    lemma_committed_of_at(self.records@, i as int);
                }
                return Some(i);
            }
            i = i + 1;
        }
        proof {
            lemma_committed_of_contains(self.records@, p);
        }
        None
    }

    /// Attempts to create a pending record for the slot. In the running
    /// system a concurrent attempt on the same slot blocks here until the
    /// owning transaction resolves; the `requires` on the open set states
    /// that the call proceeds once no owner holds the slot.
    ///
    /// Returns `Inserted` with the claim exactly when the slot has no
    /// committed record, else `AlreadyExists` leaving the store unchanged.
    pub fn insert_placeholder(&mut self, requester: u128, key: &IdempotencyKey) -> (r:
        InsertOutcome)
        requires
            old(self).inv(),
            !old(self)@.open.contains((requester, key@)),
        ensures
            final(self).inv(),
            old(self)@.committed.contains_key((requester, key@)) ==> r is AlreadyExists
                && *final(self) == *old(self),
            !old(self)@.committed.contains_key((requester, key@)) ==> (r matches
                InsertOutcome::Inserted(c) && c.id() == (requester, key@) && final(self)@ == claim_step(
                old(self)@,
                (requester, key@),
            )),
    {
        let ghost p: SlotId = (requester, key@);
        match self.find_committed(requester, key) {
            Some(_) => InsertOutcome::AlreadyExists,
            None => {
                let claim = PendingClaim { requester, key: key.clone_key() };
                self.open = Ghost(self.open@.insert(p));
                proof {
                    assert(self@ =~= claim_step(old(self)@, p));
                }
                InsertOutcome::Inserted(claim)
            },
        }
    }

    /// Reads the committed snapshot of a slot. Called by an attempt that
    /// observed `AlreadyExists`: the record it reads is necessarily
    /// completed, never pending.
    pub fn read_completed_snapshot(&self, requester: u128, key: &IdempotencyKey) -> (r:
        ResponseSnapshot)
        requires
            self.inv(),
            self@.committed.contains_key((requester, key@)),
        ensures
            r@ == self@.committed[(requester, key@)],
    {
        match self.find_committed(requester, key) {
            Some(i) => self.records[i].snapshot.clone_snapshot(),
            None => vstd::pervasive::unreached(),
        }
    }

    /// Commits a completed claim: the snapshot becomes the slot's durable
    /// record and the slot lock releases. The record never changes again.
    pub fn commit(&mut self, done: CompletedClaim)
        requires
            old(self).inv(),
            old(self)@.open.contains(done.id()),
        ensures
            final(self).inv(),
            final(self)@ == commit_step(old(self)@, done.id(), done.snapshot_model()),
    {
        let ghost p: SlotId = done.id();
        let ghost olds = self.records@;
        proof {
            lemma_committed_of_contains(olds, p);
        }
        let rec = CommittedRecord {
            requester: done.requester,
            key: done.key,
            snapshot: done.snapshot,
        };
        self.records.push(rec);
        self.open = Ghost(self.open@.remove(p));
        proof {
            assert(self.records@.drop_last() =~= olds);
            assert(self.records@.last() == rec);
            assert(self@ =~= commit_step(old(self)@, p, done.snapshot_model()));
            assert forall|i: int, j: int|
                0 <= i < j < self.records@.len() implies rec_id(self.records@[i]) != rec_id(
                self.records@[j],
            ) by {
                if j == self.records@.len() - 1 {
                    assert(self.records@[i] == olds[i]);
                }
            }
            assert forall|q: SlotId| self@.open.contains(q) implies !self@.committed.contains_key(
                q,
            ) by {
                assert(old(self)@.open.contains(q) && q != p);
            }
        }
    }

    /// Rolls a pending claim back: the claim attempt leaves no durable
    /// trace, and the slot is again free for the next attempt.
    pub fn rollback(&mut self, claim: PendingClaim)
        requires
            old(self).inv(),
            old(self)@.open.contains(claim.id()),
        ensures
            final(self).inv(),
            final(self)@ == release_step(old(self)@, claim.id()),
    {
        let ghost p: SlotId = claim.id();
        self.open = Ghost(self.open@.remove(p));
        proof {
            assert(self@ =~= release_step(old(self)@, p));
        }
    }
}

} // verus!
