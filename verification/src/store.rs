//! The idempotency store and the deduplication coordinator.
//!
//! The store is the durable table keyed by `(user, idempotency key)`. A
//! committed row always carries a completed response snapshot in its stored
//! byte form: the row for an in-flight submission exists only inside the open
//! processing transaction, modelled here by [`ProcessingTransaction`], and is
//! never visible before `save_response` commits it.
//!
//! Per `(user, key)` the protocol is a three-state machine: absent, then
//! claimed (exactly once, by the first `try_processing`), then completed
//! (exactly once, by the matching `save_response`); completion is terminal.
//! A `rollback` releases a claim and returns the pair to absent.

use vstd::prelude::*;
use vstd::pervasive::unreached;
use crate::auth::Userid;
use crate::codec::{decode_snapshot, encode_snapshot, lemma_codec_round_trip, spec_decode,
    spec_encode};
use crate::key::{valid_key, IdempotencyKey};
use crate::response::{wf_model, ResponseSnapshot, SnapshotModel};

verus! {

/// One committed row: owner, key, stored snapshot bytes, claim time.
pub struct StoredRecord {
    user: Userid,
    key: String,
    blob: Vec<u8>,
    created_at: u64,
}

impl StoredRecord {
    /// The unique key of the row.
    pub closed spec fn map_key(&self) -> (u128, Seq<char>) {
        (self.user@, self.key@)
    }

    /// The snapshot the stored bytes decode to.
    pub closed spec fn model(&self) -> SnapshotModel {
        spec_decode(self.blob@).unwrap()
    }

    /// A committed row holds a valid key and decodable, well-formed bytes.
    pub closed spec fn inv(&self) -> bool {
        &&& valid_key(self.key@)
        &&& spec_decode(self.blob@) is Some
        &&& wf_model(self.model())
    }
}

/// A claim on `(user, key)`: the row inserted by `try_processing`, still
/// uncommitted, its row lock held by the open transaction.
struct ClaimRecord {
    user: Userid,
    key: String,
}

impl ClaimRecord {
    spec fn map_key(&self) -> (u128, Seq<char>) {
        (self.user@, self.key@)
    }
}

/// The open transaction handed back by `try_processing` when a submission is
/// the first for its `(user, key)`. It must be consumed exactly once, by
/// `save_response` or by `rollback`; consuming it by value is what makes
/// reuse impossible.
pub struct ProcessingTransaction {
    user: Userid,
    key: String,
    created_at: u64,
}

impl ProcessingTransaction {
    /// The user whose claim this transaction holds.
    pub closed spec fn spec_user(&self) -> u128 {
        self.user@
    }

    /// The claimed idempotency key.
    pub closed spec fn spec_key(&self) -> Seq<char> {
        self.key@
    }

    /// The clock reading recorded when the claim was taken.
    pub closed spec fn spec_created_at(&self) -> u64 {
        self.created_at
    }

    pub fn user(&self) -> (r: Userid)
        ensures
            r@ == self.spec_user(),
    {
        self.user
    }

    pub fn key(&self) -> (r: &String)
        ensures
            r@ == self.spec_key(),
    {
        &self.key
    }

    pub fn created_at(&self) -> (r: u64)
        ensures
            r == self.spec_created_at(),
    {
        self.created_at
    }
}

/// What `try_processing` tells the caller to do next.
pub enum NextAction {
    /// This submission is the first for its `(user, key)`: perform the side
    /// effect, then hand the transaction to `save_response`.
    StartProcessing(ProcessingTransaction),
    /// A completed submission already owns this `(user, key)`: replay the
    /// saved response verbatim and perform no side effect.
    ReturnSavedResponse(ResponseSnapshot),
}

spec fn seq_has_key(rs: Seq<StoredRecord>, k: (u128, Seq<char>)) -> bool {
    exists|i: int| 0 <= i < rs.len() && (#[trigger] rs[i]).map_key() == k
}

spec fn seq_has_claim(cs: Seq<ClaimRecord>, k: (u128, Seq<char>)) -> bool {
    exists|i: int| 0 <= i < cs.len() && (#[trigger] cs[i]).map_key() == k
}

spec fn records_to_map(rs: Seq<StoredRecord>) -> Map<(u128, Seq<char>), SnapshotModel>
    decreases rs.len(),
{
    if rs.len() == 0 {
        Map::empty()
    } else {
        records_to_map(rs.drop_last()).insert(rs.last().map_key(), rs.last().model())
    }
}

proof fn lemma_records_map_key(rs: Seq<StoredRecord>, k: (u128, Seq<char>))
    ensures
        records_to_map(rs).dom().contains(k) <==> seq_has_key(rs, k),
    decreases rs.len(),
{
    if rs.len() == 0 {
        assert(!seq_has_key(rs, k));
    } else {
        lemma_records_map_key(rs.drop_last(), k);
        if k == rs.last().map_key() {
            assert(rs[rs.len() - 1].map_key() == k);
        } else {
            if seq_has_key(rs, k) {
                let i = choose|i: int| 0 <= i < rs.len() && (#[trigger] rs[i]).map_key() == k;
                assert(rs.drop_last()[i].map_key() == k);
            }
            if seq_has_key(rs.drop_last(), k) {
                let i = choose|i: int|
                    0 <= i < rs.drop_last().len() && (#[trigger] rs.drop_last()[i]).map_key() == k;
                assert(rs[i].map_key() == k);
            }
        }
    }
}

proof fn lemma_records_map_value(rs: Seq<StoredRecord>, i: int)
    requires
        0 <= i < rs.len(),
        forall|a: int, b: int| 0 <= a < b < rs.len() ==> (#[trigger] rs[a]).map_key() != (
        #[trigger] rs[b]).map_key(),
    ensures
        records_to_map(rs).dom().contains(rs[i].map_key()),
        records_to_map(rs)[rs[i].map_key()] == rs[i].model(),
    decreases rs.len(),
{
    if i == rs.len() - 1 {
    } else {
        assert(rs[i].map_key() != rs[rs.len() - 1].map_key());
        lemma_records_map_value(rs.drop_last(), i);
        assert(rs.drop_last()[i] == rs[i]);
    }
}

/// While some submission holds the claim on a pair, that pair is not yet
/// committed: the bare claimed row is never visible as a saved response, so
/// a duplicate submission that is made to wait observes no partial state —
/// when its read linearizes, the holder has either committed, which forces
/// the replay path, or rolled back, which permits a fresh claim.
pub proof fn lemma_claimed_not_committed(st: IdempotencyStore, user: u128, key: Seq<char>)
    requires
        st.wf(),
        st.claim_set().contains((user, key)),
    ensures
        !st.committed().dom().contains((user, key)),
{
    let k = (user, key);
    assert(seq_has_claim(st.claims@, k));
    let i = choose|i: int| 0 <= i < st.claims@.len() && (#[trigger] st.claims@[i]).map_key() == k;
    assert(!seq_has_key(st.records@, k));
    lemma_records_map_key(st.records@, k);
}

/// A completed pair is terminal: no open transaction targets it, and
/// `save_response` demands the claim, so the saved snapshot can never be
/// overwritten.
pub proof fn lemma_completed_is_terminal(st: IdempotencyStore, user: u128, key: Seq<char>)
    requires
        st.wf(),
        st.committed().dom().contains((user, key)),
    ensures
        !st.claim_set().contains((user, key)),
{
    if st.claim_set().contains((user, key)) {
        lemma_claimed_not_committed(st, user, key);
    }
}

/// The durable idempotency store: all committed rows, plus the live claims
/// whose transactions are still open.
pub struct IdempotencyStore {
    records: Vec<StoredRecord>,
    claims: Vec<ClaimRecord>,
}

impl IdempotencyStore {
    /// The committed state: per `(user, key)`, the completed snapshot. A pair
    /// in this map is in the terminal state of its state machine.
    pub closed spec fn committed(self) -> Map<(u128, Seq<char>), SnapshotModel> {
        records_to_map(self.records@)
    }

    /// The pairs currently claimed by an open transaction.
    pub closed spec fn claim_set(self) -> Set<(u128, Seq<char>)> {
        Set::new(|k: (u128, Seq<char>)| seq_has_claim(self.claims@, k))
    }

    /// Store invariant: at most one row and at most one claim per
    /// `(user, key)`, every row decodable and well formed, and no pair both
    /// claimed and committed — a claim commits together with its snapshot,
    /// never before it.
    pub closed spec fn wf(self) -> bool {
        &&& forall|a: int, b: int|
            0 <= a < b < self.records@.len() ==> (#[trigger] self.records@[a]).map_key() != (
            #[trigger] self.records@[b]).map_key()
        &&& forall|i: int| 0 <= i < self.records@.len() ==> (#[trigger] self.records@[i]).inv()
        &&& forall|a: int, b: int|
            0 <= a < b < self.claims@.len() ==> (#[trigger] self.claims@[a]).map_key() != (
            #[trigger] self.claims@[b]).map_key()
        &&& forall|i: int|
            0 <= i < self.claims@.len() ==> valid_key((#[trigger] self.claims@[i]).key@)
        &&& forall|i: int|
            0 <= i < self.claims@.len() ==> !seq_has_key(
                self.records@,
                (#[trigger] self.claims@[i]).map_key(),
            )
    }

    /// An empty store: nothing committed, nothing claimed.
    pub fn new() -> (r: IdempotencyStore)
        ensures
            r.wf(),
            r.committed() == Map::<(u128, Seq<char>), SnapshotModel>::empty(),
            r.claim_set() == Set::<(u128, Seq<char>)>::empty(),
    {
        let r = IdempotencyStore { records: Vec::new(), claims: Vec::new() };
        proof {
            assert(r.claim_set() =~= Set::<(u128, Seq<char>)>::empty());
        }
        r
    }

    fn find_record_index(&self, user: Userid, key: &String) -> (r: Option<usize>)
        ensures
            match r {
                Some(i) => i < self.records@.len() && self.records@[i as int].map_key() == (
                user@,
                key@,
                ),
                None => !seq_has_key(self.records@, (user@, key@)),
            },
    {
        let n = self.records.len();
        let mut i: usize = 0;
        while i < n
            invariant
                i <= n,
                n == self.records@.len(),
                forall|j: int|
                    0 <= j < i ==> (#[trigger] self.records@[j]).map_key() != (user@, key@),
            decreases n - i,
        {
            let rec = &self.records[i];
            if rec.user.value() == user.value() && rec.key.eq(key) {
                return Some(i);
            }
            i = i + 1;
        }
        None
    }

    fn find_claim_index(&self, user: Userid, key: &String) -> (r: Option<usize>)
        ensures
            match r {
                Some(i) => i < self.claims@.len() && self.claims@[i as int].map_key() == (
                user@,
                key@,
                ),
                None => !seq_has_claim(self.claims@, (user@, key@)),
            },
    {
        let n = self.claims.len();
        let mut i: usize = 0;
        while i < n
            invariant
                i <= n,
                n == self.claims@.len(),
                forall|j: int|
                    0 <= j < i ==> (#[trigger] self.claims@[j]).map_key() != (user@, key@),
            decreases n - i,
        {
            let claim = &self.claims[i];
            if claim.user.value() == user.value() && claim.key.eq(key) {
                return Some(i);
            }
            i = i + 1;
        }
        None
    }

    /// Releases the claim on `(user, key)`: committed rows are untouched.
    fn remove_claim(&mut self, user: Userid, key: &String)
        requires
            old(self).wf(),
            old(self).claim_set().contains((user@, key@)),
        ensures
            final(self).wf(),
            final(self).records@ == old(self).records@,
            final(self).claim_set() == old(self).claim_set().remove((user@, key@)),
    {
        let ghost k = (user@, key@);
        let idx = match self.find_claim_index(user, key) {
            Some(idx) => idx,
            None => unreached(),
        };
        let ghost old_claims = self.claims@;
        let ghost n = old_claims.len();
        let _ = self.claims.swap_remove(idx);
        proof {
            assert(old_claims[idx as int].map_key() == k);
            assert forall|x: (u128, Seq<char>)|
                seq_has_claim(self.claims@, x) implies (seq_has_claim(old_claims, x) && x
                != k) by {
                let i = choose|i: int|
                    0 <= i < self.claims@.len() && (#[trigger] self.claims@[i]).map_key() == x;
                let j: int = if i == idx { n - 1 } else { i };
                assert(self.claims@[i] == old_claims[j]);
                assert(old_claims[j].map_key() == x);
                assert(j != idx);
            }
            assert forall|x: (u128, Seq<char>)|
                seq_has_claim(old_claims, x) && x != k implies seq_has_claim(
                self.claims@,
                x,
            ) by {
                let j = choose|j: int|
                    0 <= j < old_claims.len() && (#[trigger] old_claims[j]).map_key() == x;
                assert(j != idx);
                if j == n - 1 {
                    assert(idx < n - 1);
                    assert(self.claims@[idx as int].map_key() == x);
                } else {
                    assert(self.claims@[j].map_key() == x);
                }
            }
            assert(self.claim_set() =~= old(self).claim_set().remove(k));
            assert forall|a: int, b: int|
                0 <= a < b < self.claims@.len() implies (#[trigger] self.claims@[a]).map_key()
                != (#[trigger] self.claims@[b]).map_key() by {
                let ja: int = if a == idx { n - 1 } else { a };
                let jb: int = if b == idx { n - 1 } else { b };
                assert(self.claims@[a] == old_claims[ja]);
                assert(self.claims@[b] == old_claims[jb]);
            }
            assert forall|i: int| 0 <= i < self.claims@.len() implies valid_key(
                (#[trigger] self.claims@[i]).key@,
            ) && !seq_has_key(self.records@, self.claims@[i].map_key()) by {
                let j: int = if i == idx { n - 1 } else { i };
                assert(self.claims@[i] == old_claims[j]);
            }
        }
    }

    /// The first coordinator call of a submission. Opens a transaction and
    /// tries to insert the row for `(user, key)` with no saved response,
    /// insert-or-ignore, without releasing the transaction.
    ///
    /// If the pair was absent, the row is created as claimed and the open
    /// transaction is handed back: the caller must perform the side effect
    /// and then complete this same transaction with `save_response`. If a
    /// completed row exists, its snapshot is decoded from storage and handed
    /// back for verbatim replay, and the store is untouched.
    ///
    /// The call is the linearization of the store's blocking insert: while
    /// another transaction holds the claim on `(user, key)` the insert waits
    /// on that row lock, so the atomic step below never runs with the pair
    /// claimed — which is what the precondition states.
    pub fn try_processing(&mut self, key: &IdempotencyKey, user: Userid, now: u64) -> (r:
        NextAction)
        requires
            old(self).wf(),
            key.well_formed(),
            !old(self).claim_set().contains((user@, key@)),
        ensures
            final(self).wf(),
            final(self).committed() == old(self).committed(),
            match r {
                NextAction::StartProcessing(txn) => {
                    &&& !old(self).committed().dom().contains((user@, key@))
                    &&& txn.spec_user() == user@
                    &&& txn.spec_key() == key@
                    &&& txn.spec_created_at() == now
                    &&& final(self).claim_set() == old(self).claim_set().insert((user@, key@))
                },
                NextAction::ReturnSavedResponse(snap) => {
                    &&& old(self).committed().dom().contains((user@, key@))
                    &&& snap@ == old(self).committed()[(user@, key@)]
                    &&& snap.well_formed()
                    &&& final(self).claim_set() == old(self).claim_set()
                },
            },
    {
        let ghost k = (user@, key@);
        match self.find_record_index(user, key.as_string()) {
            Some(i) => {
                proof {
                    assert(self.records@[i as int].inv());
                    lemma_records_map_value(self.records@, i as int);
                }
                match decode_snapshot(&self.records[i].blob) {
                    Some(snap) => NextAction::ReturnSavedResponse(snap),
                    None => unreached(),
                }
            },
            None => {
                proof {
                    lemma_records_map_key(self.records@, k);
                }
                let claim = ClaimRecord { user, key: key.as_string().clone() };
                let ghost old_claims = self.claims@;
                self.claims.push(claim);
                let txn = ProcessingTransaction {
                    user,
                    key: key.as_string().clone(),
                    created_at: now,
                };
                proof {
                    assert forall|x: (u128, Seq<char>)|
                        seq_has_claim(self.claims@, x) implies (seq_has_claim(old_claims, x) || x
                        == k) by {
                        let i = choose|i: int|
                            0 <= i < self.claims@.len() && (#[trigger] self.claims@[i]).map_key()
                                == x;
                        if i < old_claims.len() {
                            assert(old_claims[i].map_key() == x);
                        }
                    }
                    assert forall|x: (u128, Seq<char>)|
                        seq_has_claim(old_claims, x) implies seq_has_claim(self.claims@, x) by {
                        let i = choose|i: int|
                            0 <= i < old_claims.len() && (#[trigger] old_claims[i]).map_key() == x;
                        assert(self.claims@[i].map_key() == x);
                    }
                    assert(self.claims@[self.claims@.len() - 1].map_key() == k);
                    assert(self.claim_set() =~= old(self).claim_set().insert(k));
                    assert forall|a: int, b: int|
                        0 <= a < b < self.claims@.len() implies (
                        #[trigger] self.claims@[a]).map_key() != (
                        #[trigger] self.claims@[b]).map_key() by {
                        if b < old_claims.len() {
                        } else {
                            assert(old_claims[a].map_key() == self.claims@[a].map_key());
                            assert(!seq_has_claim(old_claims, k));
                        }
                    }
                }
                NextAction::StartProcessing(txn)
            },
        }
    }

    /// The second coordinator call of a first submission: writes the
    /// response's snapshot into the still-claimed row and commits, which both
    /// persists the snapshot durably and releases the claim. The response is
    /// returned unchanged, so the caller's own reply and every later replay
    /// are byte-identical.
    pub fn save_response(&mut self, txn: ProcessingTransaction, response: ResponseSnapshot) -> (r:
        ResponseSnapshot)
        requires
            old(self).wf(),
            old(self).claim_set().contains((txn.spec_user(), txn.spec_key())),
            response.well_formed(),
        ensures
            final(self).wf(),
            final(self).committed() == old(self).committed().insert(
                (txn.spec_user(), txn.spec_key()),
                response@,
            ),
            final(self).claim_set() == old(self).claim_set().remove(
                (txn.spec_user(), txn.spec_key()),
            ),
            r == response,
    {
        let ProcessingTransaction { user, key, created_at } = txn;
        let ghost k = (user@, key@);
        self.remove_claim(user, &key);
        let ghost mid = *self;
        let blob = encode_snapshot(&response);
        proof {
            lemma_codec_round_trip(response@);
        }
        let rec = StoredRecord { user, key, blob, created_at };
        self.records.push(rec);
        proof {
            assert(self.records@.drop_last() =~= mid.records@);
            assert(self.records@.last().map_key() == k);
            assert(self.records@.last().model() == response@);
            assert(self.committed() == mid.committed().insert(k, response@));
            lemma_records_map_key(mid.records@, k);
            assert(!seq_has_key(mid.records@, k)) by {
                assert(old(self).claim_set().contains(k));
            }
            assert forall|a: int, b: int|
                0 <= a < b < self.records@.len() implies (#[trigger] self.records@[a]).map_key()
                != (#[trigger] self.records@[b]).map_key() by {
                if b < mid.records@.len() {
                } else {
                    assert(mid.records@[a].map_key() == self.records@[a].map_key());
                }
            }
            assert(self.records@.last().inv());
            assert forall|i: int| 0 <= i < self.claims@.len() implies !seq_has_key(
                self.records@,
                (#[trigger] self.claims@[i]).map_key(),
            ) by {
                let x = self.claims@[i].map_key();
                assert(mid.claim_set().contains(x));
                assert(x != k);
                assert(!seq_has_key(mid.records@, x));
                if seq_has_key(self.records@, x) {
                    let j = choose|j: int|
                        0 <= j < self.records@.len() && (#[trigger] self.records@[j]).map_key()
                            == x;
                    assert(j == self.records@.len() - 1);
                }
            }
        }
        response
    }

    /// Releases a claim without completing it, as a failed or abandoned
    /// transaction does on rollback: the pair returns to absent and a fresh
    /// `try_processing` may claim it again. Committed rows are untouched.
    pub fn rollback(&mut self, txn: ProcessingTransaction)
        requires
            old(self).wf(),
            old(self).claim_set().contains((txn.spec_user(), txn.spec_key())),
        ensures
            final(self).wf(),
            final(self).committed() == old(self).committed(),
            final(self).claim_set() == old(self).claim_set().remove(
                (txn.spec_user(), txn.spec_key()),
            ),
    {
        let ProcessingTransaction { user, key, created_at: _ } = txn;
        self.remove_claim(user, &key);
    }
}

} // verus!
