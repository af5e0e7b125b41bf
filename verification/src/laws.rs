//! The laws the coordinator's contracts add up to, stated over the store's
//! committed map and claim set — the views that `try_processing`,
//! `save_response` and `rollback` speak of.

use vstd::prelude::*;
use crate::response::SnapshotModel;
use crate::store::IdempotencyStore;

verus! {

/// Sequential replay: once a first submission for `(user, key)` has
/// completed with response `resp` — the committed map is the earlier map
/// with `resp` inserted under the pair, which is exactly what
/// `save_response` ensures — a later `try_processing` for the same pair
/// finds the pair committed, so by its contract it must take the replay
/// path, and the snapshot it replays equals `resp` in status code, header
/// list and body bytes.
pub proof fn lemma_sequential_replay(
    pre: IdempotencyStore,
    completed: IdempotencyStore,
    user: u128,
    key: Seq<char>,
    resp: SnapshotModel,
)
    requires
        completed.committed() == pre.committed().insert((user, key), resp),
    ensures
        completed.committed().dom().contains((user, key)),
        completed.committed()[(user, key)] == resp,
        completed.committed()[(user, key)].status == resp.status,
        completed.committed()[(user, key)].headers == resp.headers,
        completed.committed()[(user, key)].body == resp.body,
{
}

/// User scoping: the same raw key value used by two different users never
/// collides. Claiming, completing or releasing `(u1, key)` leaves the entry
/// and the claim of `(u2, key)` exactly as they were, so each user's
/// submission runs its own independent state machine.
pub proof fn lemma_distinct_users_independent(
    committed: Map<(u128, Seq<char>), SnapshotModel>,
    claims: Set<(u128, Seq<char>)>,
    u1: u128,
    u2: u128,
    key: Seq<char>,
    resp: SnapshotModel,
)
    requires
        u1 != u2,
    ensures
        committed.insert((u1, key), resp).dom().contains((u2, key)) == committed.dom().contains(
            (u2, key),
        ),
        committed.insert((u1, key), resp).dom().contains((u2, key)) ==> committed.insert(
            (u1, key),
            resp,
        )[(u2, key)] == committed[(u2, key)],
        claims.insert((u1, key)).contains((u2, key)) == claims.contains((u2, key)),
        claims.remove((u1, key)).contains((u2, key)) == claims.contains((u2, key)),
{
}

/// The coordinator's state as the contracts describe it: the committed map
/// and the set of claimed pairs.
pub struct CoordinatorState {
    pub committed: Map<(u128, Seq<char>), SnapshotModel>,
    pub claims: Set<(u128, Seq<char>)>,
}

/// One linearized coordinator call, as its contract describes it: `Claim`
/// and `Replay` are the two outcomes of `try_processing`, `Complete` is
/// `save_response`, `Rollback` is `rollback`.
pub enum CoordinatorStep {
    Claim { user: u128, key: Seq<char> },
    Complete { user: u128, key: Seq<char>, resp: SnapshotModel },
    Rollback { user: u128, key: Seq<char> },
    Replay { user: u128, key: Seq<char>, resp: SnapshotModel },
}

/// When a step may linearize, exactly as the exec contracts put it: a claim
/// needs the pair absent and unclaimed; completion and rollback need the
/// claim; a replay needs the pair unclaimed and committed, and hands back
/// the committed snapshot.
pub open spec fn step_allowed(s: CoordinatorState, step: CoordinatorStep) -> bool {
    match step {
        CoordinatorStep::Claim { user, key } => !s.claims.contains((user, key))
            && !s.committed.dom().contains((user, key)),
        CoordinatorStep::Complete { user, key, resp } => s.claims.contains((user, key)),
        CoordinatorStep::Rollback { user, key } => s.claims.contains((user, key)),
        CoordinatorStep::Replay { user, key, resp } => !s.claims.contains((user, key))
            && s.committed.dom().contains((user, key)) && resp == s.committed[(user, key)],
    }
}

/// What a step does to the state, exactly as the exec contracts put it.
pub open spec fn step_apply(s: CoordinatorState, step: CoordinatorStep) -> CoordinatorState {
    match step {
        CoordinatorStep::Claim { user, key } => CoordinatorState {
            committed: s.committed,
            claims: s.claims.insert((user, key)),
        },
        CoordinatorStep::Complete { user, key, resp } => CoordinatorState {
            committed: s.committed.insert((user, key), resp),
            claims: s.claims.remove((user, key)),
        },
        CoordinatorStep::Rollback { user, key } => CoordinatorState {
            committed: s.committed,
            claims: s.claims.remove((user, key)),
        },
        CoordinatorStep::Replay { user, key, resp } => s,
    }
}

/// An admissible run: every step linearizes in a state that allows it.
pub open spec fn history_ok(s: CoordinatorState, steps: Seq<CoordinatorStep>) -> bool
    decreases steps.len(),
{
    steps.len() == 0 || (step_allowed(s, steps[0]) && history_ok(
        step_apply(s, steps[0]),
        steps.drop_first(),
    ))
}

/// No pair is both claimed and committed.
pub open spec fn state_inv(s: CoordinatorState) -> bool {
    forall|k: (u128, Seq<char>)| !(s.claims.contains(k) && #[trigger] s.committed.dom().contains(
        k,
    ))
}

/// Holds when the run never completes `k` again and every replay of `k`
/// carries `resp`.
pub open spec fn replays_fixed(steps: Seq<CoordinatorStep>, k: (u128, Seq<char>), resp: SnapshotModel) -> bool
    decreases steps.len(),
{
    if steps.len() == 0 {
        true
    } else {
        (match steps[0] {
            CoordinatorStep::Complete { user, key, resp: r } => (user, key) != k,
            CoordinatorStep::Replay { user, key, resp: r } => (user, key) != k || r == resp,
            _ => true,
        }) && replays_fixed(steps.drop_first(), k, resp)
    }
}

/// Holds when the run completes `k` at most once, and from that completion
/// on every replay of `k` carries the completed snapshot.
pub open spec fn completion_protocol(steps: Seq<CoordinatorStep>, k: (u128, Seq<char>)) -> bool
    decreases steps.len(),
{
    if steps.len() == 0 {
        true
    } else {
        match steps[0] {
            CoordinatorStep::Complete { user, key, resp } => if (user, key) == k {
                replays_fixed(steps.drop_first(), k, resp)
            } else {
                completion_protocol(steps.drop_first(), k)
            },
            _ => completion_protocol(steps.drop_first(), k),
        }
    }
}

/// Every admissible step keeps claims and committed pairs disjoint.
pub proof fn lemma_step_preserves_inv(s: CoordinatorState, step: CoordinatorStep)
    requires
        state_inv(s),
        step_allowed(s, step),
    ensures
        state_inv(step_apply(s, step)),
{
}

/// In a state where `k` is committed with `resp`, an admissible run never
/// completes `k` again and every replay of `k` returns `resp`: a saved
/// response is immutable and replayed verbatim forever.
pub proof fn lemma_completed_pair_is_fixed(
    s: CoordinatorState,
    steps: Seq<CoordinatorStep>,
    k: (u128, Seq<char>),
    resp: SnapshotModel,
)
    requires
        state_inv(s),
        history_ok(s, steps),
        s.committed.dom().contains(k),
        s.committed[k] == resp,
    ensures
        replays_fixed(steps, k, resp),
    decreases steps.len(),
{
    if steps.len() > 0 {
        let s1 = step_apply(s, steps[0]);
        lemma_step_preserves_inv(s, steps[0]);
        match steps[0] {
            CoordinatorStep::Complete { user, key, resp: r } => {
                assert((user, key) != k);
            },
            _ => {},
        }
        assert(s1.committed.dom().contains(k) && s1.committed[k] == resp);
        lemma_completed_pair_is_fixed(s1, steps.drop_first(), k, resp);
    }
}

/// The linear history every set of duplicate submissions observes: in any
/// admissible run of coordinator calls starting with `(user, key)` absent,
/// at most one submission completes the pair — exactly the one that got
/// `StartProcessing` and saved its response — and from that moment every
/// duplicate is answered by replaying that one response, byte for byte.
pub proof fn lemma_duplicates_observe_one_outcome(
    s: CoordinatorState,
    steps: Seq<CoordinatorStep>,
    user: u128,
    key: Seq<char>,
)
    requires
        state_inv(s),
        history_ok(s, steps),
        !s.committed.dom().contains((user, key)),
    ensures
        completion_protocol(steps, (user, key)),
    decreases steps.len(),
{
    let k = (user, key);
    if steps.len() > 0 {
        let s1 = step_apply(s, steps[0]);
        lemma_step_preserves_inv(s, steps[0]);
        match steps[0] {
            CoordinatorStep::Complete { user: u, key: key1, resp } => {
                if (u, key1) == k {
                    lemma_completed_pair_is_fixed(s1, steps.drop_first(), k, resp);
                } else {
                    lemma_duplicates_observe_one_outcome(s1, steps.drop_first(), user, key);
                }
            },
            _ => {
                lemma_duplicates_observe_one_outcome(s1, steps.drop_first(), user, key);
            },
        }
    }
}

/// Completion is immutable: committing one pair preserves every other
/// pair's saved snapshot unchanged. Together with the claim discipline —
/// a committed pair can never be claimed again — a saved response is
/// final the moment it commits.
pub proof fn lemma_completion_preserves_existing(
    committed: Map<(u128, Seq<char>), SnapshotModel>,
    fresh: (u128, Seq<char>),
    existing: (u128, Seq<char>),
    resp: SnapshotModel,
)
    requires
        existing != fresh,
        committed.dom().contains(existing),
    ensures
        committed.insert(fresh, resp).dom().contains(existing),
        committed.insert(fresh, resp)[existing] == committed[existing],
{
}

} // verus!
