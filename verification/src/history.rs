use vstd::prelude::*;

use crate::accrual::claimable_spec;
use crate::laws::{consistent, law_step_preserves_consistency, step, Call};
use crate::machine::{empty_state, StateView};
use crate::types::{Action, Stream, StreamStatus};

verus! {

/// The state after a call: the new state if it is accepted, the same state
/// if it is refused.
pub open spec fn after(s: StateView, call: Call) -> StateView {
    match step(s, call) {
        Ok((s2, _actions)) => s2,
        Err(_) => s,
    }
}

/// The state after a sequence of calls, each accepted or refused in turn.
pub open spec fn replay(s: StateView, calls: Seq<Call>) -> StateView
    decreases calls.len(),
{
    if calls.len() == 0 {
        s
    } else {
        after(replay(s, calls.drop_last()), calls.last())
    }
}

/// Whether the `k`-th call of the sequence is accepted.
pub open spec fn accepted_at(s: StateView, calls: Seq<Call>, k: int) -> bool {
    step(replay(s, calls.take(k)), calls[k]) is Ok
}

/// Replaying one call more.
pub proof fn lemma_replay_step(s: StateView, calls: Seq<Call>, m: int)
    requires
        0 <= m < calls.len(),
    ensures
        replay(s, calls.take(m + 1)) == after(replay(s, calls.take(m)), calls[m]),
{
    assert(calls.take(m + 1).drop_last() =~= calls.take(m));
}

/// Replaying every call of a sequence.
pub proof fn lemma_replay_all(s: StateView, calls: Seq<Call>)
    ensures
        replay(s, calls.take(calls.len() as int)) == replay(s, calls),
{
    assert(calls.take(calls.len() as int) =~= calls);
}

/// Any sequence of calls keeps a consistent state consistent.
pub proof fn law_replay_keeps_consistency(s: StateView, calls: Seq<Call>)
    requires
        consistent(s),
    ensures
        consistent(replay(s, calls)),
    decreases calls.len(),
{
    if calls.len() > 0 {
        law_replay_keeps_consistency(s, calls.drop_last());
        law_step_preserves_consistency(replay(s, calls.drop_last()), calls.last());
    }
}

/// Every state that calls produce from a fresh escrow is consistent.
pub proof fn law_reachable_states_are_consistent(calls: Seq<Call>)
    ensures
        consistent(replay(empty_state(), calls)),
{
    crate::laws::law_empty_state_is_consistent();
    law_replay_keeps_consistency(empty_state(), calls);
}

/// How many streams an accepted call creates.
pub open spec fn new_streams(call: Call) -> nat {
    match call {
        Call::CreateStream { .. } => 1,
        Call::CreateStreamsBatch { params, .. } => params@.len(),
        _ => 0,
    }
}

/// The terms a stream is created with: its id, parties, rate and times.
pub open spec fn same_terms(a: Stream, b: Stream) -> bool {
    &&& a.id == b.id
    &&& a.employer == b.employer
    &&& a.employee == b.employee
    &&& a.token == b.token
    &&& a.rate_per_second == b.rate_per_second
    &&& a.start_time == b.start_time
    &&& a.stop_time == b.stop_time
}

/// Whether a stream's status may go from `from` to `to` in one call: an
/// active stream may be paused, exhausted or cancelled, a paused one resumed
/// or cancelled, and an exhausted or cancelled one never changes.
pub open spec fn may_become(from: StreamStatus, to: StreamStatus) -> bool {
    ||| from == to
    ||| from == StreamStatus::Active && to == StreamStatus::Paused
    ||| from == StreamStatus::Paused && to == StreamStatus::Active
    ||| from == StreamStatus::Active && to == StreamStatus::Exhausted
    ||| (from == StreamStatus::Active || from == StreamStatus::Paused) && to
        == StreamStatus::Cancelled
}

pub open spec fn ended(stream: Stream) -> bool {
    stream.status == StreamStatus::Exhausted || stream.status == StreamStatus::Cancelled
}

/// What holds between a stream and what any number of calls make of it:
/// its terms stay, its withdrawals never shrink, and once ended it never
/// changes.
pub open spec fn stays(a: Stream, b: Stream) -> bool {
    &&& same_terms(a, b)
    &&& a.withdrawn <= b.withdrawn
    &&& ended(a) ==> b == a
}

/// What one call may make of a stream.
pub open spec fn evolves(a: Stream, b: Stream) -> bool {
    &&& stays(a, b)
    &&& may_become(a.status, b.status)
}

proof fn lemma_step_admin(s: StateView, call: Call)
    ensures
        step(s, call) matches Ok((s2, _a)) ==> (if call is Initialize {
            s2.admin == Some(call->Initialize_admin)
        } else {
            s2.admin == s.admin
        }),
{
    match call {
        Call::Initialize { .. } => {},
        Call::PauseAll => {},
        Call::ResumeAll => {},
        Call::SetStreamLimit { .. } => {},
        Call::ScheduleUpgrade { .. } => {},
        Call::ExecuteUpgrade { .. } => {},
        Call::CancelUpgrade => {},
        Call::SetMinDeposit { .. } => {},
        Call::CreateStream { .. } => {},
        Call::CreateStreamsBatch { .. } => {},
        Call::Withdraw { .. } => {},
        Call::TopUp { .. } => {},
        Call::PauseStream { .. } => {},
        Call::ResumeStream { .. } => {},
        Call::CancelStream { .. } => {},
    }
}

proof fn lemma_step_upgrade(s: StateView, call: Call)
    ensures
        step(s, call) matches Ok((s2, actions)) ==> {
            &&& !(call is ScheduleUpgrade || call is ExecuteUpgrade || call is CancelUpgrade)
                ==> s2.upgrade_pending == s.upgrade_pending
            &&& call is ScheduleUpgrade ==> s2.upgrade_pending == Some(
                (call->ScheduleUpgrade_wasm_hash, call->ScheduleUpgrade_now),
            )
            &&& (call is ExecuteUpgrade || call is CancelUpgrade) ==> s2.upgrade_pending is None
            &&& call is ExecuteUpgrade ==> (s.upgrade_pending matches Some((h, t))
                && call->ExecuteUpgrade_now >= crate::machine::unlock_time(t) && actions[2]
                == Action::UpdateContractWasm { wasm_hash: h })
        },
{
    match call {
        Call::Initialize { .. } => {},
        Call::PauseAll => {},
        Call::ResumeAll => {},
        Call::SetStreamLimit { .. } => {},
        Call::ScheduleUpgrade { .. } => {},
        Call::ExecuteUpgrade { .. } => {},
        Call::CancelUpgrade => {},
        Call::SetMinDeposit { .. } => {},
        Call::CreateStream { .. } => {},
        Call::CreateStreamsBatch { .. } => {},
        Call::Withdraw { .. } => {},
        Call::TopUp { .. } => {},
        Call::PauseStream { .. } => {},
        Call::ResumeStream { .. } => {},
        Call::CancelStream { .. } => {},
    }
}

proof fn lemma_step_count(s: StateView, call: Call)
    ensures
        step(s, call) matches Ok((s2, _a)) ==> s2.streams.len() == s.streams.len() + new_streams(
            call,
        ),
{
    if let Ok((s2, _a)) = step(s, call) {
        if let Call::CreateStreamsBatch { employer, params, now } = call {
            assert(crate::machine::batch_streams(employer, params@, s.streams.len() as int, now).len()
                == params@.len());
        }
    }
}

/// One call keeps every existing stream's terms, never lowers what it has
/// paid out, never touches an ended stream, and moves its status only along
/// the allowed transitions.
pub proof fn law_step_evolves_streams(s: StateView, call: Call, id: int)
    requires
        0 <= id < s.streams.len(),
    ensures
        step(s, call) matches Ok((s2, _a)) ==> id < s2.streams.len() && evolves(
            s.streams[id],
            s2.streams[id],
        ),
{
    if let Ok((s2, _a)) = step(s, call) {
        lemma_step_count(s, call);
        match call {
            Call::Withdraw { now, .. } => {
                crate::accrual::law_claimable_within_remaining(s.streams[id], now);
            },
            Call::CancelStream { now, .. } => {
                crate::accrual::law_claimable_within_remaining(s.streams[id], now);
            },
            Call::CreateStream { .. } => {
                assert(s2.streams[id] == s.streams[id]);
            },
            Call::CreateStreamsBatch { .. } => {
                assert(s2.streams[id] == s.streams[id]);
            },
            _ => {},
        }
    }
}

/// Any sequence of calls keeps every existing stream's terms, never lowers
/// what it has paid out, and never touches it again once it has ended.
pub proof fn law_replay_streams_stay(s: StateView, calls: Seq<Call>, id: int)
    requires
        0 <= id < s.streams.len(),
    ensures
        id < replay(s, calls).streams.len(),
        stays(s.streams[id], replay(s, calls).streams[id]),
    decreases calls.len(),
{
    if calls.len() > 0 {
        let prior = replay(s, calls.drop_last());
        law_replay_streams_stay(s, calls.drop_last(), id);
        law_step_evolves_streams(prior, calls.last(), id);
    }
}

/// How many streams the accepted calls of a sequence create.
pub open spec fn created(s: StateView, calls: Seq<Call>) -> nat
    decreases calls.len(),
{
    if calls.len() == 0 {
        0
    } else {
        created(s, calls.drop_last()) + if step(replay(s, calls.drop_last()), calls.last()) is Ok {
            new_streams(calls.last())
        } else {
            0
        }
    }
}

/// The stream count grows by exactly the streams that accepted calls create:
/// one per `create_stream`, one per parameter of `create_streams_batch`, and
/// none for any other call, so it never decreases.
pub proof fn law_stream_count_counts_creations(s: StateView, calls: Seq<Call>)
    ensures
        replay(s, calls).streams.len() == s.streams.len() + created(s, calls),
    decreases calls.len(),
{
    if calls.len() > 0 {
        law_stream_count_counts_creations(s, calls.drop_last());
        lemma_step_count(replay(s, calls.drop_last()), calls.last());
    }
}

/// Whether a call resumes or cancels the stream `id`.
pub open spec fn releases_pause(call: Call, id: u64) -> bool {
    ||| call matches Call::ResumeStream { stream_id, .. } && stream_id == id
    ||| call matches Call::CancelStream { stream_id, .. } && stream_id == id
}

proof fn lemma_step_keeps_paused(s: StateView, call: Call, id: u64)
    requires
        id < s.streams.len(),
        s.streams[id as int].status == StreamStatus::Paused,
        !releases_pause(call, id),
    ensures
        after(s, call).streams[id as int] == s.streams[id as int],
{
    law_step_evolves_streams(s, call, id as int);
    if let Ok((s2, _a)) = step(s, call) {
        match call {
            Call::CreateStream { .. } => {
                assert(s2.streams[id as int] == s.streams[id as int]);
            },
            Call::CreateStreamsBatch { .. } => {
                assert(s2.streams[id as int] == s.streams[id as int]);
            },
            _ => {},
        }
    }
}

/// A paused stream stays frozen: until a call resuming or cancelling it is
/// accepted, no call changes it, and what can be claimed from it at any
/// time after the pause is what could be claimed at the pause.
pub proof fn law_paused_stream_stays_frozen(s: StateView, calls: Seq<Call>, id: u64, later: u64)
    requires
        id < s.streams.len(),
        s.streams[id as int].status == StreamStatus::Paused,
        s.streams[id as int].paused_at <= later,
        forall|j: int|
            0 <= j < calls.len() && #[trigger] accepted_at(s, calls, j) ==> !releases_pause(
                calls[j],
                id,
            ),
    ensures
        replay(s, calls).streams[id as int] == s.streams[id as int],
        claimable_spec(replay(s, calls).streams[id as int], later) == claimable_spec(
            s.streams[id as int],
            s.streams[id as int].paused_at,
        ),
    decreases calls.len(),
{
    if calls.len() > 0 {
        let prefix = calls.drop_last();
        assert forall|j: int|
            0 <= j < prefix.len() && #[trigger] accepted_at(s, prefix, j) implies !releases_pause(
            prefix[j],
            id,
        ) by {
            assert(prefix.take(j) =~= calls.take(j));
            assert(prefix[j] == calls[j]);
            assert(accepted_at(s, calls, j));
        }
        law_paused_stream_stays_frozen(s, prefix, id, later);
        let prior = replay(s, prefix);
        law_replay_streams_stay(s, prefix, id as int);
        let k = calls.len() - 1;
        assert(calls.take(k) =~= prefix);
        if accepted_at(s, calls, k) {
            assert(!releases_pause(calls[k], id));
            lemma_step_keeps_paused(prior, calls.last(), id);
        }
    }
}

/// Where a pending upgrade comes from: an accepted schedule of exactly that
/// hash and time, with no accepted cancel or execution since.
proof fn lemma_pending_origin(s: StateView, calls: Seq<Call>, m: int)
    requires
        s.upgrade_pending is None,
        0 <= m <= calls.len(),
    ensures
        replay(s, calls.take(m)).upgrade_pending matches Some((h, t)) ==> exists|i: int|
            0 <= i < m && calls[i] == (Call::ScheduleUpgrade { wasm_hash: h, now: t })
                && #[trigger] accepted_at(s, calls, i) && forall|j: int|
                i < j < m ==> !(#[trigger] accepted_at(s, calls, j) && (calls[j] is CancelUpgrade
                    || calls[j] is ExecuteUpgrade)),
    decreases m,
{
    if m > 0 {
        lemma_pending_origin(s, calls, m - 1);
        lemma_replay_step(s, calls, m - 1);
        let p = replay(s, calls.take(m - 1));
        lemma_step_upgrade(p, calls[m - 1]);
        if let Some((h, t)) = replay(s, calls.take(m)).upgrade_pending {
            if step(p, calls[m - 1]) is Ok && calls[m - 1] is ScheduleUpgrade {
                assert(accepted_at(s, calls, m - 1));
                assert(calls[m - 1] == (Call::ScheduleUpgrade { wasm_hash: h, now: t }));
            } else {
                assert(p.upgrade_pending == Some((h, t)));
                let i = choose|i: int|
                    0 <= i < m - 1 && calls[i] == (Call::ScheduleUpgrade { wasm_hash: h, now: t })
                        && #[trigger] accepted_at(s, calls, i) && forall|j: int|
                        i < j < m - 1 ==> !(#[trigger] accepted_at(s, calls, j) && (
                        calls[j] is CancelUpgrade || calls[j] is ExecuteUpgrade));
                assert(accepted_at(s, calls, i));
                assert forall|j: int| i < j < m implies !(#[trigger] accepted_at(s, calls, j) && (
                calls[j] is CancelUpgrade || calls[j] is ExecuteUpgrade)) by {
                    if j == m - 1 {
                    }
                }
            }
        }
    } else {
        assert(calls.take(0) =~= Seq::<Call>::empty());
    }
}

/// An upgrade runs only after a schedule: starting with no upgrade pending,
/// an accepted execution installs the hash of an earlier accepted schedule,
/// at least the time lock after it (saturating at the end of time), with no
/// accepted cancel or execution in between.
pub proof fn law_upgrade_runs_only_after_schedule(s: StateView, calls: Seq<Call>, k: int)
    requires
        s.upgrade_pending is None,
        0 <= k < calls.len(),
        accepted_at(s, calls, k),
        calls[k] is ExecuteUpgrade,
    ensures
        exists|i: int|
            0 <= i < k && calls[i] is ScheduleUpgrade && #[trigger] accepted_at(s, calls, i)
                && calls[k]->ExecuteUpgrade_now >= crate::machine::unlock_time(
                calls[i]->ScheduleUpgrade_now,
            ) && (step(replay(s, calls.take(k)), calls[k]) matches Ok((_s2, actions))
                && actions[2] == Action::UpdateContractWasm {
                wasm_hash: calls[i]->ScheduleUpgrade_wasm_hash,
            }) && forall|j: int|
                i < j < k ==> !(#[trigger] accepted_at(s, calls, j) && (calls[j] is CancelUpgrade
                    || calls[j] is ExecuteUpgrade)),
{
    let p = replay(s, calls.take(k));
    lemma_step_upgrade(p, calls[k]);
    lemma_pending_origin(s, calls, k);
    let (h, t) = p.upgrade_pending.unwrap();
    let i = choose|i: int|
        0 <= i < k && calls[i] == (Call::ScheduleUpgrade { wasm_hash: h, now: t })
            && #[trigger] accepted_at(s, calls, i) && forall|j: int|
            i < j < k ==> !(#[trigger] accepted_at(s, calls, j) && (calls[j] is CancelUpgrade
                || calls[j] is ExecuteUpgrade));
    assert(accepted_at(s, calls, i));
}

/// After `initialize`, the admin stays the same until `initialize` is
/// called again.
proof fn lemma_admin_since(s: StateView, calls: Seq<Call>, i: int, m: int)
    requires
        0 <= i < m <= calls.len(),
        calls[i] is Initialize,
        forall|j: int| i < j < m ==> !(#[trigger] calls[j] is Initialize),
    ensures
        replay(s, calls.take(m)).admin == Some(calls[i]->Initialize_admin),
    decreases m - i,
{
    lemma_replay_step(s, calls, m - 1);
    let p = replay(s, calls.take(m - 1));
    let c = calls[m - 1];
    lemma_step_admin(p, c);
    if m - 1 > i {
        lemma_admin_since(s, calls, i, m - 1);
        assert(!(c is Initialize));
        lemma_after_keeps_admin(p, c);
    } else {
        assert(step(p, c) is Ok);
    }
}

proof fn lemma_after_keeps_admin(s: StateView, call: Call)
    requires
        !(call is Initialize),
    ensures
        after(s, call).admin == s.admin,
{
    lemma_step_admin(s, call);
}

/// Admin calls demand the last admin set: after `initialize(admin)` and
/// until `initialize` is called again, every accepted admin call demands
/// the authorisation of that admin first.
pub proof fn law_admin_stays_until_reinitialized(s: StateView, calls: Seq<Call>, i: int, k: int)
    requires
        0 <= i < k < calls.len(),
        calls[i] is Initialize,
        forall|j: int| i < j < k ==> !(#[trigger] calls[j] is Initialize),
        (calls[k] is PauseAll || calls[k] is ResumeAll || calls[k] is SetStreamLimit
            || calls[k] is ScheduleUpgrade || calls[k] is ExecuteUpgrade || calls[k] is CancelUpgrade
            || calls[k] is SetMinDeposit),
    ensures
        step(replay(s, calls.take(k)), calls[k]) matches Ok((_s2, actions)) ==> actions[0]
            == (Action::RequireAuth { account: calls[i]->Initialize_admin }),
{
    lemma_admin_since(s, calls, i, k);
    crate::laws::law_only_the_right_party_acts(replay(s, calls.take(k)), calls[k]);
}

/// In every state that calls produce from a fresh escrow, an employer's
/// list holds exactly the ids of the streams it created, each once, oldest
/// first.
pub proof fn law_reachable_employer_lists_are_exact(calls: Seq<Call>, employer: crate::types::AccountId)
    ensures
        ({
            let s = replay(empty_state(), calls);
            &&& forall|k: int|
                0 <= k < s.employer_streams[employer].len() ==> {
                    &&& #[trigger] s.employer_streams[employer][k] < s.streams.len()
                    &&& s.streams[s.employer_streams[employer][k] as int].employer == employer
                }
            &&& forall|i: int|
                0 <= i < s.streams.len() && (#[trigger] s.streams[i]).employer == employer
                    ==> s.employer_streams[employer].contains(i as u64)
            &&& forall|j: int, k: int|
                0 <= j < k < s.employer_streams[employer].len() ==> s.employer_streams[employer][j]
                    < s.employer_streams[employer][k]
        }),
{
    law_reachable_states_are_consistent(calls);
    crate::laws::law_employer_list_is_exact(replay(empty_state(), calls), employer);
}

} // verus!
