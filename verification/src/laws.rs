use vstd::prelude::*;

use crate::accrual::{claimable_spec, law_claimable_within_remaining};
use crate::ledger::{
    escrow_balance, held, ids_by, inflow, lemma_escrow_concat, lemma_escrow_update,
    lemma_ids_concat, lemma_ids_update, lemma_inflow_concat, lemma_inflow_one, lemma_live_concat,
    counts_for, lemma_live_update, lemma_paid_concat, lemma_paid_one, live_count, net_inflow, paid_to,
};
use crate::machine::{
    batch_streams, cancel_stream_step, cancel_upgrade_step, create_stream_step,
    create_streams_batch_step, empty_state, execute_upgrade_step, initialize_step,
    lemma_batch_accepted, open_actions, opened_stream, opening_actions, pause_stream_step,
    resume_stream_step, schedule_upgrade_step, set_global_pause_step, set_min_deposit_step,
    set_stream_limit_step, top_up_step, withdraw_step, with_opened, with_stream, released,
    StateView,
};
use crate::types::{
    AccountId, Action, Stream, StreamParams, StreamStatus, WasmHash,
};

verus! {

/// One call into the escrow, with the time it is made at where that matters.
pub enum Call {
    Initialize { admin: AccountId },
    PauseAll,
    ResumeAll,
    SetStreamLimit { limit: u32 },
    ScheduleUpgrade { wasm_hash: WasmHash, now: u64 },
    ExecuteUpgrade { now: u64 },
    CancelUpgrade,
    SetMinDeposit { admin: AccountId, amount: i128 },
    CreateStream {
        employer: AccountId,
        employee: AccountId,
        token: AccountId,
        deposit: i128,
        rate_per_second: i128,
        stop_time: u64,
        now: u64,
    },
    CreateStreamsBatch { employer: AccountId, params: Vec<StreamParams>, now: u64 },
    Withdraw { employee: AccountId, stream_id: u64, now: u64 },
    TopUp { employer: AccountId, stream_id: u64, amount: i128 },
    PauseStream { employer: AccountId, stream_id: u64, now: u64 },
    ResumeStream { employer: AccountId, stream_id: u64, now: u64 },
    CancelStream { employer: AccountId, stream_id: u64, now: u64 },
}

/// What a call does to the state and what the host must do for it, or why
/// it is refused.
pub open spec fn step(s: StateView, call: Call) -> Result<(StateView, Seq<Action>), crate::types::StreamError> {
    match call {
        Call::Initialize { admin } => Ok(initialize_step(s, admin)),
        Call::PauseAll => set_global_pause_step(s, true),
        Call::ResumeAll => set_global_pause_step(s, false),
        Call::SetStreamLimit { limit } => set_stream_limit_step(s, limit),
        Call::ScheduleUpgrade { wasm_hash, now } => schedule_upgrade_step(s, wasm_hash, now),
        Call::ExecuteUpgrade { now } => execute_upgrade_step(s, now),
        Call::CancelUpgrade => cancel_upgrade_step(s),
        Call::SetMinDeposit { admin, amount } => set_min_deposit_step(s, admin, amount),
        Call::CreateStream {
            employer,
            employee,
            token,
            deposit,
            rate_per_second,
            stop_time,
            now,
        } => match create_stream_step(
            s,
            employer,
            employee,
            token,
            deposit,
            rate_per_second,
            stop_time,
            now,
        ) {
            Ok((s2, _id, actions)) => Ok((s2, actions)),
            Err(e) => Err(e),
        },
        Call::CreateStreamsBatch { employer, params, now } => match create_streams_batch_step(
            s,
            employer,
            params@,
            now,
        ) {
            Ok((s2, _ids, actions)) => Ok((s2, actions)),
            Err(e) => Err(e),
        },
        Call::Withdraw { employee, stream_id, now } => match withdraw_step(
            s,
            employee,
            stream_id,
            now,
        ) {
            Ok((s2, _amount, actions)) => Ok((s2, actions)),
            Err(e) => Err(e),
        },
        Call::TopUp { employer, stream_id, amount } => top_up_step(s, employer, stream_id, amount),
        Call::PauseStream { employer, stream_id, now } => pause_stream_step(
            s,
            employer,
            stream_id,
            now,
        ),
        Call::ResumeStream { employer, stream_id, now } => resume_stream_step(
            s,
            employer,
            stream_id,
            now,
        ),
        Call::CancelStream { employer, stream_id, now } => cancel_stream_step(
            s,
            employer,
            stream_id,
            now,
        ),
    }
}

/// What holds of every stream that any sequence of calls produces, at its
/// position `position`.
pub open spec fn stream_ok(stream: Stream, position: int) -> bool {
    &&& stream.id == position
    &&& 0 <= stream.withdrawn <= stream.deposit
    &&& stream.deposit > 0
    &&& stream.rate_per_second > 0
    &&& !stream.locked
    &&& stream.status == StreamStatus::Exhausted ==> stream.withdrawn == stream.deposit
}

/// What holds of every state that any sequence of calls produces: each
/// stream is in order, each employer's list holds exactly its streams'
/// ids, and each employer's count is the number of its streams that are
/// active or paused.
pub open spec fn consistent(s: StateView) -> bool {
    &&& forall|i: int| 0 <= i < s.streams.len() ==> stream_ok(#[trigger] s.streams[i], i)
    &&& forall|e: AccountId| #[trigger] s.employer_streams.dom().contains(e)
    &&& forall|e: AccountId| #[trigger] s.active_counts.dom().contains(e)
    &&& forall|e: AccountId| #[trigger] s.employer_streams[e] == ids_by(s.streams, e)
    &&& forall|e: AccountId| #[trigger] s.active_counts[e] == live_count(s.streams, e)
}

/// Replacing one stream by one that is in order, has the same owner and the
/// same standing against the limit keeps the state consistent.
proof fn lemma_replace_consistent(s: StateView, id: u64, x: Stream)
    requires
        consistent(s),
        id < s.streams.len(),
        stream_ok(x, id as int),
        x.employer == s.streams[id as int].employer,
        counts_for(x, x.employer) == counts_for(s.streams[id as int], x.employer),
    ensures
        consistent(with_stream(s, id, x)),
{
    let s2 = with_stream(s, id, x);
    assert forall|i: int| 0 <= i < s2.streams.len() implies stream_ok(#[trigger] s2.streams[i], i) by {
        if i != id {
            assert(s2.streams[i] == s.streams[i]);
        }
    }
    assert forall|e: AccountId| #[trigger] s2.employer_streams[e] == ids_by(s2.streams, e) by {
        lemma_ids_update(s.streams, id as int, x, e);
    }
    assert forall|e: AccountId| #[trigger] s2.active_counts[e] == live_count(s2.streams, e) by {
        lemma_live_update(s.streams, id as int, x, e);
    }
}

/// Replacing a stream that counts against its employer's limit by one that
/// no longer does, and taking it off the employer's count, keeps the state
/// consistent.
proof fn lemma_release_consistent(s: StateView, id: u64, x: Stream)
    requires
        consistent(s),
        id < s.streams.len(),
        stream_ok(x, id as int),
        x.employer == s.streams[id as int].employer,
        counts_for(s.streams[id as int], x.employer),
        !counts_for(x, x.employer),
    ensures
        consistent(
            StateView {
                active_counts: released(s.active_counts, x.employer),
                ..with_stream(s, id, x)
            },
        ),
{
    let s2 = StateView {
        active_counts: released(s.active_counts, x.employer),
        ..with_stream(s, id, x)
    };
    assert forall|i: int| 0 <= i < s2.streams.len() implies stream_ok(#[trigger] s2.streams[i], i) by {
        if i != id {
            assert(s2.streams[i] == s.streams[i]);
        }
    }
    assert forall|e: AccountId| #[trigger] s2.employer_streams[e] == ids_by(s2.streams, e) by {
        lemma_ids_update(s.streams, id as int, x, e);
    }
    assert forall|e: AccountId| #[trigger] s2.active_counts[e] == live_count(s2.streams, e) by {
        lemma_live_update(s.streams, id as int, x, e);
        assert(s.active_counts.dom().contains(e));
    }
    assert forall|e: AccountId| #[trigger] s2.active_counts.dom().contains(e) by {
        assert(s.active_counts.dom().contains(e));
    }
}

/// The state before any call is consistent.
pub proof fn law_empty_state_is_consistent()
    ensures
        consistent(empty_state()),
{
    let s = empty_state();
    assert forall|e: AccountId| #[trigger] s.employer_streams[e] == ids_by(s.streams, e) by {}
    assert forall|e: AccountId| #[trigger] s.active_counts[e] == live_count(s.streams, e) by {}
}

/// Streams just created by `employer`, the first at position `first`.
pub open spec fn fresh_ok(fresh: Seq<Stream>, employer: AccountId, first: int) -> bool {
    forall|i: int|
        0 <= i < fresh.len() ==> {
            &&& (#[trigger] fresh[i]).employer == employer
            &&& fresh[i].status == StreamStatus::Active
            &&& fresh[i].withdrawn == 0
            &&& stream_ok(fresh[i], first + i)
        }
}

proof fn lemma_fresh_ids(fresh: Seq<Stream>, employer: AccountId, e: AccountId)
    requires
        forall|i: int| 0 <= i < fresh.len() ==> (#[trigger] fresh[i]).employer == employer,
    ensures
        ids_by(fresh, e) == if e == employer {
            fresh.map_values(|st: Stream| st.id)
        } else {
            Seq::<u64>::empty()
        },
    decreases fresh.len(),
{
    if fresh.len() > 0 {
        let prior = fresh.drop_last();
        assert forall|i: int| 0 <= i < prior.len() implies (#[trigger] prior[i]).employer
            == employer by {
            assert(prior[i] == fresh[i]);
        }
        lemma_fresh_ids(prior, employer, e);
        assert(fresh.last() == fresh[fresh.len() - 1]);
        if e == employer {
            assert(fresh.map_values(|st: Stream| st.id) =~= prior.map_values(|st: Stream| st.id).push(
                fresh.last().id,
            ));
            assert(ids_by(fresh, e) =~= prior.map_values(|st: Stream| st.id).push(
                fresh.last().id,
            ));
        } else {
            assert(ids_by(fresh, e) =~= Seq::<u64>::empty());
        }
    } else {
        assert(fresh.map_values(|st: Stream| st.id) =~= Seq::<u64>::empty());
    }
}

proof fn lemma_fresh_live(fresh: Seq<Stream>, employer: AccountId, e: AccountId)
    requires
        forall|i: int|
            0 <= i < fresh.len() ==> (#[trigger] fresh[i]).employer == employer && fresh[i].status
                == StreamStatus::Active,
    ensures
        live_count(fresh, e) == if e == employer {
            fresh.len()
        } else {
            0
        },
    decreases fresh.len(),
{
    if fresh.len() > 0 {
        let prior = fresh.drop_last();
        assert forall|i: int| 0 <= i < prior.len() implies (#[trigger] prior[i]).employer
            == employer && prior[i].status == StreamStatus::Active by {
            assert(prior[i] == fresh[i]);
        }
        lemma_fresh_live(prior, employer, e);
        assert(fresh.last() == fresh[fresh.len() - 1]);
    }
}

/// Adding an employer's new streams keeps the state consistent.
proof fn lemma_opened_consistent(s: StateView, employer: AccountId, fresh: Seq<Stream>)
    requires
        consistent(s),
        fresh_ok(fresh, employer, s.streams.len() as int),
    ensures
        consistent(with_opened(s, employer, fresh)),
{
    let s2 = with_opened(s, employer, fresh);
    assert forall|i: int| 0 <= i < s2.streams.len() implies stream_ok(#[trigger] s2.streams[i], i) by {
        if i < s.streams.len() {
            assert(s2.streams[i] == s.streams[i]);
        } else {
            assert(s2.streams[i] == fresh[i - s.streams.len()]);
        }
    }
    assert forall|e: AccountId| #[trigger] s2.employer_streams[e] == ids_by(s2.streams, e) by {
        lemma_ids_concat(s.streams, fresh, e);
        lemma_fresh_ids(fresh, employer, e);
        if e != employer {
            assert(ids_by(s.streams, e) + Seq::<u64>::empty() =~= ids_by(s.streams, e));
        }
    }
    assert forall|e: AccountId| #[trigger] s2.active_counts[e] == live_count(s2.streams, e) by {
        lemma_live_concat(s.streams, fresh, e);
        lemma_fresh_live(fresh, employer, e);
    }
    assert forall|e: AccountId| #[trigger] s2.employer_streams.dom().contains(e) by {
        assert(s.employer_streams.dom().contains(e));
    }
    assert forall|e: AccountId| #[trigger] s2.active_counts.dom().contains(e) by {
        assert(s.active_counts.dom().contains(e));
    }
}

/// The host's work for new streams moves in exactly what they hold.
proof fn lemma_opening_inflow(employer: AccountId, fresh: Seq<Stream>, token: AccountId)
    requires
        forall|i: int|
            0 <= i < fresh.len() ==> (#[trigger] fresh[i]).withdrawn == 0 && fresh[i].status
                == StreamStatus::Active,
    ensures
        net_inflow(opening_actions(employer, fresh), token) == escrow_balance(fresh, token),
    decreases fresh.len(),
{
    if fresh.len() > 0 {
        let prior = fresh.drop_last();
        assert forall|i: int| 0 <= i < prior.len() implies (#[trigger] prior[i]).withdrawn == 0
            && prior[i].status == StreamStatus::Active by {
            assert(prior[i] == fresh[i]);
        }
        lemma_opening_inflow(employer, prior, token);
        let last = fresh.last();
        assert(last == fresh[fresh.len() - 1]);
        let acts = open_actions(employer, last);
        lemma_inflow_concat(opening_actions(employer, prior), acts, token);
        assert(acts =~= seq![acts[0]] + seq![acts[1]] + seq![acts[2]]);
        lemma_inflow_concat(seq![acts[0]] + seq![acts[1]], seq![acts[2]], token);
        lemma_inflow_concat(seq![acts[0]], seq![acts[1]], token);
        lemma_inflow_one(acts[0], token);
        lemma_inflow_one(acts[1], token);
        lemma_inflow_one(acts[2], token);
    }
}

proof fn lemma_inflow2(a: Action, b: Action, token: AccountId)
    ensures
        net_inflow(seq![a, b], token) == inflow(a, token) + inflow(b, token),
{
    assert(seq![a, b] =~= seq![a] + seq![b]);
    lemma_inflow_concat(seq![a], seq![b], token);
    lemma_inflow_one(a, token);
    lemma_inflow_one(b, token);
}

proof fn lemma_inflow3(a: Action, b: Action, c: Action, token: AccountId)
    ensures
        net_inflow(seq![a, b, c], token) == inflow(a, token) + inflow(b, token) + inflow(c, token),
{
    assert(seq![a, b, c] =~= seq![a, b] + seq![c]);
    lemma_inflow_concat(seq![a, b], seq![c], token);
    lemma_inflow2(a, b, token);
    lemma_inflow_one(c, token);
}

proof fn lemma_create_consistent(
    s: StateView,
    employer: AccountId,
    employee: AccountId,
    token: AccountId,
    deposit: i128,
    rate_per_second: i128,
    stop_time: u64,
    now: u64,
)
    requires
        consistent(s),
    ensures
        create_stream_step(s, employer, employee, token, deposit, rate_per_second, stop_time, now)
            matches Ok((s2, _id, _a)) ==> consistent(s2),
{
    if let Ok((s2, id, _a)) = create_stream_step(
        s,
        employer,
        employee,
        token,
        deposit,
        rate_per_second,
        stop_time,
        now,
    ) {
        let stream = opened_stream(
            id,
            employer,
            employee,
            token,
            deposit,
            rate_per_second,
            stop_time,
            now,
        );
        assert(seq![stream][0] == stream);
        lemma_opened_consistent(s, employer, seq![stream]);
    }
}

proof fn lemma_batch_consistent(
    s: StateView,
    employer: AccountId,
    params: Seq<StreamParams>,
    now: u64,
)
    requires
        consistent(s),
    ensures
        create_streams_batch_step(s, employer, params, now) matches Ok((s2, _ids, _a))
            ==> consistent(s2),
{
    if let Ok((s2, _ids, _a)) = create_streams_batch_step(s, employer, params, now) {
        let first = s.streams.len() as int;
        let fresh = batch_streams(employer, params, first, now);
        lemma_batch_accepted(params, s.active_counts[employer] as int, s.stream_limit, first, now);
        assert forall|i: int| 0 <= i < fresh.len() implies {
            &&& (#[trigger] fresh[i]).employer == employer
            &&& fresh[i].status == StreamStatus::Active
            &&& fresh[i].withdrawn == 0
            &&& stream_ok(fresh[i], first + i)
        } by {
            assert(params[i].deposit == params[i].deposit);
        }
        lemma_opened_consistent(s, employer, fresh);
    }
}

proof fn lemma_withdraw_consistent(s: StateView, employee: AccountId, stream_id: u64, now: u64)
    requires
        consistent(s),
    ensures
        withdraw_step(s, employee, stream_id, now) matches Ok((s2, _amount, _a)) ==> consistent(
            s2,
        ),
{
    if let Ok((s2, _amount, _a)) = withdraw_step(s, employee, stream_id, now) {
        let st = s.streams[stream_id as int];
        law_claimable_within_remaining(st, now);
        let w = st.withdrawn + claimable_spec(st, now);
        let paid = Stream {
            withdrawn: w as i128,
            last_withdraw_time: now,
            status: if w >= st.deposit {
                StreamStatus::Exhausted
            } else {
                StreamStatus::Active
            },
            ..st
        };
        assert(stream_ok(st, stream_id as int));
        if paid.status == StreamStatus::Exhausted {
            lemma_release_consistent(s, stream_id, paid);
        } else {
            lemma_replace_consistent(s, stream_id, paid);
        }
    }
}

proof fn lemma_top_up_consistent(s: StateView, employer: AccountId, stream_id: u64, amount: i128)
    requires
        consistent(s),
    ensures
        top_up_step(s, employer, stream_id, amount) matches Ok((s2, _a)) ==> consistent(s2),
{
    if let Ok((s2, _a)) = top_up_step(s, employer, stream_id, amount) {
        let st = s.streams[stream_id as int];
        assert(stream_ok(st, stream_id as int));
        lemma_replace_consistent(s, stream_id, Stream { deposit: (st.deposit + amount) as i128, ..st });
    }
}

proof fn lemma_pause_consistent(s: StateView, employer: AccountId, stream_id: u64, now: u64)
    requires
        consistent(s),
    ensures
        pause_stream_step(s, employer, stream_id, now) matches Ok((s2, _a)) ==> consistent(s2),
{
    if let Ok((s2, _a)) = pause_stream_step(s, employer, stream_id, now) {
        let st = s.streams[stream_id as int];
        assert(stream_ok(st, stream_id as int));
        lemma_replace_consistent(
            s,
            stream_id,
            Stream { paused_at: now, status: StreamStatus::Paused, ..st },
        );
    }
}

proof fn lemma_resume_consistent(s: StateView, employer: AccountId, stream_id: u64, now: u64)
    requires
        consistent(s),
    ensures
        resume_stream_step(s, employer, stream_id, now) matches Ok((s2, _a)) ==> consistent(s2),
{
    if let Ok((s2, _a)) = resume_stream_step(s, employer, stream_id, now) {
        let st = s.streams[stream_id as int];
        assert(stream_ok(st, stream_id as int));
        lemma_replace_consistent(s, stream_id, crate::machine::resumed_stream(st, now));
    }
}

proof fn lemma_cancel_consistent(s: StateView, employer: AccountId, stream_id: u64, now: u64)
    requires
        consistent(s),
    ensures
        cancel_stream_step(s, employer, stream_id, now) matches Ok((s2, _a)) ==> consistent(s2),
{
    if let Ok((s2, _a)) = cancel_stream_step(s, employer, stream_id, now) {
        let id = stream_id as int;
        let st = s.streams[id];
        assert(stream_ok(st, id));
        law_claimable_within_remaining(st, now);
        let w = st.withdrawn + claimable_spec(st, now);
        let closed = Stream { withdrawn: w as i128, status: StreamStatus::Cancelled, ..st };
        lemma_release_consistent(s, stream_id, closed);
        assert(s2 == (StateView {
            active_counts: released(s.active_counts, closed.employer),
            ..with_stream(s, stream_id, closed)
        }));
    }
}

/// Every accepted call keeps the state consistent.
pub proof fn law_step_preserves_consistency(s: StateView, call: Call)
    requires
        consistent(s),
    ensures
        step(s, call) matches Ok((s2, _actions)) ==> consistent(s2),
{
    match call {
        Call::CreateStream {
            employer,
            employee,
            token,
            deposit,
            rate_per_second,
            stop_time,
            now,
        } => lemma_create_consistent(
            s,
            employer,
            employee,
            token,
            deposit,
            rate_per_second,
            stop_time,
            now,
        ),
        Call::CreateStreamsBatch { employer, params, now } => lemma_batch_consistent(
            s,
            employer,
            params@,
            now,
        ),
        Call::Withdraw { employee, stream_id, now } => lemma_withdraw_consistent(
            s,
            employee,
            stream_id,
            now,
        ),
        Call::TopUp { employer, stream_id, amount } => lemma_top_up_consistent(
            s,
            employer,
            stream_id,
            amount,
        ),
        Call::PauseStream { employer, stream_id, now } => lemma_pause_consistent(
            s,
            employer,
            stream_id,
            now,
        ),
        Call::ResumeStream { employer, stream_id, now } => lemma_resume_consistent(
            s,
            employer,
            stream_id,
            now,
        ),
        Call::CancelStream { employer, stream_id, now } => lemma_cancel_consistent(
            s,
            employer,
            stream_id,
            now,
        ),
        _ => {},
    }
}

/// The escrow's holdings of `token` after a call, less those before.
pub open spec fn escrow_change(s: StateView, s2: StateView, token: AccountId) -> int {
    escrow_balance(s2.streams, token) - escrow_balance(s.streams, token)
}

proof fn lemma_escrow_one(x: Stream, token: AccountId)
    ensures
        escrow_balance(seq![x], token) == held(x, token),
{
    assert(seq![x].drop_last() =~= Seq::<Stream>::empty());
    assert(escrow_balance(Seq::<Stream>::empty(), token) == 0);
    assert(seq![x].last() == x);
}

proof fn lemma_create_conserves(
    s: StateView,
    employer: AccountId,
    employee: AccountId,
    token_address: AccountId,
    deposit: i128,
    rate_per_second: i128,
    stop_time: u64,
    now: u64,
    token: AccountId,
)
    ensures
        create_stream_step(
            s,
            employer,
            employee,
            token_address,
            deposit,
            rate_per_second,
            stop_time,
            now,
        ) matches Ok((s2, _id, actions)) ==> net_inflow(actions, token) == escrow_change(
            s,
            s2,
            token,
        ),
{
    if let Ok((s2, id, actions)) = create_stream_step(
        s,
        employer,
        employee,
        token_address,
        deposit,
        rate_per_second,
        stop_time,
        now,
    ) {
        let stream = opened_stream(
            id,
            employer,
            employee,
            token_address,
            deposit,
            rate_per_second,
            stop_time,
            now,
        );
        let acts = open_actions(employer, stream);
        lemma_inflow_concat(seq![crate::machine::auth(employer)], acts, token);
        lemma_inflow_one(crate::machine::auth(employer), token);
        lemma_inflow3(acts[0], acts[1], acts[2], token);
        assert(acts =~= seq![acts[0], acts[1], acts[2]]);
        lemma_escrow_concat(s.streams, seq![stream], token);
        lemma_escrow_one(stream, token);
    }
}

proof fn lemma_batch_conserves(
    s: StateView,
    employer: AccountId,
    params: Seq<StreamParams>,
    now: u64,
    token: AccountId,
)
    ensures
        create_streams_batch_step(s, employer, params, now) matches Ok((s2, _ids, actions))
            ==> net_inflow(actions, token) == escrow_change(s, s2, token),
{
    if let Ok((s2, _ids, actions)) = create_streams_batch_step(s, employer, params, now) {
        let fresh = batch_streams(employer, params, s.streams.len() as int, now);
        lemma_inflow_concat(
            seq![crate::machine::auth(employer)],
            opening_actions(employer, fresh),
            token,
        );
        lemma_inflow_one(crate::machine::auth(employer), token);
        lemma_opening_inflow(employer, fresh, token);
        lemma_escrow_concat(s.streams, fresh, token);
    }
}

proof fn lemma_withdraw_conserves(
    s: StateView,
    employee: AccountId,
    stream_id: u64,
    now: u64,
    token: AccountId,
)
    ensures
        withdraw_step(s, employee, stream_id, now) matches Ok((s2, _amount, actions))
            ==> net_inflow(actions, token) == escrow_change(s, s2, token),
{
    if let Ok((s2, _amount, actions)) = withdraw_step(s, employee, stream_id, now) {
        let st = s.streams[stream_id as int];
        lemma_inflow3(actions[0], actions[1], actions[2], token);
        assert(actions =~= seq![actions[0], actions[1], actions[2]]);
        lemma_escrow_update(s.streams, stream_id as int, s2.streams[stream_id as int], token);
        assert(s2.streams == s.streams.update(stream_id as int, s2.streams[stream_id as int]));
    }
}

proof fn lemma_top_up_conserves(
    s: StateView,
    employer: AccountId,
    stream_id: u64,
    amount: i128,
    token: AccountId,
)
    ensures
        top_up_step(s, employer, stream_id, amount) matches Ok((s2, actions)) ==> net_inflow(
            actions,
            token,
        ) == escrow_change(s, s2, token),
{
    if let Ok((s2, actions)) = top_up_step(s, employer, stream_id, amount) {
        lemma_inflow3(actions[0], actions[1], actions[2], token);
        assert(actions =~= seq![actions[0], actions[1], actions[2]]);
        lemma_escrow_update(s.streams, stream_id as int, s2.streams[stream_id as int], token);
        assert(s2.streams == s.streams.update(stream_id as int, s2.streams[stream_id as int]));
    }
}

proof fn lemma_pause_conserves(
    s: StateView,
    employer: AccountId,
    stream_id: u64,
    now: u64,
    token: AccountId,
)
    ensures
        pause_stream_step(s, employer, stream_id, now) matches Ok((s2, actions)) ==> net_inflow(
            actions,
            token,
        ) == escrow_change(s, s2, token),
{
    if let Ok((s2, actions)) = pause_stream_step(s, employer, stream_id, now) {
        lemma_inflow2(actions[0], actions[1], token);
        assert(actions =~= seq![actions[0], actions[1]]);
        lemma_escrow_update(s.streams, stream_id as int, s2.streams[stream_id as int], token);
        assert(s2.streams == s.streams.update(stream_id as int, s2.streams[stream_id as int]));
    }
}

proof fn lemma_resume_conserves(
    s: StateView,
    employer: AccountId,
    stream_id: u64,
    now: u64,
    token: AccountId,
)
    ensures
        resume_stream_step(s, employer, stream_id, now) matches Ok((s2, actions)) ==> net_inflow(
            actions,
            token,
        ) == escrow_change(s, s2, token),
{
    if let Ok((s2, actions)) = resume_stream_step(s, employer, stream_id, now) {
        lemma_inflow2(actions[0], actions[1], token);
        assert(actions =~= seq![actions[0], actions[1]]);
        lemma_escrow_update(s.streams, stream_id as int, s2.streams[stream_id as int], token);
        assert(s2.streams == s.streams.update(stream_id as int, s2.streams[stream_id as int]));
    }
}

proof fn lemma_cancel_conserves(
    s: StateView,
    employer: AccountId,
    stream_id: u64,
    now: u64,
    token: AccountId,
)
    requires
        consistent(s),
    ensures
        cancel_stream_step(s, employer, stream_id, now) matches Ok((s2, actions)) ==> net_inflow(
            actions,
            token,
        ) == escrow_change(s, s2, token),
{
    if let Ok((s2, actions)) = cancel_stream_step(s, employer, stream_id, now) {
        let id = stream_id as int;
        let st = s.streams[id];
        assert(stream_ok(st, id));
        law_claimable_within_remaining(st, now);
        let owed = claimable_spec(st, now);
        let w = st.withdrawn + owed;
        let refund = crate::machine::refund_of(st.deposit, w);
        assert(refund == st.deposit - w);
        let pay: Seq<Action> = if owed > 0 {
            seq![
                crate::machine::transfer(
                    st.token,
                    crate::types::Holder::Escrow,
                    crate::types::Holder::Account(st.employee),
                    owed as i128,
                ),
            ]
        } else {
            Seq::empty()
        };
        let back: Seq<Action> = if refund > 0 {
            seq![
                crate::machine::transfer(
                    st.token,
                    crate::types::Holder::Escrow,
                    crate::types::Holder::Account(employer),
                    refund as i128,
                ),
            ]
        } else {
            Seq::empty()
        };
        let first = seq![crate::machine::auth(employer)];
        let last = seq![crate::machine::publish(crate::types::Event::StreamCancelled { id: stream_id })];
        assert(actions == first + pay + back + last);
        lemma_inflow_concat(first + pay + back, last, token);
        lemma_inflow_concat(first + pay, back, token);
        lemma_inflow_concat(first, pay, token);
        lemma_inflow_one(first[0], token);
        lemma_inflow_one(last[0], token);
        assert(first =~= seq![first[0]]);
        assert(last =~= seq![last[0]]);
        if owed > 0 {
            lemma_inflow_one(pay[0], token);
            assert(pay =~= seq![pay[0]]);
        }
        if refund > 0 {
            lemma_inflow_one(back[0], token);
            assert(back =~= seq![back[0]]);
        }
        let closed = Stream { withdrawn: w as i128, status: StreamStatus::Cancelled, ..st };
        lemma_escrow_update(s.streams, id, closed, token);
        assert(s2.streams == s.streams.update(id, closed));
    }
}

proof fn lemma_admin_actions_move_nothing(s: StateView, call: Call, token: AccountId)
    requires
        !(call is CreateStream || call is CreateStreamsBatch || call is Withdraw || call is TopUp
            || call is PauseStream || call is ResumeStream || call is CancelStream),
    ensures
        step(s, call) matches Ok((s2, actions)) ==> net_inflow(actions, token) == 0 && s2.streams
            == s.streams,
{
    if let Ok((s2, actions)) = step(s, call) {
        if actions.len() == 1 {
            assert(actions =~= seq![actions[0]]);
            lemma_inflow_one(actions[0], token);
        } else if actions.len() == 2 {
            assert(actions =~= seq![actions[0], actions[1]]);
            lemma_inflow2(actions[0], actions[1], token);
        } else {
            assert(actions =~= seq![actions[0], actions[1], actions[2]]);
            lemma_inflow3(actions[0], actions[1], actions[2], token);
        }
    }
}

/// Funds are conserved: for every token, what an accepted call's transfers
/// move into the escrow (less what they move out) is exactly the change in
/// what the escrow holds for its streams. The escrow holds, per stream that
/// has not been cancelled, its deposit less its withdrawals.
pub proof fn law_step_conserves_funds(s: StateView, call: Call, token: AccountId)
    requires
        consistent(s),
    ensures
        step(s, call) matches Ok((s2, actions)) ==> net_inflow(actions, token) == escrow_change(
            s,
            s2,
            token,
        ),
{
    match call {
        Call::CreateStream {
            employer,
            employee,
            token: token_address,
            deposit,
            rate_per_second,
            stop_time,
            now,
        } => lemma_create_conserves(
            s,
            employer,
            employee,
            token_address,
            deposit,
            rate_per_second,
            stop_time,
            now,
            token,
        ),
        Call::CreateStreamsBatch { employer, params, now } => lemma_batch_conserves(
            s,
            employer,
            params@,
            now,
            token,
        ),
        Call::Withdraw { employee, stream_id, now } => lemma_withdraw_conserves(
            s,
            employee,
            stream_id,
            now,
            token,
        ),
        Call::TopUp { employer, stream_id, amount } => lemma_top_up_conserves(
            s,
            employer,
            stream_id,
            amount,
            token,
        ),
        Call::PauseStream { employer, stream_id, now } => lemma_pause_conserves(
            s,
            employer,
            stream_id,
            now,
            token,
        ),
        Call::ResumeStream { employer, stream_id, now } => lemma_resume_conserves(
            s,
            employer,
            stream_id,
            now,
            token,
        ),
        Call::CancelStream { employer, stream_id, now } => lemma_cancel_conserves(
            s,
            employer,
            stream_id,
            now,
            token,
        ),
        _ => lemma_admin_actions_move_nothing(s, call, token),
    }
}

/// Who must authorise a call: the admin for the admin operations, the
/// named admin for `initialize` and `set_min_deposit`, the employee for a
/// withdrawal and the employer otherwise.
pub open spec fn authority(s: StateView, call: Call) -> AccountId {
    match call {
        Call::Initialize { admin } => admin,
        Call::SetMinDeposit { admin, .. } => admin,
        Call::CreateStream { employer, .. } => employer,
        Call::CreateStreamsBatch { employer, .. } => employer,
        Call::Withdraw { employee, .. } => employee,
        Call::TopUp { employer, .. } => employer,
        Call::PauseStream { employer, .. } => employer,
        Call::ResumeStream { employer, .. } => employer,
        Call::CancelStream { employer, .. } => employer,
        _ => s.admin.unwrap(),
    }
}

/// The stream a call acts on, if it acts on one.
pub open spec fn target(call: Call) -> Option<u64> {
    match call {
        Call::Withdraw { stream_id, .. } => Some(stream_id),
        Call::TopUp { stream_id, .. } => Some(stream_id),
        Call::PauseStream { stream_id, .. } => Some(stream_id),
        Call::ResumeStream { stream_id, .. } => Some(stream_id),
        Call::CancelStream { stream_id, .. } => Some(stream_id),
        _ => None,
    }
}

/// Only the right party can act: every accepted call first demands the
/// authorisation of its authority; admin operations other than
/// `initialize` are accepted only from the admin; a withdrawal only from
/// the stream's employee; the other operations on a stream only from its
/// employer.
pub proof fn law_only_the_right_party_acts(s: StateView, call: Call)
    ensures
        step(s, call) matches Ok((s2, actions)) ==> {
            &&& actions.len() > 0
            &&& actions[0] == Action::RequireAuth { account: authority(s, call) }
            &&& !(call is Initialize || call is CreateStream || call is CreateStreamsBatch
                || target(call) is Some) ==> s.admin == Some(authority(s, call))
            &&& call is Withdraw ==> s.streams[call->Withdraw_stream_id as int].employee
                == authority(s, call)
            &&& (target(call) is Some && !(call is Withdraw)) ==> s.streams[target(
                call,
            )->0 as int].employer == authority(s, call)
        },
{
}

/// While the admin's global pause is on, no stream can be created and no
/// withdrawal made.
pub proof fn law_global_pause_blocks_streams(s: StateView, call: Call)
    requires
        s.globally_paused,
        call is CreateStream || call is CreateStreamsBatch || call is Withdraw,
    ensures
        step(s, call) == Err::<(StateView, Seq<Action>), crate::types::StreamError>(
            crate::types::StreamError::GlobalPaused,
        ),
{
}

/// Pausing or resuming everything sets the global pause and changes
/// nothing else.
pub proof fn law_global_pause_switches(s: StateView, paused: bool)
    ensures
        set_global_pause_step(s, paused) matches Ok((s2, _a)) ==> s2 == (StateView {
            globally_paused: paused,
            ..s
        }),
        set_global_pause_step(s, paused) is Ok <==> s.admin is Some,
{
}

/// A paused stream accrues nothing: at any later time, what can be claimed
/// from it is what could be claimed the moment it was paused.
pub proof fn law_pause_freezes_accrual(
    s: StateView,
    employer: AccountId,
    stream_id: u64,
    paused_at: u64,
    later: u64,
)
    requires
        paused_at <= later,
    ensures
        pause_stream_step(s, employer, stream_id, paused_at) matches Ok((s2, _a)) ==> claimable_spec(
            s2.streams[stream_id as int],
            later,
        ) == claimable_spec(s.streams[stream_id as int], paused_at),
{
}

/// Time spent paused is excluded: an open-ended stream paused at `paused_at`
/// and resumed at `resumed_at` pays at any later time what it would have
/// paid, had it never been paused, that much earlier.
pub proof fn law_resume_skips_paused_time(
    s: StateView,
    employer: AccountId,
    stream_id: u64,
    paused_at: u64,
    resumed_at: u64,
    later: u64,
)
    requires
        paused_at <= resumed_at <= later,
        stream_id < s.streams.len(),
        s.streams[stream_id as int].stop_time == 0,
        s.streams[stream_id as int].last_withdraw_time + (resumed_at - paused_at) <= u64::MAX,
    ensures
        pause_stream_step(s, employer, stream_id, paused_at) matches Ok((s1, _a1))
            ==> resume_stream_step(s1, employer, stream_id, resumed_at) matches Ok((s2, _a2))
            && claimable_spec(s2.streams[stream_id as int], later) == claimable_spec(
            s.streams[stream_id as int],
            (later - (resumed_at - paused_at)) as u64,
        ),
{
}

/// A withdrawal pays exactly what is claimable, leaves nothing claimable at
/// that moment, and a second withdrawal at the same moment is refused.
pub proof fn law_withdraw_pays_everything_claimable(
    s: StateView,
    employee: AccountId,
    stream_id: u64,
    now: u64,
)
    ensures
        withdraw_step(s, employee, stream_id, now) matches Ok((s2, amount, _a)) ==> {
            &&& amount == claimable_spec(s.streams[stream_id as int], now)
            &&& claimable_spec(s2.streams[stream_id as int], now) == 0
            &&& withdraw_step(s2, employee, stream_id, now) is Err
        },
{
}

/// Exhausted and cancelled streams are final: no call changes them again.
pub proof fn law_ended_streams_never_change(s: StateView, call: Call, id: int)
    requires
        0 <= id < s.streams.len(),
        s.streams[id].status == StreamStatus::Exhausted || s.streams[id].status
            == StreamStatus::Cancelled,
    ensures
        step(s, call) matches Ok((s2, _a)) ==> s2.streams[id] == s.streams[id],
{
    if let Ok((s2, _a)) = step(s, call) {
        match call {
            Call::CreateStream { .. } => {
                assert(s2.streams[id] == s.streams[id]);
            },
            Call::CreateStreamsBatch { .. } => {
                assert(s2.streams[id] == s.streams[id]);
            },
            _ => {},
        }
    }
}

/// A stream reads back as it was created: with the given parties, amounts
/// and stop time, nothing withdrawn, active since `now`, under the next id.
pub proof fn law_created_stream_reads_back(
    s: StateView,
    employer: AccountId,
    employee: AccountId,
    token: AccountId,
    deposit: i128,
    rate_per_second: i128,
    stop_time: u64,
    now: u64,
)
    ensures
        create_stream_step(s, employer, employee, token, deposit, rate_per_second, stop_time, now)
            matches Ok((s2, id, _a)) ==> {
            &&& id == s.streams.len()
            &&& crate::machine::stream_of(s2, id) == Ok::<Stream, crate::types::StreamError>(
                opened_stream(id, employer, employee, token, deposit, rate_per_second, stop_time, now),
            )
            &&& s2.employer_streams[employer] == s.employer_streams[employer].push(id)
        },
{
    if let Ok((s2, id, _a)) = create_stream_step(
        s,
        employer,
        employee,
        token,
        deposit,
        rate_per_second,
        stop_time,
        now,
    ) {
        let stream = opened_stream(
            id,
            employer,
            employee,
            token,
            deposit,
            rate_per_second,
            stop_time,
            now,
        );
        assert(seq![stream].map_values(|st: Stream| st.id) =~= seq![id]);
        assert(s2.streams[id as int] == stream);
    }
}

/// Scheduling an upgrade and then cancelling it leaves the state as it was.
pub proof fn law_cancel_undoes_schedule(s: StateView, wasm_hash: WasmHash, now: u64)
    ensures
        schedule_upgrade_step(s, wasm_hash, now) matches Ok((s1, _a1)) ==> cancel_upgrade_step(
            s1,
        ) matches Ok((s2, _a2)) && s2 == s,
{
}

/// A scheduled upgrade runs exactly when the time lock has passed, and then
/// replaces the code with the scheduled hash.
pub proof fn law_upgrade_waits_for_timelock(
    s: StateView,
    wasm_hash: WasmHash,
    scheduled_at: u64,
    now: u64,
)
    requires
        scheduled_at + crate::types::UPGRADE_TIMELOCK_SECS <= u64::MAX,
    ensures
        schedule_upgrade_step(s, wasm_hash, scheduled_at) matches Ok((s1, _a1)) ==> {
            &&& (execute_upgrade_step(s1, now) is Err <==> now < scheduled_at
                + crate::types::UPGRADE_TIMELOCK_SECS)
            &&& execute_upgrade_step(s1, now) matches Ok((s2, actions)) ==> s2.upgrade_pending
                is None && actions.contains(Action::UpdateContractWasm { wasm_hash })
        },
{
    if let Ok((s1, _a1)) = schedule_upgrade_step(s, wasm_hash, scheduled_at) {
        if let Ok((s2, actions)) = execute_upgrade_step(s1, now) {
            assert(actions[2] == Action::UpdateContractWasm { wasm_hash });
        }
    }
}

proof fn lemma_cancel_payouts(
    first: Seq<Action>,
    pay: Seq<Action>,
    back: Seq<Action>,
    last: Seq<Action>,
    token: AccountId,
    to: crate::types::Holder,
)
    requires
        first.len() == 1,
        last.len() == 1,
        !(first[0] is Transfer),
        !(last[0] is Transfer),
    ensures
        paid_to(first + pay + back + last, token, to) == paid_to(pay, token, to) + paid_to(
            back,
            token,
            to,
        ),
{
    lemma_paid_concat(first + pay + back, last, token, to);
    lemma_paid_concat(first + pay, back, token, to);
    lemma_paid_concat(first, pay, token, to);
    assert(first =~= seq![first[0]]);
    assert(last =~= seq![last[0]]);
    lemma_paid_one(first[0], token, to);
    lemma_paid_one(last[0], token, to);
}

/// Cancelling settles the stream: the employee is paid what had accrued
/// and the employer gets back the rest of the deposit.
pub proof fn law_cancel_settles_stream(s: StateView, employer: AccountId, stream_id: u64, now: u64)
    requires
        consistent(s),
        stream_id < s.streams.len(),
        s.streams[stream_id as int].employee != employer,
    ensures
        cancel_stream_step(s, employer, stream_id, now) matches Ok((s2, actions)) ==> {
            let st = s.streams[stream_id as int];
            let owed = claimable_spec(st, now);
            &&& paid_to(actions, st.token, crate::types::Holder::Account(st.employee)) == owed
            &&& paid_to(actions, st.token, crate::types::Holder::Account(employer)) == st.deposit
                - st.withdrawn - owed
            &&& s2.streams[stream_id as int].status == StreamStatus::Cancelled
            &&& claimable_spec(s2.streams[stream_id as int], now) == 0
        },
{
    if let Ok((s2, actions)) = cancel_stream_step(s, employer, stream_id, now) {
        let id = stream_id as int;
        let st = s.streams[id];
        assert(stream_ok(st, id));
        law_claimable_within_remaining(st, now);
        let owed = claimable_spec(st, now);
        let w = st.withdrawn + owed;
        let refund = crate::machine::refund_of(st.deposit, w);
        let pay: Seq<Action> = if owed > 0 {
            seq![
                crate::machine::transfer(
                    st.token,
                    crate::types::Holder::Escrow,
                    crate::types::Holder::Account(st.employee),
                    owed as i128,
                ),
            ]
        } else {
            Seq::empty()
        };
        let back: Seq<Action> = if refund > 0 {
            seq![
                crate::machine::transfer(
                    st.token,
                    crate::types::Holder::Escrow,
                    crate::types::Holder::Account(employer),
                    refund as i128,
                ),
            ]
        } else {
            Seq::empty()
        };
        let first = seq![crate::machine::auth(employer)];
        let last = seq![crate::machine::publish(crate::types::Event::StreamCancelled { id: stream_id })];
        assert(actions == first + pay + back + last);
        assert(first =~= seq![first[0]]);
        assert(last =~= seq![last[0]]);
        let to_employee = crate::types::Holder::Account(st.employee);
        let to_employer = crate::types::Holder::Account(employer);
        lemma_cancel_payouts(first, pay, back, last, st.token, to_employee);
        lemma_cancel_payouts(first, pay, back, last, st.token, to_employer);
        if owed > 0 {
            assert(pay =~= seq![pay[0]]);
            lemma_paid_one(pay[0], st.token, to_employee);
            lemma_paid_one(pay[0], st.token, to_employer);
        } else {
            assert(paid_to(pay, st.token, to_employee) == 0);
            assert(paid_to(pay, st.token, to_employer) == 0);
        }
        if refund > 0 {
            assert(back =~= seq![back[0]]);
            lemma_paid_one(back[0], st.token, to_employee);
            lemma_paid_one(back[0], st.token, to_employer);
        } else {
            assert(paid_to(back, st.token, to_employee) == 0);
            assert(paid_to(back, st.token, to_employer) == 0);
        }
        assert(paid_to(actions, st.token, crate::types::Holder::Account(st.employee)) == owed);
        assert(paid_to(actions, st.token, crate::types::Holder::Account(employer)) == refund);
    }
}

/// In a consistent state, an employer's list holds exactly the ids of the
/// streams it created (ended ones included), each once, oldest first.
pub proof fn law_employer_list_is_exact(s: StateView, employer: AccountId)
    requires
        consistent(s),
    ensures
        forall|k: int|
            0 <= k < s.employer_streams[employer].len() ==> {
                &&& #[trigger] s.employer_streams[employer][k] < s.streams.len()
                &&& s.streams[s.employer_streams[employer][k] as int].employer == employer
            },
        forall|i: int|
            0 <= i < s.streams.len() && (#[trigger] s.streams[i]).employer == employer
                ==> s.employer_streams[employer].contains(i as u64),
        forall|j: int, k: int|
            0 <= j < k < s.employer_streams[employer].len() ==> s.employer_streams[employer][j]
                < s.employer_streams[employer][k],
{
    assert forall|i: int| 0 <= i < s.streams.len() implies (#[trigger] s.streams[i]).id == i by {
        assert(stream_ok(s.streams[i], i));
    }
    crate::ledger::lemma_ids_by_exact(s.streams, employer);
}

/// A stream that counts against its employer's limit is on the count.
proof fn lemma_counted_stream_is_on_the_count(s: StateView, id: int)
    requires
        consistent(s),
        0 <= id < s.streams.len(),
        counts_for(s.streams[id], s.streams[id].employer),
    ensures
        s.active_counts[s.streams[id].employer] >= 1,
{
    let st = s.streams[id];
    let x = Stream { status: StreamStatus::Cancelled, ..st };
    lemma_live_update(s.streams, id, x, st.employer);
}

/// Cancelling a stream frees exactly one slot under its employer's limit,
/// so at the limit, a new stream refused only for the limit is accepted
/// after the cancel.
pub proof fn law_cancel_frees_one_slot(
    s: StateView,
    employer: AccountId,
    stream_id: u64,
    now: u64,
    employee: AccountId,
    token: AccountId,
    deposit: i128,
    rate_per_second: i128,
    stop_time: u64,
    later: u64,
)
    requires
        consistent(s),
    ensures
        cancel_stream_step(s, employer, stream_id, now) matches Ok((s2, _a)) ==> {
            &&& s2.active_counts[employer] + 1 == s.active_counts[employer]
            &&& (s.active_counts[employer] <= s.stream_limit && create_stream_step(
                s,
                employer,
                employee,
                token,
                deposit,
                rate_per_second,
                stop_time,
                later,
            ) == Err::<(StateView, u64, Seq<Action>), crate::types::StreamError>(
                crate::types::StreamError::StreamLimit,
            ) && (stop_time == 0 || stop_time > later) && s.streams.len() < u64::MAX)
                ==> create_stream_step(
                s2,
                employer,
                employee,
                token,
                deposit,
                rate_per_second,
                stop_time,
                later,
            ) is Ok
        },
{
    if let Ok((s2, _a)) = cancel_stream_step(s, employer, stream_id, now) {
        lemma_counted_stream_is_on_the_count(s, stream_id as int);
        assert(s.active_counts.dom().contains(employer));
    }
}

/// A withdrawal that exhausts a stream frees exactly one slot under its
/// employer's limit.
pub proof fn law_exhausting_withdrawal_frees_one_slot(
    s: StateView,
    employee: AccountId,
    stream_id: u64,
    now: u64,
)
    requires
        consistent(s),
    ensures
        withdraw_step(s, employee, stream_id, now) matches Ok((s2, _amount, _a)) ==> {
            let employer = s.streams[stream_id as int].employer;
            if s2.streams[stream_id as int].status == StreamStatus::Exhausted {
                s2.active_counts[employer] + 1 == s.active_counts[employer]
            } else {
                s2.active_counts == s.active_counts
            }
        },
{
    if let Ok((s2, _amount, _a)) = withdraw_step(s, employee, stream_id, now) {
        lemma_counted_stream_is_on_the_count(s, stream_id as int);
        assert(s.active_counts.dom().contains(s.streams[stream_id as int].employer));
    }
}

/// The actions other than authorisations: the token calls, events and
/// upgrades a sequence of actions makes.
pub open spec fn effects(actions: Seq<Action>) -> Seq<Action>
    decreases actions.len(),
{
    if actions.len() == 0 {
        Seq::empty()
    } else {
        effects(actions.drop_last()) + if actions.last() is RequireAuth {
            Seq::<Action>::empty()
        } else {
            seq![actions.last()]
        }
    }
}

proof fn lemma_effects_concat(a: Seq<Action>, b: Seq<Action>)
    ensures
        effects(a + b) == effects(a) + effects(b),
    decreases b.len(),
{
    if b.len() > 0 {
        lemma_effects_concat(a, b.drop_last());
        assert((a + b).drop_last() =~= a + b.drop_last());
        assert((a + b).last() == b.last());
        assert(effects(a + b) =~= effects(a) + effects(b));
    } else {
        assert(a + b =~= a);
        assert(effects(a) + effects(b) =~= effects(a));
    }
}

proof fn lemma_effects_one(x: Action)
    ensures
        effects(seq![x]) == if x is RequireAuth {
            Seq::<Action>::empty()
        } else {
            seq![x]
        },
{
    assert(seq![x].drop_last() =~= Seq::<Action>::empty());
    assert(seq![x].last() == x);
    assert(effects(Seq::<Action>::empty()) =~= Seq::<Action>::empty());
    assert(effects(seq![x]) =~= if x is RequireAuth {
        Seq::<Action>::empty()
    } else {
        seq![x]
    });
}

proof fn lemma_effects_of_open(employer: AccountId, stream: Stream)
    ensures
        effects(open_actions(employer, stream)) == open_actions(employer, stream),
{
    let a = open_actions(employer, stream);
    assert(a =~= seq![a[0]] + seq![a[1]] + seq![a[2]]);
    lemma_effects_concat(seq![a[0]] + seq![a[1]], seq![a[2]]);
    lemma_effects_concat(seq![a[0]], seq![a[1]]);
    lemma_effects_one(a[0]);
    lemma_effects_one(a[1]);
    lemma_effects_one(a[2]);
}

proof fn lemma_effects_of_opening(employer: AccountId, fresh: Seq<Stream>)
    ensures
        effects(opening_actions(employer, fresh)) == opening_actions(employer, fresh),
    decreases fresh.len(),
{
    if fresh.len() > 0 {
        lemma_effects_of_opening(employer, fresh.drop_last());
        lemma_effects_of_open(employer, fresh.last());
        lemma_effects_concat(
            opening_actions(employer, fresh.drop_last()),
            open_actions(employer, fresh.last()),
        );
    } else {
        assert(effects(Seq::<Action>::empty()) =~= Seq::<Action>::empty());
    }
}

/// Creating the streams one after the other, each by its own
/// `create_stream` at the same time.
pub open spec fn create_each(
    s: StateView,
    employer: AccountId,
    params: Seq<StreamParams>,
    now: u64,
) -> Result<(StateView, Seq<u64>, Seq<Action>), crate::types::StreamError>
    decreases params.len(),
{
    if params.len() == 0 {
        Ok((s, Seq::empty(), Seq::empty()))
    } else {
        match create_each(s, employer, params.drop_last(), now) {
            Err(e) => Err(e),
            Ok((s1, ids, actions)) => {
                let p = params.last();
                match create_stream_step(
                    s1,
                    employer,
                    p.employee,
                    p.token,
                    p.deposit,
                    p.rate_per_second,
                    p.stop_time,
                    now,
                ) {
                    Err(e) => Err(e),
                    Ok((s2, id, more)) => Ok((s2, ids.push(id), actions + more)),
                }
            },
        }
    }
}

proof fn lemma_opened_twice(s: StateView, employer: AccountId, first: Seq<Stream>, x: Stream)
    ensures
        with_opened(with_opened(s, employer, first), employer, seq![x]) == with_opened(
            s,
            employer,
            first.push(x),
        ),
{
    let a = with_opened(with_opened(s, employer, first), employer, seq![x]);
    let b = with_opened(s, employer, first.push(x));
    assert(a.streams =~= b.streams);
    assert(first.push(x).map_values(|st: Stream| st.id) =~= first.map_values(|st: Stream| st.id)
        + seq![x].map_values(|st: Stream| st.id));
    let old_ids = s.employer_streams[employer];
    let f_ids = first.map_values(|st: Stream| st.id);
    let x_ids = seq![x].map_values(|st: Stream| st.id);
    assert((old_ids + f_ids) + x_ids =~= old_ids + (f_ids + x_ids));
    assert(a.employer_streams[employer] =~= b.employer_streams[employer]);
    assert(a.employer_streams =~= b.employer_streams);
    assert(a.active_counts =~= b.active_counts);
    assert(a =~= b);
}

proof fn lemma_create_each(s: StateView, employer: AccountId, params: Seq<StreamParams>, now: u64)
    requires
        !s.globally_paused,
        s.active_counts.dom().contains(employer),
        s.employer_streams.dom().contains(employer),
        crate::machine::batch_refusal(
            params,
            s.active_counts[employer] as int,
            s.stream_limit,
            s.streams.len() as int,
            now,
        ) is None,
    ensures
        ({
            let fresh = batch_streams(employer, params, s.streams.len() as int, now);
            create_each(s, employer, params, now) matches Ok((s2, ids, actions)) && s2
                == with_opened(s, employer, fresh) && ids == fresh.map_values(|st: Stream| st.id)
                && effects(actions) == opening_actions(employer, fresh)
        }),
    decreases params.len(),
{
    let fresh = batch_streams(employer, params, s.streams.len() as int, now);
    if params.len() == 0 {
        assert(with_opened(s, employer, fresh) =~= s) by {
            assert(s.streams + fresh =~= s.streams);
            assert(s.active_counts.insert(employer, s.active_counts[employer] + 0) =~= s.active_counts);
            assert(fresh.map_values(|st: Stream| st.id) =~= Seq::<u64>::empty());
            assert(s.employer_streams[employer] + Seq::<u64>::empty() =~= s.employer_streams[employer]);
            assert(s.employer_streams.insert(employer, s.employer_streams[employer]) =~= s.employer_streams);
        }
    } else {
        let prior = params.drop_last();
        lemma_create_each(s, employer, prior, now);
        let first = batch_streams(employer, prior, s.streams.len() as int, now);
        assert(first =~= fresh.drop_last());
        lemma_batch_accepted(
            params,
            s.active_counts[employer] as int,
            s.stream_limit,
            s.streams.len() as int,
            now,
        );
        let n = params.len() - 1;
        assert(params.last() == params[n]);
        let x = fresh[n];
        assert(fresh =~= first.push(x));
        lemma_opened_twice(s, employer, first, x);
        if let Ok((s1, ids, actions)) = create_each(s, employer, prior, now) {
            assert(s1.active_counts[employer] == s.active_counts[employer] + n);
            let p = params.last();
            if let Ok((s2, id, more)) = create_stream_step(
                s1,
                employer,
                p.employee,
                p.token,
                p.deposit,
                p.rate_per_second,
                p.stop_time,
                now,
            ) {
                assert(id == x.id);
                lemma_effects_concat(actions, more);
                lemma_effects_concat(seq![crate::machine::auth(employer)], open_actions(employer, x));
                lemma_effects_one(crate::machine::auth(employer));
                lemma_effects_of_open(employer, x);
                assert(fresh.map_values(|st: Stream| st.id) =~= first.map_values(|st: Stream| st.id).push(
                    id,
                ));
                assert(fresh.last() == x);
            }
        }
    }
}

/// A batch is the same creations made one by one: when a batch is accepted,
/// creating its streams with `create_stream` one after the other at the same
/// time is accepted too, gives the same ids and the same state, and makes the
/// same token calls and events in the same order (each single creation
/// demanding the employer's authorisation anew).
pub proof fn law_batch_is_creations_one_by_one(
    s: StateView,
    employer: AccountId,
    params: Seq<StreamParams>,
    now: u64,
)
    requires
        consistent(s),
    ensures
        create_streams_batch_step(s, employer, params, now) matches Ok((s2, ids, actions)) ==> (
        create_each(s, employer, params, now) matches Ok((s3, ids3, actions3)) && s3 == s2 && ids3
            == ids && effects(actions3) == effects(actions)),
{
    if let Ok((s2, ids, actions)) = create_streams_batch_step(s, employer, params, now) {
        lemma_create_each(s, employer, params, now);
        let fresh = batch_streams(employer, params, s.streams.len() as int, now);
        lemma_effects_concat(seq![crate::machine::auth(employer)], opening_actions(employer, fresh));
        lemma_effects_one(crate::machine::auth(employer));
        lemma_effects_of_opening(employer, fresh);
    }
}

/// Whose authorisation the host demands of a call before any check that
/// may refuse it: the party named in the call, except that creating streams
/// and withdrawing first check the global pause, and the admin operations
/// first need an admin to exist.
pub open spec fn authority_before_checks(s: StateView, call: Call) -> Option<AccountId> {
    match call {
        Call::Initialize { admin } => Some(admin),
        Call::SetMinDeposit { admin, .. } => Some(admin),
        Call::CreateStream { employer, .. } => if s.globally_paused {
            None
        } else {
            Some(employer)
        },
        Call::CreateStreamsBatch { employer, .. } => if s.globally_paused {
            None
        } else {
            Some(employer)
        },
        Call::Withdraw { employee, .. } => if s.globally_paused {
            None
        } else {
            Some(employee)
        },
        Call::TopUp { employer, .. } => Some(employer),
        Call::PauseStream { employer, .. } => Some(employer),
        Call::ResumeStream { employer, .. } => Some(employer),
        Call::CancelStream { employer, .. } => Some(employer),
        _ => s.admin,
    }
}

/// Every accepted call demands first the authorisation that is demanded
/// before its checks.
pub proof fn law_accepted_calls_authorise_first(s: StateView, call: Call)
    ensures
        step(s, call) matches Ok((_s2, actions)) ==> authority_before_checks(s, call) == Some(
            authority(s, call),
        ) && actions[0] == (Action::RequireAuth { account: authority(s, call) }),
{
    law_only_the_right_party_acts(s, call);
}

/// Pausing and resuming only shifts a stream: pausing at `paused_at` and
/// resuming at `resumed_at` gives back the very stream that was paused, now
/// counted as paid up to the paused duration later, whatever its stop time.
/// So what is claimable at any later time is what the never-paused stream
/// would owe that paused duration earlier, the time being first cut at the
/// stop time (a stream with a stop time accrues nothing after it).
pub proof fn law_pause_and_resume_shift_the_stream(
    s: StateView,
    employer: AccountId,
    stream_id: u64,
    paused_at: u64,
    resumed_at: u64,
    later: u64,
)
    requires
        paused_at <= resumed_at <= later,
        stream_id < s.streams.len(),
        s.streams[stream_id as int].last_withdraw_time + (resumed_at - paused_at) <= u64::MAX,
    ensures
        pause_stream_step(s, employer, stream_id, paused_at) matches Ok((s1, _a1)) ==> ({
            let st = s.streams[stream_id as int];
            let gap = resumed_at - paused_at;
            let capped: int = if st.stop_time > 0 && st.stop_time < later {
                st.stop_time as int
            } else {
                later as int
            };
            let shifted: u64 = if capped >= gap {
                (capped - gap) as u64
            } else {
                0
            };
            &&& resume_stream_step(s1, employer, stream_id, resumed_at) matches Ok((s2, _a2))
            &&& s2.streams[stream_id as int] == (Stream {
                last_withdraw_time: (st.last_withdraw_time + gap) as u64,
                paused_at: 0,
                ..st
            })
            &&& claimable_spec(s2.streams[stream_id as int], later) == claimable_spec(
                st,
                shifted,
            )
        }),
{
    if let Ok((s1, _a1)) = pause_stream_step(s, employer, stream_id, paused_at) {
        let st = s.streams[stream_id as int];
        let gap = resumed_at - paused_at;
        assert(st.status == StreamStatus::Active);
        if let Ok((s2, _a2)) = resume_stream_step(s1, employer, stream_id, resumed_at) {
            let back = s2.streams[stream_id as int];
            assert(back == (Stream {
                last_withdraw_time: (st.last_withdraw_time + gap) as u64,
                paused_at: 0,
                ..st
            }));
            let capped: int = if st.stop_time > 0 && st.stop_time < later {
                st.stop_time as int
            } else {
                later as int
            };
            let shifted: u64 = if capped >= gap {
                (capped - gap) as u64
            } else {
                0
            };
            assert(crate::accrual::accrual_end(back, later) == capped);
            assert(crate::accrual::accrual_end(st, shifted) == shifted);
            assert(crate::accrual::accrued_seconds(back, later) == crate::accrual::accrued_seconds(
                st,
                shifted,
            ));
        }
    }
}

/// Setting the stream limit sets it to exactly the given value, whether it
/// raises or lowers it, and changes nothing else; afterwards a new stream
/// that is otherwise acceptable is refused for the limit exactly when the
/// employer already has that many active or paused streams.
pub proof fn law_set_stream_limit_sets_it(
    s: StateView,
    limit: u32,
    employer: AccountId,
    employee: AccountId,
    token: AccountId,
    deposit: i128,
    rate_per_second: i128,
    stop_time: u64,
    now: u64,
)
    ensures
        set_stream_limit_step(s, limit) is Ok <==> s.admin is Some,
        set_stream_limit_step(s, limit) matches Ok((s2, _a)) ==> {
            &&& s2.stream_limit == limit
            &&& s2.admin == s.admin
            &&& s2.globally_paused == s.globally_paused
            &&& s2.min_deposit == s.min_deposit
            &&& s2.upgrade_pending == s.upgrade_pending
            &&& s2.streams == s.streams
            &&& s2.active_counts == s.active_counts
            &&& s2.employer_streams == s.employer_streams
            &&& (!s.globally_paused && deposit > 0 && rate_per_second > 0 && (stop_time == 0
                || stop_time > now) && s.streams.len() < u64::MAX) ==> (create_stream_step(
                s2,
                employer,
                employee,
                token,
                deposit,
                rate_per_second,
                stop_time,
                now,
            ) == Err::<(StateView, u64, Seq<Action>), crate::types::StreamError>(
                crate::types::StreamError::StreamLimit,
            ) <==> s.active_counts[employer] >= limit)
        },
{
}

/// A withdrawal pays each accrued second exactly once: what it pays at
/// `now`, plus what is claimable from the stream at any later time, is what
/// the stream would owe at that later time had nothing been withdrawn at
/// `now`.
pub proof fn law_withdraw_pays_each_second_once(
    s: StateView,
    employee: AccountId,
    stream_id: u64,
    now: u64,
    later: u64,
)
    requires
        consistent(s),
        now <= later,
    ensures
        withdraw_step(s, employee, stream_id, now) matches Ok((s2, amount, _a)) ==> amount
            + claimable_spec(s2.streams[stream_id as int], later) == claimable_spec(
            s.streams[stream_id as int],
            later,
        ),
{
    if let Ok((s2, amount, _a)) = withdraw_step(s, employee, stream_id, now) {
        let st = s.streams[stream_id as int];
        assert(stream_ok(st, stream_id as int));
        let paid = s2.streams[stream_id as int];
        let r = st.rate_per_second as int;
        let rem = st.deposit - st.withdrawn;
        let e_now = crate::accrual::accrued_seconds(st, now);
        let e_later = crate::accrual::accrued_seconds(st, later);
        let e_paid = crate::accrual::accrued_seconds(paid, later);
        assert(e_now > 0) by {
            if e_now <= 0 {
                assert(e_now * r == 0);
            }
        }
        assert(e_later == e_now + e_paid);
        assert(e_now * r <= e_later * r) by (nonlinear_arith)
            requires
                e_now <= e_later,
                r > 0,
        ;
        assert(e_later * r == e_now * r + e_paid * r) by (nonlinear_arith)
            requires
                e_later == e_now + e_paid,
        ;
        assert(e_paid * r >= 0) by (nonlinear_arith)
            requires
                e_paid >= 0,
                r > 0,
        ;
        assert(0 <= rem <= i128::MAX);
    }
}

/// A new stream pays its rate for every second from its creation, up to its
/// stop time if it has one, and never more than its deposit.
pub proof fn law_new_stream_accrues_at_its_rate(
    s: StateView,
    employer: AccountId,
    employee: AccountId,
    token: AccountId,
    deposit: i128,
    rate_per_second: i128,
    stop_time: u64,
    now: u64,
    later: u64,
)
    requires
        now <= later,
    ensures
        create_stream_step(s, employer, employee, token, deposit, rate_per_second, stop_time, now)
            matches Ok((s2, id, _a)) ==> ({
            let until: int = if stop_time > 0 && stop_time < later {
                stop_time as int
            } else {
                later as int
            };
            let earned = (until - now) * rate_per_second;
            claimable_spec(s2.streams[id as int], later) == if earned < deposit {
                earned
            } else {
                deposit as int
            }
        }),
{
    if let Ok((s2, id, _a)) = create_stream_step(
        s,
        employer,
        employee,
        token,
        deposit,
        rate_per_second,
        stop_time,
        now,
    ) {
        let st = s2.streams[id as int];
        assert(st == opened_stream(
            id,
            employer,
            employee,
            token,
            deposit,
            rate_per_second,
            stop_time,
            now,
        ));
        let until: int = if stop_time > 0 && stop_time < later {
            stop_time as int
        } else {
            later as int
        };
        assert(until >= now);
        assert((until - now) * rate_per_second >= 0) by (nonlinear_arith)
            requires
                until >= now,
                rate_per_second > 0,
        ;
    }
}

/// Setting the minimum deposit is accepted only from the admin, naming
/// itself, and then sets it to exactly the given amount and changes nothing
/// else.
pub proof fn law_set_min_deposit_sets_it(s: StateView, caller: AccountId, amount: i128)
    ensures
        set_min_deposit_step(s, caller, amount) is Ok <==> s.admin == Some(caller),
        set_min_deposit_step(s, caller, amount) matches Ok((s2, actions)) ==> {
            &&& s2.min_deposit == amount
            &&& s2.admin == s.admin
            &&& s2.globally_paused == s.globally_paused
            &&& s2.stream_limit == s.stream_limit
            &&& s2.upgrade_pending == s.upgrade_pending
            &&& s2.streams == s.streams
            &&& s2.active_counts == s.active_counts
            &&& s2.employer_streams == s.employer_streams
            &&& actions == seq![Action::RequireAuth { account: caller }]
        },
{
}

} // verus!
