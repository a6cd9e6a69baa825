use vstd::prelude::*;

use crate::accrual::claimable_spec;
use crate::types::{
    AccountId, Action, Event, Holder, Stream, StreamError, StreamParams, StreamStatus, WasmHash,
    UPGRADE_TIMELOCK_SECS,
};

verus! {

/// The abstract state of the escrow.
#[verifier::ext_equal]
pub struct StateView {
    pub admin: Option<AccountId>,
    pub globally_paused: bool,
    pub stream_limit: u32,
    pub min_deposit: i128,
    /// The scheduled upgrade and the time it was scheduled at.
    pub upgrade_pending: Option<(WasmHash, u64)>,
    /// Every stream ever created; a stream's id is its position.
    pub streams: Seq<Stream>,
    /// Per employer, how many of its streams count against the limit.
    pub active_counts: Map<AccountId, nat>,
    /// Per employer, the ids of the streams it created, oldest first.
    pub employer_streams: Map<AccountId, Seq<u64>>,
}

pub open spec fn auth(account: AccountId) -> Action {
    Action::RequireAuth { account }
}

pub open spec fn publish(event: Event) -> Action {
    Action::Publish { event }
}

pub open spec fn transfer(token: AccountId, from: Holder, to: Holder, amount: i128) -> Action {
    Action::Transfer { token, from, to, amount }
}

/// The admin, who must authorise the admin operations.
pub open spec fn admin_of(s: StateView) -> Result<AccountId, StreamError> {
    match s.admin {
        Some(a) => Ok(a),
        None => Err(StreamError::NotInitialized),
    }
}

/// The stream with this id.
pub open spec fn stream_of(s: StateView, id: u64) -> Result<Stream, StreamError> {
    if id < s.streams.len() {
        Ok(s.streams[id as int])
    } else {
        Err(StreamError::StreamNotFound)
    }
}

/// Replaces the stream at `id`.
pub open spec fn with_stream(s: StateView, id: u64, stream: Stream) -> StateView {
    StateView { streams: s.streams.update(id as int, stream), ..s }
}

// ---------------------------------------------------------------------------
// Admin operations
// ---------------------------------------------------------------------------

/// Sets the admin; whoever is named must authorise it.
pub open spec fn initialize_step(s: StateView, admin: AccountId) -> (StateView, Seq<Action>) {
    (StateView { admin: Some(admin), ..s }, seq![auth(admin)])
}

/// The admin switches the global pause on or off.
pub open spec fn set_global_pause_step(s: StateView, paused: bool) -> Result<
    (StateView, Seq<Action>),
    StreamError,
> {
    match admin_of(s) {
        Err(e) => Err(e),
        Ok(a) => Ok(
            (
                StateView { globally_paused: paused, ..s },
                seq![auth(a), publish(Event::GlobalPaused { paused })],
            ),
        ),
    }
}

pub open spec fn set_stream_limit_step(s: StateView, limit: u32) -> Result<
    (StateView, Seq<Action>),
    StreamError,
> {
    match admin_of(s) {
        Err(e) => Err(e),
        Ok(a) => Ok((StateView { stream_limit: limit, ..s }, seq![auth(a)])),
    }
}

pub open spec fn schedule_upgrade_step(s: StateView, wasm_hash: WasmHash, now: u64) -> Result<
    (StateView, Seq<Action>),
    StreamError,
> {
    match admin_of(s) {
        Err(e) => Err(e),
        Ok(a) => if s.upgrade_pending is Some {
            Err(StreamError::UpgradePending)
        } else {
            Ok(
                (
                    StateView { upgrade_pending: Some((wasm_hash, now)), ..s },
                    seq![
                        auth(a),
                        publish(Event::UpgradeScheduled { wasm_hash, scheduled_at: now }),
                    ],
                ),
            )
        },
    }
}

/// The time from which a scheduled upgrade may run.
pub open spec fn unlock_time(scheduled_at: u64) -> u64 {
    scheduled_at.saturating_add(UPGRADE_TIMELOCK_SECS)
}

pub open spec fn execute_upgrade_step(s: StateView, now: u64) -> Result<
    (StateView, Seq<Action>),
    StreamError,
> {
    match admin_of(s) {
        Err(e) => Err(e),
        Ok(a) => match s.upgrade_pending {
            None => Err(StreamError::NoUpgrade),
            Some((wasm_hash, scheduled_at)) => if now < unlock_time(scheduled_at) {
                Err(StreamError::UpgradeLocked)
            } else {
                Ok(
                    (
                        StateView { upgrade_pending: None, ..s },
                        seq![
                            auth(a),
                            publish(Event::UpgradeExecuted { wasm_hash }),
                            Action::UpdateContractWasm { wasm_hash },
                        ],
                    ),
                )
            },
        },
    }
}

pub open spec fn cancel_upgrade_step(s: StateView) -> Result<(StateView, Seq<Action>), StreamError> {
    match admin_of(s) {
        Err(e) => Err(e),
        Ok(a) => if s.upgrade_pending is None {
            Err(StreamError::NoUpgrade)
        } else {
            Ok((StateView { upgrade_pending: None, ..s }, seq![auth(a)]))
        },
    }
}

/// `caller` authorises, and must be the admin.
pub open spec fn set_min_deposit_step(s: StateView, caller: AccountId, amount: i128) -> Result<
    (StateView, Seq<Action>),
    StreamError,
> {
    match admin_of(s) {
        Err(e) => Err(e),
        Ok(a) => if a != caller {
            Err(StreamError::NotAdmin)
        } else {
            Ok((StateView { min_deposit: amount, ..s }, seq![auth(caller)]))
        },
    }
}

// ---------------------------------------------------------------------------
// Creating streams
// ---------------------------------------------------------------------------

/// Why the stream with these parameters may not be created as the employer's
/// `count`-th active stream with id `id`, if it may not.
pub open spec fn open_refusal(
    deposit: i128,
    rate_per_second: i128,
    stop_time: u64,
    count: int,
    limit: u32,
    id: int,
    now: u64,
) -> Option<StreamError> {
    if deposit <= 0 {
        Some(StreamError::ZeroDeposit)
    } else if rate_per_second <= 0 {
        Some(StreamError::ZeroRate)
    } else if count >= limit {
        Some(StreamError::StreamLimit)
    } else if stop_time > 0 && stop_time <= now {
        Some(StreamError::StopTimeNotInFuture)
    } else if id >= u64::MAX {
        Some(StreamError::Overflow)
    } else {
        None
    }
}

/// A new stream as it is created at `now`.
pub open spec fn opened_stream(
    id: u64,
    employer: AccountId,
    employee: AccountId,
    token: AccountId,
    deposit: i128,
    rate_per_second: i128,
    stop_time: u64,
    now: u64,
) -> Stream {
    Stream {
        id,
        employer,
        employee,
        token,
        deposit,
        withdrawn: 0,
        rate_per_second,
        start_time: now,
        stop_time,
        last_withdraw_time: now,
        status: StreamStatus::Active,
        paused_at: 0,
        locked: false,
    }
}

/// The employer's new streams join the state: they are appended, their ids
/// join the employer's list, and they count against its limit.
pub open spec fn with_opened(s: StateView, employer: AccountId, fresh: Seq<Stream>) -> StateView {
    StateView {
        streams: s.streams + fresh,
        active_counts: s.active_counts.insert(employer, s.active_counts[employer] + fresh.len()),
        employer_streams: s.employer_streams.insert(
            employer,
            s.employer_streams[employer] + fresh.map_values(|st: Stream| st.id),
        ),
        ..s
    }
}

/// What the host does for one new stream after authorisation: it asks the
/// token for the employer's balance, moves the deposit into escrow and
/// publishes the creation.
pub open spec fn open_actions(employer: AccountId, stream: Stream) -> Seq<Action> {
    seq![
        Action::QueryBalance { token: stream.token, owner: employer },
        transfer(stream.token, Holder::Account(employer), Holder::Escrow, stream.deposit),
        publish(
            Event::StreamCreated {
                id: stream.id,
                employer,
                employee: stream.employee,
                rate_per_second: stream.rate_per_second,
            },
        ),
    ]
}

pub open spec fn create_stream_step(
    s: StateView,
    employer: AccountId,
    employee: AccountId,
    token: AccountId,
    deposit: i128,
    rate_per_second: i128,
    stop_time: u64,
    now: u64,
) -> Result<(StateView, u64, Seq<Action>), StreamError> {
    if s.globally_paused {
        Err(StreamError::GlobalPaused)
    } else {
        match open_refusal(
            deposit,
            rate_per_second,
            stop_time,
            s.active_counts[employer] as int,
            s.stream_limit,
            s.streams.len() as int,
            now,
        ) {
            Some(e) => Err(e),
            None => {
                let id = s.streams.len() as u64;
                let stream = opened_stream(
                    id,
                    employer,
                    employee,
                    token,
                    deposit,
                    rate_per_second,
                    stop_time,
                    now,
                );
                Ok(
                    (
                        with_opened(s, employer, seq![stream]),
                        id,
                        seq![auth(employer)] + open_actions(employer, stream),
                    ),
                )
            },
        }
    }
}

/// The first refusal among the batch's parameters: the `i`-th stream is the
/// employer's `count + i`-th and gets id `first_id + i`.
pub open spec fn batch_refusal(
    params: Seq<StreamParams>,
    count: int,
    limit: u32,
    first_id: int,
    now: u64,
) -> Option<StreamError>
    decreases params.len(),
{
    if params.len() == 0 {
        None
    } else {
        let prior = params.drop_last();
        match batch_refusal(prior, count, limit, first_id, now) {
            Some(e) => Some(e),
            None => {
                let p = params.last();
                open_refusal(
                    p.deposit,
                    p.rate_per_second,
                    p.stop_time,
                    count + prior.len(),
                    limit,
                    first_id + prior.len(),
                    now,
                )
            },
        }
    }
}

/// The streams a batch creates, the `i`-th with id `first_id + i`.
pub open spec fn batch_streams(
    employer: AccountId,
    params: Seq<StreamParams>,
    first_id: int,
    now: u64,
) -> Seq<Stream> {
    Seq::new(
        params.len(),
        |i: int|
            opened_stream(
                (first_id + i) as u64,
                employer,
                params[i].employee,
                params[i].token,
                params[i].deposit,
                params[i].rate_per_second,
                params[i].stop_time,
                now,
            ),
    )
}

/// The host's work for a sequence of new streams, one after the other.
pub open spec fn opening_actions(employer: AccountId, fresh: Seq<Stream>) -> Seq<Action>
    decreases fresh.len(),
{
    if fresh.len() == 0 {
        Seq::empty()
    } else {
        opening_actions(employer, fresh.drop_last()) + open_actions(employer, fresh.last())
    }
}

pub open spec fn create_streams_batch_step(
    s: StateView,
    employer: AccountId,
    params: Seq<StreamParams>,
    now: u64,
) -> Result<(StateView, Seq<u64>, Seq<Action>), StreamError> {
    if s.globally_paused {
        Err(StreamError::GlobalPaused)
    } else if params.len() == 0 {
        Err(StreamError::EmptyBatch)
    } else {
        match batch_refusal(
            params,
            s.active_counts[employer] as int,
            s.stream_limit,
            s.streams.len() as int,
            now,
        ) {
            Some(e) => Err(e),
            None => {
                let fresh = batch_streams(employer, params, s.streams.len() as int, now);
                Ok(
                    (
                        with_opened(s, employer, fresh),
                        fresh.map_values(|st: Stream| st.id),
                        seq![auth(employer)] + opening_actions(employer, fresh),
                    ),
                )
            },
        }
    }
}

/// The counts with one stream of `who`'s taken off its count (which does
/// not go below 0).
pub open spec fn released(counts: Map<AccountId, nat>, who: AccountId) -> Map<AccountId, nat> {
    counts.insert(
        who,
        if counts[who] > 0 {
            (counts[who] - 1) as nat
        } else {
            0
        },
    )
}

// ---------------------------------------------------------------------------
// Operations on one stream
// ---------------------------------------------------------------------------

/// A withdrawal that pays out the rest of the deposit exhausts the stream,
/// which then no longer counts against the employer's limit.
pub open spec fn withdraw_step(s: StateView, employee: AccountId, id: u64, now: u64) -> Result<
    (StateView, i128, Seq<Action>),
    StreamError,
> {
    if s.globally_paused {
        Err(StreamError::GlobalPaused)
    } else {
        match stream_of(s, id) {
            Err(e) => Err(e),
            Ok(st) => if st.employee != employee {
                Err(StreamError::NotEmployee)
            } else if st.status != StreamStatus::Active {
                Err(StreamError::StreamNotActive)
            } else if st.locked {
                Err(StreamError::Reentrant)
            } else {
                let amount = claimable_spec(st, now);
                if amount <= 0 {
                    Err(StreamError::NothingToWithdraw)
                } else if st.withdrawn + amount > i128::MAX {
                    Err(StreamError::Overflow)
                } else {
                    let withdrawn = st.withdrawn + amount;
                    let paid = Stream {
                        withdrawn: withdrawn as i128,
                        last_withdraw_time: now,
                        status: if withdrawn >= st.deposit {
                            StreamStatus::Exhausted
                        } else {
                            StreamStatus::Active
                        },
                        ..st
                    };
                    let s2 = with_stream(s, id, paid);
                    Ok(
                        (
                            if paid.status == StreamStatus::Exhausted {
                                StateView {
                                    active_counts: released(s.active_counts, st.employer),
                                    ..s2
                                }
                            } else {
                                s2
                            },
                            amount as i128,
                            seq![
                                auth(employee),
                                transfer(
                                    st.token,
                                    Holder::Escrow,
                                    Holder::Account(employee),
                                    amount as i128,
                                ),
                                publish(
                                    Event::Withdrawn { id, employee, amount: amount as i128 },
                                ),
                            ],
                        ),
                    )
                }
            },
        }
    }
}

pub open spec fn top_up_step(s: StateView, employer: AccountId, id: u64, amount: i128) -> Result<
    (StateView, Seq<Action>),
    StreamError,
> {
    match stream_of(s, id) {
        Err(e) => Err(e),
        Ok(st) => if st.employer != employer {
            Err(StreamError::NotEmployer)
        } else if st.status != StreamStatus::Active {
            Err(StreamError::StreamNotActive)
        } else if amount <= 0 {
            Err(StreamError::AmountNotPositive)
        } else if st.deposit + amount > i128::MAX {
            Err(StreamError::Overflow)
        } else {
            Ok(
                (
                    with_stream(s, id, Stream { deposit: (st.deposit + amount) as i128, ..st }),
                    seq![
                        auth(employer),
                        transfer(st.token, Holder::Account(employer), Holder::Escrow, amount),
                        publish(Event::ToppedUp { id, employer, amount }),
                    ],
                ),
            )
        },
    }
}

pub open spec fn pause_stream_step(s: StateView, employer: AccountId, id: u64, now: u64) -> Result<
    (StateView, Seq<Action>),
    StreamError,
> {
    match stream_of(s, id) {
        Err(e) => Err(e),
        Ok(st) => if st.employer != employer {
            Err(StreamError::NotEmployer)
        } else if st.status != StreamStatus::Active {
            Err(StreamError::StreamNotActive)
        } else {
            Ok(
                (
                    with_stream(
                        s,
                        id,
                        Stream { paused_at: now, status: StreamStatus::Paused, ..st },
                    ),
                    seq![auth(employer), publish(Event::StreamPaused { id })],
                ),
            )
        },
    }
}

/// A resumed stream: the time it spent paused is added to the time up to
/// which the employee has been paid, so that it does not accrue.
pub open spec fn resumed_stream(st: Stream, now: u64) -> Stream {
    Stream {
        last_withdraw_time: st.last_withdraw_time.saturating_add(now.saturating_sub(st.paused_at)),
        paused_at: 0,
        status: StreamStatus::Active,
        ..st
    }
}

pub open spec fn resume_stream_step(s: StateView, employer: AccountId, id: u64, now: u64) -> Result<
    (StateView, Seq<Action>),
    StreamError,
> {
    match stream_of(s, id) {
        Err(e) => Err(e),
        Ok(st) => if st.employer != employer {
            Err(StreamError::NotEmployer)
        } else if st.status != StreamStatus::Paused {
            Err(StreamError::StreamNotPaused)
        } else {
            Ok(
                (
                    with_stream(s, id, resumed_stream(st, now)),
                    seq![auth(employer), publish(Event::StreamResumed { id })],
                ),
            )
        },
    }
}

/// What goes back to the employer when a stream is cancelled after
/// `withdrawn` has been paid out: the rest of the deposit, if positive.
pub open spec fn refund_of(deposit: i128, withdrawn: int) -> int {
    let rest = deposit - withdrawn;
    if 0 < rest <= i128::MAX {
        rest
    } else {
        0
    }
}

pub open spec fn cancel_stream_step(s: StateView, employer: AccountId, id: u64, now: u64) -> Result<
    (StateView, Seq<Action>),
    StreamError,
> {
    match stream_of(s, id) {
        Err(e) => Err(e),
        Ok(st) => if st.employer != employer {
            Err(StreamError::NotEmployer)
        } else if !(st.status == StreamStatus::Active || st.status == StreamStatus::Paused) {
            Err(StreamError::StreamEnded)
        } else {
            let owed = claimable_spec(st, now);
            if owed > 0 && st.withdrawn + owed > i128::MAX {
                Err(StreamError::Overflow)
            } else {
                let withdrawn = st.withdrawn + owed;
                let refund = refund_of(st.deposit, withdrawn);
                let closed = Stream {
                    withdrawn: withdrawn as i128,
                    status: StreamStatus::Cancelled,
                    ..st
                };
                let s2 = StateView {
                    streams: s.streams.update(id as int, closed),
                    active_counts: released(s.active_counts, employer),
                    ..s
                };
                let pay: Seq<Action> = if owed > 0 {
                    seq![
                        transfer(
                            st.token,
                            Holder::Escrow,
                            Holder::Account(st.employee),
                            owed as i128,
                        ),
                    ]
                } else {
                    Seq::empty()
                };
                let back: Seq<Action> = if refund > 0 {
                    seq![
                        transfer(
                            st.token,
                            Holder::Escrow,
                            Holder::Account(employer),
                            refund as i128,
                        ),
                    ]
                } else {
                    Seq::empty()
                };
                Ok(
                    (
                        s2,
                        seq![auth(employer)] + pay + back + seq![
                            publish(Event::StreamCancelled { id }),
                        ],
                    ),
                )
            }
        },
    }
}

} // verus!

verus! {

/// The state before anything has happened.
pub open spec fn empty_state() -> StateView {
    StateView {
        admin: None,
        globally_paused: false,
        stream_limit: crate::types::DEFAULT_STREAM_LIMIT,
        min_deposit: 0,
        upgrade_pending: None,
        streams: Seq::empty(),
        active_counts: Map::new(|who: AccountId| true, |who: AccountId| 0nat),
        employer_streams: Map::new(|who: AccountId| true, |who: AccountId| Seq::<u64>::empty()),
    }
}

} // verus!

verus! {

/// One more parameter checked: the refusal of a longer prefix.
pub proof fn lemma_batch_refusal_step(
    params: Seq<StreamParams>,
    count: int,
    limit: u32,
    first_id: int,
    now: u64,
    i: int,
)
    requires
        0 <= i < params.len(),
    ensures
        batch_refusal(params.take(i + 1), count, limit, first_id, now) == match batch_refusal(
            params.take(i),
            count,
            limit,
            first_id,
            now,
        ) {
            Some(e) => Some(e),
            None => open_refusal(
                params[i].deposit,
                params[i].rate_per_second,
                params[i].stop_time,
                count + i,
                limit,
                first_id + i,
                now,
            ),
        },
{
    assert(params.take(i + 1).drop_last() =~= params.take(i));
}

/// Once some prefix is refused, the whole batch is refused for that reason.
pub proof fn lemma_batch_refusal_sticks(
    params: Seq<StreamParams>,
    count: int,
    limit: u32,
    first_id: int,
    now: u64,
    k: int,
)
    requires
        0 <= k <= params.len(),
        batch_refusal(params.take(k), count, limit, first_id, now) is Some,
    ensures
        batch_refusal(params, count, limit, first_id, now) == batch_refusal(
            params.take(k),
            count,
            limit,
            first_id,
            now,
        ),
    decreases params.len() - k,
{
    if k == params.len() {
        assert(params.take(k) =~= params);
    } else {
        lemma_batch_refusal_step(params, count, limit, first_id, now, k);
        lemma_batch_refusal_sticks(params, count, limit, first_id, now, k + 1);
    }
}

/// An accepted batch has every one of its streams accepted in turn.
pub proof fn lemma_batch_accepted(
    params: Seq<StreamParams>,
    count: int,
    limit: u32,
    first_id: int,
    now: u64,
)
    requires
        batch_refusal(params, count, limit, first_id, now) is None,
    ensures
        forall|i: int|
            0 <= i < params.len() ==> open_refusal(
                #[trigger] params[i].deposit,
                params[i].rate_per_second,
                params[i].stop_time,
                count + i,
                limit,
                first_id + i,
                now,
            ) is None,
    decreases params.len(),
{
    if params.len() > 0 {
        let prior = params.drop_last();
        lemma_batch_accepted(prior, count, limit, first_id, now);
        assert forall|i: int| 0 <= i < params.len() implies open_refusal(
            #[trigger] params[i].deposit,
            params[i].rate_per_second,
            params[i].stop_time,
            count + i,
            limit,
            first_id + i,
            now,
        ) is None by {
            if i < prior.len() {
                assert(prior[i] == params[i]);
                assert(prior[i].deposit == params[i].deposit);
            }
        }
    }
}

/// The host's work for one more new stream.
pub proof fn lemma_opening_actions_step(employer: AccountId, fresh: Seq<Stream>, i: int)
    requires
        0 <= i < fresh.len(),
    ensures
        opening_actions(employer, fresh.take(i + 1)) == opening_actions(employer, fresh.take(i))
            + open_actions(employer, fresh[i]),
{
    assert(fresh.take(i + 1).drop_last() =~= fresh.take(i));
}

} // verus!
