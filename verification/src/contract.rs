use vstd::prelude::*;

use crate::accrual::{claimable_amount, claimable_spec};
use crate::machine::{
    admin_of, auth, open_actions, opened_stream, refund_of, resumed_stream, stream_of, transfer,
    with_opened, with_stream, released, batch_refusal, batch_streams, opening_actions, open_refusal,
    lemma_batch_refusal_step, lemma_batch_refusal_sticks, lemma_batch_accepted,
    lemma_opening_actions_step, cancel_stream_step, cancel_upgrade_step, create_stream_step,
    create_streams_batch_step, empty_state, execute_upgrade_step, initialize_step, publish,
    pause_stream_step, resume_stream_step, schedule_upgrade_step, set_global_pause_step,
    set_min_deposit_step, set_stream_limit_step, top_up_step, withdraw_step, StateView,
};
use crate::laws::{authority_before_checks, Call};
use crate::registry::{add_streams, counts_view, ids_view, ids_of, release_stream, find_record};
use crate::types::{
    AccountId, Action, EmployerRecord, Event, Holder, Stream, StreamError, StreamParams,
    StreamStatus, WasmHash, DEFAULT_STREAM_LIMIT, UPGRADE_TIMELOCK_SECS,
};

verus! {

/// The whole state of the escrow.
pub struct StreamContract {
    pub admin: Option<AccountId>,
    pub globally_paused: bool,
    pub stream_limit: u32,
    pub min_deposit: i128,
    pub upgrade_pending: Option<(WasmHash, u64)>,
    /// Every stream ever created, in creation order.
    pub streams: Vec<Stream>,
    pub employers: Vec<EmployerRecord>,
}

impl View for StreamContract {
    type V = StateView;

    open spec fn view(&self) -> StateView {
        StateView {
            admin: self.admin,
            globally_paused: self.globally_paused,
            stream_limit: self.stream_limit,
            min_deposit: self.min_deposit,
            upgrade_pending: self.upgrade_pending,
            streams: self.streams@,
            active_counts: counts_view(self.employers@),
            employer_streams: ids_view(self.employers@),
        }
    }
}

impl StreamContract {
    /// An escrow with no admin, no streams, no pause and the default limit.
    pub fn new() -> (escrow: Self)
        ensures
            escrow@ == empty_state(),
    {
        let escrow = StreamContract {
            admin: None,
            globally_paused: false,
            stream_limit: DEFAULT_STREAM_LIMIT,
            min_deposit: 0,
            upgrade_pending: None,
            streams: Vec::new(),
            employers: Vec::new(),
        };
        assert(escrow@ =~= empty_state());
        escrow
    }

    fn admin_for_auth(&self) -> (r: Result<AccountId, StreamError>)
        ensures
            r == admin_of(self@),
    {
        match self.admin {
            Some(a) => Ok(a),
            None => Err(StreamError::NotInitialized),
        }
    }

    /// Sets `admin` as the admin, replacing any earlier one.
    pub fn initialize(&mut self, admin: AccountId) -> (actions: Vec<Action>)
        ensures
            initialize_step(old(self)@, admin) == (final(self)@, actions@),
    {
        self.admin = Some(admin);
        let actions = vec![Action::RequireAuth { account: admin }];
        assert(actions@ =~= seq![auth(admin)]);
        actions
    }

    fn set_global_pause(&mut self, paused: bool) -> (r: Result<Vec<Action>, StreamError>)
        ensures
            match r {
                Ok(actions) => set_global_pause_step(old(self)@, paused) == Ok::<
                    (StateView, Seq<Action>),
                    StreamError,
                >((final(self)@, actions@)),
                Err(e) => set_global_pause_step(old(self)@, paused) == Err::<
                    (StateView, Seq<Action>),
                    StreamError,
                >(e) && *final(self) == *old(self),
            },
    {
        let admin = match self.admin_for_auth() {
            Ok(a) => a,
            Err(e) => return Err(e),
        };
        self.globally_paused = paused;
        let actions = vec![
            Action::RequireAuth { account: admin },
            Action::Publish { event: Event::GlobalPaused { paused } },
        ];
        assert(actions@ =~= seq![auth(admin), publish(Event::GlobalPaused { paused })]);
        Ok(actions)
    }

    /// The admin pauses all streams: no stream can be created or withdrawn from.
    pub fn pause_all(&mut self) -> (r: Result<Vec<Action>, StreamError>)
        ensures
            match r {
                Ok(actions) => set_global_pause_step(old(self)@, true) == Ok::<
                    (StateView, Seq<Action>),
                    StreamError,
                >((final(self)@, actions@)),
                Err(e) => set_global_pause_step(old(self)@, true) == Err::<
                    (StateView, Seq<Action>),
                    StreamError,
                >(e) && *final(self) == *old(self),
            },
    {
        self.set_global_pause(true)
    }

    /// The admin lifts the global pause.
    pub fn resume_all(&mut self) -> (r: Result<Vec<Action>, StreamError>)
        ensures
            match r {
                Ok(actions) => set_global_pause_step(old(self)@, false) == Ok::<
                    (StateView, Seq<Action>),
                    StreamError,
                >((final(self)@, actions@)),
                Err(e) => set_global_pause_step(old(self)@, false) == Err::<
                    (StateView, Seq<Action>),
                    StreamError,
                >(e) && *final(self) == *old(self),
            },
    {
        self.set_global_pause(false)
    }

    /// Whether the admin has paused all streams.
    pub fn is_paused(&self) -> (paused: bool)
        ensures
            paused == self@.globally_paused,
    {
        self.globally_paused
    }

    /// The admin sets the per-employer limit on active streams.
    pub fn set_stream_limit(&mut self, limit: u32) -> (r: Result<Vec<Action>, StreamError>)
        ensures
            match r {
                Ok(actions) => set_stream_limit_step(old(self)@, limit) == Ok::<
                    (StateView, Seq<Action>),
                    StreamError,
                >((final(self)@, actions@)),
                Err(e) => set_stream_limit_step(old(self)@, limit) == Err::<
                    (StateView, Seq<Action>),
                    StreamError,
                >(e) && *final(self) == *old(self),
            },
    {
        let admin = match self.admin_for_auth() {
            Ok(a) => a,
            Err(e) => return Err(e),
        };
        self.stream_limit = limit;
        let actions = vec![Action::RequireAuth { account: admin }];
        assert(actions@ =~= seq![auth(admin)]);
        Ok(actions)
    }

    /// The per-employer limit on active streams.
    pub fn stream_limit(&self) -> (limit: u32)
        ensures
            limit == self@.stream_limit,
    {
        self.stream_limit
    }

    /// The admin schedules an upgrade to the code with this hash; it can run
    /// once the time lock has passed.
    pub fn schedule_upgrade(&mut self, new_wasm_hash: WasmHash, now: u64) -> (r: Result<
        Vec<Action>,
        StreamError,
    >)
        ensures
            match r {
                Ok(actions) => schedule_upgrade_step(old(self)@, new_wasm_hash, now) == Ok::<
                    (StateView, Seq<Action>),
                    StreamError,
                >((final(self)@, actions@)),
                Err(e) => schedule_upgrade_step(old(self)@, new_wasm_hash, now) == Err::<
                    (StateView, Seq<Action>),
                    StreamError,
                >(e) && *final(self) == *old(self),
            },
    {
        let admin = match self.admin_for_auth() {
            Ok(a) => a,
            Err(e) => return Err(e),
        };
        if self.upgrade_pending.is_some() {
            return Err(StreamError::UpgradePending);
        }
        self.upgrade_pending = Some((new_wasm_hash, now));
        let actions = vec![
            Action::RequireAuth { account: admin },
            Action::Publish {
                event: Event::UpgradeScheduled { wasm_hash: new_wasm_hash, scheduled_at: now },
            },
        ];
        assert(actions@ =~= seq![
            auth(admin),
            publish(Event::UpgradeScheduled { wasm_hash: new_wasm_hash, scheduled_at: now }),
        ]);
        Ok(actions)
    }

    /// The admin runs the scheduled upgrade once its time lock has passed.
    pub fn execute_upgrade(&mut self, now: u64) -> (r: Result<Vec<Action>, StreamError>)
        ensures
            match r {
                Ok(actions) => execute_upgrade_step(old(self)@, now) == Ok::<
                    (StateView, Seq<Action>),
                    StreamError,
                >((final(self)@, actions@)),
                Err(e) => execute_upgrade_step(old(self)@, now) == Err::<
                    (StateView, Seq<Action>),
                    StreamError,
                >(e) && *final(self) == *old(self),
            },
    {
        let admin = match self.admin_for_auth() {
            Ok(a) => a,
            Err(e) => return Err(e),
        };
        let (wasm_hash, scheduled_at) = match self.upgrade_pending {
            Some(pending) => pending,
            None => return Err(StreamError::NoUpgrade),
        };
        if now < scheduled_at.saturating_add(UPGRADE_TIMELOCK_SECS) {
            return Err(StreamError::UpgradeLocked);
        }
        self.upgrade_pending = None;
        let actions = vec![
            Action::RequireAuth { account: admin },
            Action::Publish { event: Event::UpgradeExecuted { wasm_hash } },
            Action::UpdateContractWasm { wasm_hash },
        ];
        assert(actions@ =~= seq![
            auth(admin),
            publish(Event::UpgradeExecuted { wasm_hash }),
            Action::UpdateContractWasm { wasm_hash },
        ]);
        Ok(actions)
    }

    /// The admin drops the scheduled upgrade.
    pub fn cancel_upgrade(&mut self) -> (r: Result<Vec<Action>, StreamError>)
        ensures
            match r {
                Ok(actions) => cancel_upgrade_step(old(self)@) == Ok::<
                    (StateView, Seq<Action>),
                    StreamError,
                >((final(self)@, actions@)),
                Err(e) => cancel_upgrade_step(old(self)@) == Err::<
                    (StateView, Seq<Action>),
                    StreamError,
                >(e) && *final(self) == *old(self),
            },
    {
        let admin = match self.admin_for_auth() {
            Ok(a) => a,
            Err(e) => return Err(e),
        };
        if self.upgrade_pending.is_none() {
            return Err(StreamError::NoUpgrade);
        }
        self.upgrade_pending = None;
        let actions = vec![Action::RequireAuth { account: admin }];
        assert(actions@ =~= seq![auth(admin)]);
        Ok(actions)
    }

    /// The scheduled upgrade and when it was scheduled, if any.
    pub fn pending_upgrade(&self) -> (pending: Option<(WasmHash, u64)>)
        ensures
            pending == self@.upgrade_pending,
    {
        self.upgrade_pending
    }

    /// The admin, naming itself as `admin`, sets the minimum deposit.
    pub fn set_min_deposit(&mut self, admin: AccountId, amount: i128) -> (r: Result<
        Vec<Action>,
        StreamError,
    >)
        ensures
            match r {
                Ok(actions) => set_min_deposit_step(old(self)@, admin, amount) == Ok::<
                    (StateView, Seq<Action>),
                    StreamError,
                >((final(self)@, actions@)),
                Err(e) => set_min_deposit_step(old(self)@, admin, amount) == Err::<
                    (StateView, Seq<Action>),
                    StreamError,
                >(e) && *final(self) == *old(self),
            },
    {
        let current = match self.admin_for_auth() {
            Ok(a) => a,
            Err(e) => return Err(e),
        };
        if current != admin {
            return Err(StreamError::NotAdmin);
        }
        self.min_deposit = amount;
        let actions = vec![Action::RequireAuth { account: admin }];
        assert(actions@ =~= seq![auth(admin)]);
        Ok(actions)
    }

    /// The stream with this id.
    fn lookup(&self, stream_id: u64) -> (r: Result<Stream, StreamError>)
        ensures
            r == stream_of(self@, stream_id),
    {
        if stream_id < self.streams.len() as u64 {
            Ok(self.streams[stream_id as usize])
        } else {
            Err(StreamError::StreamNotFound)
        }
    }

    fn replace_stream(&mut self, stream_id: u64, stream: Stream)
        requires
            stream_id < old(self).streams@.len(),
        ensures
            final(self)@ == with_stream(old(self)@, stream_id, stream),
            final(self).employers == old(self).employers,
    {
        let len = self.streams.len();
        let index = stream_id as usize;
        assert(index as int == stream_id as int);
        self.streams.set(index, stream);
        assert(self@ =~= with_stream(old(self)@, stream_id, stream));
    }

    /// How many of `who`'s streams count against the limit.
    fn active_count(&self, who: AccountId) -> (count: u32)
        ensures
            count == self@.active_counts[who],
    {
        match find_record(&self.employers, who) {
            Some(k) => self.employers[k].active_count,
            None => 0,
        }
    }

    /// The stream with this id.
    pub fn get_stream(&self, stream_id: u64) -> (r: Result<Stream, StreamError>)
        ensures
            r == stream_of(self@, stream_id),
    {
        self.lookup(stream_id)
    }

    /// What the stream's employee could withdraw at `now`.
    pub fn claimable(&self, stream_id: u64, now: u64) -> (r: Result<i128, StreamError>)
        ensures
            match stream_of(self@, stream_id) {
                Ok(st) => r == Ok::<i128, StreamError>(claimable_spec(st, now) as i128),
                Err(e) => r == Err::<i128, StreamError>(e),
            },
    {
        match self.lookup(stream_id) {
            Ok(st) => Ok(claimable_amount(&st, now)),
            Err(e) => Err(e),
        }
    }

    /// How many streams have been created.
    pub fn stream_count(&self) -> (count: u64)
        ensures
            count == self@.streams.len(),
    {
        self.streams.len() as u64
    }

    /// The ids of the streams that `employer` created, oldest first.
    pub fn streams_by_employer(&self, employer: AccountId) -> (ids: Vec<u64>)
        ensures
            ids@ == self@.employer_streams[employer],
    {
        let mut ids: Vec<u64> = Vec::new();
        match find_record(&self.employers, employer) {
            Some(k) => {
                let source = &self.employers[k].stream_ids;
                let mut i: usize = 0;
                while i < source.len()
                    invariant
                        i <= source@.len(),
                        ids@ == source@.subrange(0, i as int),
                    decreases source@.len() - i,
                {
                    ids.push(source[i]);
                    i = i + 1;
                    assert(ids@ =~= source@.subrange(0, i as int));
                }
                assert(source@.subrange(0, source@.len() as int) =~= source@);
            },
            None => {
                assert(ids@ =~= ids_of(self.employers@, employer));
            },
        }
        ids
    }

    /// The employer opens a stream paying `rate_per_second` of the token to
    /// the employee out of `deposit`, until `stop_time` (0: no end). Returns
    /// the new stream's id.
    pub fn create_stream(
        &mut self,
        employer: AccountId,
        employee: AccountId,
        token_address: AccountId,
        deposit: i128,
        rate_per_second: i128,
        stop_time: u64,
        now: u64,
    ) -> (r: Result<(u64, Vec<Action>), StreamError>)
        ensures
            match r {
                Ok((id, actions)) => create_stream_step(
                    old(self)@,
                    employer,
                    employee,
                    token_address,
                    deposit,
                    rate_per_second,
                    stop_time,
                    now,
                ) == Ok::<(StateView, u64, Seq<Action>), StreamError>((final(self)@, id, actions@)),
                Err(e) => create_stream_step(
                    old(self)@,
                    employer,
                    employee,
                    token_address,
                    deposit,
                    rate_per_second,
                    stop_time,
                    now,
                ) == Err::<(StateView, u64, Seq<Action>), StreamError>(e) && *final(self) == *old(
                    self,
                ),
            },
    {
        if self.globally_paused {
            return Err(StreamError::GlobalPaused);
        }
        if deposit <= 0 {
            return Err(StreamError::ZeroDeposit);
        }
        if rate_per_second <= 0 {
            return Err(StreamError::ZeroRate);
        }
        let count = self.active_count(employer);
        if count >= self.stream_limit {
            return Err(StreamError::StreamLimit);
        }
        if stop_time > 0 && stop_time <= now {
            return Err(StreamError::StopTimeNotInFuture);
        }
        let id = self.streams.len() as u64;
        if id == u64::MAX {
            return Err(StreamError::Overflow);
        }
        let ghost before = self@;
        let stream = Stream {
            id,
            employer,
            employee,
            token: token_address,
            deposit,
            withdrawn: 0,
            rate_per_second,
            start_time: now,
            stop_time,
            last_withdraw_time: now,
            status: StreamStatus::Active,
            paused_at: 0,
            locked: false,
        };
        assert(stream == opened_stream(
            id,
            employer,
            employee,
            token_address,
            deposit,
            rate_per_second,
            stop_time,
            now,
        ));
        self.streams.push(stream);
        let new_ids = vec![id];
        assert(new_ids@ =~= seq![id]);
        add_streams(&mut self.employers, employer, new_ids);
        let actions = vec![
            Action::RequireAuth { account: employer },
            Action::QueryBalance { token: token_address, owner: employer },
            Action::Transfer {
                token: token_address,
                from: Holder::Account(employer),
                to: Holder::Escrow,
                amount: deposit,
            },
            Action::Publish {
                event: Event::StreamCreated { id, employer, employee, rate_per_second },
            },
        ];
        proof {
            let fresh = seq![stream];
            assert(fresh.map_values(|st: Stream| st.id) =~= seq![id]);
            assert(before.streams + fresh =~= before.streams.push(stream));
            let expected = with_opened(before, employer, fresh);
            assert(self@.streams =~= expected.streams);
            assert(self@.active_counts =~= expected.active_counts);
            assert(self@.employer_streams =~= expected.employer_streams);
            assert(self@ =~= expected);
            assert(actions@ =~= seq![auth(employer)] + open_actions(employer, stream));
        }
        Ok((id, actions))
    }

    /// The employee withdraws everything that has accrued. Returns the amount.
    /// A withdrawal that exhausts the stream frees its slot under the limit.
    pub fn withdraw(&mut self, employee: AccountId, stream_id: u64, now: u64) -> (r: Result<
        (i128, Vec<Action>),
        StreamError,
    >)
        ensures
            match r {
                Ok((amount, actions)) => withdraw_step(old(self)@, employee, stream_id, now)
                    == Ok::<(StateView, i128, Seq<Action>), StreamError>(
                    (final(self)@, amount, actions@),
                ),
                Err(e) => withdraw_step(old(self)@, employee, stream_id, now) == Err::<
                    (StateView, i128, Seq<Action>),
                    StreamError,
                >(e) && *final(self) == *old(self),
            },
    {
        if self.globally_paused {
            return Err(StreamError::GlobalPaused);
        }
        let stream = match self.lookup(stream_id) {
            Ok(st) => st,
            Err(e) => return Err(e),
        };
        if stream.employee != employee {
            return Err(StreamError::NotEmployee);
        }
        if stream.status != StreamStatus::Active {
            return Err(StreamError::StreamNotActive);
        }
        if stream.locked {
            return Err(StreamError::Reentrant);
        }
        let amount = claimable_amount(&stream, now);
        if amount <= 0 {
            return Err(StreamError::NothingToWithdraw);
        }
        let withdrawn = match stream.withdrawn.checked_add(amount) {
            Some(w) => w,
            None => return Err(StreamError::Overflow),
        };
        let status = if withdrawn >= stream.deposit {
            StreamStatus::Exhausted
        } else {
            StreamStatus::Active
        };
        let paid = Stream { withdrawn, last_withdraw_time: now, status, ..stream };
        let ghost before = self@;
        self.replace_stream(stream_id, paid);
        if status == StreamStatus::Exhausted {
            release_stream(&mut self.employers, stream.employer);
            assert(self@ =~= (StateView {
                active_counts: released(before.active_counts, stream.employer),
                ..with_stream(before, stream_id, paid)
            }));
        }
        let actions = vec![
            Action::RequireAuth { account: employee },
            Action::Transfer {
                token: stream.token,
                from: Holder::Escrow,
                to: Holder::Account(employee),
                amount,
            },
            Action::Publish { event: Event::Withdrawn { id: stream_id, employee, amount } },
        ];
        assert(actions@ =~= seq![
            auth(employee),
            transfer(stream.token, Holder::Escrow, Holder::Account(employee), amount),
            publish(Event::Withdrawn { id: stream_id, employee, amount }),
        ]);
        Ok((amount, actions))
    }

    /// The employer adds `amount` to an active stream's deposit.
    pub fn top_up(&mut self, employer: AccountId, stream_id: u64, amount: i128) -> (r: Result<
        Vec<Action>,
        StreamError,
    >)
        ensures
            match r {
                Ok(actions) => top_up_step(old(self)@, employer, stream_id, amount) == Ok::<
                    (StateView, Seq<Action>),
                    StreamError,
                >((final(self)@, actions@)),
                Err(e) => top_up_step(old(self)@, employer, stream_id, amount) == Err::<
                    (StateView, Seq<Action>),
                    StreamError,
                >(e) && *final(self) == *old(self),
            },
    {
        let stream = match self.lookup(stream_id) {
            Ok(st) => st,
            Err(e) => return Err(e),
        };
        if stream.employer != employer {
            return Err(StreamError::NotEmployer);
        }
        if stream.status != StreamStatus::Active {
            return Err(StreamError::StreamNotActive);
        }
        if amount <= 0 {
            return Err(StreamError::AmountNotPositive);
        }
        let deposit = match stream.deposit.checked_add(amount) {
            Some(d) => d,
            None => return Err(StreamError::Overflow),
        };
        self.replace_stream(stream_id, Stream { deposit, ..stream });
        let actions = vec![
            Action::RequireAuth { account: employer },
            Action::Transfer {
                token: stream.token,
                from: Holder::Account(employer),
                to: Holder::Escrow,
                amount,
            },
            Action::Publish { event: Event::ToppedUp { id: stream_id, employer, amount } },
        ];
        assert(actions@ =~= seq![
            auth(employer),
            transfer(stream.token, Holder::Account(employer), Holder::Escrow, amount),
            publish(Event::ToppedUp { id: stream_id, employer, amount }),
        ]);
        Ok(actions)
    }

    /// The employer pauses an active stream; nothing accrues while it is paused.
    pub fn pause_stream(&mut self, employer: AccountId, stream_id: u64, now: u64) -> (r: Result<
        Vec<Action>,
        StreamError,
    >)
        ensures
            match r {
                Ok(actions) => pause_stream_step(old(self)@, employer, stream_id, now) == Ok::<
                    (StateView, Seq<Action>),
                    StreamError,
                >((final(self)@, actions@)),
                Err(e) => pause_stream_step(old(self)@, employer, stream_id, now) == Err::<
                    (StateView, Seq<Action>),
                    StreamError,
                >(e) && *final(self) == *old(self),
            },
    {
        let stream = match self.lookup(stream_id) {
            Ok(st) => st,
            Err(e) => return Err(e),
        };
        if stream.employer != employer {
            return Err(StreamError::NotEmployer);
        }
        if stream.status != StreamStatus::Active {
            return Err(StreamError::StreamNotActive);
        }
        self.replace_stream(
            stream_id,
            Stream { paused_at: now, status: StreamStatus::Paused, ..stream },
        );
        let actions = vec![
            Action::RequireAuth { account: employer },
            Action::Publish { event: Event::StreamPaused { id: stream_id } },
        ];
        assert(actions@ =~= seq![
            auth(employer),
            publish(Event::StreamPaused { id: stream_id }),
        ]);
        Ok(actions)
    }

    /// The employer resumes a paused stream.
    pub fn resume_stream(&mut self, employer: AccountId, stream_id: u64, now: u64) -> (r: Result<
        Vec<Action>,
        StreamError,
    >)
        ensures
            match r {
                Ok(actions) => resume_stream_step(old(self)@, employer, stream_id, now) == Ok::<
                    (StateView, Seq<Action>),
                    StreamError,
                >((final(self)@, actions@)),
                Err(e) => resume_stream_step(old(self)@, employer, stream_id, now) == Err::<
                    (StateView, Seq<Action>),
                    StreamError,
                >(e) && *final(self) == *old(self),
            },
    {
        let stream = match self.lookup(stream_id) {
            Ok(st) => st,
            Err(e) => return Err(e),
        };
        if stream.employer != employer {
            return Err(StreamError::NotEmployer);
        }
        if stream.status != StreamStatus::Paused {
            return Err(StreamError::StreamNotPaused);
        }
        let paused_for = now.saturating_sub(stream.paused_at);
        let resumed = Stream {
            last_withdraw_time: stream.last_withdraw_time.saturating_add(paused_for),
            paused_at: 0,
            status: StreamStatus::Active,
            ..stream
        };
        assert(resumed == resumed_stream(stream, now));
        self.replace_stream(stream_id, resumed);
        let actions = vec![
            Action::RequireAuth { account: employer },
            Action::Publish { event: Event::StreamResumed { id: stream_id } },
        ];
        assert(actions@ =~= seq![
            auth(employer),
            publish(Event::StreamResumed { id: stream_id }),
        ]);
        Ok(actions)
    }

    /// The employer cancels an active or paused stream: the employee is paid
    /// what has accrued and the rest of the deposit goes back to the employer.
    pub fn cancel_stream(&mut self, employer: AccountId, stream_id: u64, now: u64) -> (r: Result<
        Vec<Action>,
        StreamError,
    >)
        ensures
            match r {
                Ok(actions) => cancel_stream_step(old(self)@, employer, stream_id, now) == Ok::<
                    (StateView, Seq<Action>),
                    StreamError,
                >((final(self)@, actions@)),
                Err(e) => cancel_stream_step(old(self)@, employer, stream_id, now) == Err::<
                    (StateView, Seq<Action>),
                    StreamError,
                >(e) && *final(self) == *old(self),
            },
    {
        let stream = match self.lookup(stream_id) {
            Ok(st) => st,
            Err(e) => return Err(e),
        };
        if stream.employer != employer {
            return Err(StreamError::NotEmployer);
        }
        if !(stream.status == StreamStatus::Active || stream.status == StreamStatus::Paused) {
            return Err(StreamError::StreamEnded);
        }
        let owed = claimable_amount(&stream, now);
        let mut withdrawn = stream.withdrawn;
        let mut actions: Vec<Action> = vec![Action::RequireAuth { account: employer }];
        let ghost pay: Seq<Action> = Seq::empty();
        if owed > 0 {
            withdrawn = match stream.withdrawn.checked_add(owed) {
                Some(w) => w,
                None => return Err(StreamError::Overflow),
            };
            actions.push(
                Action::Transfer {
                    token: stream.token,
                    from: Holder::Escrow,
                    to: Holder::Account(stream.employee),
                    amount: owed,
                },
            );
            proof {
                pay = seq![
                    transfer(stream.token, Holder::Escrow, Holder::Account(stream.employee), owed),
                ];
            }
        }
        let refund: i128 = match stream.deposit.checked_sub(withdrawn) {
            Some(rest) => if rest > 0 {
                rest
            } else {
                0
            },
            None => 0,
        };
        assert(refund == refund_of(stream.deposit, withdrawn as int));
        let ghost back: Seq<Action> = Seq::empty();
        if refund > 0 {
            actions.push(
                Action::Transfer {
                    token: stream.token,
                    from: Holder::Escrow,
                    to: Holder::Account(employer),
                    amount: refund,
                },
            );
            proof {
                back = seq![transfer(stream.token, Holder::Escrow, Holder::Account(employer), refund)];
            }
        }
        actions.push(Action::Publish { event: Event::StreamCancelled { id: stream_id } });
        let ghost before = self@;
        self.replace_stream(
            stream_id,
            Stream { withdrawn, status: StreamStatus::Cancelled, ..stream },
        );
        release_stream(&mut self.employers, employer);
        assert(actions@ =~= seq![auth(employer)] + pay + back + seq![
            publish(Event::StreamCancelled { id: stream_id }),
        ]);
        assert(self@.streams =~= before.streams.update(
            stream_id as int,
            Stream { withdrawn, status: StreamStatus::Cancelled, ..stream },
        ));
        Ok(actions)
    }

    /// Why the `i`-th stream of a batch, the employer's `count + i`-th with
    /// id `first_id + i`, may not be created, if it may not.
    fn check_open(
        p: &StreamParams,
        count: u32,
        limit: u32,
        first_id: u64,
        i: usize,
        now: u64,
    ) -> (refusal: Option<StreamError>)
        ensures
            refusal == open_refusal(
                p.deposit,
                p.rate_per_second,
                p.stop_time,
                count + i,
                limit,
                first_id + i,
                now,
            ),
    {
        if p.deposit <= 0 {
            Some(StreamError::ZeroDeposit)
        } else if p.rate_per_second <= 0 {
            Some(StreamError::ZeroRate)
        } else if (count as u128) + (i as u128) >= limit as u128 {
            Some(StreamError::StreamLimit)
        } else if p.stop_time > 0 && p.stop_time <= now {
            Some(StreamError::StopTimeNotInFuture)
        } else if (first_id as u128) + (i as u128) >= u64::MAX as u128 {
            Some(StreamError::Overflow)
        } else {
            None
        }
    }

    /// The employer opens several streams at once, all or none. Returns their
    /// ids in the order of `params`.
    pub fn create_streams_batch(
        &mut self,
        employer: AccountId,
        params: Vec<StreamParams>,
        now: u64,
    ) -> (r: Result<(Vec<u64>, Vec<Action>), StreamError>)
        ensures
            match r {
                Ok((ids, actions)) => create_streams_batch_step(old(self)@, employer, params@, now)
                    == Ok::<(StateView, Seq<u64>, Seq<Action>), StreamError>(
                    (final(self)@, ids@, actions@),
                ),
                Err(e) => create_streams_batch_step(old(self)@, employer, params@, now) == Err::<
                    (StateView, Seq<u64>, Seq<Action>),
                    StreamError,
                >(e) && *final(self) == *old(self),
            },
    {
        if self.globally_paused {
            return Err(StreamError::GlobalPaused);
        }
        let n = params.len();
        if n == 0 {
            return Err(StreamError::EmptyBatch);
        }
        let count = self.active_count(employer);
        let limit = self.stream_limit;
        let first_id = self.streams.len() as u64;
        let ghost before = self@;
        let mut i: usize = 0;
        while i < n
            invariant
                n == params@.len(),
                0 < n,
                i <= n,
                *self == *old(self),
                !old(self).globally_paused,
                count == old(self)@.active_counts[employer],
                limit == old(self)@.stream_limit,
                first_id == old(self)@.streams.len(),
                batch_refusal(params@.take(i as int), count as int, limit, first_id as int, now)
                    is None,
            decreases n - i,
        {
            proof {
                lemma_batch_refusal_step(params@, count as int, limit, first_id as int, now, i as int);
            }
            match Self::check_open(&params[i], count, limit, first_id, i, now) {
                Some(e) => {
                    proof {
                        lemma_batch_refusal_sticks(
                            params@,
                            count as int,
                            limit,
                            first_id as int,
                            now,
                            i + 1,
                        );
                    }
                    return Err(e);
                },
                None => {},
            }
            i = i + 1;
        }
        proof {
            assert(params@.take(n as int) =~= params@);
            lemma_batch_accepted(params@, count as int, limit, first_id as int, now);
        }
        let ghost fresh = batch_streams(employer, params@, first_id as int, now);
        let mut ids: Vec<u64> = Vec::new();
        let mut recorded: Vec<u64> = Vec::new();
        let mut actions: Vec<Action> = vec![Action::RequireAuth { account: employer }];
        let mut j: usize = 0;
        while j < n
            invariant
                n == params@.len(),
                j <= n,
                first_id == before.streams.len(),
                fresh == batch_streams(employer, params@, first_id as int, now),
                forall|k: int|
                    0 <= k < n ==> open_refusal(
                        #[trigger] params@[k].deposit,
                        params@[k].rate_per_second,
                        params@[k].stop_time,
                        count + k,
                        limit,
                        first_id + k,
                        now,
                    ) is None,
                self@ == (StateView { streams: before.streams + fresh.take(j as int), ..before }),
                self.employers == old(self).employers,
                ids@ == fresh.take(j as int).map_values(|st: Stream| st.id),
                recorded@ == ids@,
                actions@ == seq![auth(employer)] + opening_actions(employer, fresh.take(j as int)),
            decreases n - j,
        {
            let p = params[j];
            proof {
                assert(open_refusal(
                    params@[j as int].deposit,
                    params@[j as int].rate_per_second,
                    params@[j as int].stop_time,
                    count + j,
                    limit,
                    first_id + j,
                    now,
                ) is None);
            }
            let id = first_id + j as u64;
            let stream = Stream {
                id,
                employer,
                employee: p.employee,
                token: p.token,
                deposit: p.deposit,
                withdrawn: 0,
                rate_per_second: p.rate_per_second,
                start_time: now,
                stop_time: p.stop_time,
                last_withdraw_time: now,
                status: StreamStatus::Active,
                paused_at: 0,
                locked: false,
            };
            assert(stream == fresh[j as int]);
            self.streams.push(stream);
            ids.push(id);
            recorded.push(id);
            actions.push(Action::QueryBalance { token: p.token, owner: employer });
            actions.push(
                Action::Transfer {
                    token: p.token,
                    from: Holder::Account(employer),
                    to: Holder::Escrow,
                    amount: p.deposit,
                },
            );
            actions.push(
                Action::Publish {
                    event: Event::StreamCreated {
                        id,
                        employer,
                        employee: p.employee,
                        rate_per_second: p.rate_per_second,
                    },
                },
            );
            proof {
                lemma_opening_actions_step(employer, fresh, j as int);
                assert(fresh.take(j + 1) =~= fresh.take(j as int).push(stream));
                assert(fresh.take(j + 1).map_values(|st: Stream| st.id) =~= fresh.take(
                    j as int,
                ).map_values(|st: Stream| st.id).push(id));
                assert(self@.streams =~= before.streams + fresh.take(j + 1));
                assert(actions@ =~= seq![auth(employer)] + opening_actions(
                    employer,
                    fresh.take(j + 1),
                ));
                assert(self@ =~= (StateView {
                    streams: before.streams + fresh.take(j + 1),
                    ..before
                }));
            }
            j = j + 1;
        }
        proof {
            assert(fresh.take(n as int) =~= fresh);
            assert(open_refusal(
                params@[n - 1].deposit,
                params@[n - 1].rate_per_second,
                params@[n - 1].stop_time,
                count + (n - 1),
                limit,
                first_id + (n - 1),
                now,
            ) is None);
        }
        add_streams(&mut self.employers, employer, recorded);
        proof {
            let expected = with_opened(before, employer, fresh);
            assert(self@.streams =~= expected.streams);
            assert(self@.active_counts =~= expected.active_counts);
            assert(self@.employer_streams =~= expected.employer_streams);
            assert(self@ =~= expected);
        }
        Ok((ids, actions))
    }

    /// Whose authorisation the host must demand of `call` before its checks,
    /// and so before refusing it.
    pub fn authority_before_checks(&self, call: &Call) -> (who: Option<AccountId>)
        ensures
            who == authority_before_checks(self@, *call),
    {
        match call {
            Call::Initialize { admin } => Some(*admin),
            Call::SetMinDeposit { admin, .. } => Some(*admin),
            Call::CreateStream { employer, .. } => if self.globally_paused {
                None
            } else {
                Some(*employer)
            },
            Call::CreateStreamsBatch { employer, .. } => if self.globally_paused {
                None
            } else {
                Some(*employer)
            },
            Call::Withdraw { employee, .. } => if self.globally_paused {
                None
            } else {
                Some(*employee)
            },
            Call::TopUp { employer, .. } => Some(*employer),
            Call::PauseStream { employer, .. } => Some(*employer),
            Call::ResumeStream { employer, .. } => Some(*employer),
            Call::CancelStream { employer, .. } => Some(*employer),
            _ => self.admin,
        }
    }
}

} // verus!
