use paystream::{
    claimable_amount, Call, AccountId, Action, AddressKind, Event, Holder, Stream, StreamContract,
    StreamError, StreamParams, StreamStatus, WasmHash, DEFAULT_STREAM_LIMIT,
    UPGRADE_TIMELOCK_SECS,
};

fn account(n: u128) -> AccountId {
    AccountId { kind: AddressKind::Account, key_hi: 0, key_lo: n }
}

fn contract(n: u128) -> AccountId {
    AccountId { kind: AddressKind::Contract, key_hi: n, key_lo: 0 }
}

const ADMIN: u128 = 1;
const EMPLOYER: u128 = 2;
const EMPLOYEE: u128 = 3;
const OTHER: u128 = 4;

fn token() -> AccountId {
    contract(77)
}

fn ready() -> StreamContract {
    let mut escrow = StreamContract::new();
    escrow.initialize(account(ADMIN));
    escrow
}

/// An escrow with one stream of 1000 at 10 per second, created at time 100.
fn with_stream() -> (StreamContract, u64) {
    let mut escrow = ready();
    let (id, _) = escrow
        .create_stream(account(EMPLOYER), account(EMPLOYEE), token(), 1000, 10, 0, 100)
        .unwrap();
    (escrow, id)
}

fn net_inflow(actions: &[Action], tok: AccountId) -> i128 {
    let mut net = 0;
    for a in actions {
        if let Action::Transfer { token: t, from, to, amount } = a {
            if *t == tok {
                if *to == Holder::Escrow {
                    net += amount;
                }
                if *from == Holder::Escrow {
                    net -= amount;
                }
            }
        }
    }
    net
}

fn escrow_balance(escrow: &StreamContract, tok: AccountId) -> i128 {
    escrow
        .streams
        .iter()
        .filter(|s| s.token == tok && s.status != StreamStatus::Cancelled)
        .map(|s| s.deposit - s.withdrawn)
        .sum()
}

#[test]
fn new_escrow_is_empty() {
    let escrow = StreamContract::new();
    assert!(!escrow.is_paused());
    assert_eq!(escrow.stream_limit(), DEFAULT_STREAM_LIMIT);
    assert_eq!(escrow.pending_upgrade(), None);
    assert_eq!(escrow.stream_count(), 0);
    assert_eq!(escrow.streams_by_employer(account(EMPLOYER)), Vec::<u64>::new());
    assert_eq!(escrow.get_stream(0), Err(StreamError::StreamNotFound));
}

#[test]
fn initialize_requires_the_new_admin() {
    let mut escrow = StreamContract::new();
    let actions = escrow.initialize(account(ADMIN));
    assert_eq!(actions, vec![Action::RequireAuth { account: account(ADMIN) }]);
    assert_eq!(escrow.admin, Some(account(ADMIN)));
}

#[test]
fn admin_operations_need_an_admin() {
    let mut escrow = StreamContract::new();
    assert_eq!(escrow.pause_all(), Err(StreamError::NotInitialized));
    assert_eq!(escrow.resume_all(), Err(StreamError::NotInitialized));
    assert_eq!(escrow.set_stream_limit(3), Err(StreamError::NotInitialized));
    assert_eq!(escrow.cancel_upgrade(), Err(StreamError::NotInitialized));
    assert_eq!(escrow.execute_upgrade(5), Err(StreamError::NotInitialized));
    assert_eq!(
        escrow.schedule_upgrade(WasmHash { hi: 1, lo: 2 }, 5),
        Err(StreamError::NotInitialized)
    );
    assert_eq!(escrow.set_min_deposit(account(ADMIN), 5), Err(StreamError::NotInitialized));
}

#[test]
fn pause_all_and_resume_all() {
    let mut escrow = ready();
    let actions = escrow.pause_all().unwrap();
    assert!(escrow.is_paused());
    assert_eq!(
        actions,
        vec![
            Action::RequireAuth { account: account(ADMIN) },
            Action::Publish { event: Event::GlobalPaused { paused: true } },
        ]
    );
    let actions = escrow.resume_all().unwrap();
    assert!(!escrow.is_paused());
    assert_eq!(actions[1], Action::Publish { event: Event::GlobalPaused { paused: false } });
}

#[test]
fn global_pause_blocks_creation_and_withdrawal() {
    let (mut escrow, id) = with_stream();
    escrow.pause_all().unwrap();
    assert_eq!(
        escrow.create_stream(account(EMPLOYER), account(EMPLOYEE), token(), 10, 1, 0, 100),
        Err(StreamError::GlobalPaused)
    );
    let p = StreamParams { employee: account(EMPLOYEE), token: token(), deposit: 5, rate_per_second: 1, stop_time: 0 };
    assert_eq!(
        escrow.create_streams_batch(account(EMPLOYER), vec![p], 100),
        Err(StreamError::GlobalPaused)
    );
    assert_eq!(escrow.withdraw(account(EMPLOYEE), id, 150), Err(StreamError::GlobalPaused));
    // Other stream operations still work.
    assert!(escrow.top_up(account(EMPLOYER), id, 5).is_ok());
    escrow.resume_all().unwrap();
    assert_eq!(escrow.withdraw(account(EMPLOYEE), id, 150).unwrap().0, 500);
}

#[test]
fn stream_limit_is_enforced_and_freed_by_cancel() {
    let mut escrow = ready();
    escrow.set_stream_limit(1).unwrap();
    assert_eq!(escrow.stream_limit(), 1);
    let (id, _) = escrow
        .create_stream(account(EMPLOYER), account(EMPLOYEE), token(), 10, 1, 0, 100)
        .unwrap();
    assert_eq!(
        escrow.create_stream(account(EMPLOYER), account(EMPLOYEE), token(), 10, 1, 0, 100),
        Err(StreamError::StreamLimit)
    );
    // Another employer has its own count.
    assert!(escrow
        .create_stream(account(OTHER), account(EMPLOYEE), token(), 10, 1, 0, 100)
        .is_ok());
    escrow.cancel_stream(account(EMPLOYER), id, 100).unwrap();
    assert!(escrow
        .create_stream(account(EMPLOYER), account(EMPLOYEE), token(), 10, 1, 0, 100)
        .is_ok());
}

#[test]
fn exhausted_streams_free_their_slot() {
    let mut escrow = ready();
    escrow.set_stream_limit(1).unwrap();
    let (id, _) = escrow
        .create_stream(account(EMPLOYER), account(EMPLOYEE), token(), 10, 1, 0, 100)
        .unwrap();
    escrow.withdraw(account(EMPLOYEE), id, 105).unwrap();
    assert_eq!(
        escrow.create_stream(account(EMPLOYER), account(EMPLOYEE), token(), 10, 1, 0, 105),
        Err(StreamError::StreamLimit)
    );
    escrow.withdraw(account(EMPLOYEE), id, 200).unwrap();
    assert_eq!(escrow.get_stream(id).unwrap().status, StreamStatus::Exhausted);
    assert!(escrow
        .create_stream(account(EMPLOYER), account(EMPLOYEE), token(), 10, 1, 0, 200)
        .is_ok());
}

#[test]
fn paused_streams_count_against_the_limit() {
    let mut escrow = ready();
    escrow.set_stream_limit(1).unwrap();
    let (id, _) = escrow
        .create_stream(account(EMPLOYER), account(EMPLOYEE), token(), 10, 1, 0, 100)
        .unwrap();
    escrow.pause_stream(account(EMPLOYER), id, 101).unwrap();
    assert_eq!(
        escrow.create_stream(account(EMPLOYER), account(EMPLOYEE), token(), 10, 1, 0, 102),
        Err(StreamError::StreamLimit)
    );
}

#[test]
fn create_stream_records_and_plans() {
    let mut escrow = ready();
    let (id, actions) = escrow
        .create_stream(account(EMPLOYER), account(EMPLOYEE), token(), 1000, 10, 500, 100)
        .unwrap();
    assert_eq!(id, 0);
    assert_eq!(escrow.stream_count(), 1);
    let stream = escrow.get_stream(id).unwrap();
    assert_eq!(
        stream,
        Stream {
            id: 0,
            employer: account(EMPLOYER),
            employee: account(EMPLOYEE),
            token: token(),
            deposit: 1000,
            withdrawn: 0,
            rate_per_second: 10,
            start_time: 100,
            stop_time: 500,
            last_withdraw_time: 100,
            status: StreamStatus::Active,
            paused_at: 0,
            locked: false,
        }
    );
    assert_eq!(
        actions,
        vec![
            Action::RequireAuth { account: account(EMPLOYER) },
            Action::QueryBalance { token: token(), owner: account(EMPLOYER) },
            Action::Transfer {
                token: token(),
                from: Holder::Account(account(EMPLOYER)),
                to: Holder::Escrow,
                amount: 1000,
            },
            Action::Publish {
                event: Event::StreamCreated {
                    id: 0,
                    employer: account(EMPLOYER),
                    employee: account(EMPLOYEE),
                    rate_per_second: 10,
                },
            },
        ]
    );
    let (second, _) = escrow
        .create_stream(account(EMPLOYER), account(OTHER), token(), 5, 1, 0, 100)
        .unwrap();
    assert_eq!(second, 1);
    assert_eq!(escrow.streams_by_employer(account(EMPLOYER)), vec![0, 1]);
    assert_eq!(escrow.streams_by_employer(account(OTHER)), Vec::<u64>::new());
}

#[test]
fn create_stream_refusals() {
    let mut escrow = ready();
    let e = account(EMPLOYER);
    let w = account(EMPLOYEE);
    assert_eq!(escrow.create_stream(e, w, token(), 0, 10, 0, 100), Err(StreamError::ZeroDeposit));
    assert_eq!(escrow.create_stream(e, w, token(), -5, 10, 0, 100), Err(StreamError::ZeroDeposit));
    assert_eq!(escrow.create_stream(e, w, token(), 10, 0, 0, 100), Err(StreamError::ZeroRate));
    assert_eq!(
        escrow.create_stream(e, w, token(), 10, 1, 100, 100),
        Err(StreamError::StopTimeNotInFuture)
    );
    assert_eq!(
        escrow.create_stream(e, w, token(), 10, 1, 50, 100),
        Err(StreamError::StopTimeNotInFuture)
    );
    assert_eq!(escrow.stream_count(), 0);
    assert!(escrow.create_stream(e, w, token(), 10, 1, 101, 100).is_ok());
}

#[test]
fn claimable_accrues_at_the_rate_up_to_the_deposit() {
    let (escrow, id) = with_stream();
    assert_eq!(escrow.claimable(id, 100), Ok(0));
    assert_eq!(escrow.claimable(id, 90), Ok(0));
    assert_eq!(escrow.claimable(id, 133), Ok(330));
    assert_eq!(escrow.claimable(id, 200), Ok(1000));
    assert_eq!(escrow.claimable(id, 10_000), Ok(1000));
    assert_eq!(escrow.claimable(9, 200), Err(StreamError::StreamNotFound));
}

#[test]
fn claimable_stops_at_the_stop_time() {
    let mut escrow = ready();
    let (id, _) = escrow
        .create_stream(account(EMPLOYER), account(EMPLOYEE), token(), 1000, 3, 120, 100)
        .unwrap();
    assert_eq!(escrow.claimable(id, 110), Ok(30));
    assert_eq!(escrow.claimable(id, 120), Ok(60));
    assert_eq!(escrow.claimable(id, 500), Ok(60));
}

#[test]
fn claimable_amount_formula() {
    let mut stream = with_stream().0.get_stream(0).unwrap();
    assert_eq!(claimable_amount(&stream, 107), 70);
    stream.withdrawn = 950;
    assert_eq!(claimable_amount(&stream, 107), 50);
    stream.rate_per_second = i128::MAX;
    stream.withdrawn = 0;
    assert_eq!(claimable_amount(&stream, 200), 1000);
    stream.status = StreamStatus::Cancelled;
    assert_eq!(claimable_amount(&stream, 200), 0);
    stream.status = StreamStatus::Paused;
    stream.rate_per_second = 10;
    stream.paused_at = 120;
    assert_eq!(claimable_amount(&stream, 200), 200);
}

#[test]
fn withdraw_pays_what_accrued() {
    let (mut escrow, id) = with_stream();
    let (amount, actions) = escrow.withdraw(account(EMPLOYEE), id, 130).unwrap();
    assert_eq!(amount, 300);
    assert_eq!(
        actions,
        vec![
            Action::RequireAuth { account: account(EMPLOYEE) },
            Action::Transfer {
                token: token(),
                from: Holder::Escrow,
                to: Holder::Account(account(EMPLOYEE)),
                amount: 300,
            },
            Action::Publish { event: Event::Withdrawn { id, employee: account(EMPLOYEE), amount: 300 } },
        ]
    );
    let stream = escrow.get_stream(id).unwrap();
    assert_eq!(stream.withdrawn, 300);
    assert_eq!(stream.last_withdraw_time, 130);
    assert_eq!(stream.status, StreamStatus::Active);
    assert!(!stream.locked);
    assert_eq!(escrow.withdraw(account(EMPLOYEE), id, 130), Err(StreamError::NothingToWithdraw));
    assert_eq!(escrow.withdraw(account(EMPLOYEE), id, 140).unwrap().0, 100);
}

#[test]
fn withdraw_exhausts_the_stream() {
    let (mut escrow, id) = with_stream();
    assert_eq!(escrow.withdraw(account(EMPLOYEE), id, 1000).unwrap().0, 1000);
    let stream = escrow.get_stream(id).unwrap();
    assert_eq!(stream.status, StreamStatus::Exhausted);
    assert_eq!(stream.withdrawn, 1000);
    assert_eq!(escrow.withdraw(account(EMPLOYEE), id, 2000), Err(StreamError::StreamNotActive));
    assert_eq!(escrow.top_up(account(EMPLOYER), id, 10), Err(StreamError::StreamNotActive));
    assert_eq!(escrow.cancel_stream(account(EMPLOYER), id, 2000), Err(StreamError::StreamEnded));
}

#[test]
fn withdraw_refusals() {
    let (mut escrow, id) = with_stream();
    assert_eq!(escrow.withdraw(account(OTHER), id, 130), Err(StreamError::NotEmployee));
    assert_eq!(escrow.withdraw(account(EMPLOYEE), 5, 130), Err(StreamError::StreamNotFound));
    escrow.pause_stream(account(EMPLOYER), id, 120).unwrap();
    assert_eq!(escrow.withdraw(account(EMPLOYEE), id, 130), Err(StreamError::StreamNotActive));
}

#[test]
fn withdraw_refuses_a_locked_stream() {
    let (mut escrow, id) = with_stream();
    escrow.streams[id as usize].locked = true;
    assert_eq!(escrow.withdraw(account(EMPLOYEE), id, 130), Err(StreamError::Reentrant));
}

#[test]
fn refusals_change_nothing() {
    let (mut escrow, id) = with_stream();
    let before = escrow.get_stream(id).unwrap();
    assert!(escrow.withdraw(account(OTHER), id, 130).is_err());
    assert!(escrow.top_up(account(EMPLOYER), id, 0).is_err());
    assert!(escrow.cancel_stream(account(OTHER), id, 130).is_err());
    assert_eq!(escrow.get_stream(id).unwrap(), before);
    assert_eq!(escrow.stream_count(), 1);
}

#[test]
fn top_up_adds_to_the_deposit() {
    let (mut escrow, id) = with_stream();
    let actions = escrow.top_up(account(EMPLOYER), id, 250).unwrap();
    assert_eq!(escrow.get_stream(id).unwrap().deposit, 1250);
    assert_eq!(
        actions,
        vec![
            Action::RequireAuth { account: account(EMPLOYER) },
            Action::Transfer {
                token: token(),
                from: Holder::Account(account(EMPLOYER)),
                to: Holder::Escrow,
                amount: 250,
            },
            Action::Publish { event: Event::ToppedUp { id, employer: account(EMPLOYER), amount: 250 } },
        ]
    );
    assert_eq!(escrow.claimable(id, 300), Ok(1250));
}

#[test]
fn top_up_refusals() {
    let (mut escrow, id) = with_stream();
    assert_eq!(escrow.top_up(account(EMPLOYER), id, 0), Err(StreamError::AmountNotPositive));
    assert_eq!(escrow.top_up(account(OTHER), id, 5), Err(StreamError::NotEmployer));
    assert_eq!(escrow.top_up(account(EMPLOYER), 3, 5), Err(StreamError::StreamNotFound));
    assert_eq!(escrow.top_up(account(EMPLOYER), id, i128::MAX), Err(StreamError::Overflow));
}

#[test]
fn pausing_excludes_the_paused_time() {
    let (mut escrow, id) = with_stream();
    let actions = escrow.pause_stream(account(EMPLOYER), id, 110).unwrap();
    assert_eq!(actions[1], Action::Publish { event: Event::StreamPaused { id } });
    let stream = escrow.get_stream(id).unwrap();
    assert_eq!(stream.status, StreamStatus::Paused);
    assert_eq!(stream.paused_at, 110);
    assert_eq!(escrow.claimable(id, 150), Ok(100));
    let actions = escrow.resume_stream(account(EMPLOYER), id, 150).unwrap();
    assert_eq!(actions[1], Action::Publish { event: Event::StreamResumed { id } });
    let stream = escrow.get_stream(id).unwrap();
    assert_eq!(stream.status, StreamStatus::Active);
    assert_eq!(stream.paused_at, 0);
    assert_eq!(stream.last_withdraw_time, 140);
    assert_eq!(escrow.claimable(id, 150), Ok(100));
    assert_eq!(escrow.claimable(id, 160), Ok(200));
}

#[test]
fn pause_and_resume_refusals() {
    let (mut escrow, id) = with_stream();
    assert_eq!(escrow.resume_stream(account(EMPLOYER), id, 110), Err(StreamError::StreamNotPaused));
    assert_eq!(escrow.pause_stream(account(OTHER), id, 110), Err(StreamError::NotEmployer));
    escrow.pause_stream(account(EMPLOYER), id, 110).unwrap();
    assert_eq!(escrow.pause_stream(account(EMPLOYER), id, 120), Err(StreamError::StreamNotActive));
    assert_eq!(escrow.resume_stream(account(OTHER), id, 120), Err(StreamError::NotEmployer));
    assert_eq!(escrow.resume_stream(account(EMPLOYER), 8, 120), Err(StreamError::StreamNotFound));
}

#[test]
fn cancel_pays_the_employee_and_refunds_the_employer() {
    let (mut escrow, id) = with_stream();
    escrow.withdraw(account(EMPLOYEE), id, 120).unwrap();
    let actions = escrow.cancel_stream(account(EMPLOYER), id, 150).unwrap();
    assert_eq!(
        actions,
        vec![
            Action::RequireAuth { account: account(EMPLOYER) },
            Action::Transfer {
                token: token(),
                from: Holder::Escrow,
                to: Holder::Account(account(EMPLOYEE)),
                amount: 300,
            },
            Action::Transfer {
                token: token(),
                from: Holder::Escrow,
                to: Holder::Account(account(EMPLOYER)),
                amount: 500,
            },
            Action::Publish { event: Event::StreamCancelled { id } },
        ]
    );
    let stream = escrow.get_stream(id).unwrap();
    assert_eq!(stream.status, StreamStatus::Cancelled);
    assert_eq!(stream.withdrawn, 500);
    assert_eq!(escrow.claimable(id, 500), Ok(0));
    assert_eq!(escrow.cancel_stream(account(EMPLOYER), id, 160), Err(StreamError::StreamEnded));
    assert_eq!(escrow.withdraw(account(EMPLOYEE), id, 160), Err(StreamError::StreamNotActive));
}

#[test]
fn cancel_right_away_refunds_everything() {
    let (mut escrow, id) = with_stream();
    let actions = escrow.cancel_stream(account(EMPLOYER), id, 100).unwrap();
    assert_eq!(actions.len(), 3);
    assert_eq!(
        actions[1],
        Action::Transfer {
            token: token(),
            from: Holder::Escrow,
            to: Holder::Account(account(EMPLOYER)),
            amount: 1000,
        }
    );
}

#[test]
fn cancel_after_full_accrual_pays_only_the_employee() {
    let (mut escrow, id) = with_stream();
    let actions = escrow.cancel_stream(account(EMPLOYER), id, 900).unwrap();
    assert_eq!(actions.len(), 3);
    assert_eq!(
        actions[1],
        Action::Transfer {
            token: token(),
            from: Holder::Escrow,
            to: Holder::Account(account(EMPLOYEE)),
            amount: 1000,
        }
    );
}

#[test]
fn cancel_a_paused_stream_pays_only_up_to_the_pause() {
    let (mut escrow, id) = with_stream();
    escrow.pause_stream(account(EMPLOYER), id, 120).unwrap();
    let actions = escrow.cancel_stream(account(EMPLOYER), id, 500).unwrap();
    assert_eq!(net_inflow(&actions, token()), -1000);
    assert_eq!(
        actions[1],
        Action::Transfer {
            token: token(),
            from: Holder::Escrow,
            to: Holder::Account(account(EMPLOYEE)),
            amount: 200,
        }
    );
}

#[test]
fn cancel_refusals() {
    let (mut escrow, id) = with_stream();
    assert_eq!(escrow.cancel_stream(account(OTHER), id, 110), Err(StreamError::NotEmployer));
    assert_eq!(escrow.cancel_stream(account(EMPLOYER), 7, 110), Err(StreamError::StreamNotFound));
}

fn params(deposit: i128, rate: i128, stop_time: u64) -> StreamParams {
    StreamParams { employee: account(EMPLOYEE), token: token(), deposit, rate_per_second: rate, stop_time }
}

#[test]
fn batch_creates_all_streams_in_order() {
    let (mut escrow, _) = with_stream();
    let (ids, actions) = escrow
        .create_streams_batch(account(EMPLOYER), vec![params(10, 1, 0), params(20, 2, 300)], 100)
        .unwrap();
    assert_eq!(ids, vec![1, 2]);
    assert_eq!(escrow.stream_count(), 3);
    assert_eq!(escrow.streams_by_employer(account(EMPLOYER)), vec![0, 1, 2]);
    assert_eq!(actions.len(), 7);
    assert_eq!(actions[0], Action::RequireAuth { account: account(EMPLOYER) });
    assert_eq!(net_inflow(&actions, token()), 30);
    let second = escrow.get_stream(2).unwrap();
    assert_eq!(second.deposit, 20);
    assert_eq!(second.stop_time, 300);
    assert_eq!(second.start_time, 100);
}

#[test]
fn batch_is_all_or_nothing() {
    let (mut escrow, _) = with_stream();
    assert_eq!(
        escrow.create_streams_batch(account(EMPLOYER), vec![params(10, 1, 0), params(20, 0, 0)], 100),
        Err(StreamError::ZeroRate)
    );
    assert_eq!(
        escrow.create_streams_batch(account(EMPLOYER), vec![params(10, 1, 0), params(0, 1, 0)], 100),
        Err(StreamError::ZeroDeposit)
    );
    assert_eq!(
        escrow.create_streams_batch(account(EMPLOYER), vec![params(10, 1, 50)], 100),
        Err(StreamError::StopTimeNotInFuture)
    );
    assert_eq!(
        escrow.create_streams_batch(account(EMPLOYER), vec![], 100),
        Err(StreamError::EmptyBatch)
    );
    assert_eq!(escrow.stream_count(), 1);
    assert_eq!(escrow.streams_by_employer(account(EMPLOYER)), vec![0]);
}

#[test]
fn batch_respects_the_limit() {
    let (mut escrow, _) = with_stream();
    escrow.set_stream_limit(3).unwrap();
    assert_eq!(
        escrow.create_streams_batch(
            account(EMPLOYER),
            vec![params(10, 1, 0), params(10, 1, 0), params(10, 1, 0)],
            100
        ),
        Err(StreamError::StreamLimit)
    );
    assert!(escrow
        .create_streams_batch(account(EMPLOYER), vec![params(10, 1, 0), params(10, 1, 0)], 100)
        .is_ok());
    assert_eq!(
        escrow.create_stream(account(EMPLOYER), account(EMPLOYEE), token(), 10, 1, 0, 100),
        Err(StreamError::StreamLimit)
    );
}

#[test]
fn upgrade_waits_for_the_timelock() {
    let mut escrow = ready();
    let hash = WasmHash { hi: 0xabc, lo: 0xdef };
    assert_eq!(escrow.execute_upgrade(10), Err(StreamError::NoUpgrade));
    assert_eq!(escrow.cancel_upgrade(), Err(StreamError::NoUpgrade));
    let actions = escrow.schedule_upgrade(hash, 1000).unwrap();
    assert_eq!(
        actions[1],
        Action::Publish { event: Event::UpgradeScheduled { wasm_hash: hash, scheduled_at: 1000 } }
    );
    assert_eq!(escrow.pending_upgrade(), Some((hash, 1000)));
    assert_eq!(escrow.schedule_upgrade(hash, 1001), Err(StreamError::UpgradePending));
    assert_eq!(
        escrow.execute_upgrade(1000 + UPGRADE_TIMELOCK_SECS - 1),
        Err(StreamError::UpgradeLocked)
    );
    let actions = escrow.execute_upgrade(1000 + UPGRADE_TIMELOCK_SECS).unwrap();
    assert_eq!(
        actions,
        vec![
            Action::RequireAuth { account: account(ADMIN) },
            Action::Publish { event: Event::UpgradeExecuted { wasm_hash: hash } },
            Action::UpdateContractWasm { wasm_hash: hash },
        ]
    );
    assert_eq!(escrow.pending_upgrade(), None);
}

#[test]
fn timelock_is_forty_eight_hours() {
    assert_eq!(UPGRADE_TIMELOCK_SECS, 48 * 60 * 60);
}

#[test]
fn cancel_upgrade_undoes_schedule() {
    let mut escrow = ready();
    escrow.schedule_upgrade(WasmHash { hi: 1, lo: 1 }, 5).unwrap();
    let actions = escrow.cancel_upgrade().unwrap();
    assert_eq!(actions, vec![Action::RequireAuth { account: account(ADMIN) }]);
    assert_eq!(escrow.pending_upgrade(), None);
}

#[test]
fn upgrade_unlock_saturates() {
    let mut escrow = ready();
    escrow.schedule_upgrade(WasmHash { hi: 1, lo: 1 }, u64::MAX - 5).unwrap();
    assert_eq!(escrow.execute_upgrade(u64::MAX - 1), Err(StreamError::UpgradeLocked));
    assert!(escrow.execute_upgrade(u64::MAX).is_ok());
}

#[test]
fn set_min_deposit_only_by_admin() {
    let mut escrow = ready();
    assert_eq!(escrow.set_min_deposit(account(OTHER), 50), Err(StreamError::NotAdmin));
    let actions = escrow.set_min_deposit(account(ADMIN), 50).unwrap();
    assert_eq!(actions, vec![Action::RequireAuth { account: account(ADMIN) }]);
    assert_eq!(escrow.min_deposit, 50);
}

#[test]
fn reinitialize_replaces_the_admin() {
    let mut escrow = ready();
    escrow.initialize(account(OTHER));
    assert_eq!(escrow.set_min_deposit(account(ADMIN), 1), Err(StreamError::NotAdmin));
    assert_eq!(escrow.pause_all().unwrap()[0], Action::RequireAuth { account: account(OTHER) });
}

#[test]
fn funds_are_conserved_over_a_run() {
    let mut escrow = ready();
    let other_token = contract(78);
    let mut flows: Vec<Action> = Vec::new();
    let (a, acts) = escrow
        .create_stream(account(EMPLOYER), account(EMPLOYEE), token(), 1000, 10, 0, 100)
        .unwrap();
    flows.extend(acts);
    let (_, acts) = escrow
        .create_streams_batch(
            account(OTHER),
            vec![
                StreamParams { employee: account(EMPLOYEE), token: other_token, deposit: 70, rate_per_second: 1, stop_time: 0 },
                params(30, 3, 0),
            ],
            100,
        )
        .unwrap();
    flows.extend(acts);
    flows.extend(escrow.withdraw(account(EMPLOYEE), a, 130).unwrap().1);
    flows.extend(escrow.top_up(account(EMPLOYER), a, 40).unwrap());
    flows.extend(escrow.pause_stream(account(EMPLOYER), a, 140).unwrap());
    flows.extend(escrow.cancel_stream(account(OTHER), 2, 105).unwrap());
    flows.extend(escrow.resume_stream(account(EMPLOYER), a, 170).unwrap());
    flows.extend(escrow.withdraw(account(EMPLOYEE), 1, 150).unwrap().1);
    flows.extend(escrow.cancel_stream(account(EMPLOYER), a, 200).unwrap());
    for tok in [token(), other_token] {
        assert_eq!(net_inflow(&flows, tok), escrow_balance(&escrow, tok));
    }
    assert_eq!(escrow_balance(&escrow, other_token), 20);
    assert_eq!(escrow_balance(&escrow, token()), 0);
}

#[test]
fn employer_records_match_the_streams() {
    let mut escrow = ready();
    for _ in 0..3 {
        escrow
            .create_stream(account(EMPLOYER), account(EMPLOYEE), token(), 100, 1, 0, 100)
            .unwrap();
    }
    escrow.create_stream(account(OTHER), account(EMPLOYEE), token(), 100, 1, 0, 100).unwrap();
    escrow.cancel_stream(account(EMPLOYER), 1, 120).unwrap();
    escrow.withdraw(account(EMPLOYEE), 2, 500).unwrap();
    for who in [account(EMPLOYER), account(OTHER), account(EMPLOYEE)] {
        let ids: Vec<u64> = escrow.streams.iter().filter(|s| s.employer == who).map(|s| s.id).collect();
        assert_eq!(escrow.streams_by_employer(who), ids);
        let live = escrow
            .streams
            .iter()
            .filter(|s| {
                s.employer == who
                    && (s.status == StreamStatus::Active || s.status == StreamStatus::Paused)
            })
            .count() as u32;
        let recorded = escrow
            .employers
            .iter()
            .find(|r| r.employer == who)
            .map(|r| r.active_count)
            .unwrap_or(0);
        assert_eq!(recorded, live);
    }
    for (i, s) in escrow.streams.iter().enumerate() {
        assert_eq!(s.id, i as u64);
        assert!(0 <= s.withdrawn && s.withdrawn <= s.deposit);
    }
}

#[test]
fn authority_is_demanded_before_checks() {
    let (mut escrow, id) = with_stream();
    let top_up = Call::TopUp { employer: account(OTHER), stream_id: id, amount: 0 };
    assert_eq!(escrow.authority_before_checks(&top_up), Some(account(OTHER)));
    let withdraw = Call::Withdraw { employee: account(EMPLOYEE), stream_id: id, now: 130 };
    assert_eq!(escrow.authority_before_checks(&withdraw), Some(account(EMPLOYEE)));
    escrow.pause_all().unwrap();
    assert_eq!(escrow.authority_before_checks(&withdraw), None);
    assert_eq!(escrow.authority_before_checks(&Call::CancelUpgrade), Some(account(ADMIN)));
    assert_eq!(StreamContract::new().authority_before_checks(&Call::PauseAll), None);
    let min = Call::SetMinDeposit { admin: account(OTHER), amount: 3 };
    assert_eq!(StreamContract::new().authority_before_checks(&min), Some(account(OTHER)));
}

fn effects(actions: &[Action]) -> Vec<Action> {
    actions.iter().filter(|a| !matches!(a, Action::RequireAuth { .. })).copied().collect()
}

#[test]
fn batch_matches_single_creations() {
    let list = vec![params(10, 1, 0), params(20, 2, 300), params(5, 5, 0)];
    let (mut batched, _) = with_stream();
    let (ids, batch_actions) =
        batched.create_streams_batch(account(EMPLOYER), list.clone(), 100).unwrap();
    let (mut single, _) = with_stream();
    let mut single_ids = Vec::new();
    let mut single_actions = Vec::new();
    for p in &list {
        let (id, acts) = single
            .create_stream(account(EMPLOYER), p.employee, p.token, p.deposit, p.rate_per_second, p.stop_time, 100)
            .unwrap();
        single_ids.push(id);
        single_actions.extend(acts);
    }
    assert_eq!(ids, single_ids);
    assert_eq!(batched.streams, single.streams);
    assert_eq!(
        batched.streams_by_employer(account(EMPLOYER)),
        single.streams_by_employer(account(EMPLOYER))
    );
    assert_eq!(effects(&batch_actions), effects(&single_actions));
}

#[test]
fn stream_fields_keep_their_terms() {
    let (mut escrow, id) = with_stream();
    let first = escrow.get_stream(id).unwrap();
    escrow.pause_stream(account(EMPLOYER), id, 110).unwrap();
    escrow.resume_stream(account(EMPLOYER), id, 120).unwrap();
    escrow.top_up(account(EMPLOYER), id, 50).unwrap();
    escrow.withdraw(account(EMPLOYEE), id, 150).unwrap();
    let now = escrow.get_stream(id).unwrap();
    assert_eq!((now.id, now.employer, now.employee, now.token), (first.id, first.employer, first.employee, first.token));
    assert_eq!((now.rate_per_second, now.start_time, now.stop_time), (first.rate_per_second, first.start_time, first.stop_time));
    assert!(now.withdrawn >= first.withdrawn);
}
