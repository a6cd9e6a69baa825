use vstd::prelude::*;

verus! {

/// Whether an address names an account (a key pair) or a deployed contract.
#[derive(Clone, Copy, Debug, PartialEq, Eq, Structural)]
pub enum AddressKind {
    Account,
    Contract,
}

/// An address on the ledger, held as its kind and the 32 bytes of its key,
/// split into two big-endian halves.
#[derive(Clone, Copy, Debug, PartialEq, Eq, Structural)]
pub struct AccountId {
    pub kind: AddressKind,
    pub key_hi: u128,
    pub key_lo: u128,
}

/// The 32-byte hash of a contract code blob, as two big-endian halves.
#[derive(Clone, Copy, Debug, PartialEq, Eq, Structural)]
pub struct WasmHash {
    pub hi: u128,
    pub lo: u128,
}

/// The life-cycle state of a stream.
#[derive(Clone, Copy, Debug, PartialEq, Eq, Structural)]
pub enum StreamStatus {
    /// Accruing to the employee.
    Active,
    /// Stopped by the employer; time spent paused does not accrue.
    Paused,
    /// Everything deposited has been withdrawn.
    Exhausted,
    /// Ended by the employer; the remainder went back to the employer.
    Cancelled,
}

/// One salary stream.
#[derive(Clone, Copy, Debug, PartialEq, Eq, Structural)]
pub struct Stream {
    pub id: u64,
    pub employer: AccountId,
    pub employee: AccountId,
    pub token: AccountId,
    /// Everything the employer has put in, top-ups included.
    pub deposit: i128,
    /// Everything paid out to the employee so far.
    pub withdrawn: i128,
    pub rate_per_second: i128,
    pub start_time: u64,
    /// The time after which nothing more accrues; 0 for an open-ended stream.
    pub stop_time: u64,
    /// The time up to which the employee has been paid.
    pub last_withdraw_time: u64,
    pub status: StreamStatus,
    /// When the stream was paused; 0 unless it is paused.
    pub paused_at: u64,
    /// A guard against withdrawing twice at once: a withdrawal from a locked
    /// stream is refused. A withdrawal is decided and completed in a single
    /// step here, so no operation sets it, and it is clear in every state
    /// that operations produce from a fresh escrow.
    pub locked: bool,
}

/// The parameters of one stream in a batch creation.
#[derive(Clone, Copy, Debug, PartialEq, Eq, Structural)]
pub struct StreamParams {
    pub employee: AccountId,
    pub token: AccountId,
    pub deposit: i128,
    pub rate_per_second: i128,
    pub stop_time: u64,
}

/// What the escrow keeps per employer: how many of its streams still count
/// against the stream limit, and the ids of all streams it created.
#[derive(Debug)]
pub struct EmployerRecord {
    pub employer: AccountId,
    pub active_count: u32,
    pub stream_ids: Vec<u64>,
}

/// Why an operation was refused. A refused operation changes nothing.
#[derive(Clone, Copy, Debug, PartialEq, Eq, Structural)]
pub enum StreamError {
    /// No admin has been set yet.
    NotInitialized,
    /// The caller is not the admin.
    NotAdmin,
    /// All streams are paused by the admin.
    GlobalPaused,
    /// A deposit must be positive.
    ZeroDeposit,
    /// A rate must be positive.
    ZeroRate,
    /// The employer already has as many active streams as the limit allows.
    StreamLimit,
    /// A stop time must lie in the future.
    StopTimeNotInFuture,
    /// A batch must hold at least one stream.
    EmptyBatch,
    /// No stream has this id.
    StreamNotFound,
    /// The caller is not the stream's employee.
    NotEmployee,
    /// The caller is not the stream's employer.
    NotEmployer,
    /// The stream is not active.
    StreamNotActive,
    /// The stream is not paused.
    StreamNotPaused,
    /// The stream was already exhausted or cancelled.
    StreamEnded,
    /// A withdrawal on this stream is already in flight.
    Reentrant,
    /// Nothing has accrued since the last withdrawal.
    NothingToWithdraw,
    /// A top-up amount must be positive.
    AmountNotPositive,
    /// An amount or a counter would leave its integer range.
    Overflow,
    /// An upgrade is already scheduled.
    UpgradePending,
    /// No upgrade is scheduled.
    NoUpgrade,
    /// The upgrade's time lock has not yet run out.
    UpgradeLocked,
}

/// Who holds tokens on one side of a transfer.
#[derive(Clone, Copy, Debug, PartialEq, Eq, Structural)]
pub enum Holder {
    /// The escrow itself.
    Escrow,
    Account(AccountId),
}

/// An event that the escrow publishes.
#[derive(Clone, Copy, Debug, PartialEq, Eq, Structural)]
pub enum Event {
    StreamCreated { id: u64, employer: AccountId, employee: AccountId, rate_per_second: i128 },
    Withdrawn { id: u64, employee: AccountId, amount: i128 },
    StreamPaused { id: u64 },
    StreamResumed { id: u64 },
    StreamCancelled { id: u64 },
    ToppedUp { id: u64, employer: AccountId, amount: i128 },
    GlobalPaused { paused: bool },
    UpgradeScheduled { wasm_hash: WasmHash, scheduled_at: u64 },
    UpgradeExecuted { wasm_hash: WasmHash },
}

/// One thing the host must do, in order, for an accepted operation.
#[derive(Clone, Copy, Debug, PartialEq, Eq, Structural)]
pub enum Action {
    /// The account must have authorised this call.
    RequireAuth { account: AccountId },
    /// Ask the token for the owner's balance (the answer is not used).
    QueryBalance { token: AccountId, owner: AccountId },
    /// Move `amount` of `token` from one holder to the other.
    Transfer { token: AccountId, from: Holder, to: Holder, amount: i128 },
    Publish { event: Event },
    /// Replace the escrow's own code.
    UpdateContractWasm { wasm_hash: WasmHash },
}

/// How long a scheduled upgrade must wait before it can run: 48 hours.
pub const UPGRADE_TIMELOCK_SECS: u64 = 172_800;

/// The per-employer limit on active streams until the admin sets one.
pub const DEFAULT_STREAM_LIMIT: u32 = 4_294_967_295;

} // verus!
