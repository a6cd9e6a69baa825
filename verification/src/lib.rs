//! A salary-streaming escrow: employers lock tokens into streams that accrue
//! to employees second by second; employees withdraw what has accrued, and
//! employers top up, pause, resume or cancel their streams.
//!
//! The library holds the whole state of the escrow as plain values and
//! decides every operation on it. An operation either refuses with a
//! [`StreamError`] and leaves the state as it was, or updates the state and
//! returns the ordered list of [`Action`]s (authorisations, token transfers,
//! published events, code upgrades) that the host must carry out.

pub mod accrual;
pub mod contract;
pub mod history;
pub mod laws;
pub mod ledger;
pub mod machine;
pub mod registry;
pub mod types;

pub use accrual::claimable_amount;
pub use contract::StreamContract;
pub use laws::Call;

pub use types::{
    AccountId, Action, AddressKind, EmployerRecord, Event, Holder, Stream, StreamError,
    StreamParams, StreamStatus, WasmHash, DEFAULT_STREAM_LIMIT, UPGRADE_TIMELOCK_SECS,
};
