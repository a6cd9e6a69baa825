# paystream

A salary-streaming escrow, verified with Verus. Employers lock tokens into
streams that accrue to employees second by second; employees withdraw what
has accrued; employers top up, pause, resume or cancel their streams; an
admin can pause everything, cap the number of active streams per employer
and schedule code upgrades behind a 48-hour time lock.

Layout:

- `src/types.rs` – the plain values: addresses, streams, errors, events and
  the actions the host must carry out.
- `src/accrual.rs` – what a stream owes its employee at a given time.
- `src/machine.rs` – every operation as a function from state to new state
  and actions, or to a refusal.
- `src/contract.rs` – the executable escrow, each operation proved to do
  exactly what `machine.rs` says.
- `src/registry.rs` – the per-employer records behind the stream limit and
  the list of an employer's streams.
- `src/ledger.rs`, `src/laws.rs` – what holds across operations: the state
  stays consistent, funds are conserved, only the right party can act,
  paused time does not accrue, ended streams never change, a batch is the
  same creations made one by one, and more.
- `src/history.rs` – what holds over whole sequences of calls: upgrades run
  only after a schedule and its time lock, the admin stays until
  re-initialised, paused streams stay frozen, the stream count counts
  creations, and employers' lists stay exact.
- `app/` – the Soroban contract: it loads the state, lets the library
  decide, stores the result and performs the actions on the host.
