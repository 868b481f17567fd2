//! A royalty ledger: per-user balances owed, paired with a payout address on
//! another chain, with accrual, settlement and the payload that describes
//! each settlement to a relayer.
//!
//! A ledger is set up in one of two policies and keeps it for good.
//!
//! - An *open* ledger has no administrator. Every caller may record an
//!   accrual or settle a balance. Each settlement is added to the account's
//!   burn history, and an account stays in the ledger when nothing is owed
//!   on it any more, so that the history is never lost.
//! - A *gated* ledger has an administrator, who alone may change it and who
//!   may hand the administration over. It keeps no burn history and drops an
//!   account as soon as nothing is owed on it.
//!
//! Every operation is a function from the ledger and a request to the next
//! ledger and an answer. A refused request leaves the ledger as it was.
//! Balances never wrap: an addition or subtraction that does not fit is
//! refused.
//!
//! What only a host can say is handed in as plain values: whether an
//! identity is well formed, and the time of the call. The accounts of a
//! ledger that is kept in a store are handed to [`ledger::Ledger::restore`]
//! and read back with [`ledger::Ledger::get`] and [`ledger::Ledger::page`].
//!
//! - [`contract`]: the operations, and what each one does to the ledger.
//! - [`ledger`], [`listing`], [`account`]: the state, the ordered list of
//!   accounts, and the arithmetic on one account.
//! - [`payload`], [`transport`], [`text`]: the settlement payload, its JSON,
//!   hexadecimal and base64 forms, and amounts in decimal.
//! - [`order`]: the order of user identities.
//! - [`laws`]: conservation of balances over histories of calls, and
//!   exhaustive pagination.

pub mod account;
pub mod contract;
pub mod error;
pub mod laws;
pub mod ledger;
pub mod listing;
pub mod msg;
pub mod order;
pub mod payload;
pub mod text;
pub mod transport;
