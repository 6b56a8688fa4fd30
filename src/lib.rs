//! A transaction-processing engine for per-client ledger accounts.
//!
//! Deposits, withdrawals, disputes, resolutions and chargebacks are applied to
//! one account per client. Each client's transactions run through a
//! [`worker::ClientWorker`], which owns that client's stores and applies the
//! account state machine; the [`engine::PaymentEngine`] routes transactions to
//! workers and collects the final account states.
//!
//! Balances are fixed-point values with four fractional digits
//! ([`balance`]). Workers reach their data through two store interfaces
//! ([`ports`]), implemented in memory ([`in_memory`]) and over encoded
//! records in column families ([`persistent`], with the byte layout in
//! [`codec`]).
pub mod balance;
pub mod error;
pub mod account;
pub mod transaction;
pub mod ports;
pub mod in_memory;
pub mod worker;
pub mod router;
pub mod engine;
pub mod codec;
pub mod persistent;
