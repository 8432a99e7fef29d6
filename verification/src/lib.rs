//! A verified wagering and fee-distribution engine for a coin-flip game
//! running inside a deterministic smart-contract host.
//!
//! The library is a pure state machine over plain values: every operation
//! takes the persisted state (and the few facts only the host knows, such as
//! the contract's bank balance or the owners of the collection items) as
//! explicit arguments and returns the new state together with the transfers
//! to emit.  Loading and storing that state, querying balances and owners,
//! and the message plumbing live outside the library.

pub mod contract;
pub mod decimal;
pub mod error;
pub mod helpers;
pub mod laws;
pub mod msg;
pub mod rand;
pub mod state;
pub mod sudo;
pub mod types;
