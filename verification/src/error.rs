//! The closed set of failures the engine can report.
//!
//! Every operation either fully succeeds or returns one of these kinds with
//! zero state change; the contracts state exactly which inputs produce which
//! kind.

use vstd::prelude::*;

verus! {

/// Every failure of the engine, as one tagged union.
#[derive(Debug, PartialEq, Eq)]
pub enum ContractError {
    /// An admin-only operation was invoked by another caller.
    Unauthorized,
    /// The game is paused; wagering operations are rejected.
    Paused,
    /// The stake is above `MAX_BET`; carries the limit in human units.
    BetAboveMaximum { max_limit: u128 },
    /// The stake is below `MIN_BET`; carries the limit in human units.
    BetBelowMinimum { min_limit: u128 },
    /// The account already has a wager waiting to be settled.
    AlreadyPending,
    /// The queue already holds the full settlement-cycle capacity.
    QueueFull,
    /// Not exactly one coin was supplied with the wager.
    WrongFundsShape,
    /// The supplied denomination is not an accepted one.
    UnsupportedDenom { denom: String },
    /// The paid amount is not exactly stake plus fee.
    WrongPaidAmount,
    /// The liquid balance cannot cover the worst-case payouts.
    InsufficientTreasury,
    /// The fee pool is at or below the dust threshold; nothing to distribute.
    NoFeesToPay,
    /// The recorded fee pool exceeds the actual balance: an invariant breach.
    NotEnoughFundsToPayFees,
    /// A fixed-point computation left the representable range.
    Overflow,
    /// A fixed-point division by zero.
    DivideByZero,
}

} // verus!
