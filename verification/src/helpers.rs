//! Fee arithmetic and the small guards shared by the operations.

use crate::decimal::Decimal;
use crate::error::ContractError;
use crate::types::Config;
use vstd::arithmetic::mul::lemma_mul_inequality;
use vstd::prelude::*;

verus! {

/// Basis points in one whole: fee rates are fractions over this.
pub const BPS_DENOMINATOR: u64 = 10_000;

/// The part of `total` that a rate of `bps` basis points selects,
/// rounded down.
pub open spec fn spec_fee_part(total: u128, bps: u64) -> int {
    (total * bps) / (BPS_DENOMINATOR as int)
}

/// Succeeds exactly when the caller is the configured admin.
pub fn ensure_admin(config: &Config, sender: &String) -> (r: Result<(), ContractError>)
    ensures
        config.admin@ == sender@ ==> r == Ok::<(), ContractError>(()),
        config.admin@ != sender@ ==> r == Err::<(), ContractError>(ContractError::Unauthorized),
{
    if config.admin == *sender {
        Ok(())
    } else {
        Err(ContractError::Unauthorized)
    }
}

/// Succeeds exactly when the game is not paused.
pub fn ensure_not_paused(config: &Config) -> (r: Result<(), ContractError>)
    ensures
        !config.is_paused ==> r == Ok::<(), ContractError>(()),
        config.is_paused ==> r == Err::<(), ContractError>(ContractError::Paused),
{
    if config.is_paused {
        Err(ContractError::Paused)
    } else {
        Ok(())
    }
}

/// The wager fee for a stake: `floor(amount * fee_bps / 10000)`; fails only
/// when the intermediate product leaves `u128`.
pub fn calc_flip_fee(amount: u128, fee_bps: u64) -> (r: Result<u128, ContractError>)
    ensures
        amount * fee_bps <= u128::MAX ==> r == Ok::<u128, ContractError>(
            spec_fee_part(amount, fee_bps) as u128,
        ),
        amount * fee_bps > u128::MAX ==> r == Err::<u128, ContractError>(ContractError::Overflow),
{
    match amount.checked_mul(fee_bps as u128) {
        Some(p) => Ok(p / (BPS_DENOMINATOR as u128)),
        None => Err(ContractError::Overflow),
    }
}

/// Checks that the funds sent with a wager are exactly the stake plus the
/// wager fee, and returns that fee.
///
/// For every stake the engine accepts, the paid amount must equal
/// `amount + floor(amount * fee_bps / 10000)`; any other amount is rejected.
pub fn ensure_correct_funds(funds: u128, amount: u128, fee_bps: u64) -> (r: Result<
    u128,
    ContractError,
>)
    ensures
        amount * fee_bps <= u128::MAX && amount + spec_fee_part(amount, fee_bps) <= u128::MAX
            ==> {
            if funds == amount + spec_fee_part(amount, fee_bps) {
                r == Ok::<u128, ContractError>(spec_fee_part(amount, fee_bps) as u128)
            } else {
                r == Err::<u128, ContractError>(ContractError::WrongPaidAmount)
            }
        },
        amount * fee_bps > u128::MAX || amount + spec_fee_part(amount, fee_bps) > u128::MAX ==> r
            == Err::<u128, ContractError>(ContractError::Overflow),
{
    let fee_to_pay = match calc_flip_fee(amount, fee_bps) {
        Ok(f) => f,
        Err(e) => {
            return Err(e);
        },
    };
    let total_amount = match amount.checked_add(fee_to_pay) {
        Some(t) => t,
        None => {
            return Err(ContractError::Overflow);
        },
    };
    if funds != total_amount {
        return Err(ContractError::WrongPaidAmount);
    }
    Ok(fee_to_pay)
}

/// A rate in basis points as a fixed-point fraction of one.
pub fn bps_to_decimal(bps: u64) -> (r: Decimal)
    ensures
        r.atomics == bps * 100_000_000_000_000,
{
    proof {
        lemma_mul_inequality(bps as int, u64::MAX as int, 100_000_000_000_000);
    }
    Decimal { atomics: (bps as u128) * 100_000_000_000_000 }
}

} // verus!
