//! The messages the engine understands, over plain values.

use crate::decimal::Decimal;
use crate::types::{Fees, PickTypes, Wallets};
use vstd::prelude::*;

verus! {

/// What the deployer provides at instantiation.  The caller of
/// `instantiate` becomes the admin.
pub struct InstantiateMsg {
    pub admin: String,
    pub denoms: Vec<String>,
    pub wallets: Wallets,
    pub fees: Fees,
    pub bank_limit: Option<u128>,
    pub flips_per_block_limit: Option<u64>,
    pub sg721_addr: Option<String>,
}

/// The wagering operations open to every account.
pub enum FlipExecuteMsg {
    StartFlip { pick: PickTypes, amount: u128 },
    DoFlips {},
}

/// The admin-only operations.
pub enum SudoMsg {
    Distribute {},
    UpdateFees { fees: Fees },
    UpdateSg721 { addr: String },
    UpdateBankLimit { limit: u128 },
    UpdatePause(bool),
}

/// Every mutating operation.
pub enum ExecuteMsg {
    Flip(FlipExecuteMsg),
    Sudo(SudoMsg),
}

/// Every read-only operation.
pub enum QueryMsg {
    GetConfig {},
    GetFeesAmount {},
    GetLast5 {},
    GetScore { address: String },
    ShouldDoFlips {},
    DryDistribution {},
}

/// The migration request; version bookkeeping happens outside the engine.
pub enum MigrateMsg {
    Basic {},
}

/// The outcome of a distribution computed without mutating anything.
pub struct DryDistributionResponse {
    pub total_fees: u128,
    pub team_total_fee: u128,
    pub reserve_total_fee: u128,
    pub holders_total_fee: u128,
    pub holders_total_shares: Decimal,
    pub fees_per_token: Decimal,
    pub pay_to_holders: u128,
    pub number_of_holders: u64,
}

} // verus!
