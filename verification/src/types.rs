//! The data the engine persists and the mathematical images of those types.

use vstd::pervasive::cloned;
use vstd::prelude::*;

verus! {

/// Which side of the coin a player picks.
#[derive(Clone, Copy, PartialEq, Eq, Structural, Debug)]
pub enum PickTypes {
    Heads,
    Tails,
}

/// An amount of one denomination, in base units.
#[derive(Debug)]
pub struct Coin {
    pub denom: String,
    pub amount: u128,
}

/// The mathematical image of a `Coin`.
pub struct CoinV {
    pub denom: Seq<char>,
    pub amount: u128,
}

impl View for Coin {
    type V = CoinV;

    open spec fn view(&self) -> CoinV {
        CoinV { denom: self.denom@, amount: self.amount }
    }
}

impl DeepView for Coin {
    type V = CoinV;

    open spec fn deep_view(&self) -> CoinV {
        self.view()
    }
}

impl Clone for Coin {
    fn clone(&self) -> (r: Self)
        ensures
            r == *self,
    {
        Coin { denom: self.denom.clone(), amount: self.amount }
    }
}

/// A run of consecutive equal results for one account.
#[derive(Clone, Copy, PartialEq, Eq, Structural, Debug)]
pub struct Streak {
    pub amount: u32,
    pub result: bool,
}

/// What `Streak::update` does: an equal result extends the run (the counter
/// saturates at `u32::MAX`), a different result restarts it at one.
pub open spec fn spec_streak_update(s: Streak, result: bool) -> Streak {
    if result == s.result {
        if s.amount < u32::MAX {
            Streak { amount: (s.amount + 1) as u32, result: s.result }
        } else {
            s
        }
    } else {
        Streak { amount: 1, result }
    }
}

impl Streak {
    /// A fresh streak of one settlement with the given result.
    pub fn new(result: bool) -> (s: Self)
        ensures
            s == (Streak { amount: 1, result }),
    {
        Streak { amount: 1, result }
    }

    /// Extend or restart the streak with the next result.
    pub fn update(&mut self, result: bool)
        ensures
            *final(self) == spec_streak_update(*old(self), result),
    {
        if result == self.result {
            if self.amount < u32::MAX {
                self.amount = self.amount + 1;
            }
        } else {
            self.amount = 1;
            self.result = result;
        }
    }
}

/// Per-account score: the current streak and the time of the last settlement.
#[derive(Clone, Copy, PartialEq, Eq, Structural, Debug)]
pub struct FlipScore {
    pub streak: Streak,
    pub last_flip: u64,
}

/// The score of an account settled for the first time.
pub open spec fn spec_score_new(result: bool, time: u64) -> FlipScore {
    FlipScore { streak: Streak { amount: 1, result }, last_flip: time }
}

/// The score after one more settlement.
pub open spec fn spec_score_update(s: FlipScore, result: bool, time: u64) -> FlipScore {
    FlipScore { streak: spec_streak_update(s.streak, result), last_flip: time }
}

impl FlipScore {
    /// The score recorded at an account's first settlement.
    pub fn new(result: bool, time: u64) -> (s: Self)
        ensures
            s == spec_score_new(result, time),
    {
        FlipScore { streak: Streak::new(result), last_flip: time }
    }

    /// Fold one more settlement into the score; returns the new score.
    pub fn update(&mut self, result: bool, time: u64) -> (s: Self)
        ensures
            *final(self) == spec_score_update(*old(self), result, time),
            s == *final(self),
    {
        self.streak.update(result);
        self.last_flip = time;
        *self
    }
}

/// The fee schedule, in basis points (1/10000).
#[derive(Clone, Copy, PartialEq, Eq, Structural, Debug)]
pub struct Fees {
    pub team_bps: u64,
    pub holders_bps: u64,
    pub reserve_bps: u64,
    pub flip_bps: u64,
}

impl Fees {
    /// Split a fee pool by the schedule: each destination receives its own
    /// basis-point part of the pool, rounded down independently, so the
    /// three parts may fall short of the pool; the shortfall stays behind.
    pub fn calculate(&self, total_fees: u128) -> (r: FeesToPay)
        requires
            total_fees * self.team_bps <= u128::MAX,
            total_fees * self.holders_bps <= u128::MAX,
            total_fees * self.reserve_bps <= u128::MAX,
        ensures
            r.team == crate::helpers::spec_fee_part(total_fees, self.team_bps),
            r.holders == crate::helpers::spec_fee_part(total_fees, self.holders_bps),
            r.reserve == crate::helpers::spec_fee_part(total_fees, self.reserve_bps),
    {
        let team = (total_fees * (self.team_bps as u128)) / (crate::helpers::BPS_DENOMINATOR
            as u128);
        let holders = (total_fees * (self.holders_bps as u128)) / (crate::helpers::BPS_DENOMINATOR
            as u128);
        let reserve = (total_fees * (self.reserve_bps as u128)) / (crate::helpers::BPS_DENOMINATOR
            as u128);
        FeesToPay { team, holders, reserve }
    }

    /// A fixed-point amount rounded down to whole base units.
    pub fn to_uint_floor(&self, to_pay: crate::decimal::Decimal) -> (r: u128)
        ensures
            r == to_pay.atomics / crate::decimal::DECIMAL_FRACTIONAL,
    {
        to_pay.to_uint_floor()
    }
}

/// The split of a fee pool among the three destinations, in base units.
#[derive(Clone, Copy, PartialEq, Eq, Structural, Debug)]
pub struct FeesToPay {
    pub team: u128,
    pub holders: u128,
    pub reserve: u128,
}

/// The two fixed wallets fees are swept to.
#[derive(Debug)]
pub struct Wallets {
    pub team: String,
    pub reserve: String,
}

impl Clone for Wallets {
    fn clone(&self) -> (r: Self)
        ensures
            r == *self,
    {
        Wallets { team: self.team.clone(), reserve: self.reserve.clone() }
    }
}

/// A settled wager, as retained in the result history.
#[derive(Debug)]
pub struct Flip {
    pub wallet: String,
    pub amount: Coin,
    pub result: bool,
    pub streak: Streak,
    pub timestamp: u64,
}

/// The mathematical image of a `Flip`.
pub struct FlipV {
    pub wallet: Seq<char>,
    pub amount: CoinV,
    pub result: bool,
    pub streak: Streak,
    pub timestamp: u64,
}

impl View for Flip {
    type V = FlipV;

    open spec fn view(&self) -> FlipV {
        FlipV {
            wallet: self.wallet@,
            amount: self.amount@,
            result: self.result,
            streak: self.streak,
            timestamp: self.timestamp,
        }
    }
}

impl DeepView for Flip {
    type V = FlipV;

    open spec fn deep_view(&self) -> FlipV {
        self.view()
    }
}

impl Clone for Flip {
    fn clone(&self) -> (r: Self)
        ensures
            r == *self,
    {
        Flip {
            wallet: self.wallet.clone(),
            amount: self.amount.clone(),
            result: self.result,
            streak: self.streak,
            timestamp: self.timestamp,
        }
    }
}

/// A pending wager, waiting in the queue for a later settlement cycle.
#[derive(Debug)]
pub struct TodoFlip {
    pub id: u64,
    pub wallet: String,
    pub amount: Coin,
    pub pick: PickTypes,
    pub block: u64,
    pub timestamp: u64,
}

/// The mathematical image of a `TodoFlip`.
pub struct TodoFlipV {
    pub id: u64,
    pub wallet: Seq<char>,
    pub amount: CoinV,
    pub pick: PickTypes,
    pub block: u64,
    pub timestamp: u64,
}

impl View for TodoFlip {
    type V = TodoFlipV;

    open spec fn view(&self) -> TodoFlipV {
        TodoFlipV {
            id: self.id,
            wallet: self.wallet@,
            amount: self.amount@,
            pick: self.pick,
            block: self.block,
            timestamp: self.timestamp,
        }
    }
}

impl DeepView for TodoFlip {
    type V = TodoFlipV;

    open spec fn deep_view(&self) -> TodoFlipV {
        self.view()
    }
}

impl Clone for TodoFlip {
    fn clone(&self) -> (r: Self)
        ensures
            r == *self,
    {
        TodoFlip {
            id: self.id,
            wallet: self.wallet.clone(),
            amount: self.amount.clone(),
            pick: self.pick,
            block: self.block,
            timestamp: self.timestamp,
        }
    }
}

/// A transfer the engine asks the host to perform after the operation
/// commits; the engine only constructs these intents.
#[derive(Debug)]
pub struct Payment {
    pub to_address: String,
    pub amount: u128,
    pub denom: String,
}

/// The mathematical image of a `Payment`.
pub struct PaymentV {
    pub to_address: Seq<char>,
    pub amount: u128,
    pub denom: Seq<char>,
}

impl View for Payment {
    type V = PaymentV;

    open spec fn view(&self) -> PaymentV {
        PaymentV { to_address: self.to_address@, amount: self.amount, denom: self.denom@ }
    }
}

impl DeepView for Payment {
    type V = PaymentV;

    open spec fn deep_view(&self) -> PaymentV {
        self.view()
    }
}

impl Clone for Payment {
    fn clone(&self) -> (r: Self)
        ensures
            r == *self,
    {
        Payment {
            to_address: self.to_address.clone(),
            amount: self.amount,
            denom: self.denom.clone(),
        }
    }
}

/// The singleton configuration, mutated only by admin-authorized operations.
#[derive(Debug)]
pub struct Config {
    pub admin: String,
    pub denoms: Vec<String>,
    pub bank_limit: u128,
    pub flips_per_block_limit: u64,
    pub wallets: Wallets,
    pub fees: Fees,
    pub sg721_addr: Option<String>,
    pub is_paused: bool,
}

impl Config {
    /// A usable configuration accepts at least one denomination; settlement
    /// and distribution pay out in the first one.
    pub open spec fn wf(&self) -> bool {
        self.denoms.len() >= 1
    }
}

impl Clone for Config {
    fn clone(&self) -> (r: Self)
        ensures
            r.admin == self.admin,
            r.denoms@ == self.denoms@,
            r.bank_limit == self.bank_limit,
            r.flips_per_block_limit == self.flips_per_block_limit,
            r.wallets == self.wallets,
            r.fees == self.fees,
            r.sg721_addr == self.sg721_addr,
            r.is_paused == self.is_paused,
    {
        let denoms = self.denoms.clone();
        proof {
            assert forall|i: int| 0 <= i < self.denoms@.len() implies denoms@[i]
                == self.denoms@[i] by {
                assert(cloned::<String>(self.denoms[i], denoms[i]));
            }
            assert(denoms@ =~= self.denoms@);
        }
        Config {
            admin: self.admin.clone(),
            denoms,
            bank_limit: self.bank_limit,
            flips_per_block_limit: self.flips_per_block_limit,
            wallets: self.wallets.clone(),
            fees: self.fees,
            sg721_addr: match &self.sg721_addr {
                Some(a) => Some(a.clone()),
                None => None,
            },
            is_paused: self.is_paused,
        }
    }
}

} // verus!
