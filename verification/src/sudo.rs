//! The admin operations: configuration updates and fee distribution.
//!
//! Authorization is the dispatcher's concern; these functions assume the
//! caller was already checked.

use crate::decimal::{Decimal, DECIMAL_FRACTIONAL};
use crate::error::ContractError;
use crate::helpers::spec_fee_part;
use crate::state::FlipState;
use crate::types::{Config, Fees, FeesToPay, Payment, PaymentV};
use vstd::arithmetic::div_mod::{
    lemma_div_is_ordered, lemma_fundamental_div_mod, lemma_mod_division_less_than_divisor,
};
use vstd::arithmetic::mul::{
    lemma_mul_inequality, lemma_mul_is_distributive_add_other_way, lemma_mul_nonnegative,
};
use vstd::prelude::*;

verus! {

/// A fee pool at or below this many base units is dust: nothing is
/// distributed.
pub const DUST_THRESHOLD: u128 = 1_000;

/// The number of items in the collection whose owners share the holder
/// part of the pool.
pub const COLLECTION_SIZE: usize = 777;

/// Raise the solvency floor the reserve payout respects.
pub fn update_bank_limit(state: &mut FlipState, limit: u128)
    ensures
        final(state).config == (Config { bank_limit: limit, ..old(state).config }),
        final(state).fees == old(state).fees,
        final(state).flips == old(state).flips,
        final(state).todo_flips == old(state).todo_flips,
        final(state).scores == old(state).scores,
        final(state).flip_id == old(state).flip_id,
        old(state).wf() ==> final(state).wf(),
{
    state.config.bank_limit = limit;
}

/// Replace the fee schedule.
pub fn update_fees(state: &mut FlipState, fees: Fees)
    ensures
        final(state).config == (Config { fees, ..old(state).config }),
        final(state).fees == old(state).fees,
        final(state).flips == old(state).flips,
        final(state).todo_flips == old(state).todo_flips,
        final(state).scores == old(state).scores,
        final(state).flip_id == old(state).flip_id,
        old(state).wf() ==> final(state).wf(),
{
    state.config.fees = fees;
}

/// Point the engine at a collection; its owners share distributions from
/// now on.
pub fn update_sg721(state: &mut FlipState, addr: String)
    ensures
        final(state).config == (Config { sg721_addr: Some(addr), ..old(state).config }),
        final(state).fees == old(state).fees,
        final(state).flips == old(state).flips,
        final(state).todo_flips == old(state).todo_flips,
        final(state).scores == old(state).scores,
        final(state).flip_id == old(state).flip_id,
        old(state).wf() ==> final(state).wf(),
{
    state.config.sg721_addr = Some(addr);
}

/// Pause or resume wagering.
pub fn update_pause(state: &mut FlipState, is_paused: bool)
    ensures
        final(state).config == (Config { is_paused, ..old(state).config }),
        final(state).fees == old(state).fees,
        final(state).flips == old(state).flips,
        final(state).todo_flips == old(state).todo_flips,
        final(state).scores == old(state).scores,
        final(state).flip_id == old(state).flip_id,
        old(state).wf() ==> final(state).wf(),
{
    state.config.is_paused = is_paused;
}

/// The weight of one collection item, in fixed-point: items 650 to 727
/// carry one and a half, items from 728 up carry two, the rest carry one.
pub open spec fn spec_share_atomics(num: int) -> int {
    if 650 <= num <= 727 {
        1_500_000_000_000_000_000
    } else if num >= 728 {
        2_000_000_000_000_000_000
    } else {
        1_000_000_000_000_000_000
    }
}

/// The tier weight of one collection item.
pub fn get_share(num: u32) -> (r: Result<Decimal, ContractError>)
    ensures
        r matches Ok(d) && d.atomics == spec_share_atomics(num as int),
{
    if 650 <= num && num <= 727 {
        Ok(Decimal { atomics: 1_500_000_000_000_000_000 })
    } else if num >= 728 {
        Ok(Decimal { atomics: 2_000_000_000_000_000_000 })
    } else {
        Ok(Decimal { atomics: 1_000_000_000_000_000_000 })
    }
}

/// The part of the pool each destination is owed, before the reserve's
/// solvency adjustment.  With a collection configured each destination gets
/// its basis-point part, rounded down; without one the pool is split half
/// and half between team and reserve and the holders get nothing.
pub fn calculate_fees_to_pay(config: &Config, total_fees: u128) -> (r: Result<
    FeesToPay,
    ContractError,
>)
    ensures
        total_fees <= DUST_THRESHOLD ==> r == Err::<FeesToPay, ContractError>(
            ContractError::NoFeesToPay,
        ),
        total_fees > DUST_THRESHOLD && config.sg721_addr is Some && !spec_fees_fit(
            config.fees,
            total_fees,
        ) ==> r == Err::<FeesToPay, ContractError>(ContractError::Overflow),
        total_fees > DUST_THRESHOLD && config.sg721_addr is Some && spec_fees_fit(
            config.fees,
            total_fees,
        ) ==> r == Ok::<FeesToPay, ContractError>(
            (FeesToPay {
                team: spec_fee_part(total_fees, config.fees.team_bps) as u128,
                holders: spec_fee_part(total_fees, config.fees.holders_bps) as u128,
                reserve: spec_fee_part(total_fees, config.fees.reserve_bps) as u128,
            }),
        ),
        total_fees > DUST_THRESHOLD && config.sg721_addr is None ==> r == Ok::<
            FeesToPay,
            ContractError,
        >((FeesToPay { team: total_fees / 2, holders: 0, reserve: total_fees / 2 })),
{
    if total_fees <= DUST_THRESHOLD {
        return Err(ContractError::NoFeesToPay);
    }
    match &config.sg721_addr {
        Some(_) => {
            let t = total_fees.checked_mul(config.fees.team_bps as u128);
            let h = total_fees.checked_mul(config.fees.holders_bps as u128);
            let v = total_fees.checked_mul(config.fees.reserve_bps as u128);
            if t.is_none() || h.is_none() || v.is_none() {
                return Err(ContractError::Overflow);
            }
            Ok(config.fees.calculate(total_fees))
        },
        None => {
            let half = total_fees / 2;
            Ok(FeesToPay { team: half, holders: 0, reserve: half })
        },
    }
}

/// Whether the three basis-point products of a split stay inside `u128`.
pub open spec fn spec_fees_fit(fees: Fees, total_fees: u128) -> bool {
    &&& total_fees * fees.team_bps <= u128::MAX
    &&& total_fees * fees.holders_bps <= u128::MAX
    &&& total_fees * fees.reserve_bps <= u128::MAX
}

/// What the reserve is actually paid: its share, shrunk by exactly the
/// deficit when paying it in full would leave the bank below its floor,
/// and never below zero.
pub open spec fn spec_reserve_payout(
    balance: u128,
    total_fees: u128,
    reserve_fees: u128,
    bank_limit: u128,
) -> int {
    let bank = balance - total_fees;
    if bank < bank_limit {
        if bank_limit - bank > reserve_fees {
            0
        } else {
            reserve_fees - (bank_limit - bank)
        }
    } else {
        reserve_fees as int
    }
}

/// Cap the reserve payout so the bank keeps its floor.
///
/// If the recorded pool exceeds the actual balance the bookkeeping is
/// broken and the whole operation fails.  Otherwise, when the balance net
/// of the pool is below the floor, the reserve payout shrinks by exactly
/// the deficit, to zero at worst.
pub fn verify_contract_balance(
    balance: u128,
    total_fees: u128,
    reserve_fees: u128,
    bank_limit: u128,
) -> (r: Result<u128, ContractError>)
    ensures
        balance < total_fees ==> r == Err::<u128, ContractError>(
            ContractError::NotEnoughFundsToPayFees,
        ),
        balance >= total_fees ==> r == Ok::<u128, ContractError>(
            spec_reserve_payout(balance, total_fees, reserve_fees, bank_limit) as u128,
        ),
{
    if balance < total_fees {
        return Err(ContractError::NotEnoughFundsToPayFees);
    }
    let bank_balance = balance - total_fees;
    let mut reserve_fees_to_send = reserve_fees;
    if bank_balance < bank_limit {
        let reserve_diff = bank_limit - bank_balance;
        if reserve_diff > reserve_fees_to_send {
            reserve_fees_to_send = 0;
        } else {
            reserve_fees_to_send = reserve_fees_to_send - reserve_diff;
        }
    }
    Ok(reserve_fees_to_send)
}

/// One holder's aggregated stake in a distribution.
#[derive(Debug)]
pub struct HolderShare {
    pub addr: String,
    pub share: Decimal,
}

/// The mathematical image of a `HolderShare`: the share as an exact count
/// of atomics.
pub struct HolderV {
    pub addr: Seq<char>,
    pub share: int,
}

impl View for HolderShare {
    type V = HolderV;

    open spec fn view(&self) -> HolderV {
        HolderV { addr: self.addr@, share: self.share.atomics as int }
    }
}

impl DeepView for HolderShare {
    type V = HolderV;

    open spec fn deep_view(&self) -> HolderV {
        self.view()
    }
}

/// Add a weight to an owner's entry, or append a fresh entry for a new
/// owner.
pub open spec fn spec_upsert(hs: Seq<HolderV>, w: Seq<char>, add: int) -> Seq<HolderV> {
    if exists|j: int| 0 <= j < hs.len() && hs[j].addr == w {
        let j = choose|j: int| 0 <= j < hs.len() && hs[j].addr == w;
        hs.update(j, HolderV { addr: w, share: hs[j].share + add })
    } else {
        hs.push(HolderV { addr: w, share: add })
    }
}

/// The owners of the first `n` items folded into a holder list, in order
/// of first appearance.  Item ids are one-based: entry `i` of `owners` is
/// the owner of item `i + 1`; unowned items contribute nothing.
pub open spec fn spec_holders(owners: Seq<Option<Seq<char>>>) -> Seq<HolderV>
    decreases owners.len(),
{
    if owners.len() == 0 {
        Seq::empty()
    } else {
        let prev = spec_holders(owners.drop_last());
        match owners.last() {
            Some(w) => spec_upsert(prev, w, spec_share_atomics(owners.len() as int)),
            None => prev,
        }
    }
}

/// The total weight of all owned items.
pub open spec fn spec_total_shares(owners: Seq<Option<Seq<char>>>) -> int
    decreases owners.len(),
{
    if owners.len() == 0 {
        0
    } else {
        spec_total_shares(owners.drop_last()) + (match owners.last() {
            Some(_) => spec_share_atomics(owners.len() as int),
            None => 0,
        })
    }
}

/// The sum of the shares of a holder list.
pub open spec fn spec_sum_shares(hs: Seq<HolderV>) -> int
    decreases hs.len(),
{
    if hs.len() == 0 {
        0
    } else {
        spec_sum_shares(hs.drop_last()) + hs.last().share
    }
}

/// No two entries of a holder list name the same owner.
pub open spec fn spec_distinct_holders(hs: Seq<HolderV>) -> bool {
    forall|i: int, j: int| 0 <= i < j < hs.len() ==> hs[i].addr != hs[j].addr
}

/// Updating one entry moves the sum by the difference.
proof fn lemma_sum_update(hs: Seq<HolderV>, j: int, v: HolderV)
    requires
        0 <= j < hs.len(),
    ensures
        spec_sum_shares(hs.update(j, v)) == spec_sum_shares(hs) - hs[j].share + v.share,
    decreases hs.len(),
{
    let t = hs.update(j, v);
    if j == hs.len() - 1 {
        assert(t.drop_last() =~= hs.drop_last());
    } else {
        assert(t.drop_last() =~= hs.drop_last().update(j, v));
        lemma_sum_update(hs.drop_last(), j, v);
        assert(t.last() == hs.last());
    }
}

/// Every share of a holder list with non-negative shares is at most the
/// sum.
proof fn lemma_share_le_sum(hs: Seq<HolderV>, j: int)
    requires
        0 <= j < hs.len(),
        forall|k: int| 0 <= k < hs.len() ==> #[trigger] hs[k].share >= 0,
    ensures
        hs[j].share <= spec_sum_shares(hs),
        spec_sum_shares(hs) >= 0,
    decreases hs.len(),
{
    if hs.len() > 0 {
        if j == hs.len() - 1 {
            lemma_sum_nonneg(hs.drop_last());
        } else {
            lemma_share_le_sum(hs.drop_last(), j);
        }
    }
}

/// A holder list with non-negative shares has a non-negative sum.
proof fn lemma_sum_nonneg(hs: Seq<HolderV>)
    requires
        forall|k: int| 0 <= k < hs.len() ==> #[trigger] hs[k].share >= 0,
    ensures
        spec_sum_shares(hs) >= 0,
    decreases hs.len(),
{
    if hs.len() > 0 {
        lemma_sum_nonneg(hs.drop_last());
    }
}

/// The standing facts about the holder list of any owner sequence: owners
/// are distinct, every share is at least one whole weight, the shares sum
/// to the total, and the total is bounded by two whole weights per item.
pub proof fn lemma_holders_invariants(owners: Seq<Option<Seq<char>>>)
    ensures
        spec_distinct_holders(spec_holders(owners)),
        forall|k: int|
            0 <= k < spec_holders(owners).len() ==> #[trigger] spec_holders(owners)[k].share
                >= DECIMAL_FRACTIONAL,
        spec_sum_shares(spec_holders(owners)) == spec_total_shares(owners),
        spec_total_shares(owners) <= 2_000_000_000_000_000_000 * owners.len(),
        spec_holders(owners).len() == 0 <==> spec_total_shares(owners) == 0,
    decreases owners.len(),
{
    if owners.len() > 0 {
        let dl = owners.drop_last();
        lemma_holders_invariants(dl);
        let prev = spec_holders(dl);
        match owners.last() {
            Some(w) => {
                let add = spec_share_atomics(owners.len() as int);
                if exists|j: int| 0 <= j < prev.len() && prev[j].addr == w {
                    let j = choose|j: int| 0 <= j < prev.len() && prev[j].addr == w;
                    let v = HolderV { addr: w, share: prev[j].share + add };
                    lemma_sum_update(prev, j, v);
                    assert(spec_holders(owners) == prev.update(j, v));
                    assert forall|x: int, y: int|
                        0 <= x < y < spec_holders(owners).len() implies spec_holders(
                        owners,
                    )[x].addr != spec_holders(owners)[y].addr by {
                        assert(prev[x].addr != prev[y].addr);
                    }
                } else {
                    assert(spec_holders(owners) == prev.push(HolderV { addr: w, share: add }));
                    assert(spec_holders(owners).drop_last() =~= prev);
                }
            },
            None => {},
        }
    }
    let hs = spec_holders(owners);
    if hs.len() > 0 {
        assert forall|k: int| 0 <= k < hs.len() implies #[trigger] hs[k].share >= 0 by {
            assert(hs[k].share >= DECIMAL_FRACTIONAL);
        }
        lemma_share_le_sum(hs, 0);
        assert(spec_total_shares(owners) >= hs[0].share);
    }
}

/// The entry of one owner in a holder list, if there is one.
fn find_holder_index(hs: &Vec<HolderShare>, addr: &String) -> (r: Option<usize>)
    ensures
        r matches Some(i) ==> i < hs.len() && hs@[i as int].addr@ == addr@,
        r is None ==> forall|k: int| 0 <= k < hs.len() ==> hs@[k].addr@ != addr@,
{
    let n = hs.len();
    let mut i: usize = 0;
    while i < n
        invariant
            i <= n,
            n == hs.len(),
            forall|k: int| 0 <= k < i ==> hs@[k].addr@ != addr@,
        decreases n - i,
    {
        if hs[i].addr == *addr {
            return Some(i);
        }
        i = i + 1;
    }
    None
}

/// Resolve the holder list from the owners of the collection items.
///
/// Entry `i` of `owners` is the current owner of item `i + 1`, or `None`
/// when the item is unowned; unowned items are skipped, not an error.
/// Each owner is aggregated, in order of first appearance, with the tier
/// weights of the items it holds; the total weight comes back beside the
/// list.
#[verifier::loop_isolation(false)]
pub fn get_holders_list(owners: &Vec<Option<String>>) -> (r: Result<
    (Decimal, Vec<HolderShare>),
    ContractError,
>)
    requires
        owners.len() == COLLECTION_SIZE,
    ensures
        r matches Ok(p) && p.0.atomics == spec_total_shares(owners.deep_view())
            && p.1.deep_view() == spec_holders(owners.deep_view()),
{
    let ghost ov = owners.deep_view();
    let mut total_shares = Decimal::zero();
    let mut holders: Vec<HolderShare> = Vec::new();
    let n = owners.len();
    let mut i: usize = 0;
    proof {
        assert(ov.take(0) =~= Seq::<Option<Seq<char>>>::empty());
    }
    while i < n
        invariant
            i <= n,
            total_shares.atomics == spec_total_shares(ov.take(i as int)),
            holders.deep_view() == spec_holders(ov.take(i as int)),
        decreases n - i,
    {
        proof {
            assert(ov.take(i + 1).drop_last() =~= ov.take(i as int));
            lemma_holders_invariants(ov.take(i as int));
        }
        match &owners[i] {
            Some(w) => {
                proof {
                    assert(ov[i as int] == Some(w@));
                }
                let num = (i as u32) + 1;
                let share = match get_share(num) {
                    Ok(s) => s,
                    Err(e) => {
                        return Err(e);
                    },
                };
                let ghost hs0 = holders.deep_view();
                match find_holder_index(&holders, w) {
                    Some(j) => {
                        proof {
                            assert(hs0[j as int].addr == w@);
                            lemma_share_le_sum(hs0, j as int);
                            lemma_mul_inequality(
                                i as int,
                                COLLECTION_SIZE as int,
                                2_000_000_000_000_000_000,
                            );
                        }
                        let bumped = Decimal {
                            atomics: holders[j].share.atomics + share.atomics,
                        };
                        let entry = HolderShare { addr: w.clone(), share: bumped };
                        holders.set(j, entry);
                        proof {
                            let j2 = choose|j2: int|
                                0 <= j2 < hs0.len() && hs0[j2].addr == w@;
                            if j2 < j as int {
                                assert(hs0[j2].addr != hs0[j as int].addr);
                            } else if j2 > j as int {
                                assert(hs0[j as int].addr != hs0[j2].addr);
                            }
                            assert(j2 == j as int);
                            assert(holders.deep_view() =~= spec_upsert(
                                hs0,
                                w@,
                                spec_share_atomics(i + 1),
                            ));
                        }
                    },
                    None => {
                        let entry = HolderShare { addr: w.clone(), share };
                        holders.push(entry);
                        proof {
                            assert(holders.deep_view() =~= spec_upsert(
                                hs0,
                                w@,
                                spec_share_atomics(i + 1),
                            ));
                        }
                    },
                }
                proof {
                    lemma_mul_inequality(
                        i as int,
                        COLLECTION_SIZE as int,
                        2_000_000_000_000_000_000,
                    );
                }
                total_shares = Decimal { atomics: total_shares.atomics + share.atomics };
            },
            None => {
                proof {
                    assert(ov[i as int] is None);
                }
            },
        }
        i = i + 1;
    }
    proof {
        assert(ov.take(n as int) =~= ov);
    }
    Ok((total_shares, holders))
}

/// One holder's payout: its share of the per-unit fee, rounded down twice
/// exactly as the fixed-point operations round.
pub open spec fn spec_holder_payout(fpt: int, share: int) -> int {
    ((fpt * share) / (DECIMAL_FRACTIONAL as int)) / (DECIMAL_FRACTIONAL as int)
}

/// The payout intents for a holder list, in list order, skipping holders
/// whose payout rounds to nothing.
pub open spec fn spec_holder_payments(hs: Seq<HolderV>, fpt: int, denom: Seq<char>) -> Seq<PaymentV>
    decreases hs.len(),
{
    if hs.len() == 0 {
        Seq::empty()
    } else {
        let prev = spec_holder_payments(hs.drop_last(), fpt, denom);
        let p = spec_holder_payout(fpt, hs.last().share);
        if p != 0 {
            prev.push(PaymentV { to_address: hs.last().addr, amount: p as u128, denom })
        } else {
            prev
        }
    }
}

/// The total paid to a holder list, zero payouts included.
pub open spec fn spec_paid_to_holders(hs: Seq<HolderV>, fpt: int) -> int
    decreases hs.len(),
{
    if hs.len() == 0 {
        0
    } else {
        spec_paid_to_holders(hs.drop_last(), fpt) + spec_holder_payout(fpt, hs.last().share)
    }
}

/// Partial sums of a non-negative holder list never exceed the full sum.
proof fn lemma_sum_take_le(hs: Seq<HolderV>, k: int)
    requires
        0 <= k <= hs.len(),
        forall|x: int| 0 <= x < hs.len() ==> #[trigger] hs[x].share >= 0,
    ensures
        spec_sum_shares(hs.take(k)) <= spec_sum_shares(hs),
    decreases hs.len() - k,
{
    if k == hs.len() {
        assert(hs.take(k) =~= hs);
    } else {
        lemma_sum_take_le(hs, k + 1);
        assert(hs.take(k + 1).drop_last() =~= hs.take(k));
        assert(hs.take(k + 1).last() == hs[k]);
    }
}

/// The bounds one holder payout respects: it stays within the machine and,
/// scaled back up, within the per-unit fee times the share.
proof fn lemma_payout_bound(fpt: int, s: int, total: int, hfee: int)
    requires
        0 <= fpt,
        0 <= s <= total,
        0 <= hfee,
        fpt * total <= hfee * (DECIMAL_FRACTIONAL as int) * (DECIMAL_FRACTIONAL as int),
    ensures
        0 <= (fpt * s) / (DECIMAL_FRACTIONAL as int) <= hfee * DECIMAL_FRACTIONAL,
        0 <= spec_holder_payout(fpt, s),
        spec_holder_payout(fpt, s) * ((DECIMAL_FRACTIONAL as int) * (DECIMAL_FRACTIONAL as int))
            <= fpt * s,
{
    let df = DECIMAL_FRACTIONAL as int;
    lemma_mul_inequality(s, total, fpt);
    lemma_mul_nonnegative(fpt, s);
    lemma_div_is_ordered(fpt * s, fpt * total, df);
    lemma_div_is_ordered(0, fpt * s, df);
    assert((hfee * df * df) / df == hfee * df) by {
        vstd::arithmetic::div_mod::lemma_div_by_multiple(hfee * df, df);
    }
    let q1 = (fpt * s) / df;
    let p = q1 / df;
    lemma_fundamental_div_mod(fpt * s, df);
    lemma_mod_division_less_than_divisor(fpt * s, df);
    lemma_fundamental_div_mod(q1, df);
    lemma_mod_division_less_than_divisor(q1, df);
    lemma_div_is_ordered(0, q1, df);
    assert(p * df <= q1);
    lemma_mul_inequality(p * df, q1, df);
    assert(p * (df * df) == (p * df) * df) by {
        vstd::arithmetic::mul::lemma_mul_is_associative(p, df, df);
    }
    assert(q1 * df <= fpt * s) by {
        vstd::arithmetic::mul::lemma_mul_is_commutative(df, q1);
    }
}

/// Build the payout intents for a holder list against a per-unit fee.
///
/// Each holder receives its share times the per-unit fee, rounded down;
/// holders whose payout rounds to nothing get no transfer but still count
/// toward the total.  The total paid never exceeds the holder part of the
/// pool the per-unit fee was derived from.
#[verifier::loop_isolation(false)]
fn holder_payouts(
    holders: &Vec<HolderShare>,
    fees_per_token: Decimal,
    denom: &String,
    Ghost(total_at): Ghost<int>,
    Ghost(hfee): Ghost<int>,
) -> (r: (Vec<Payment>, u128))
    requires
        0 <= hfee,
        hfee * DECIMAL_FRACTIONAL <= u128::MAX,
        forall|k: int|
            0 <= k < holders.len() ==> 0 <= #[trigger] holders.deep_view()[k].share <= total_at,
        spec_sum_shares(holders.deep_view()) <= total_at,
        fees_per_token.atomics * total_at <= hfee * (DECIMAL_FRACTIONAL as int) * (
        DECIMAL_FRACTIONAL as int),
    ensures
        r.0.deep_view() == spec_holder_payments(
            holders.deep_view(),
            fees_per_token.atomics as int,
            denom@,
        ),
        r.1 == spec_paid_to_holders(holders.deep_view(), fees_per_token.atomics as int),
        r.1 <= hfee,
{
    let ghost hs = holders.deep_view();
    let ghost fpt = fees_per_token.atomics as int;
    let ghost df = DECIMAL_FRACTIONAL as int;
    let n = holders.len();
    let mut msgs: Vec<Payment> = Vec::new();
    let mut paid: u128 = 0;
    let mut k: usize = 0;
    proof {
        assert(hs.take(0) =~= Seq::<HolderV>::empty());
        lemma_mul_nonnegative(fpt, spec_sum_shares(hs.take(0)));
    }
    while k < n
        invariant
            k <= n,
            paid == spec_paid_to_holders(hs.take(k as int), fpt),
            msgs.deep_view() == spec_holder_payments(hs.take(k as int), fpt, denom@),
            paid * (df * df) <= fpt * spec_sum_shares(hs.take(k as int)),
            paid <= hfee,
        decreases n - k,
    {
        proof {
            assert(hs.take(k + 1).drop_last() =~= hs.take(k as int));
            assert(hs.take(k + 1).last() == hs[k as int]);
            lemma_payout_bound(fpt, hs[k as int].share, total_at, hfee);
            lemma_sum_take_le(hs, k + 1);
        }
        let amount_d = match fees_per_token.checked_mul(holders[k].share) {
            Ok(d) => d,
            Err(_) => {
                proof {
                    assert(false);
                }
                return (msgs, paid);
            },
        };
        let amount = amount_d.to_uint_floor();
        proof {
            assert(amount == spec_holder_payout(fpt, hs[k as int].share));
            let s_k = hs[k as int].share;
            let sum_k = spec_sum_shares(hs.take(k as int));
            let sum_k1 = spec_sum_shares(hs.take(k + 1));
            assert(sum_k1 == sum_k + s_k);
            assert(fpt * sum_k1 == fpt * sum_k + fpt * s_k) by {
                vstd::arithmetic::mul::lemma_mul_is_distributive_add(fpt, sum_k, s_k);
            }
            assert((paid + amount) * (df * df) == paid * (df * df) + amount * (df * df)) by {
                lemma_mul_is_distributive_add_other_way(df * df, paid as int, amount as int);
            }
            assert((paid + amount) * (df * df) <= fpt * sum_k1);
            assert(fpt * sum_k1 <= fpt * total_at) by {
                lemma_mul_inequality(sum_k1, total_at, fpt);
            }
            if paid + amount > hfee {
                lemma_mul_inequality(hfee + 1, paid + amount, df * df);
                assert(false);
            }
        }
        if amount != 0 {
            let ghost msgs0 = msgs.deep_view();
            msgs.push(
                Payment { to_address: holders[k].addr.clone(), amount, denom: denom.clone() },
            );
            proof {
                assert(msgs.deep_view() =~= msgs0.push(
                    (PaymentV { to_address: hs[k as int].addr, amount, denom: denom@ }),
                ));
            }
        }
        paid = paid + amount;
        k = k + 1;
    }
    proof {
        assert(hs.take(n as int) =~= hs);
    }
    (msgs, paid)
}

/// The team's part of the pool.
pub open spec fn spec_team_share(config: Config, total: u128) -> int {
    if config.sg721_addr is Some {
        spec_fee_part(total, config.fees.team_bps)
    } else {
        (total / 2) as int
    }
}

/// The holders' part of the pool; nothing without a collection.
pub open spec fn spec_holders_share(config: Config, total: u128) -> int {
    if config.sg721_addr is Some {
        spec_fee_part(total, config.fees.holders_bps)
    } else {
        0
    }
}

/// The reserve's part of the pool, before the solvency adjustment.
pub open spec fn spec_reserve_share(config: Config, total: u128) -> int {
    if config.sg721_addr is Some {
        spec_fee_part(total, config.fees.reserve_bps)
    } else {
        (total / 2) as int
    }
}

/// The per-unit fee in atomics: the holder part spread over the total
/// shares, rounded down.
pub open spec fn spec_fpt_atomics(hfee: int, total_shares: int) -> int {
    (hfee * DECIMAL_FRACTIONAL * DECIMAL_FRACTIONAL) / total_shares
}

/// The transfers a distribution emits: the holder payouts in list order,
/// then the team's, then the reserve's if it gets anything.
pub open spec fn spec_dist_msgs(
    holder_msgs: Seq<PaymentV>,
    config: Config,
    team: u128,
    radj: u128,
) -> Seq<PaymentV> {
    let with_team = holder_msgs.push(
        PaymentV { to_address: config.wallets.team@, amount: team, denom: config.denoms[0]@ },
    );
    if radj > 0 {
        with_team.push(
            PaymentV {
                to_address: config.wallets.reserve@,
                amount: radj,
                denom: config.denoms[0]@,
            },
        )
    } else {
        with_team
    }
}

/// Everything a distribution leaves alone.
pub open spec fn spec_dist_unchanged(a: FlipState, b: FlipState) -> bool {
    &&& b.config == a.config
    &&& b.flips == a.flips
    &&& b.todo_flips == a.todo_flips
    &&& b.scores == a.scores
    &&& b.flip_id == a.flip_id
}

/// The checks a distribution passes before any payout is computed.
pub open spec fn spec_dist_base_ok(state: FlipState, balance: u128) -> bool {
    &&& state.fees > DUST_THRESHOLD
    &&& (state.config.sg721_addr is Some ==> spec_fees_fit(state.config.fees, state.fees))
    &&& balance >= state.fees
}

/// Sweep the fee pool.
///
/// The pool is split into team, holder and reserve parts; the reserve part
/// shrinks to keep the bank at its floor; the holder part is spread over
/// the owners of the collection items by tier weight, rounded down per
/// holder.  The pool then shrinks by exactly what is paid; what rounding
/// leaves behind stays in the pool.  A dust pool, a pool above the actual
/// balance, or arithmetic out of range all fail with no state change.
#[verifier::loop_isolation(false)]
pub fn distribute(state: &mut FlipState, balance: u128, owners: &Vec<Option<String>>) -> (r: Result<
    Vec<Payment>,
    ContractError,
>)
    requires
        old(state).wf(),
        old(state).config.sg721_addr is Some ==> owners.len() == COLLECTION_SIZE,
    ensures
        r is Err ==> *final(state) == *old(state),
        old(state).fees <= DUST_THRESHOLD ==> r == Err::<Vec<Payment>, ContractError>(
            ContractError::NoFeesToPay,
        ),
        old(state).fees > DUST_THRESHOLD && old(state).config.sg721_addr is Some
            && !spec_fees_fit(old(state).config.fees, old(state).fees) ==> r == Err::<
            Vec<Payment>,
            ContractError,
        >(ContractError::Overflow),
        old(state).fees > DUST_THRESHOLD && (old(state).config.sg721_addr is Some
            ==> spec_fees_fit(old(state).config.fees, old(state).fees)) && balance < old(
            state,
        ).fees ==> r == Err::<Vec<Payment>, ContractError>(ContractError::NotEnoughFundsToPayFees),
        spec_dist_base_ok(*old(state), balance) ==> ({
            let total = old(state).fees;
            let cfg = old(state).config;
            let team = spec_team_share(cfg, total);
            let hfee = spec_holders_share(cfg, total);
            let radj = spec_reserve_payout(
                balance,
                total,
                spec_reserve_share(cfg, total) as u128,
                cfg.bank_limit,
            );
            let ov = owners.deep_view();
            let tsh = spec_total_shares(ov);
            if hfee > 0 {
                if hfee * DECIMAL_FRACTIONAL > u128::MAX {
                    r == Err::<Vec<Payment>, ContractError>(ContractError::Overflow)
                } else if tsh == 0 {
                    r == Err::<Vec<Payment>, ContractError>(ContractError::DivideByZero)
                } else {
                    let fpt = spec_fpt_atomics(hfee, tsh);
                    let paid = spec_paid_to_holders(spec_holders(ov), fpt);
                    if paid + team + radj > total {
                        r == Err::<Vec<Payment>, ContractError>(ContractError::Overflow)
                    } else {
                        &&& r matches Ok(msgs) && msgs.deep_view() == spec_dist_msgs(
                            spec_holder_payments(spec_holders(ov), fpt, cfg.denoms[0]@),
                            cfg,
                            team as u128,
                            radj as u128,
                        )
                        &&& final(state).fees == total - paid - team - radj
                        &&& spec_dist_unchanged(*old(state), *final(state))
                        &&& final(state).wf()
                    }
                }
            } else {
                if team + radj > total {
                    r == Err::<Vec<Payment>, ContractError>(ContractError::Overflow)
                } else {
                    &&& r matches Ok(msgs) && msgs.deep_view() == spec_dist_msgs(
                        Seq::empty(),
                        cfg,
                        team as u128,
                        radj as u128,
                    )
                    &&& final(state).fees == total - team - radj
                    &&& spec_dist_unchanged(*old(state), *final(state))
                    &&& final(state).wf()
                }
            }
        }),
{
    let ghost ov = owners.deep_view();
    let total_fees = state.fees;
    let fees_to_pay = match calculate_fees_to_pay(&state.config, total_fees) {
        Ok(f) => f,
        Err(e) => {
            return Err(e);
        },
    };
    let reserve_to_send = match verify_contract_balance(
        balance,
        total_fees,
        fees_to_pay.reserve,
        state.config.bank_limit,
    ) {
        Ok(v) => v,
        Err(e) => {
            return Err(e);
        },
    };
    let mut msgs: Vec<Payment> = Vec::new();
    let mut paid_to_holders: u128 = 0;
    if fees_to_pay.holders > 0 {
        let pair = match get_holders_list(owners) {
            Ok(p) => p,
            Err(e) => {
                return Err(e);
            },
        };
        let total_shares = pair.0;
        let holders_list = pair.1;
        let fpt_dec = match Decimal::from_int(fees_to_pay.holders) {
            Ok(d) => d,
            Err(e) => {
                return Err(e);
            },
        };
        proof {
            lemma_holders_invariants(ov);
            lemma_mul_inequality(ov.len() as int, COLLECTION_SIZE as int, 2_000_000_000_000_000_000)
            ;
            vstd::arithmetic::mul::lemma_mul_is_commutative(2_000_000_000_000_000_000, ov.len() as int);
            if total_shares.atomics != 0 {
                let hs0 = spec_holders(ov);
                assert forall|k: int| 0 <= k < hs0.len() implies #[trigger] hs0[k].share >= 0 by {
                    assert(hs0[k].share >= DECIMAL_FRACTIONAL);
                }
                lemma_share_le_sum(hs0, 0);
                assert(total_shares.atomics >= DECIMAL_FRACTIONAL);
                let hfee18 = fees_to_pay.holders * DECIMAL_FRACTIONAL;
                vstd::arithmetic::div_mod::lemma_div_is_ordered_by_denominator(
                    hfee18 * DECIMAL_FRACTIONAL,
                    DECIMAL_FRACTIONAL as int,
                    total_shares.atomics as int,
                );
                vstd::arithmetic::div_mod::lemma_div_by_multiple(
                    hfee18,
                    DECIMAL_FRACTIONAL as int,
                );
                lemma_mul_nonnegative(hfee18, DECIMAL_FRACTIONAL as int);
            }
        }
        let fees_per_token = match fpt_dec.checked_div(total_shares) {
            Ok(d) => d,
            Err(e) => {
                return Err(e);
            },
        };
        proof {
            let hs = spec_holders(ov);
            assert forall|k: int| 0 <= k < holders_list.len() implies 0
                <= #[trigger] holders_list.deep_view()[k].share
                <= total_shares.atomics as int by {
                lemma_share_le_sum(hs, k);
            }
            lemma_fundamental_div_mod(
                fees_to_pay.holders * DECIMAL_FRACTIONAL * DECIMAL_FRACTIONAL,
                total_shares.atomics as int,
            );
            lemma_mod_division_less_than_divisor(
                fees_to_pay.holders * DECIMAL_FRACTIONAL * DECIMAL_FRACTIONAL,
                total_shares.atomics as int,
            );
            lemma_mul_inequality(
                fees_per_token.atomics as int,
                spec_fpt_atomics(fees_to_pay.holders as int, total_shares.atomics as int),
                total_shares.atomics as int,
            );
            vstd::arithmetic::mul::lemma_mul_is_commutative(
                total_shares.atomics as int,
                spec_fpt_atomics(fees_to_pay.holders as int, total_shares.atomics as int),
            );
        }
        let denom0 = state.config.denoms[0].clone();
        let pair2 = holder_payouts(
            &holders_list,
            fees_per_token,
            &denom0,
            Ghost(total_shares.atomics as int),
            Ghost(fees_to_pay.holders as int),
        );
        msgs = pair2.0;
        paid_to_holders = pair2.1;
        proof {
            assert(denom0@ == old(state).config.denoms[0]@);
        }
    } else {
        proof {
            assert(msgs.deep_view() =~= Seq::<PaymentV>::empty());
        }
    }
    let ghost msgs_h = msgs.deep_view();
    msgs.push(
        Payment {
            to_address: state.config.wallets.team.clone(),
            amount: fees_to_pay.team,
            denom: state.config.denoms[0].clone(),
        },
    );
    proof {
        assert(msgs.deep_view() =~= msgs_h.push(
            (PaymentV {
                to_address: old(state).config.wallets.team@,
                amount: fees_to_pay.team,
                denom: old(state).config.denoms[0]@,
            }),
        ));
    }
    if reserve_to_send > 0 {
        let ghost msgs_t = msgs.deep_view();
        msgs.push(
            Payment {
                to_address: state.config.wallets.reserve.clone(),
                amount: reserve_to_send,
                denom: state.config.denoms[0].clone(),
            },
        );
        proof {
            assert(msgs.deep_view() =~= msgs_t.push(
                (PaymentV {
                    to_address: old(state).config.wallets.reserve@,
                    amount: reserve_to_send,
                    denom: old(state).config.denoms[0]@,
                }),
            ));
        }
    }
    let r1 = match total_fees.checked_sub(paid_to_holders) {
        Some(v) => v,
        None => {
            return Err(ContractError::Overflow);
        },
    };
    let r2 = match r1.checked_sub(fees_to_pay.team) {
        Some(v) => v,
        None => {
            return Err(ContractError::Overflow);
        },
    };
    let remaining = match r2.checked_sub(reserve_to_send) {
        Some(v) => v,
        None => {
            return Err(ContractError::Overflow);
        },
    };
    state.fees = remaining;
    Ok(msgs)
}

/// Compute a full distribution without mutating anything or emitting
/// transfers: the same splits, the same adjustment, the same per-holder
/// arithmetic, reported instead of performed.
#[verifier::loop_isolation(false)]
pub fn dry_distribution(state: &FlipState, balance: u128, owners: &Vec<Option<String>>) -> (r:
    Result<crate::msg::DryDistributionResponse, ContractError>)
    requires
        state.wf(),
        state.config.sg721_addr is Some ==> owners.len() == COLLECTION_SIZE,
    ensures
        state.fees <= DUST_THRESHOLD ==> (r matches Err(e) && e == ContractError::NoFeesToPay),
        state.fees > DUST_THRESHOLD && state.config.sg721_addr is Some && !spec_fees_fit(
            state.config.fees,
            state.fees,
        ) ==> (r matches Err(e) && e == ContractError::Overflow),
        state.fees > DUST_THRESHOLD && (state.config.sg721_addr is Some ==> spec_fees_fit(
            state.config.fees,
            state.fees,
        )) && balance < state.fees ==> (r matches Err(e) && e
            == ContractError::NotEnoughFundsToPayFees),
        spec_dist_base_ok(*state, balance) ==> ({
            let total = state.fees;
            let cfg = state.config;
            let team = spec_team_share(cfg, total);
            let hfee = spec_holders_share(cfg, total);
            let radj = spec_reserve_payout(
                balance,
                total,
                spec_reserve_share(cfg, total) as u128,
                cfg.bank_limit,
            );
            let ov = owners.deep_view();
            let tsh = spec_total_shares(ov);
            if hfee > 0 {
                if hfee * DECIMAL_FRACTIONAL > u128::MAX {
                    (r matches Err(e) && e == ContractError::Overflow)
                } else if tsh == 0 {
                    (r matches Err(e) && e == ContractError::DivideByZero)
                } else {
                    let fpt = spec_fpt_atomics(hfee, tsh);
                    &&& r matches Ok(resp)
                    &&& resp.total_fees == total
                    &&& resp.team_total_fee == team
                    &&& resp.reserve_total_fee == radj
                    &&& resp.holders_total_fee == hfee
                    &&& resp.holders_total_shares.atomics == tsh
                    &&& resp.fees_per_token.atomics == fpt
                    &&& resp.pay_to_holders == spec_paid_to_holders(spec_holders(ov), fpt)
                    &&& resp.number_of_holders == spec_holders(ov).len()
                }
            } else {
                &&& r matches Ok(resp)
                &&& resp.total_fees == total
                &&& resp.team_total_fee == team
                &&& resp.reserve_total_fee == radj
                &&& resp.holders_total_fee == 0
                &&& resp.holders_total_shares.atomics == 0
                &&& resp.fees_per_token.atomics == 0
                &&& resp.pay_to_holders == 0
                &&& resp.number_of_holders == 0
            }
        }),
{
    let ghost ov = owners.deep_view();
    let total_fees = state.fees;
    let fees_to_pay = match calculate_fees_to_pay(&state.config, total_fees) {
        Ok(f) => f,
        Err(e) => {
            return Err(e);
        },
    };
    let reserve_to_send = match verify_contract_balance(
        balance,
        total_fees,
        fees_to_pay.reserve,
        state.config.bank_limit,
    ) {
        Ok(v) => v,
        Err(e) => {
            return Err(e);
        },
    };
    let mut paid_to_holders: u128 = 0;
    let mut total_shares = Decimal::zero();
    let mut fees_per_token = Decimal::zero();
    let mut number_of_holders: u64 = 0;
    if fees_to_pay.holders > 0 {
        let pair = match get_holders_list(owners) {
            Ok(p) => p,
            Err(e) => {
                return Err(e);
            },
        };
        total_shares = pair.0;
        let holders_list = pair.1;
        number_of_holders = holders_list.len() as u64;
        let fpt_dec = match Decimal::from_int(fees_to_pay.holders) {
            Ok(d) => d,
            Err(e) => {
                return Err(e);
            },
        };
        proof {
            lemma_holders_invariants(ov);
            lemma_mul_inequality(ov.len() as int, COLLECTION_SIZE as int, 2_000_000_000_000_000_000)
            ;
            vstd::arithmetic::mul::lemma_mul_is_commutative(
                2_000_000_000_000_000_000,
                ov.len() as int,
            );
            if total_shares.atomics != 0 {
                let hs0 = spec_holders(ov);
                assert forall|k: int| 0 <= k < hs0.len() implies #[trigger] hs0[k].share >= 0 by {
                    assert(hs0[k].share >= DECIMAL_FRACTIONAL);
                }
                lemma_share_le_sum(hs0, 0);
                assert(total_shares.atomics >= DECIMAL_FRACTIONAL);
                let hfee18 = fees_to_pay.holders * DECIMAL_FRACTIONAL;
                vstd::arithmetic::div_mod::lemma_div_is_ordered_by_denominator(
                    hfee18 * DECIMAL_FRACTIONAL,
                    DECIMAL_FRACTIONAL as int,
                    total_shares.atomics as int,
                );
                vstd::arithmetic::div_mod::lemma_div_by_multiple(
                    hfee18,
                    DECIMAL_FRACTIONAL as int,
                );
                lemma_mul_nonnegative(hfee18, DECIMAL_FRACTIONAL as int);
            }
        }
        fees_per_token = match fpt_dec.checked_div(total_shares) {
            Ok(d) => d,
            Err(e) => {
                return Err(e);
            },
        };
        proof {
            let hs = spec_holders(ov);
            assert forall|k: int| 0 <= k < holders_list.len() implies 0
                <= #[trigger] holders_list.deep_view()[k].share
                <= total_shares.atomics as int by {
                lemma_share_le_sum(hs, k);
            }
            lemma_fundamental_div_mod(
                fees_to_pay.holders * DECIMAL_FRACTIONAL * DECIMAL_FRACTIONAL,
                total_shares.atomics as int,
            );
            lemma_mod_division_less_than_divisor(
                fees_to_pay.holders * DECIMAL_FRACTIONAL * DECIMAL_FRACTIONAL,
                total_shares.atomics as int,
            );
            lemma_mul_inequality(
                fees_per_token.atomics as int,
                spec_fpt_atomics(fees_to_pay.holders as int, total_shares.atomics as int),
                total_shares.atomics as int,
            );
            vstd::arithmetic::mul::lemma_mul_is_commutative(
                total_shares.atomics as int,
                spec_fpt_atomics(fees_to_pay.holders as int, total_shares.atomics as int),
            );
        }
        let denom0 = state.config.denoms[0].clone();
        let pair2 = holder_payouts(
            &holders_list,
            fees_per_token,
            &denom0,
            Ghost(total_shares.atomics as int),
            Ghost(fees_to_pay.holders as int),
        );
        paid_to_holders = pair2.1;
    }
    Ok(
        crate::msg::DryDistributionResponse {
            total_fees,
            team_total_fee: fees_to_pay.team,
            reserve_total_fee: reserve_to_send,
            holders_total_fee: fees_to_pay.holders,
            holders_total_shares: total_shares,
            fees_per_token,
            pay_to_holders: paid_to_holders,
            number_of_holders,
        },
    )
}

} // verus!
