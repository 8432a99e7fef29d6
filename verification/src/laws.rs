//! The standing laws of the engine, stated and proved on their own, so a
//! reader can see them without tracing any one operation's contract.

use crate::contract::spec_last5;
use crate::decimal::DECIMAL_FRACTIONAL;
use crate::state::{FlipState, FLIPS_HISTORY_LIMIT};
use crate::sudo::{
    lemma_holders_invariants, spec_fpt_atomics, spec_holder_payout, spec_holders,
    spec_paid_to_holders, spec_reserve_payout, spec_sum_shares, spec_total_shares, HolderV,
};
use crate::types::{spec_streak_update, Streak};
use vstd::arithmetic::div_mod::{
    lemma_div_pos_is_pos, lemma_fundamental_div_mod, lemma_mod_division_less_than_divisor,
};
use vstd::arithmetic::mul::{
    lemma_mul_inequality, lemma_mul_is_associative, lemma_mul_is_commutative,
    lemma_mul_is_distributive_add, lemma_mul_nonnegative,
};
use vstd::prelude::*;

verus! {

/// The streak law: an equal result extends the run by one, a different
/// result restarts it at one, whenever the counter has room to grow.
pub proof fn lemma_streak_update_law(s: Streak, result: bool)
    requires
        s.amount < u32::MAX,
    ensures
        result == s.result ==> spec_streak_update(s, result) == (Streak {
            amount: (s.amount + 1) as u32,
            result,
        }),
        result != s.result ==> spec_streak_update(s, result) == (Streak { amount: 1, result }),
{
}

/// The result history law: trimming keeps at most the retention limit,
/// and what it keeps is exactly the newest entries, so the oldest leave
/// first.
pub proof fn lemma_history_bound(s: Seq<crate::types::FlipV>)
    ensures
        spec_last5(s).len() <= FLIPS_HISTORY_LIMIT,
        s.len() >= FLIPS_HISTORY_LIMIT ==> spec_last5(s) == s.skip(
            s.len() - FLIPS_HISTORY_LIMIT,
        ),
        s.len() <= FLIPS_HISTORY_LIMIT ==> spec_last5(s) == s,
{
    if s.len() >= FLIPS_HISTORY_LIMIT {
        assert(spec_last5(s) =~= s.skip(s.len() - FLIPS_HISTORY_LIMIT));
    }
}

/// The pending-wager law: a well-formed state holds at most one pending
/// wager per account.
pub proof fn lemma_unique_pending(state: FlipState)
    requires
        state.wf(),
    ensures
        forall|i: int, j: int|
            0 <= i < j < state.todo_flips.len() ==> state.todo_flips[i].wallet@
                != state.todo_flips[j].wallet@,
{
}

/// One rounded payout, scaled back up, never exceeds the exact product of
/// per-unit fee and share.
proof fn lemma_payout_scaled(fpt: int, s: int)
    requires
        0 <= fpt,
        0 <= s,
    ensures
        0 <= spec_holder_payout(fpt, s),
        spec_holder_payout(fpt, s) * ((DECIMAL_FRACTIONAL as int) * (DECIMAL_FRACTIONAL as int))
            <= fpt * s,
{
    let df = DECIMAL_FRACTIONAL as int;
    lemma_mul_nonnegative(fpt, s);
    let q1 = (fpt * s) / df;
    let p = q1 / df;
    lemma_fundamental_div_mod(fpt * s, df);
    lemma_mod_division_less_than_divisor(fpt * s, df);
    lemma_div_pos_is_pos(fpt * s, df);
    lemma_fundamental_div_mod(q1, df);
    lemma_mod_division_less_than_divisor(q1, df);
    lemma_div_pos_is_pos(q1, df);
    assert(p * df <= q1);
    lemma_mul_inequality(p * df, q1, df);
    lemma_mul_is_associative(p, df, df);
    assert(q1 * df <= fpt * s) by {
        lemma_mul_is_commutative(df, q1);
    }
}

/// The total paid to a holder list, scaled back up, never exceeds the
/// per-unit fee times the total of the shares.
proof fn lemma_paid_scaled(hs: Seq<HolderV>, fpt: int)
    requires
        0 <= fpt,
        forall|k: int| 0 <= k < hs.len() ==> #[trigger] hs[k].share >= 0,
    ensures
        0 <= spec_paid_to_holders(hs, fpt),
        spec_paid_to_holders(hs, fpt) * ((DECIMAL_FRACTIONAL as int) * (DECIMAL_FRACTIONAL as int))
            <= fpt * spec_sum_shares(hs),
    decreases hs.len(),
{
    let df = DECIMAL_FRACTIONAL as int;
    if hs.len() == 0 {
        lemma_mul_nonnegative(fpt, spec_sum_shares(hs));
    } else {
        lemma_paid_scaled(hs.drop_last(), fpt);
        lemma_payout_scaled(fpt, hs.last().share);
        let prev = spec_paid_to_holders(hs.drop_last(), fpt);
        let p = spec_holder_payout(fpt, hs.last().share);
        assert((prev + p) * (df * df) == prev * (df * df) + p * (df * df)) by {
            vstd::arithmetic::mul::lemma_mul_is_distributive_add_other_way(df * df, prev, p);
        }
        lemma_mul_is_distributive_add(fpt, spec_sum_shares(hs.drop_last()), hs.last().share);
    }
}

/// Distribution conservation for the holder payouts: however the
/// collection is owned, the rounded per-holder payouts never total more
/// than the holder part of the pool they divide.
pub proof fn lemma_holders_conservation(owners: Seq<Option<Seq<char>>>, hfee: u128)
    requires
        spec_total_shares(owners) > 0,
    ensures
        0 <= spec_paid_to_holders(
            spec_holders(owners),
            spec_fpt_atomics(hfee as int, spec_total_shares(owners)),
        ) <= hfee,
{
    let df = DECIMAL_FRACTIONAL as int;
    let tsh = spec_total_shares(owners);
    let hs = spec_holders(owners);
    lemma_holders_invariants(owners);
    let fpt = spec_fpt_atomics(hfee as int, tsh);
    lemma_mul_nonnegative(hfee as int, df);
    lemma_mul_nonnegative(hfee as int * df, df);
    lemma_div_pos_is_pos(hfee as int * df * df, tsh);
    assert forall|k: int| 0 <= k < hs.len() implies #[trigger] hs[k].share >= 0 by {
        assert(hs[k].share >= DECIMAL_FRACTIONAL);
    }
    lemma_paid_scaled(hs, fpt);
    lemma_fundamental_div_mod(hfee as int * df * df, tsh);
    lemma_mod_division_less_than_divisor(hfee as int * df * df, tsh);
    assert(fpt * tsh <= hfee as int * df * df) by {
        lemma_mul_is_commutative(tsh, fpt);
    }
    let paid = spec_paid_to_holders(hs, fpt);
    assert(hfee as int * df * df == hfee as int * (df * df)) by {
        lemma_mul_is_associative(hfee as int, df, df);
    }
    if paid > hfee {
        lemma_mul_inequality(hfee as int + 1, paid, df * df);
        assert(false);
    }
}

/// The reserve floor law: when the bank sits below its floor, the reserve
/// payout keeps back exactly the deficit, so what stays restores the floor
/// precisely; a deficit larger than the whole share zeroes the payout
/// instead, never driving it below zero.
pub proof fn lemma_reserve_floor_law(
    balance: u128,
    total_fees: u128,
    reserve_fees: u128,
    bank_limit: u128,
)
    requires
        balance >= total_fees,
        balance - total_fees < bank_limit,
    ensures
        bank_limit - (balance - total_fees) <= reserve_fees ==> (balance - total_fees) + (
        reserve_fees - spec_reserve_payout(balance, total_fees, reserve_fees, bank_limit))
            == bank_limit,
        bank_limit - (balance - total_fees) > reserve_fees ==> spec_reserve_payout(
            balance,
            total_fees,
            reserve_fees,
            bank_limit,
        ) == 0,
        0 <= spec_reserve_payout(balance, total_fees, reserve_fees, bank_limit) <= reserve_fees,
{
}

} // verus!
