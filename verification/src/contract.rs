//! The wager lifecycle: submission and the read-only views.
//!
//! Settlement and distribution live in their own modules; everything here is
//! a pure function of the explicit state plus the facts the host supplies
//! (the bank balance, the block height and time).

use crate::error::ContractError;
use crate::helpers::{ensure_correct_funds, spec_fee_part};
use crate::msg::InstantiateMsg;
use crate::rand::{do_a_flip, get_random, spec_outcome, spec_seed, spec_wins};
use crate::state::{
    assoc_map, find_score_index, lemma_assoc_map_absent, lemma_assoc_map_index,
    lemma_assoc_map_push, lemma_assoc_map_update, FlipState, ScoreEntry, FLIPS_HISTORY_LIMIT,
};
use crate::types::{
    spec_score_new, spec_score_update, Coin, Config, Flip, FlipScore, FlipV, Payment, PaymentV,
    PickTypes, TodoFlip, TodoFlipV,
};
use vstd::pervasive::VecAdditionalExecFns;
use vstd::arithmetic::div_mod::lemma_div_nonincreasing;
use vstd::arithmetic::mul::lemma_mul_upper_bound;
use vstd::pervasive::cloned;
use vstd::prelude::*;

verus! {

/// Minimum amount of base units the treasury is expected to hold.
pub const MIN_BANK_AMOUNT: u128 = 30_000_000_000;

/// The smallest stake a wager may carry.
pub const MIN_BET: u128 = 5_000_000;

/// The largest stake a wager may carry.
pub const MAX_BET: u128 = 25_000_000;

/// Base units per human unit; the bet limits quoted in errors are divided
/// by this.
pub const UNITS_PER_WHOLE: u128 = 1_000_000;

/// The default cap on wagers waiting for one settlement cycle.
pub const DEFAULT_FLIPS_PER_BLOCK: u64 = 10;

/// Whether some account already has a pending wager.
pub open spec fn spec_has_pending(todo: Seq<TodoFlipV>, wallet: Seq<char>) -> bool {
    exists|i: int| 0 <= i < todo.len() && todo[i].wallet == wallet
}

/// Whether a denomination is one of the accepted ones.
pub open spec fn spec_denom_accepted(denoms: Seq<Seq<char>>, denom: Seq<char>) -> bool {
    exists|i: int| 0 <= i < denoms.len() && denoms[i] == denom
}

/// Build the initial state.  The caller becomes the admin; the bank floor
/// and the queue cap fall back to their defaults; the fee pool, the queue,
/// the history and the score table start empty.
pub fn instantiate(sender: String, msg: InstantiateMsg) -> (s: FlipState)
    requires
        msg.denoms.len() >= 1,
    ensures
        s.wf(),
        s.config.admin == sender,
        s.config.denoms == msg.denoms,
        s.config.bank_limit == (match msg.bank_limit {
            Some(l) => l,
            None => MIN_BANK_AMOUNT,
        }),
        s.config.flips_per_block_limit == (match msg.flips_per_block_limit {
            Some(l) => l,
            None => DEFAULT_FLIPS_PER_BLOCK,
        }),
        s.config.wallets == msg.wallets,
        s.config.fees == msg.fees,
        s.config.sg721_addr == msg.sg721_addr,
        s.config.is_paused == false,
        s.fees == 0,
        s.flips@.len() == 0,
        s.todo_flips@.len() == 0,
        s.scores@.len() == 0,
        s.flip_id is None,
{
    let bank_limit = match msg.bank_limit {
        Some(l) => l,
        None => MIN_BANK_AMOUNT,
    };
    let flips_per_block_limit = match msg.flips_per_block_limit {
        Some(l) => l,
        None => DEFAULT_FLIPS_PER_BLOCK,
    };
    FlipState {
        config: Config {
            admin: sender,
            denoms: msg.denoms,
            bank_limit,
            flips_per_block_limit,
            wallets: msg.wallets,
            fees: msg.fees,
            sg721_addr: msg.sg721_addr,
            is_paused: false,
        },
        fees: 0,
        flips: Vec::new(),
        todo_flips: Vec::new(),
        scores: Vec::new(),
        flip_id: None,
    }
}

/// The fee pool as recorded.
pub fn get_fees(state: &FlipState) -> (r: u128)
    ensures
        r == state.fees,
{
    state.fees
}

/// A copy of the configuration.
pub fn get_config(state: &FlipState) -> (r: Config)
    ensures
        r.admin == state.config.admin,
        r.denoms@ == state.config.denoms@,
        r.bank_limit == state.config.bank_limit,
        r.flips_per_block_limit == state.config.flips_per_block_limit,
        r.wallets == state.config.wallets,
        r.fees == state.config.fees,
        r.sg721_addr == state.config.sg721_addr,
        r.is_paused == state.config.is_paused,
{
    state.config.clone()
}

/// The score of one account, if it was ever settled.
pub fn get_score(state: &FlipState, address: &String) -> (r: Option<FlipScore>)
    requires
        state.wf(),
    ensures
        state.scores_map().contains_key(address@) ==> r == Some(
            state.scores_map()[address@],
        ),
        !state.scores_map().contains_key(address@) ==> r is None,
{
    match find_score_index(&state.scores, address) {
        Some(i) => {
            proof {
                lemma_assoc_map_index(state.scores@, i as int);
            }
            Some(state.scores[i].score)
        },
        None => {
            proof {
                lemma_assoc_map_absent(state.scores@, address@);
            }
            None
        },
    }
}

/// Whether any pending wager predates the current cycle, so a settlement
/// call would do work.
#[verifier::loop_isolation(false)]
pub fn should_do_flips(state: &FlipState, block_height: u64) -> (r: bool)
    ensures
        r == exists|i: int|
            0 <= i < state.todo_flips.deep_view().len() && block_height
                > state.todo_flips.deep_view()[i].block,
{
    let n = state.todo_flips.len();
    let mut i: usize = 0;
    while i < n
        invariant
            i <= n,
            n == state.todo_flips.len(),
            forall|k: int| 0 <= k < i ==> block_height <= state.todo_flips.deep_view()[k].block,
        decreases n - i,
    {
        if block_height > state.todo_flips[i].block {
            proof {
                assert(block_height > state.todo_flips.deep_view()[i as int].block);
            }
            return true;
        }
        i = i + 1;
    }
    false
}

/// The retained result history, oldest first.
pub fn get_last_5(state: &FlipState) -> (r: Vec<Flip>)
    ensures
        r.deep_view() == state.flips.deep_view(),
{
    let r = state.flips.clone();
    proof {
        assert forall|i: int| 0 <= i < state.flips@.len() implies r.deep_view()[i]
            == state.flips.deep_view()[i] by {
            assert(cloned::<Flip>(state.flips[i], r[i]));
        }
        assert(r.deep_view() =~= state.flips.deep_view());
    }
    r
}

/// Queue a wager.
///
/// `funds` is what the account sent along, `balance` the contract's balance
/// in the paid denomination.  The checks run in a fixed order: bet limits,
/// one pending wager per account, queue capacity, funds shape, accepted
/// denomination, exact payment of stake plus fee, then solvency for one
/// worst-case win.  On success the fee joins the pool and the wager enters
/// the queue with a fresh id; on any failure nothing changes.
#[verifier::loop_isolation(false)]
pub fn execute_start_flip(
    state: &mut FlipState,
    sender: String,
    funds: &Vec<Coin>,
    pick: PickTypes,
    amount: u128,
    balance: u128,
    block_height: u64,
    time_nanos: u64,
) -> (r: Result<u64, ContractError>)
    requires
        old(state).wf(),
        old(state).flip_id matches Some(id) ==> id < u64::MAX,
    ensures
        r is Err ==> *final(state) == *old(state),
        amount > MAX_BET ==> r == Err::<u64, ContractError>(
            (ContractError::BetAboveMaximum { max_limit: MAX_BET / UNITS_PER_WHOLE }),
        ),
        amount <= MAX_BET && amount < MIN_BET ==> r == Err::<u64, ContractError>(
            (ContractError::BetBelowMinimum { min_limit: MIN_BET / UNITS_PER_WHOLE }),
        ),
        MIN_BET <= amount <= MAX_BET && spec_has_pending(old(state).todo_flips.deep_view(), sender@)
            ==> r == Err::<u64, ContractError>(ContractError::AlreadyPending),
        MIN_BET <= amount <= MAX_BET && !spec_has_pending(
            old(state).todo_flips.deep_view(),
            sender@,
        ) && old(state).todo_flips.len() >= old(state).config.flips_per_block_limit ==> r == Err::<
            u64,
            ContractError,
        >(ContractError::QueueFull),
        spec_start_passed_queue(*old(state), sender@, amount) && funds.len() != 1 ==> r == Err::<
            u64,
            ContractError,
        >(ContractError::WrongFundsShape),
        spec_start_passed_queue(*old(state), sender@, amount) && funds.len() == 1
            && !spec_denom_accepted(old(state).config.denoms.deep_view(), funds.deep_view()[0].denom)
            ==> (r matches Err(e) && e matches ContractError::UnsupportedDenom { denom } && denom@
            == funds.deep_view()[0].denom),
        spec_start_passed_denom(*old(state), sender@, funds.deep_view(), amount)
            && funds.deep_view()[0].amount != amount + spec_fee_part(
            amount,
            old(state).config.fees.flip_bps,
        ) ==> r == Err::<u64, ContractError>(ContractError::WrongPaidAmount),
        spec_start_passed_payment(*old(state), sender@, funds.deep_view(), amount) && (
        balance as int) < old(state).fees + 2 * amount ==> r == Err::<u64, ContractError>(
            ContractError::InsufficientTreasury,
        ),
        spec_start_passed_payment(*old(state), sender@, funds.deep_view(), amount) && (
        balance as int) >= old(state).fees + 2 * amount && old(state).fees + spec_fee_part(
            amount,
            old(state).config.fees.flip_bps,
        ) > u128::MAX ==> r == Err::<u64, ContractError>(ContractError::Overflow),
        spec_start_passed_payment(*old(state), sender@, funds.deep_view(), amount) && (
        balance as int) >= old(state).fees + 2 * amount && old(state).fees + spec_fee_part(
            amount,
            old(state).config.fees.flip_bps,
        ) <= u128::MAX ==> {
            let id = spec_next_flip_id(*old(state));
            &&& r == Ok::<u64, ContractError>(id)
            &&& final(state).todo_flips.deep_view() == old(state).todo_flips.deep_view().push(
                (TodoFlipV {
                    id,
                    wallet: sender@,
                    amount: (crate::types::CoinV {
                        denom: funds.deep_view()[0].denom,
                        amount,
                    }),
                    pick,
                    block: block_height,
                    timestamp: time_nanos,
                }),
            )
            &&& final(state).fees == old(state).fees + spec_fee_part(
                amount,
                old(state).config.fees.flip_bps,
            )
            &&& final(state).flip_id == Some(id)
            &&& final(state).config == old(state).config
            &&& final(state).flips == old(state).flips
            &&& final(state).scores == old(state).scores
            &&& final(state).wf()
        },
{
    if amount > MAX_BET {
        return Err(ContractError::BetAboveMaximum { max_limit: MAX_BET / UNITS_PER_WHOLE });
    }
    if amount < MIN_BET {
        return Err(ContractError::BetBelowMinimum { min_limit: MIN_BET / UNITS_PER_WHOLE });
    }
    let n = state.todo_flips.len();
    let mut i: usize = 0;
    while i < n
        invariant
            i <= n,
            n == state.todo_flips.len(),
            forall|k: int| 0 <= k < i ==> state.todo_flips.deep_view()[k].wallet != sender@,
        decreases n - i,
    {
        if state.todo_flips[i].wallet == sender {
            proof {
                assert(state.todo_flips.deep_view()[i as int].wallet == sender@);
            }
            return Err(ContractError::AlreadyPending);
        }
        i = i + 1;
    }
    if (state.todo_flips.len() as u64) >= state.config.flips_per_block_limit {
        return Err(ContractError::QueueFull);
    }
    if funds.len() != 1 {
        return Err(ContractError::WrongFundsShape);
    }
    let denom_count = state.config.denoms.len();
    let mut j: usize = 0;
    let mut accepted = false;
    while j < denom_count
        invariant
            j <= denom_count,
            !accepted ==> forall|k: int|
                0 <= k < j ==> state.config.denoms.deep_view()[k] != funds.deep_view()[0].denom,
            accepted ==> spec_denom_accepted(
                state.config.denoms.deep_view(),
                funds.deep_view()[0].denom,
            ),
        decreases denom_count - j,
    {
        if !accepted && state.config.denoms[j] == funds[0].denom {
            proof {
                assert(state.config.denoms.deep_view()[j as int] == funds.deep_view()[0].denom);
            }
            accepted = true;
        }
        j = j + 1;
    }
    if !accepted {
        return Err(ContractError::UnsupportedDenom { denom: funds[0].denom.clone() });
    }
    proof {
        lemma_mul_upper_bound(
            amount as int,
            MAX_BET as int,
            state.config.fees.flip_bps as int,
            u64::MAX as int,
        );
        lemma_div_nonincreasing((amount * state.config.fees.flip_bps) as int, 10_000);
        assert(amount * state.config.fees.flip_bps <= u128::MAX);
        assert(amount + spec_fee_part(amount, state.config.fees.flip_bps) <= u128::MAX);
    }
    let fee_amount = match ensure_correct_funds(
        funds[0].amount,
        amount,
        state.config.fees.flip_bps,
    ) {
        Ok(f) => f,
        Err(e) => {
            return Err(e);
        },
    };
    if balance < state.fees || balance - state.fees < 2 * amount {
        return Err(ContractError::InsufficientTreasury);
    }
    let new_fees = match state.fees.checked_add(fee_amount) {
        Some(f) => f,
        None => {
            return Err(ContractError::Overflow);
        },
    };
    state.fees = new_fees;
    let id = crate::state::get_next_flip_id(state);
    state.flip_id = Some(id);
    let todo = TodoFlip {
        id,
        wallet: sender,
        amount: Coin { denom: funds[0].denom.clone(), amount },
        pick,
        block: block_height,
        timestamp: time_nanos,
    };
    let ghost todo_v = todo.deep_view();
    state.todo_flips.push(todo);
    proof {
        let old_todo = old(state).todo_flips@;
        assert(state.todo_flips.deep_view() =~= old(state).todo_flips.deep_view().push(todo_v));
        assert(todo_v == (TodoFlipV {
            id,
            wallet: sender@,
            amount: (crate::types::CoinV { denom: funds.deep_view()[0].denom, amount }),
            pick,
            block: block_height,
            timestamp: time_nanos,
        }));
        assert forall|x: int, y: int|
            0 <= x < y < state.todo_flips@.len() implies state.todo_flips@[x].wallet@
            != state.todo_flips@[y].wallet@ by {
            assert(state.todo_flips@[x] == old_todo[x]);
            if y == old_todo.len() {
                assert(old(state).todo_flips.deep_view()[x].wallet == old_todo[x].wallet@);
            } else {
                assert(state.todo_flips@[y] == old_todo[y]);
            }
        }
        assert forall|x: int|
            0 <= x < state.todo_flips@.len() implies MIN_BET
            <= #[trigger] state.todo_flips@[x].amount.amount <= MAX_BET by {
            if x < old_todo.len() {
                assert(state.todo_flips@[x] == old_todo[x]);
                assert(MIN_BET <= old(state).todo_flips[x].amount.amount <= MAX_BET);
            }
        }
        assert(state.wf());
    }
    Ok(id)
}

/// The queued wagers one settlement cycle resolves: those submitted in an
/// earlier block, in submission order.
pub open spec fn spec_eligible(todo: Seq<TodoFlipV>, height: u64) -> Seq<TodoFlipV>
    decreases todo.len(),
{
    if todo.len() == 0 {
        Seq::empty()
    } else if todo.last().block < height {
        spec_eligible(todo.drop_last(), height).push(todo.last())
    } else {
        spec_eligible(todo.drop_last(), height)
    }
}

/// The queued wagers that stay for a later cycle, order preserved.
pub open spec fn spec_kept(todo: Seq<TodoFlipV>, height: u64) -> Seq<TodoFlipV>
    decreases todo.len(),
{
    if todo.len() == 0 {
        Seq::empty()
    } else if todo.last().block >= height {
        spec_kept(todo.drop_last(), height).push(todo.last())
    } else {
        spec_kept(todo.drop_last(), height)
    }
}

/// The sum of all queued stakes.
pub open spec fn spec_total_stake(todo: Seq<TodoFlipV>) -> int
    decreases todo.len(),
{
    if todo.len() == 0 {
        0
    } else {
        spec_total_stake(todo.drop_last()) + todo.last().amount.amount
    }
}

/// The score an account carries after one more settled result.
pub open spec fn spec_next_score(
    m: Map<Seq<char>, FlipScore>,
    wallet: Seq<char>,
    won: bool,
    time: u64,
) -> FlipScore {
    if m.contains_key(wallet) {
        spec_score_update(m[wallet], won, time)
    } else {
        spec_score_new(won, time)
    }
}

/// The score table after settling `e` in order against seed `rand`.
pub open spec fn spec_settle_scores(
    m0: Map<Seq<char>, FlipScore>,
    e: Seq<TodoFlipV>,
    rand: int,
    time: u64,
) -> Map<Seq<char>, FlipScore>
    decreases e.len(),
{
    if e.len() == 0 {
        m0
    } else {
        let m = spec_settle_scores(m0, e.drop_last(), rand, time);
        let f = e.last();
        let won = spec_wins(f.pick, spec_outcome(rand, f.wallet));
        m.insert(f.wallet, spec_next_score(m, f.wallet, won, time))
    }
}

/// The history records settling `e` appends, in order.
pub open spec fn spec_settle_records(
    m0: Map<Seq<char>, FlipScore>,
    e: Seq<TodoFlipV>,
    rand: int,
    time: u64,
) -> Seq<FlipV>
    decreases e.len(),
{
    if e.len() == 0 {
        Seq::empty()
    } else {
        let prev = spec_settle_records(m0, e.drop_last(), rand, time);
        let m = spec_settle_scores(m0, e.drop_last(), rand, time);
        let f = e.last();
        let won = spec_wins(f.pick, spec_outcome(rand, f.wallet));
        prev.push(
            FlipV {
                wallet: f.wallet,
                amount: f.amount,
                result: won,
                streak: spec_next_score(m, f.wallet, won, time).streak,
                timestamp: time,
            },
        )
    }
}

/// The payout intents settling `e` emits: double the stake to each winner,
/// in settlement order.
pub open spec fn spec_settle_payouts(e: Seq<TodoFlipV>, rand: int) -> Seq<PaymentV>
    decreases e.len(),
{
    if e.len() == 0 {
        Seq::empty()
    } else {
        let prev = spec_settle_payouts(e.drop_last(), rand);
        let f = e.last();
        if spec_wins(f.pick, spec_outcome(rand, f.wallet)) {
            prev.push(
                PaymentV {
                    to_address: f.wallet,
                    amount: (2 * f.amount.amount) as u128,
                    denom: f.amount.denom,
                },
            )
        } else {
            prev
        }
    }
}

/// The newest entries of a history, up to the retention limit.
pub open spec fn spec_last5(s: Seq<FlipV>) -> Seq<FlipV> {
    if s.len() <= FLIPS_HISTORY_LIMIT {
        s
    } else {
        s.skip(s.len() - FLIPS_HISTORY_LIMIT)
    }
}

/// What one settled wager does to a history already at the retention limit:
/// the oldest entry leaves first.
pub open spec fn spec_push_history(h: Seq<FlipV>, x: FlipV) -> Seq<FlipV> {
    if h.len() >= FLIPS_HISTORY_LIMIT {
        h.skip(1).push(x)
    } else {
        h.push(x)
    }
}

/// Appending to a history and trimming it commute.
proof fn lemma_last5_push(t: Seq<FlipV>, x: FlipV)
    ensures
        spec_last5(t.push(x)) == spec_push_history(spec_last5(t), x),
{
    if t.len() < FLIPS_HISTORY_LIMIT {
        assert(spec_last5(t.push(x)) =~= spec_push_history(spec_last5(t), x));
    } else {
        assert(spec_last5(t.push(x)) =~= spec_push_history(spec_last5(t), x));
    }
}

/// Settle one eligible wager: resolve it against the seed, fold the result
/// into the account's score, append the record to the history (evicting the
/// oldest beyond the limit) and emit the payout intent on a win.
fn settle_one(state: &mut FlipState, tf: &TodoFlip, rand: u128, time_nanos: u64) -> (payout:
    Option<Payment>)
    requires
        crate::state::distinct_wallets(old(state).scores@),
        old(state).flips.len() <= FLIPS_HISTORY_LIMIT,
        tf.amount.amount <= MAX_BET,
    ensures
        crate::state::distinct_wallets(final(state).scores@),
        final(state).flips.len() <= FLIPS_HISTORY_LIMIT,
        final(state).config == old(state).config,
        final(state).fees == old(state).fees,
        final(state).todo_flips == old(state).todo_flips,
        final(state).flip_id == old(state).flip_id,
        ({
            let won = spec_wins(tf.pick, spec_outcome(rand as int, tf.wallet@));
            let m = assoc_map(old(state).scores@);
            let sc = spec_next_score(m, tf.wallet@, won, time_nanos);
            &&& assoc_map(final(state).scores@) == m.insert(tf.wallet@, sc)
            &&& final(state).flips.deep_view() == spec_push_history(
                old(state).flips.deep_view(),
                (FlipV {
                    wallet: tf.wallet@,
                    amount: tf.amount@,
                    result: won,
                    streak: sc.streak,
                    timestamp: time_nanos,
                }),
            )
            &&& (won ==> (payout matches Some(p) && p@ == (PaymentV {
                to_address: tf.wallet@,
                amount: (2 * tf.amount.amount) as u128,
                denom: tf.amount@.denom,
            })))
            &&& (!won ==> payout is None)
        }),
{
    let won = do_a_flip(tf, rand);
    let score = match find_score_index(&state.scores, &tf.wallet) {
        Some(i) => {
            proof {
                lemma_assoc_map_index(state.scores@, i as int);
            }
            let mut sc = state.scores[i].score;
            let new_sc = sc.update(won, time_nanos);
            let entry = ScoreEntry { wallet: tf.wallet.clone(), score: new_sc };
            let ghost s0 = state.scores@;
            state.scores.set(i, entry);
            proof {
                lemma_assoc_map_update(s0, i as int, entry);
            }
            new_sc
        },
        None => {
            proof {
                lemma_assoc_map_absent(state.scores@, tf.wallet@);
            }
            let sc = FlipScore::new(won, time_nanos);
            let entry = ScoreEntry { wallet: tf.wallet.clone(), score: sc };
            let ghost s0 = state.scores@;
            state.scores.push(entry);
            proof {
                lemma_assoc_map_push(s0, entry);
            }
            sc
        },
    };
    let ghost h0 = state.flips.deep_view();
    if state.flips.len() >= FLIPS_HISTORY_LIMIT {
        state.flips.remove(0);
        proof {
            assert(state.flips.deep_view() =~= h0.skip(1));
        }
    }
    let ghost h1 = state.flips.deep_view();
    let rec = Flip {
        wallet: tf.wallet.clone(),
        amount: tf.amount.clone(),
        result: won,
        streak: score.streak,
        timestamp: time_nanos,
    };
    let ghost rec_v = rec@;
    state.flips.push(rec);
    proof {
        assert(state.flips.deep_view() =~= h1.push(rec_v));
    }
    if won {
        Some(
            Payment {
                to_address: tf.wallet.clone(),
                amount: 2 * tf.amount.amount,
                denom: tf.amount.denom.clone(),
            },
        )
    } else {
        None
    }
}

/// Every wager a settlement keeps comes from the queue it was given.
proof fn lemma_kept_elements(todo: Seq<TodoFlipV>, height: u64)
    ensures
        forall|k: int|
            0 <= k < spec_kept(todo, height).len() ==> exists|j: int|
                0 <= j < todo.len() && #[trigger] spec_kept(todo, height)[k] == todo[j],
        spec_kept(todo, height).len() <= todo.len(),
    decreases todo.len(),
{
    if todo.len() > 0 {
        lemma_kept_elements(todo.drop_last(), height);
        let kept = spec_kept(todo, height);
        let prev = spec_kept(todo.drop_last(), height);
        assert forall|k: int| 0 <= k < kept.len() implies exists|j: int|
            0 <= j < todo.len() && #[trigger] kept[k] == todo[j] by {
            if todo.last().block >= height && k == kept.len() - 1 {
                assert(kept[k] == todo[todo.len() - 1]);
            } else {
                assert(kept[k] == prev[k]);
                let j = choose|j: int| 0 <= j < todo.drop_last().len() && prev[k] == todo.drop_last()[j];
                assert(kept[k] == todo[j]);
            }
        }
    }
}

/// A settlement keeps at most one wager per account and only stakes within
/// the bet limits, provided the queue it drains was so.
proof fn lemma_kept_wf(todo: Seq<TodoFlipV>, height: u64)
    requires
        forall|i: int, j: int| 0 <= i < j < todo.len() ==> todo[i].wallet != todo[j].wallet,
        forall|i: int|
            0 <= i < todo.len() ==> MIN_BET <= #[trigger] todo[i].amount.amount <= MAX_BET,
    ensures
        forall|i: int, j: int|
            0 <= i < j < spec_kept(todo, height).len() ==> spec_kept(todo, height)[i].wallet
                != spec_kept(todo, height)[j].wallet,
        forall|i: int|
            0 <= i < spec_kept(todo, height).len() ==> MIN_BET <= #[trigger] spec_kept(
                todo,
                height,
            )[i].amount.amount <= MAX_BET,
    decreases todo.len(),
{
    if todo.len() > 0 {
        let dl = todo.drop_last();
        lemma_kept_wf(dl, height);
        lemma_kept_elements(dl, height);
        let kept = spec_kept(todo, height);
        let prev = spec_kept(dl, height);
        if todo.last().block >= height {
            assert forall|i: int, j: int| 0 <= i < j < kept.len() implies kept[i].wallet
                != kept[j].wallet by {
                if j == kept.len() - 1 {
                    let x = choose|x: int| 0 <= x < dl.len() && prev[i] == dl[x];
                    assert(todo[x].wallet != todo[todo.len() - 1].wallet);
                } else {
                    assert(kept[i] == prev[i] && kept[j] == prev[j]);
                }
            }
            assert forall|i: int| 0 <= i < kept.len() implies MIN_BET
                <= #[trigger] kept[i].amount.amount <= MAX_BET by {
                if i < kept.len() - 1 {
                    assert(kept[i] == prev[i]);
                }
            }
        }
    }
}

/// Settle every eligible wager in the queue, in submission order.
///
/// A wager is eligible only if it was submitted in an earlier block, so its
/// seed could not be known at submission; the rest stay queued, order
/// preserved.  Before anything changes, the liquid balance (balance minus
/// fee pool) must cover the worst case of every queued wager winning double
/// its stake, else the whole operation fails with no state change.  Each
/// settled wager updates its account score, enters the bounded result
/// history, and on a win emits a payout intent of twice the stake.
#[verifier::loop_isolation(false)]
pub fn execute_do_flips(
    state: &mut FlipState,
    balance: u128,
    block_height: u64,
    time_nanos: u64,
    tx_index: u32,
) -> (r: Result<Vec<Payment>, ContractError>)
    requires
        old(state).wf(),
    ensures
        (balance as int) < old(state).fees + 2 * spec_total_stake(
            old(state).todo_flips.deep_view(),
        ) ==> r == Err::<Vec<Payment>, ContractError>(ContractError::InsufficientTreasury)
            && *final(state) == *old(state),
        (balance as int) >= old(state).fees + 2 * spec_total_stake(
            old(state).todo_flips.deep_view(),
        ) ==> ({
            let rand = spec_seed(block_height, time_nanos, tx_index);
            let todo = old(state).todo_flips.deep_view();
            let e = spec_eligible(todo, block_height);
            &&& r matches Ok(p) && p.deep_view() == spec_settle_payouts(e, rand)
            &&& final(state).todo_flips.deep_view() == spec_kept(todo, block_height)
            &&& final(state).scores_map() == spec_settle_scores(
                old(state).scores_map(),
                e,
                rand,
                time_nanos,
            )
            &&& final(state).flips.deep_view() == spec_last5(
                old(state).flips.deep_view() + spec_settle_records(
                    old(state).scores_map(),
                    e,
                    rand,
                    time_nanos,
                ),
            )
            &&& final(state).fees == old(state).fees
            &&& final(state).config == old(state).config
            &&& final(state).flip_id == old(state).flip_id
            &&& final(state).wf()
        }),
{
    let ghost todo0 = state.todo_flips.deep_view();
    let n = state.todo_flips.len();
    let mut total: u128 = 0;
    let mut i: usize = 0;
    while i < n
        invariant
            i <= n,
            total == spec_total_stake(todo0.take(i as int)),
            total <= i * MAX_BET,
        decreases n - i,
    {
        proof {
            assert(todo0.take(i + 1).drop_last() =~= todo0.take(i as int));
            assert(MIN_BET <= state.todo_flips[i as int].amount.amount <= MAX_BET);
            assert(todo0[i as int].amount.amount == state.todo_flips[i as int].amount.amount);
        }
        total = total + state.todo_flips[i].amount.amount;
        i = i + 1;
    }
    proof {
        assert(todo0.take(n as int) =~= todo0);
    }
    if balance < state.fees {
        return Err(ContractError::InsufficientTreasury);
    }
    if balance - state.fees < 2 * total {
        return Err(ContractError::InsufficientTreasury);
    }
    let rand = get_random(block_height, time_nanos, tx_index);
    let mut kept: Vec<TodoFlip> = Vec::new();
    let mut payouts: Vec<Payment> = Vec::new();
    let ghost m0 = assoc_map(state.scores@);
    let ghost flips0 = state.flips.deep_view();
    let mut i: usize = 0;
    proof {
        assert(todo0.take(0) =~= Seq::<TodoFlipV>::empty());
        assert(flips0 + spec_settle_records(m0, spec_eligible(todo0.take(0), block_height), rand as int, time_nanos) =~= flips0);
    }
    while i < n
        invariant
            i <= n,
            state.todo_flips == old(state).todo_flips,
            state.config == old(state).config,
            state.fees == old(state).fees,
            state.flip_id == old(state).flip_id,
            crate::state::distinct_wallets(state.scores@),
            state.flips.len() <= FLIPS_HISTORY_LIMIT,
            kept.deep_view() == spec_kept(todo0.take(i as int), block_height),
            payouts.deep_view() == spec_settle_payouts(
                spec_eligible(todo0.take(i as int), block_height),
                rand as int,
            ),
            assoc_map(state.scores@) == spec_settle_scores(
                m0,
                spec_eligible(todo0.take(i as int), block_height),
                rand as int,
                time_nanos,
            ),
            state.flips.deep_view() == spec_last5(
                flips0 + spec_settle_records(
                    m0,
                    spec_eligible(todo0.take(i as int), block_height),
                    rand as int,
                    time_nanos,
                ),
            ),
        decreases n - i,
    {
        let tf = state.todo_flips[i].clone();
        proof {
            assert(todo0.take(i + 1).drop_last() =~= todo0.take(i as int));
            assert(tf.deep_view() == todo0[i as int]);
            assert(MIN_BET <= old(state).todo_flips[i as int].amount.amount <= MAX_BET);
        }
        if tf.block >= block_height {
            let ghost kv = tf.deep_view();
            kept.push(tf);
            proof {
                assert(kept.deep_view() =~= spec_kept(todo0.take(i as int), block_height).push(kv));
            }
        } else {
            let ghost e0 = spec_eligible(todo0.take(i as int), block_height);
            let ghost e1 = spec_eligible(todo0.take(i + 1), block_height);
            let ghost records0 = spec_settle_records(m0, e0, rand as int, time_nanos);
            proof {
                assert(e1 == e0.push(todo0[i as int]));
                assert(e1.drop_last() =~= e0);
            }
            let pay = settle_one(state, &tf, rand, time_nanos);
            proof {
                lemma_last5_push(flips0 + records0, spec_settle_records(m0, e1, rand as int, time_nanos).last());
                assert((flips0 + records0).push(spec_settle_records(m0, e1, rand as int, time_nanos).last()) =~= flips0 + spec_settle_records(m0, e1, rand as int, time_nanos));
            }
            match pay {
                Some(p) => {
                    let ghost pv = p@;
                    let ghost payouts0 = payouts.deep_view();
                    payouts.push(p);
                    proof {
                        assert(payouts.deep_view() =~= payouts0.push(pv));
                    }
                },
                None => {},
            }
        }
        i = i + 1;
    }
    proof {
        assert(todo0.take(n as int) =~= todo0);
    }
    state.todo_flips = kept;
    proof {
        lemma_kept_wf(todo0, block_height);
        assert forall|x: int, y: int|
            0 <= x < y < state.todo_flips@.len() implies state.todo_flips@[x].wallet@
            != state.todo_flips@[y].wallet@ by {
            assert(state.todo_flips.deep_view()[x] == spec_kept(todo0, block_height)[x]);
            assert(state.todo_flips.deep_view()[y] == spec_kept(todo0, block_height)[y]);
        }
        assert forall|x: int|
            0 <= x < state.todo_flips@.len() implies MIN_BET
            <= #[trigger] state.todo_flips@[x].amount.amount <= MAX_BET by {
            assert(state.todo_flips.deep_view()[x] == spec_kept(todo0, block_height)[x]);
            assert(state.todo_flips.deep_view()[x] == state.todo_flips@[x].deep_view());
            assert(MIN_BET <= spec_kept(todo0, block_height)[x].amount.amount <= MAX_BET);
        }
        assert(state.wf());
    }
    Ok(payouts)
}

/// The wager id the next submission will use.
pub open spec fn spec_next_flip_id(state: FlipState) -> u64 {
    match state.flip_id {
        Some(id) => (id + 1) as u64,
        None => 0,
    }
}

/// The submission checks up to and including queue capacity.
pub open spec fn spec_start_passed_queue(state: FlipState, sender: Seq<char>, amount: u128) -> bool {
    &&& MIN_BET <= amount <= MAX_BET
    &&& !spec_has_pending(state.todo_flips.deep_view(), sender)
    &&& state.todo_flips.len() < state.config.flips_per_block_limit
}

/// The submission checks up to and including the denomination.
pub open spec fn spec_start_passed_denom(
    state: FlipState,
    sender: Seq<char>,
    funds: Seq<crate::types::CoinV>,
    amount: u128,
) -> bool {
    &&& spec_start_passed_queue(state, sender, amount)
    &&& funds.len() == 1
    &&& spec_denom_accepted(state.config.denoms.deep_view(), funds[0].denom)
}

/// The submission checks up to and including the exact payment.
pub open spec fn spec_start_passed_payment(
    state: FlipState,
    sender: Seq<char>,
    funds: Seq<crate::types::CoinV>,
    amount: u128,
) -> bool {
    &&& spec_start_passed_denom(state, sender, funds, amount)
    &&& funds[0].amount == amount + spec_fee_part(amount, state.config.fees.flip_bps)
}

} // verus!
