use coin_flip::contract::{
    execute_do_flips, execute_start_flip, get_last_5, get_score, instantiate, should_do_flips,
};
use coin_flip::error::ContractError;
use coin_flip::msg::InstantiateMsg;
use coin_flip::state::FlipState;
use coin_flip::types::{Coin, Fees, FlipScore, PickTypes, Streak, Wallets};

const BALANCE: u128 = 30_000_000_000;
const HEIGHT: u64 = 12_345;
const TIME: u64 = 1_571_797_419_879_305_533;

fn setup() -> FlipState {
    instantiate(
        String::from("admin"),
        InstantiateMsg {
            admin: String::from("admin"),
            denoms: vec![String::from("ustars")],
            wallets: Wallets {
                team: String::from("team-wallet"),
                reserve: String::from("reserve-wallet"),
            },
            fees: Fees { team_bps: 1500, holders_bps: 7000, reserve_bps: 1500, flip_bps: 350 },
            bank_limit: None,
            flips_per_block_limit: None,
            sg721_addr: None,
        },
    )
}

fn start_pick(state: &mut FlipState, sender: &str, amount: u128, pick: PickTypes, height: u64) {
    let fee = amount * 350 / 10_000;
    let funds = vec![Coin { denom: String::from("ustars"), amount: amount + fee }];
    execute_start_flip(
        state,
        String::from(sender),
        &funds,
        pick,
        amount,
        BALANCE,
        height,
        TIME,
    )
    .unwrap();
}

#[test]
fn test_do_single_flip() {
    // Golden vector: with the block height, block time and transaction
    // index fixed, the seed is the byte sum of
    // sha256("1234615717974198793055330") in hex, and the account
    // "flipper" resolves to the side Tails wins on.
    let mut state = setup();
    start_pick(&mut state, "flipper", 5_000_000, PickTypes::Tails, HEIGHT);
    assert_eq!(state.fees, 175_000);
    let payouts = execute_do_flips(&mut state, BALANCE, HEIGHT + 1, TIME, 0).unwrap();
    assert_eq!(payouts.len(), 1);
    assert_eq!(payouts[0].to_address, "flipper");
    assert_eq!(payouts[0].amount, 10_000_000);
    assert_eq!(payouts[0].denom, "ustars");
    assert_eq!(state.todo_flips.len(), 0);
    let history = get_last_5(&state);
    assert_eq!(history.len(), 1);
    assert!(history[0].result);
    let score = get_score(&state, &String::from("flipper")).unwrap();
    assert_eq!(score.streak, Streak { amount: 1, result: true });
}

#[test]
fn test_do_single_flip_losing_pick() {
    // The same seed with the pick on the other side: no payout, a losing
    // record, a losing streak of one.
    let mut state = setup();
    start_pick(&mut state, "flipper", 5_000_000, PickTypes::Heads, HEIGHT);
    let payouts = execute_do_flips(&mut state, BALANCE, HEIGHT + 1, TIME, 0).unwrap();
    assert_eq!(payouts.len(), 0);
    // The fee pool is untouched by settlement.
    assert_eq!(state.fees, 175_000);
    let history = get_last_5(&state);
    assert_eq!(history.len(), 1);
    assert!(!history[0].result);
    let score = get_score(&state, &String::from("flipper")).unwrap();
    assert_eq!(score.streak, Streak { amount: 1, result: false });
}

#[test]
fn test_no_flip_same_block() {
    let mut state = setup();
    start_pick(&mut state, "flipper", 5_000_000, PickTypes::Heads, HEIGHT);
    assert!(!should_do_flips(&state, HEIGHT));
    // Settling in the submission block leaves the wager queued.
    let payouts = execute_do_flips(&mut state, BALANCE, HEIGHT, TIME, 0).unwrap();
    assert_eq!(payouts.len(), 0);
    assert_eq!(state.todo_flips.len(), 1);
    assert!(get_last_5(&state).is_empty());
    // One block later it is eligible.
    assert!(should_do_flips(&state, HEIGHT + 1));
    execute_do_flips(&mut state, BALANCE, HEIGHT + 1, TIME, 0).unwrap();
    assert_eq!(state.todo_flips.len(), 0);
    assert_eq!(get_last_5(&state).len(), 1);
}

#[test]
fn test_multiple_flips() {
    let mut state = setup();
    for i in 0..10u32 {
        start_pick(&mut state, &format!("flipper-{}", i), 5_000_000, PickTypes::Heads, HEIGHT);
    }
    assert_eq!(state.fees, 1_750_000);
    execute_do_flips(&mut state, BALANCE, HEIGHT + 1, TIME, 0).unwrap();
    assert_eq!(state.todo_flips.len(), 0);
    // History keeps only the newest five of the ten settlements.
    assert_eq!(get_last_5(&state).len(), 5);
    assert_eq!(get_last_5(&state)[0].wallet, "flipper-5");
    assert_eq!(get_last_5(&state)[4].wallet, "flipper-9");
    // Every account got a score.
    for i in 0..10u32 {
        assert!(get_score(&state, &format!("flipper-{}", i)).is_some());
    }
}

#[test]
fn test_2_flips_in_a_row() {
    let mut state = setup();
    start_pick(&mut state, "flipper", 5_000_000, PickTypes::Tails, HEIGHT);
    execute_do_flips(&mut state, BALANCE, HEIGHT + 1, TIME, 0).unwrap();
    // The same account wagers again once the first is settled.  The next
    // cycle's seed resolves to the other side, so picking Heads wins
    // again and the winning streak grows to two.
    start_pick(&mut state, "flipper", 5_000_000, PickTypes::Heads, HEIGHT + 1);
    execute_do_flips(&mut state, BALANCE, HEIGHT + 2, TIME, 0).unwrap();
    let score = get_score(&state, &String::from("flipper")).unwrap();
    assert_eq!(score.streak, Streak { amount: 2, result: true });
}

#[test]
fn test_history_evicts_oldest_first() {
    let mut state = setup();
    for round in 0..2u64 {
        for i in 0..3u32 {
            start_pick(
                &mut state,
                &format!("flipper-{}", i),
                5_000_000,
                PickTypes::Heads,
                HEIGHT + round,
            );
        }
        execute_do_flips(&mut state, BALANCE, HEIGHT + round + 1, TIME, 0).unwrap();
    }
    // Six settlements happened; the oldest one fell out.
    let history = get_last_5(&state);
    assert_eq!(history.len(), 5);
    assert_eq!(history[0].wallet, "flipper-1");
    assert_eq!(history[4].wallet, "flipper-2");
}

#[test]
fn test_missing_funds_on_do_funds() {
    let mut state = setup();
    start_pick(&mut state, "flipper", 5_000_000, PickTypes::Heads, HEIGHT);
    // The balance must cover the fee pool plus a doubled stake for every
    // queued wager, eligible or not.
    let err = execute_do_flips(&mut state, 10_174_999, HEIGHT + 1, TIME, 0).unwrap_err();
    assert_eq!(err, ContractError::InsufficientTreasury);
    assert_eq!(state.todo_flips.len(), 1);
    assert!(execute_do_flips(&mut state, 10_175_000, HEIGHT + 1, TIME, 0).is_ok());
}

#[test]
fn test_streak_update() {
    let mut s = Streak::new(true);
    assert_eq!(s, Streak { amount: 1, result: true });
    s.update(true);
    assert_eq!(s, Streak { amount: 2, result: true });
    s.update(true);
    assert_eq!(s, Streak { amount: 3, result: true });
    // A different result restarts the run at one and flips the side.
    s.update(false);
    assert_eq!(s, Streak { amount: 1, result: false });
    s.update(false);
    assert_eq!(s, Streak { amount: 2, result: false });
}

#[test]
fn test_flip_score_update() {
    let mut score = FlipScore::new(true, 7);
    assert_eq!(score.streak, Streak { amount: 1, result: true });
    assert_eq!(score.last_flip, 7);
    let updated = score.update(true, 9);
    assert_eq!(updated, score);
    assert_eq!(score.streak, Streak { amount: 2, result: true });
    assert_eq!(score.last_flip, 9);
}

#[test]
fn test_randomness() {
    // Settle many accounts in one cycle: the shared seed must not push
    // every pick to the same side.
    let mut state = setup();
    let mut win: u32 = 0;
    let mut lose: u32 = 0;
    for batch in 0..10u64 {
        for i in 0..10u32 {
            start_pick(
                &mut state,
                &format!("flipper-{}-{}", batch, i),
                5_000_000,
                PickTypes::Heads,
                HEIGHT + batch,
            );
        }
        let payouts = execute_do_flips(&mut state, BALANCE, HEIGHT + batch + 1, TIME, 0).unwrap();
        let wins = payouts.len() as u32;
        win += wins;
        lose += 10 - wins;
    }
    assert_eq!(win + lose, 100);
    assert!(win > 0);
    assert!(lose > 0);
}

#[test]
fn test_get_score_absent() {
    let state = setup();
    assert!(get_score(&state, &String::from("nobody")).is_none());
}
