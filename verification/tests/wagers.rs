use coin_flip::contract::{execute_start_flip, get_fees, instantiate, MAX_BET, MIN_BET};
use coin_flip::error::ContractError;
use coin_flip::msg::InstantiateMsg;
use coin_flip::state::FlipState;
use coin_flip::types::{Coin, Fees, PickTypes, Wallets};

const BALANCE: u128 = 30_000_000_000;
const HEIGHT: u64 = 12_345;
const TIME: u64 = 1_571_797_419_879_305_533;

fn setup() -> FlipState {
    instantiate(
        String::from("admin"),
        InstantiateMsg {
            admin: String::from("admin"),
            denoms: vec![String::from("ustars")],
            wallets: Wallets {
                team: String::from("team-wallet"),
                reserve: String::from("reserve-wallet"),
            },
            fees: Fees { team_bps: 1500, holders_bps: 7000, reserve_bps: 1500, flip_bps: 350 },
            bank_limit: None,
            flips_per_block_limit: None,
            sg721_addr: None,
        },
    )
}

fn paid_funds(amount: u128) -> Vec<Coin> {
    let fee = amount * 350 / 10_000;
    vec![Coin { denom: String::from("ustars"), amount: amount + fee }]
}

fn start(state: &mut FlipState, sender: &str, amount: u128) -> Result<u64, ContractError> {
    execute_start_flip(
        state,
        String::from(sender),
        &paid_funds(amount),
        PickTypes::Heads,
        amount,
        BALANCE,
        HEIGHT,
        TIME,
    )
}

#[test]
fn test_start_flip_accrues_fee_and_queues() {
    let mut state = setup();
    let id = start(&mut state, "flipper", 5_000_000).unwrap();
    assert_eq!(id, 0);
    assert_eq!(get_fees(&state), 175_000);
    assert_eq!(state.todo_flips.len(), 1);
    assert_eq!(state.todo_flips[0].wallet, "flipper");
    assert_eq!(state.todo_flips[0].amount.amount, 5_000_000);
    assert_eq!(state.flip_id, Some(0));
    // Ids are strictly increasing.
    let id2 = start(&mut state, "other", 5_000_000).unwrap();
    assert_eq!(id2, 1);
}

#[test]
fn test_max_min_amounts() {
    let mut state = setup();
    let too_big = MAX_BET + 1;
    let err = execute_start_flip(
        &mut state,
        String::from("flipper"),
        &paid_funds(too_big),
        PickTypes::Heads,
        too_big,
        BALANCE,
        HEIGHT,
        TIME,
    )
    .unwrap_err();
    assert_eq!(err, ContractError::BetAboveMaximum { max_limit: 25 });
    let too_small = MIN_BET - 1;
    let err = execute_start_flip(
        &mut state,
        String::from("flipper"),
        &paid_funds(too_small),
        PickTypes::Heads,
        too_small,
        BALANCE,
        HEIGHT,
        TIME,
    )
    .unwrap_err();
    assert_eq!(err, ContractError::BetBelowMinimum { min_limit: 5 });
    assert_eq!(get_fees(&state), 0);
    assert_eq!(state.todo_flips.len(), 0);
}

#[test]
fn test_already_pending() {
    let mut state = setup();
    start(&mut state, "flipper", 5_000_000).unwrap();
    let err = start(&mut state, "flipper", 5_000_000).unwrap_err();
    assert_eq!(err, ContractError::AlreadyPending);
    assert_eq!(state.todo_flips.len(), 1);
}

#[test]
fn test_flips_per_block_limit() {
    let mut state = setup();
    for i in 0..10u32 {
        start(&mut state, &format!("flipper-{}", i), 5_000_000).unwrap();
    }
    // An eleventh wager while ten are pending is refused.
    let err = start(&mut state, "flipper-10", 5_000_000).unwrap_err();
    assert_eq!(err, ContractError::QueueFull);
    assert_eq!(state.todo_flips.len(), 10);
}

#[test]
fn test_ten_min_bets_accrue_fee_pool() {
    let mut state = setup();
    for i in 0..10u32 {
        start(&mut state, &format!("flipper-{}", i), MIN_BET).unwrap();
    }
    assert_eq!(get_fees(&state), 1_750_000);
}

#[test]
fn test_wrong_funds() {
    let mut state = setup();
    // No coin at all.
    let err = execute_start_flip(
        &mut state,
        String::from("flipper"),
        &vec![],
        PickTypes::Heads,
        5_000_000,
        BALANCE,
        HEIGHT,
        TIME,
    )
    .unwrap_err();
    assert_eq!(err, ContractError::WrongFundsShape);
    // Two coins.
    let two = vec![
        Coin { denom: String::from("ustars"), amount: 5_175_000 },
        Coin { denom: String::from("random"), amount: 5_175_000 },
    ];
    let err = execute_start_flip(
        &mut state,
        String::from("flipper"),
        &two,
        PickTypes::Heads,
        5_000_000,
        BALANCE,
        HEIGHT,
        TIME,
    )
    .unwrap_err();
    assert_eq!(err, ContractError::WrongFundsShape);
    // Unsupported denomination.
    let wrong = vec![Coin { denom: String::from("random"), amount: 5_175_000 }];
    let err = execute_start_flip(
        &mut state,
        String::from("flipper"),
        &wrong,
        PickTypes::Heads,
        5_000_000,
        BALANCE,
        HEIGHT,
        TIME,
    )
    .unwrap_err();
    assert_eq!(err, ContractError::UnsupportedDenom { denom: String::from("random") });
    // Right denomination, wrong amount.
    let short = vec![Coin { denom: String::from("ustars"), amount: 5_174_999 }];
    let err = execute_start_flip(
        &mut state,
        String::from("flipper"),
        &short,
        PickTypes::Heads,
        5_000_000,
        BALANCE,
        HEIGHT,
        TIME,
    )
    .unwrap_err();
    assert_eq!(err, ContractError::WrongPaidAmount);
}

#[test]
fn test_missing_funds() {
    let mut state = setup();
    // The liquid balance must cover a doubled stake.
    let err = execute_start_flip(
        &mut state,
        String::from("flipper"),
        &paid_funds(5_000_000),
        PickTypes::Heads,
        5_000_000,
        9_999_999,
        HEIGHT,
        TIME,
    )
    .unwrap_err();
    assert_eq!(err, ContractError::InsufficientTreasury);
    assert_eq!(execute_start_flip(
        &mut state,
        String::from("flipper"),
        &paid_funds(5_000_000),
        PickTypes::Heads,
        5_000_000,
        10_000_000,
        HEIGHT,
        TIME,
    )
    .is_ok(), true);
}

#[test]
fn test_contract_is_paused() {
    let mut state = setup();
    coin_flip::sudo::update_pause(&mut state, true);
    assert_eq!(
        coin_flip::helpers::ensure_not_paused(&state.config).unwrap_err(),
        ContractError::Paused
    );
    coin_flip::sudo::update_pause(&mut state, false);
    assert!(coin_flip::helpers::ensure_not_paused(&state.config).is_ok());
}

#[test]
fn test_sudo_unauth() {
    let state = setup();
    assert_eq!(
        coin_flip::helpers::ensure_admin(&state.config, &String::from("random")).unwrap_err(),
        ContractError::Unauthorized
    );
    assert!(coin_flip::helpers::ensure_admin(&state.config, &String::from("admin")).is_ok());
}

#[test]
fn test_update_bank_limit() {
    let mut state = setup();
    coin_flip::sudo::update_bank_limit(&mut state, 150_000_000);
    assert_eq!(state.config.bank_limit, 150_000_000);
}

#[test]
fn test_update_config_fees() {
    let mut state = setup();
    let new_fees = Fees { team_bps: 1000, holders_bps: 8000, reserve_bps: 1000, flip_bps: 400 };
    coin_flip::sudo::update_fees(&mut state, new_fees);
    assert_eq!(state.config.fees, new_fees);
}

#[test]
fn test_update_sg721() {
    let mut state = setup();
    coin_flip::sudo::update_sg721(&mut state, String::from("collection"));
    assert_eq!(state.config.sg721_addr, Some(String::from("collection")));
}

#[test]
fn test_get_fees() {
    let mut state = setup();
    assert_eq!(coin_flip::contract::get_fees(&state), 0);
    start(&mut state, "flipper", 10_000_000).unwrap();
    assert_eq!(coin_flip::contract::get_fees(&state), 350_000);
}

#[test]
fn test_flip_ids() {
    let mut state = setup();
    assert_eq!(coin_flip::state::get_flip_id(&state), None);
    assert_eq!(coin_flip::state::get_next_flip_id(&state), 0);
    start(&mut state, "flipper", 5_000_000).unwrap();
    assert_eq!(coin_flip::state::get_flip_id(&state), Some(0));
    assert_eq!(coin_flip::state::get_next_flip_id(&state), 1);
}
