use coin_flip::contract::instantiate;
use coin_flip::error::ContractError;
use coin_flip::msg::InstantiateMsg;
use coin_flip::state::FlipState;
use coin_flip::sudo::{
    calculate_fees_to_pay, distribute, dry_distribution, get_holders_list, get_share,
    verify_contract_balance,
};
use coin_flip::types::{Fees, FeesToPay, Wallets};

const BANK_LIMIT: u128 = 30_000_000_000;

fn setup(sg721: Option<&str>) -> FlipState {
    instantiate(
        String::from("admin"),
        InstantiateMsg {
            admin: String::from("admin"),
            denoms: vec![String::from("ustars")],
            wallets: Wallets {
                team: String::from("team-wallet"),
                reserve: String::from("reserve-wallet"),
            },
            fees: Fees { team_bps: 1500, holders_bps: 7000, reserve_bps: 1500, flip_bps: 350 },
            bank_limit: None,
            flips_per_block_limit: None,
            sg721_addr: sg721.map(String::from),
        },
    )
}

/// Items 1..=500 belong to flipper-1, items 501..=777 to flipper-2.
fn two_holder_owners() -> Vec<Option<String>> {
    let mut owners = Vec::new();
    for i in 0..777usize {
        if i < 500 {
            owners.push(Some(String::from("flipper-1")));
        } else {
            owners.push(Some(String::from("flipper-2")));
        }
    }
    owners
}

#[test]
fn test_get_share_tiers() {
    assert_eq!(get_share(1).unwrap().atomics, 1_000_000_000_000_000_000);
    assert_eq!(get_share(649).unwrap().atomics, 1_000_000_000_000_000_000);
    assert_eq!(get_share(650).unwrap().atomics, 1_500_000_000_000_000_000);
    assert_eq!(get_share(727).unwrap().atomics, 1_500_000_000_000_000_000);
    assert_eq!(get_share(728).unwrap().atomics, 2_000_000_000_000_000_000);
    assert_eq!(get_share(777).unwrap().atomics, 2_000_000_000_000_000_000);
}

#[test]
fn test_holders_list_aggregates_by_owner() {
    let owners = two_holder_owners();
    let (total, list) = get_holders_list(&owners).unwrap();
    // 649 singles + 78 at one and a half + 50 doubles: 866 whole shares.
    assert_eq!(total.atomics, 866_000_000_000_000_000_000);
    assert_eq!(list.len(), 2);
    assert_eq!(list[0].addr, "flipper-1");
    assert_eq!(list[0].share.atomics, 500_000_000_000_000_000_000);
    assert_eq!(list[1].addr, "flipper-2");
    assert_eq!(list[1].share.atomics, 366_000_000_000_000_000_000);
}

#[test]
fn test_holders_list_skips_unowned() {
    let mut owners: Vec<Option<String>> = Vec::new();
    for _ in 0..777usize {
        owners.push(None);
    }
    owners[0] = Some(String::from("solo"));
    let (total, list) = get_holders_list(&owners).unwrap();
    assert_eq!(total.atomics, 1_000_000_000_000_000_000);
    assert_eq!(list.len(), 1);
    assert_eq!(list[0].addr, "solo");
}

#[test]
fn test_calculate_fees_to_pay() {
    let with = setup(Some("collection"));
    let split = calculate_fees_to_pay(&with.config, 1_750_000).unwrap();
    assert_eq!(split, FeesToPay { team: 262_500, holders: 1_225_000, reserve: 262_500 });
    let without = setup(None);
    let split = calculate_fees_to_pay(&without.config, 1_750_000).unwrap();
    assert_eq!(split, FeesToPay { team: 875_000, holders: 0, reserve: 875_000 });
    // Dust stays put.
    assert_eq!(
        calculate_fees_to_pay(&with.config, 1_000).unwrap_err(),
        ContractError::NoFeesToPay
    );
}

#[test]
fn test_verify_contract_balance() {
    // Bank above the floor: the reserve share goes out whole.
    assert_eq!(
        verify_contract_balance(40_000_000_000, 5_000_000_000, 4_000_000_000, BANK_LIMIT).unwrap(),
        4_000_000_000
    );
    // Bank three billion short: the payout shrinks by exactly the deficit.
    assert_eq!(
        verify_contract_balance(32_000_000_000, 5_000_000_000, 4_000_000_000, BANK_LIMIT).unwrap(),
        1_000_000_000
    );
    // Deficit beyond the whole share: nothing goes out.
    assert_eq!(
        verify_contract_balance(32_000_000_000, 5_000_000_000, 2_000_000_000, BANK_LIMIT).unwrap(),
        0
    );
    // A pool above the balance is an invariant breach.
    assert_eq!(
        verify_contract_balance(4_999_999_999, 5_000_000_000, 0, BANK_LIMIT).unwrap_err(),
        ContractError::NotEnoughFundsToPayFees
    );
}

#[test]
fn test_distribute() {
    let mut state = setup(Some("collection"));
    state.fees = 1_750_000;
    let owners = two_holder_owners();
    let balance = BANK_LIMIT + 1_750_000;
    let msgs = distribute(&mut state, balance, &owners).unwrap();
    assert_eq!(msgs.len(), 4);
    assert_eq!(msgs[0].to_address, "flipper-1");
    assert_eq!(msgs[0].amount, 707_274);
    assert_eq!(msgs[1].to_address, "flipper-2");
    assert_eq!(msgs[1].amount, 517_725);
    assert_eq!(msgs[2].to_address, "team-wallet");
    assert_eq!(msgs[2].amount, 262_500);
    assert_eq!(msgs[3].to_address, "reserve-wallet");
    assert_eq!(msgs[3].amount, 262_500);
    for m in &msgs {
        assert_eq!(m.denom, "ustars");
    }
    // Conservation: the pool shrank by exactly what was paid; the
    // rounding remainder of one base unit stays behind.
    let paid: u128 = msgs.iter().map(|m| m.amount).sum();
    assert_eq!(paid, 1_749_999);
    assert_eq!(state.fees, 1);
}

#[test]
fn test_distribute_without_collection() {
    let mut state = setup(None);
    state.fees = 1_750_001;
    let owners: Vec<Option<String>> = Vec::new();
    let balance = BANK_LIMIT + 1_750_001;
    let msgs = distribute(&mut state, balance, &owners).unwrap();
    // An even split between team and reserve, floor-rounded; the odd base
    // unit stays in the pool.
    assert_eq!(msgs.len(), 2);
    assert_eq!(msgs[0].to_address, "team-wallet");
    assert_eq!(msgs[0].amount, 875_000);
    assert_eq!(msgs[1].to_address, "reserve-wallet");
    assert_eq!(msgs[1].amount, 875_000);
    assert_eq!(state.fees, 1);
}

#[test]
fn test_failing_distribute() {
    // Dust pool: a no-op signal, not a fault.
    let mut state = setup(None);
    state.fees = 1_000;
    let owners: Vec<Option<String>> = Vec::new();
    assert_eq!(
        distribute(&mut state, BANK_LIMIT, &owners).unwrap_err(),
        ContractError::NoFeesToPay
    );
    assert_eq!(state.fees, 1_000);
    // A recorded pool above the balance: fatal bookkeeping breach.
    state.fees = 2_000;
    assert_eq!(
        distribute(&mut state, 1_999, &owners).unwrap_err(),
        ContractError::NotEnoughFundsToPayFees
    );
    assert_eq!(state.fees, 2_000);
}

#[test]
fn test_distribute_no_owned_items() {
    // A collection whose items are all unowned leaves the holder share
    // with nothing to divide by.
    let mut state = setup(Some("collection"));
    state.fees = 1_750_000;
    let mut owners: Vec<Option<String>> = Vec::new();
    for _ in 0..777usize {
        owners.push(None);
    }
    assert_eq!(
        distribute(&mut state, BANK_LIMIT + 1_750_000, &owners).unwrap_err(),
        ContractError::DivideByZero
    );
}

#[test]
fn test_distribute_overflow() {
    let mut state = setup(Some("collection"));
    state.fees = u128::MAX;
    let owners = two_holder_owners();
    assert_eq!(
        distribute(&mut state, u128::MAX, &owners).unwrap_err(),
        ContractError::Overflow
    );
    assert_eq!(state.fees, u128::MAX);
}

#[test]
fn test_dry_distribution_matches() {
    let mut state = setup(Some("collection"));
    state.fees = 1_750_000;
    let owners = two_holder_owners();
    let balance = BANK_LIMIT + 1_750_000;
    let resp = dry_distribution(&state, balance, &owners).unwrap();
    assert_eq!(resp.total_fees, 1_750_000);
    assert_eq!(resp.team_total_fee, 262_500);
    assert_eq!(resp.reserve_total_fee, 262_500);
    assert_eq!(resp.holders_total_fee, 1_225_000);
    assert_eq!(resp.holders_total_shares.atomics, 866_000_000_000_000_000_000);
    assert_eq!(resp.fees_per_token.atomics, 1_414_549_653_579_676_674_364);
    assert_eq!(resp.pay_to_holders, 1_224_999);
    assert_eq!(resp.number_of_holders, 2);
    // The dry run mutated nothing.
    assert_eq!(state.fees, 1_750_000);
    // The real distribution pays exactly what the dry run predicted.
    let msgs = distribute(&mut state, balance, &owners).unwrap();
    let holder_paid: u128 = msgs[0].amount + msgs[1].amount;
    assert_eq!(holder_paid, resp.pay_to_holders);
}
