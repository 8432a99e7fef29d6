use coin_flip::decimal::{Decimal, DECIMAL_FRACTIONAL};
use coin_flip::error::ContractError;
use coin_flip::helpers::{bps_to_decimal, calc_flip_fee, ensure_correct_funds};
use coin_flip::types::{Fees, FeesToPay};

fn schedule() -> Fees {
    Fees { team_bps: 1500, holders_bps: 7000, reserve_bps: 1500, flip_bps: 350 }
}

#[test]
fn test() {
    let res = ensure_correct_funds(103_500, 100_000, 350).unwrap();
    assert_eq!(res, 3_500);
}

#[test]
fn test_fee_calc() {
    let fee = schedule();

    let total_fees: u128 = 100;
    let FeesToPay { team, holders, reserve } = fee.calculate(total_fees);
    assert_eq!(total_fees, team + holders + reserve);

    // Make sure floor is working correctly: 22 + 105 + 22 = 149, one short.
    let total_fees: u128 = 150;
    let FeesToPay { team, holders, reserve } = fee.calculate(total_fees);
    assert_eq!(total_fees - 1, team + holders + reserve);
}

#[test]
fn test_calc_flip_fee_exact() {
    assert_eq!(calc_flip_fee(5_000_000, 350).unwrap(), 175_000);
    assert_eq!(calc_flip_fee(25_000_000, 350).unwrap(), 875_000);
    // Floor rounding: 333 * 350 / 10000 = 11.655 -> 11.
    assert_eq!(calc_flip_fee(333, 350).unwrap(), 11);
    assert_eq!(calc_flip_fee(0, 350).unwrap(), 0);
    // The product leaves u128: explicit overflow failure, never a clamp.
    assert_eq!(calc_flip_fee(u128::MAX, 2).unwrap_err(), ContractError::Overflow);
}

#[test]
fn test_wrong_paid_amount_rejected() {
    // paidAmount must equal stake + fee exactly; both directions fail.
    assert_eq!(
        ensure_correct_funds(5_174_999, 5_000_000, 350).unwrap_err(),
        ContractError::WrongPaidAmount
    );
    assert_eq!(
        ensure_correct_funds(5_175_001, 5_000_000, 350).unwrap_err(),
        ContractError::WrongPaidAmount
    );
    assert_eq!(ensure_correct_funds(5_175_000, 5_000_000, 350).unwrap(), 175_000);
}

#[test]
fn test_bps_to_decimal() {
    // 350 bps is 0.035, i.e. 35 * 10^15 atomics.
    assert_eq!(bps_to_decimal(350).atomics, 35_000_000_000_000_000);
    assert_eq!(bps_to_decimal(10_000).atomics, DECIMAL_FRACTIONAL);
}

#[test]
fn test_decimal_ops() {
    let one = Decimal::one();
    let half = Decimal { atomics: DECIMAL_FRACTIONAL / 2 };
    assert!(Decimal::zero().is_zero());
    assert!(!one.is_zero());
    assert_eq!(one.checked_mul(half).unwrap().atomics, DECIMAL_FRACTIONAL / 2);
    assert_eq!(one.checked_add(half).unwrap().atomics, 3 * DECIMAL_FRACTIONAL / 2);
    // 1 / 0.5 = 2
    assert_eq!(one.checked_div(half).unwrap().atomics, 2 * DECIMAL_FRACTIONAL);
    assert_eq!(
        one.checked_div(Decimal::zero()).unwrap_err(),
        ContractError::DivideByZero
    );
    // floor: 2.5 -> 2
    let two_and_half = Decimal { atomics: 5 * DECIMAL_FRACTIONAL / 2 };
    assert_eq!(two_and_half.to_uint_floor(), 2);
    assert_eq!(schedule().to_uint_floor(two_and_half), 2);
    // from_int round trip
    assert_eq!(Decimal::from_int(7).unwrap().atomics, 7 * DECIMAL_FRACTIONAL);
    assert_eq!(Decimal::from_int(u128::MAX).unwrap_err(), ContractError::Overflow);
    // 7/3 rounds down at the eighteenth place and multiplying back floors.
    let seven = Decimal::from_int(7).unwrap();
    let three = Decimal::from_int(3).unwrap();
    let q = seven.checked_div(three).unwrap();
    assert_eq!(q.atomics, 2_333_333_333_333_333_333);
    assert_eq!(q.checked_mul(three).unwrap().to_uint_floor(), 6);
}
