use ricoterm::errors::Error;
use ricoterm::health::{
    build_urn_data, compute_debt, compute_loan, compute_safety, total_position_value,
    CollateralInput, Ilk, UrnData,
};
use ricoterm::units::{BLN, RAY, WAD};

fn sample_ilk(rack: u128, fee: u128, rho: u64) -> Ilk {
    Ilk {
        tart: 0,
        rack,
        line: 0,
        dust: 0,
        fee,
        rho,
        chop: 0,
        hook: vec![0u8; 20],
        tink: None,
        inkd: None,
    }
}

#[test]
fn debt_scales_art_by_the_index() {
    // art = 2 WAD, index = 1.5 RAY: debt = 3 WAD
    assert_eq!(compute_debt(2 * WAD, RAY + RAY / 2), Ok(3 * WAD));
    assert_eq!(compute_debt(0, RAY), Ok(0));
}

#[test]
fn loan_divides_both_scales_back_out() {
    // art = 2 WAD, syn = 1.5 RAY, par = 2 RAY: loan = 6 WAD
    assert_eq!(compute_loan(2 * WAD, RAY + RAY / 2, 2 * RAY), Ok(6 * WAD));
}

#[test]
fn loan_overflow_is_reported() {
    assert_eq!(
        compute_loan(u128::MAX, u128::MAX, u128::MAX),
        Err(Error::ArithmeticOverflow)
    );
}

#[test]
fn safety_of_zero_loan_is_zero() {
    assert_eq!(compute_safety(123 * WAD, 0), Ok(0));
    assert_eq!(compute_safety(0, 0), Ok(0));
}

#[test]
fn safety_at_the_boundary_is_one() {
    // value == loan: exactly 1.0 at BLN scale
    assert_eq!(compute_safety(7 * WAD, 7 * WAD), Ok(BLN));
    // value == 2 * loan: exactly 2.0
    assert_eq!(compute_safety(14 * WAD, 7 * WAD), Ok(2 * BLN));
}

#[test]
fn safety_overflow_is_reported() {
    assert_eq!(compute_safety(u128::MAX, 1), Err(Error::ArithmeticOverflow));
}

#[test]
fn position_values_sum_and_overflow() {
    assert_eq!(total_position_value(&vec![(1, 10), (2, 20), (3, 12)]), Ok(42));
    assert_eq!(total_position_value(&vec![]), Ok(0));
    assert_eq!(
        total_position_value(&vec![(1, u128::MAX), (2, 1)]),
        Err(Error::ArithmeticOverflow)
    );
}

#[test]
fn build_urn_simple_holding() {
    let ilk = sample_ilk(RAY, RAY, 0);
    let collateral = CollateralInput::Simple { ink: 2 * WAD, feed_price: 3 * RAY, liqr: RAY };
    let urn = build_urn_data("weth".to_string(), &ilk, WAD, RAY, 100, &collateral).unwrap();
    assert_eq!(urn.ink_name, "weth".to_string());
    assert_eq!(urn.art, WAD);
    assert_eq!(urn.ink, 2 * WAD);
    assert_eq!(urn.debt, WAD);
    assert_eq!(urn.loan, WAD);
    assert_eq!(urn.value, 6 * WAD);
    assert_eq!(urn.safety, 6 * BLN);
    assert_eq!(urn.ninks, None);
}

#[test]
fn build_urn_pool_positions() {
    let ilk = sample_ilk(RAY, RAY, 0);
    let collateral = CollateralInput::Pool { positions: vec![(11, 10 * WAD), (22, 20 * WAD)] };
    let urn = build_urn_data("uninft".to_string(), &ilk, 0, RAY, 50, &collateral).unwrap();
    assert_eq!(urn.ink, 30 * WAD);
    assert_eq!(urn.value, 30 * WAD);
    assert_eq!(urn.ninks, Some(vec![11, 22]));
    assert_eq!(urn.loan, 0);
    assert_eq!(urn.safety, 0);
}

#[test]
fn build_urn_accrues_before_valuing() {
    // fee 2.0/s, 2 seconds: index quadruples
    let ilk = sample_ilk(RAY, 2 * RAY, 10);
    let collateral = CollateralInput::Simple { ink: WAD, feed_price: RAY, liqr: RAY };
    let urn = build_urn_data("weth".to_string(), &ilk, WAD, RAY, 12, &collateral).unwrap();
    assert_eq!(urn.debt, 4 * WAD);
    assert_eq!(urn.loan, 4 * WAD);
}

#[test]
fn build_urn_zero_ratio_is_division_by_zero() {
    let ilk = sample_ilk(RAY, RAY, 0);
    let collateral = CollateralInput::Simple { ink: WAD, feed_price: RAY, liqr: 0 };
    assert_eq!(
        build_urn_data("weth".to_string(), &ilk, WAD, RAY, 0, &collateral),
        Err(Error::DivideByZero)
    );
}

#[test]
fn empty_urn_record_is_all_zero() {
    let u = UrnData::new();
    assert_eq!(u.ink_name, String::new());
    assert_eq!(u.ink, 0);
    assert_eq!(u.art, 0);
    assert_eq!(u.debt, 0);
    assert_eq!(u.loan, 0);
    assert_eq!(u.value, 0);
    assert_eq!(u.safety, 0);
    assert_eq!(u.ninks, None);
    assert_eq!(UrnData::default(), u);
}
