use ricoterm::accrual::{project_way, syn_rack, syn_rack_pow};
use ricoterm::errors::Error;
use ricoterm::units::RAY;

#[test]
fn syn_rack_zero_elapsed_returns_rack() {
    let rack: u128 = 123_456_789 * RAY / 1000;
    let fee: u128 = RAY + 777;
    assert_eq!(syn_rack(rack, fee, 0), Ok(rack));
}

#[test]
fn syn_rack_unit_fee_is_identity() {
    let rack: u128 = 31_415_926_535 * (RAY / 1_000_000);
    assert_eq!(syn_rack(rack, RAY, 1000), Ok(rack));
    assert_eq!(syn_rack(rack, RAY, 1), Ok(rack));
    assert_eq!(syn_rack(0, RAY, 55), Ok(0));
}

#[test]
fn syn_rack_strictly_increasing_for_growing_fee() {
    let rack: u128 = RAY;
    let fee: u128 = RAY + 300_000_000_000_000_000; // 3e17: +3e-10 per second
    let mut prev = syn_rack(rack, fee, 0).unwrap();
    for elapsed in 1..6u64 {
        let next = syn_rack(rack, fee, elapsed).unwrap();
        assert!(next > prev);
        prev = next;
    }
}

#[test]
fn syn_rack_one_step_exact() {
    // one step of rack * fee / RAY, floored
    let rack: u128 = 2 * RAY;
    let fee: u128 = RAY + RAY / 2;
    assert_eq!(syn_rack(rack, fee, 1), Ok(3 * RAY));
}

#[test]
fn syn_rack_overflow_is_reported() {
    let rack: u128 = u128::MAX;
    let fee: u128 = 2 * RAY;
    assert_eq!(syn_rack(rack, fee, 1), Err(Error::ArithmeticOverflow));
}

#[test]
fn fast_and_iterative_accrual_agree_on_ray_multiples() {
    // fee an exact RAY multiple: both schedules are exact and equal
    let rack: u128 = 5;
    let fee: u128 = 2 * RAY;
    let iter = syn_rack(rack, fee, 10).unwrap();
    let fast = syn_rack_pow(rack, fee, 10).unwrap();
    assert_eq!(iter, 5 * 1024);
    assert_eq!(iter, fast);

    let fee3: u128 = 3 * RAY;
    let iter3 = syn_rack(7, fee3, 7).unwrap();
    let fast3 = syn_rack_pow(7, fee3, 7).unwrap();
    assert_eq!(iter3, 7 * 2187);
    assert_eq!(iter3, fast3);
}

#[test]
fn fast_accrual_matches_unit_fee() {
    let rack: u128 = 42 * RAY;
    assert_eq!(syn_rack_pow(rack, RAY, 99), Ok(rack));
}

#[test]
fn scenario_hourly_accrual_close_to_float_compounding() {
    // rack = RAY, fee = RAY * 1.0000000003, one hour of accrual
    let rack: u128 = RAY;
    let fee: u128 = RAY + 300_000_000_000_000_000;
    let got = syn_rack(rack, fee, 3600).unwrap();
    let expected = (RAY as f64) * 1.0000000003f64.powi(3600);
    let rel = ((got as f64) - expected).abs() / expected;
    assert!(rel < 1e-6, "relative error {rel}");
}

#[test]
fn scenario_loan_from_hourly_accrual() {
    let rack: u128 = RAY;
    let fee: u128 = RAY + 300_000_000_000_000_000;
    let syn = syn_rack(rack, fee, 3600).unwrap();
    let art: u128 = 100 * 1_000_000_000_000_000_000;
    let loan = ricoterm::health::compute_loan(art, syn, RAY).unwrap();
    let expected = 100.0 * (syn as f64) / (RAY as f64) * 1e18;
    let rel = ((loan as f64) - expected).abs() / expected;
    assert!(rel < 1e-6, "relative error {rel}");
}

#[test]
fn project_way_below_par_compounds_by_how() {
    // mar < par: one step multiplies way by how / RAY
    let way: u128 = RAY;
    let how: u128 = RAY + RAY / 4;
    assert_eq!(project_way(way, how, 1, 2, 1), Ok(how));
}

#[test]
fn project_way_above_par_compounds_by_inverse() {
    // mar > par: the multiplier is RAY^2 / how
    let way: u128 = RAY;
    let how: u128 = 2 * RAY;
    assert_eq!(project_way(way, how, 3, 2, 1), Ok(RAY / 2));
}

#[test]
fn project_way_at_parity_collapses() {
    let way: u128 = 7 * RAY;
    let how: u128 = RAY + 5;
    assert_eq!(project_way(way, how, 9, 9, 1), Ok(0));
    assert_eq!(project_way(way, how, 9, 9, 0), Ok(way));
}

#[test]
fn project_way_zero_how_above_par_is_division_by_zero() {
    assert_eq!(project_way(RAY, 0, 3, 2, 1), Err(Error::DivideByZero));
}

#[test]
fn fast_accrual_overflow_is_reported() {
    assert_eq!(
        syn_rack_pow(u128::MAX, 2 * RAY, 1),
        Err(Error::ArithmeticOverflow)
    );
}
