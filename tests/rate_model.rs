use market::fixed_point::{div_round_half_even, ratio_half_even, SCALE};
use market::rate_model::{
    RateModel, BASE_RATE, KINK_UTILIZATION, MAX_RATE_PARAMETER, SLOPE_ABOVE_KINK, SLOPE_BELOW_KINK,
};

const TENTH: u128 = 100_000_000_000_000_000;
const HUNDREDTH: u128 = 10_000_000_000_000_000;

#[test]
fn division_rounds_half_to_even() {
    assert_eq!(div_round_half_even(7, 2), 4);
    assert_eq!(div_round_half_even(5, 2), 2);
    assert_eq!(div_round_half_even(10, 4), 2);
    assert_eq!(div_round_half_even(14, 4), 4);
    assert_eq!(div_round_half_even(11, 3), 4);
    assert_eq!(div_round_half_even(10, 3), 3);
    assert_eq!(div_round_half_even(0, 9), 0);
    assert_eq!(div_round_half_even(u128::MAX, 1), u128::MAX);
}

#[test]
fn ratio_uses_eighteen_digits() {
    assert_eq!(ratio_half_even(1, 3), 333_333_333_333_333_333);
    assert_eq!(ratio_half_even(2, 3), 666_666_666_666_666_667);
    assert_eq!(ratio_half_even(0, 5), 0);
    assert_eq!(ratio_half_even(1, 2), SCALE / 2);
    assert_eq!(ratio_half_even(u128::MAX - 1, u128::MAX), SCALE);
}

#[test]
fn ratio_rounds_a_tie_to_even() {
    // 1 / (2 * 10^18) is exactly half of the last digit.
    assert_eq!(ratio_half_even(1, 2 * SCALE), 0);
    // 3 / (2 * 10^18) is one and a half units of the last digit.
    assert_eq!(ratio_half_even(3, 2 * SCALE), 2);
}

#[test]
fn standard_curve_parameters() {
    let m = RateModel::standard();
    assert_eq!(m.base_rate, BASE_RATE);
    assert_eq!(m.kink_utilization, KINK_UTILIZATION);
    assert_eq!(m.slope_below_kink, SLOPE_BELOW_KINK);
    assert_eq!(m.slope_above_kink, SLOPE_ABOVE_KINK);
    assert_eq!(KINK_UTILIZATION, 8 * TENTH);
}

#[test]
fn apy_at_zero_is_base_rate() {
    let m = RateModel::standard();
    assert_eq!(m.calc_apy(0), BASE_RATE);
}

#[test]
fn apy_below_kink_follows_lower_slope() {
    let m = RateModel::standard();
    // 0.02 + 0.5 * 0.1
    assert_eq!(m.calc_apy(5 * TENTH), 7 * HUNDREDTH);
}

#[test]
fn apy_at_kink_matches_both_branches() {
    let m = RateModel::standard();
    let at_kink = m.calc_apy(KINK_UTILIZATION);
    assert_eq!(at_kink, BASE_RATE + KINK_UTILIZATION * SLOPE_BELOW_KINK / SCALE);
    assert_eq!(at_kink, 10 * HUNDREDTH);
    // Just past the kink the upper branch starts from the same value.
    assert_eq!(m.calc_apy(KINK_UTILIZATION + 1), at_kink + 1);
}

#[test]
fn apy_above_kink_follows_upper_slope() {
    let m = RateModel::standard();
    // 0.02 + 0.8 * 0.1 + 0.15 * 1.0
    assert_eq!(m.calc_apy(95 * HUNDREDTH), 25 * HUNDREDTH);
    // 0.02 + 0.08 + 0.2 * 1.0
    assert_eq!(m.calc_apy(SCALE), 30 * HUNDREDTH);
}

#[test]
fn apy_is_monotone_on_a_grid() {
    let m = RateModel::standard();
    let mut previous = m.calc_apy(0);
    let mut u: u128 = 0;
    while u <= SCALE {
        let a = m.calc_apy(u);
        assert!(a >= previous);
        previous = a;
        u += HUNDREDTH / 2;
    }
}

#[test]
fn flat_curve_gives_constant_rate() {
    let m = RateModel {
        base_rate: TENTH,
        kink_utilization: KINK_UTILIZATION,
        slope_below_kink: 0,
        slope_above_kink: 0,
    };
    assert_eq!(m.calc_apy(0), TENTH);
    assert_eq!(m.calc_apy(SCALE), TENTH);
}

#[test]
fn largest_curve_at_full_utilization_does_not_overflow() {
    let m = RateModel {
        base_rate: MAX_RATE_PARAMETER,
        kink_utilization: SCALE / 2,
        slope_below_kink: MAX_RATE_PARAMETER,
        slope_above_kink: MAX_RATE_PARAMETER,
    };
    assert_eq!(m.calc_apy(SCALE), 2 * MAX_RATE_PARAMETER);
}

#[test]
fn products_are_rounded_half_to_even() {
    let m = RateModel {
        base_rate: 0,
        kink_utilization: SCALE,
        slope_below_kink: 5,
        slope_above_kink: 0,
    };
    // 0.1 * 5e-18 is half of the last digit: rounds to the even 0.
    assert_eq!(m.calc_apy(TENTH), 0);
    // 0.3 * 5e-18 is one and a half: rounds to the even 2.
    assert_eq!(m.calc_apy(3 * TENTH), 2);
}
