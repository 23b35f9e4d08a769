use market::asset::{AssetEntry, AssetId, MarketError, ReserveSnapshot};
use market::fixed_point::SCALE;
use market::rate_model::{RateModel, BASE_RATE, KINK_UTILIZATION, SLOPE_BELOW_KINK};

const HUNDREDTH: u128 = 10_000_000_000_000_000;

fn entry() -> AssetEntry {
    AssetEntry::new(
        AssetId::new(vec![1, 2, 3]),
        Some("Radix".to_string()),
        Some("XRD".to_string()),
        RateModel::standard(),
    )
    .unwrap()
}

fn snapshot(supplied: u128, borrowed: u128) -> ReserveSnapshot {
    ReserveSnapshot { supplied, borrowed }
}

#[test]
fn new_entry_starts_at_zero_utilization() {
    let e = entry();
    assert_eq!(e.utilization(), 0);
    assert_eq!(e.apy(), BASE_RATE);
    assert_eq!(e.name(), "Radix");
    assert_eq!(e.symbol(), "XRD");
    assert_eq!(e.identity().as_bytes(), &[1u8, 2, 3][..]);
    assert_eq!(e.rate_model(), RateModel::standard());
}

#[test]
fn new_entry_without_name_fails() {
    let r = AssetEntry::new(
        AssetId::new(vec![1]),
        None,
        Some("XRD".to_string()),
        RateModel::standard(),
    );
    assert_eq!(r.unwrap_err(), MarketError::MetadataUnavailable);
}

#[test]
fn new_entry_without_symbol_fails() {
    let r = AssetEntry::new(
        AssetId::new(vec![1]),
        Some("Radix".to_string()),
        None,
        RateModel::standard(),
    );
    assert_eq!(r.unwrap_err(), MarketError::MetadataUnavailable);
}

#[test]
fn utilization_of_empty_reserve_is_zero() {
    assert_eq!(AssetEntry::calc_utilization(0, 0), 0);
    assert_eq!(AssetEntry::calc_utilization(0, 5), 0);
}

#[test]
fn utilization_is_the_borrowed_fraction() {
    assert_eq!(AssetEntry::calc_utilization(1000, 250), 25 * HUNDREDTH);
    assert_eq!(AssetEntry::calc_utilization(1000, 1000), SCALE);
    assert_eq!(AssetEntry::calc_utilization(3, 1), 333_333_333_333_333_333);
    assert_eq!(AssetEntry::calc_utilization(u128::MAX, u128::MAX / 2), SCALE / 2);
}

#[test]
fn utilization_is_clamped_to_one() {
    assert_eq!(AssetEntry::calc_utilization(100, 150), SCALE);
}

#[test]
fn nothing_borrowed_gives_base_rate() {
    let mut e = entry();
    assert_eq!(e.update(snapshot(1000, 0)), Ok(()));
    assert_eq!(e.utilization(), 0);
    assert_eq!(e.apy(), BASE_RATE);
}

#[test]
fn borrowed_at_kink_gives_kink_rate() {
    let mut e = entry();
    assert_eq!(e.update(snapshot(1000, 800)), Ok(()));
    assert_eq!(e.utilization(), KINK_UTILIZATION);
    assert_eq!(e.apy(), BASE_RATE + KINK_UTILIZATION * SLOPE_BELOW_KINK / SCALE);
    assert_eq!(e.apy(), 10 * HUNDREDTH);
}

#[test]
fn borrowed_past_kink_uses_upper_slope() {
    let mut e = entry();
    assert_eq!(e.update(snapshot(1000, 950)), Ok(()));
    assert_eq!(e.utilization(), 95 * HUNDREDTH);
    assert_eq!(e.apy(), 25 * HUNDREDTH);
    assert!(e.apy() > e.calc_apy(KINK_UTILIZATION));
}

#[test]
fn empty_reserve_refreshes_to_zero() {
    let mut e = entry();
    e.update(snapshot(1000, 950)).unwrap();
    assert_eq!(e.update(snapshot(0, 0)), Ok(()));
    assert_eq!(e.utilization(), 0);
    assert_eq!(e.apy(), BASE_RATE);
}

#[test]
fn over_borrowed_reserve_is_rejected() {
    let mut e = entry();
    e.update(snapshot(1000, 500)).unwrap();
    let before = (e.utilization(), e.apy());
    assert_eq!(e.update(snapshot(100, 150)), Err(MarketError::ReserveInvariantViolation));
    assert_eq!((e.utilization(), e.apy()), before);
}

#[test]
fn refreshing_twice_changes_nothing() {
    let mut e = entry();
    e.update(snapshot(700, 455)).unwrap();
    let first = (e.utilization(), e.apy());
    e.update(snapshot(700, 455)).unwrap();
    assert_eq!((e.utilization(), e.apy()), first);
    assert_eq!(first.0, 65 * HUNDREDTH);
}

#[test]
fn calc_apy_uses_entry_curve() {
    let e = entry();
    assert_eq!(e.calc_apy(0), BASE_RATE);
    assert_eq!(e.calc_apy(SCALE), 30 * HUNDREDTH);
}

#[test]
fn identities_compare_by_bytes() {
    let a = AssetId::new(vec![1, 2, 3]);
    assert!(a.same_as(&AssetId::new(vec![1, 2, 3])));
    assert!(!a.same_as(&AssetId::new(vec![1, 2, 4])));
    assert!(!a.same_as(&AssetId::new(vec![1, 2])));
    assert!(AssetId::new(vec![]).same_as(&AssetId::new(vec![])));
}
