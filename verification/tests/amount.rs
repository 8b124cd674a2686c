use tx_engine::amount::Amount;

#[test]
fn new_normalizes_equal_values_across_scales() {
    assert_eq!(Amount::new(55, 1), Amount::new(5500, 3));
    assert_eq!(Amount::new(5, 0), Amount::new(50000, 4));
    assert_eq!(Amount::new(0, 0), Amount::zero());
}

#[test]
fn inner_is_the_unit_count_at_scale_18() {
    assert_eq!(Amount::new(55, 1).inner(), 55 * 10i128.pow(17));
    assert_eq!(Amount::new(-15, 1).inner(), -15 * 10i128.pow(17));
    assert_eq!(Amount::zero().inner(), 0);
}

#[test]
fn addition_of_decimal_fractions_is_exact() {
    let a = Amount::new(1, 1);
    let b = Amount::new(2, 1);
    assert_eq!(a.plus(b), Amount::new(3, 1));
    assert_eq!(Amount::new(12345, 4).plus(Amount::new(1, 4)), Amount::new(12346, 4));
}

#[test]
fn subtraction_can_go_negative() {
    let a = Amount::new(5, 1);
    let b = Amount::new(20, 1);
    assert_eq!(a.minus(b), Amount::new(-15, 1));
    assert!(a.minus(b).is_negative());
    assert!(!b.minus(a).is_negative());
}

#[test]
fn is_zero_and_default() {
    assert!(Amount::zero().is_zero());
    assert!(Amount::default().is_zero());
    assert!(!Amount::new(1, 18).is_zero());
}

#[test]
fn abs_flips_the_sign_of_negative_amounts() {
    assert_eq!(Amount::new(-15, 1).abs(), Amount::new(15, 1));
    assert_eq!(Amount::new(15, 1).abs(), Amount::new(15, 1));
    assert_eq!(Amount::zero().abs(), Amount::zero());
}

#[test]
fn in_range_accepts_ledger_sized_amounts() {
    assert!(Amount::new(1_000_000_000, 0).in_range());
    assert!(Amount::new(-1_000_000_000, 0).in_range());
}
