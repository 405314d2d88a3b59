use ore_deploy::arith::{saturating_mul, saturating_mul_div};

#[test]
fn saturating_mul_of_products_that_fit() {
    assert_eq!(saturating_mul(0, u64::MAX), 0);
    assert_eq!(saturating_mul(7, 6), 42);
    assert_eq!(saturating_mul(1 << 32, (1 << 32) - 1), 18_446_744_069_414_584_320);
    assert_eq!(saturating_mul(u64::MAX, 1), u64::MAX);
}

#[test]
fn saturating_mul_holds_at_the_maximum() {
    assert_eq!(saturating_mul(1 << 63, 2), u64::MAX);
    assert_eq!(saturating_mul(1 << 32, 1 << 32), u64::MAX);
    assert_eq!(saturating_mul(u64::MAX, u64::MAX), u64::MAX);
}

#[test]
fn saturating_mul_div_divides_the_clamped_product() {
    assert_eq!(saturating_mul_div(2_222, 9_000, 10_000), 1_999);
    assert_eq!(saturating_mul_div(u64::MAX, 3, 2), 9_223_372_036_854_775_807);
    assert_eq!(saturating_mul_div(u64::MAX, 9_000, 10_000), 1_844_674_407_370_955);
}
