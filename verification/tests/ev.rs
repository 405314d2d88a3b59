use ore_deploy::ev::{calculate_ev, pot_value, BLOCK_COUNT, EV_MAX};

#[test]
fn ev_without_a_deployment_is_the_minimum() {
    assert_eq!(calculate_ev(100, 0, 32_500, 900), i64::MIN);
}

#[test]
fn ev_on_an_empty_block_is_the_minimum() {
    assert_eq!(calculate_ev(0, 10, 32_500, 900), i64::MIN);
    assert_eq!(calculate_ev(0, 0, 0, 0), i64::MIN);
}

#[test]
fn pot_is_nine_tenths_of_the_losing_pool_plus_the_bonus() {
    assert_eq!(pot_value(2_222, 0), 1_999);
    assert_eq!(pot_value(324, 9_000), 9_291);
    assert_eq!(pot_value(0, 17), 17);
    assert_eq!(pot_value(u64::MAX, u64::MAX), u64::MAX);
}

#[test]
fn ev_is_win_less_loss_less_fee() {
    // share 18 / 28 = 6428 bps; pot 1999; win 1999 * 6428 / 250000 = 51;
    // loss 18 * 24 / 25 = 17; fee 18 * 101 / 10000 = 0.
    assert_eq!(calculate_ev(10, 18, 2_232, 0), 34);
    // share 18 / 19 = 9473 bps; pot 9291; win 352; loss 17; fee 0.
    assert_eq!(calculate_ev(1, 18, 325, 9_000), 335);
    assert_eq!(calculate_ev(100, 883, 32_500, 900), 224);
}

#[test]
fn ev_can_be_negative() {
    assert_eq!(calculate_ev(200, 1_675, 32_500, 900), -554);
}

#[test]
fn ev_charges_the_fee() {
    // share 5000 bps; pot 90_000_000_000; win 1_800_000_000;
    // loss 960_000_000; fee 10_100_000.
    assert_eq!(calculate_ev(1_000_000_000, 1_000_000_000, 100_000_000_000, 0), 811_900_000);
}

#[test]
fn ev_when_the_block_holds_the_whole_pool() {
    assert_eq!(calculate_ev(5, 1, 5, 0), 0);
}

#[test]
fn ev_at_the_extremes_stays_within_its_bounds() {
    assert_eq!(BLOCK_COUNT, 25);
    assert_eq!(EV_MAX, 73_786_976_294_838);
    assert_eq!(calculate_ev(1, 1, u64::MAX, u64::MAX), EV_MAX);
    assert_eq!(
        calculate_ev(u64::MAX, u64::MAX, u64::MAX, 0),
        -739_714_437_355_753_019
    );
    assert_eq!(
        calculate_ev(1, u64::MAX, u64::MAX, u64::MAX),
        -739_640_650_379_458_181
    );
}
