use ore_deploy::kelly::{calculate_kelly_optimal, C_SCALED, KELLY_MAX};

#[test]
fn kelly_of_an_empty_block_is_zero() {
    assert_eq!(calculate_kelly_optimal(0, 1_000, 500), 0);
    assert_eq!(calculate_kelly_optimal(0, 0, 0), 0);
    assert_eq!(calculate_kelly_optimal(0, u64::MAX, u64::MAX), 0);
}

#[test]
fn kelly_of_a_block_that_holds_the_whole_pool_is_zero() {
    assert_eq!(calculate_kelly_optimal(1_000, 1_000, 500), 0);
    assert_eq!(calculate_kelly_optimal(1_000, 999, 500), 0);
    assert_eq!(calculate_kelly_optimal(u64::MAX, u64::MAX, u64::MAX), 0);
}

#[test]
fn kelly_against_an_empty_pot_is_zero() {
    // A losing pool of 1 leaves nothing after the fee, and there is no bonus.
    assert_eq!(calculate_kelly_optimal(1, 2, 0), 0);
}

#[test]
fn kelly_of_a_size_below_the_block_is_zero() {
    assert_eq!(calculate_kelly_optimal(1, 3, 0), 0);
    assert_eq!(calculate_kelly_optimal(1_000_000_000, 100_000_000_000, 1_000_000_000), 0);
}

#[test]
fn kelly_follows_the_closed_form() {
    // pot 1999; 1999 * 10 / 24.2525 = 824; root 28; less the block: 18.
    assert_eq!(calculate_kelly_optimal(10, 2_232, 0), 18);
    assert_eq!(calculate_kelly_optimal(1, 325, 9_000), 18);
    assert_eq!(calculate_kelly_optimal(2, 325, 9_000), 25);
}

#[test]
fn kelly_is_refined_against_the_shrunken_pot() {
    // pot 89910; 89910 * 100 / 24.2525 = 370724; root 608; size 508.
    // Refined: pot 89452; 368836; root 607; size 507, within the tolerance.
    assert_eq!(calculate_kelly_optimal(100, 100_000, 0), 507);
    assert_eq!(calculate_kelly_optimal(100, 32_500, 900), 250);
    assert_eq!(calculate_kelly_optimal(1_000, 1_000_000, 0), 5_073);
    assert_eq!(calculate_kelly_optimal(5, 1_000, 1_000_000), 449);
}

#[test]
fn kelly_never_exceeds_the_closed_form() {
    for block in [1u128, 7, 100, 1_000, 1 << 20] {
        for total in [block + 1, block * 3, block * 1_000, 1 << 40] {
            for ore in [0u128, 1, 900, 1 << 30] {
                let y = calculate_kelly_optimal(block as u64, total as u64, ore as u64) as u128;
                let pot = (total - block) * 9 / 10 + ore;
                if y > 0 {
                    assert!(
                        (y + block) * (y + block) * 24_252_500_000
                            <= pot * block * 1_000_000_000
                    );
                }
            }
        }
    }
}

#[test]
fn kelly_never_exceeds_its_bound() {
    assert_eq!(KELLY_MAX, u64::MAX / C_SCALED);
    assert_eq!(calculate_kelly_optimal(1, u64::MAX, u64::MAX), 27_578);
    assert_eq!(calculate_kelly_optimal(1 << 63, u64::MAX, u64::MAX), 0);
    for block in [1u64, 7, 1_000, 1 << 20, 1 << 40, 1 << 62] {
        for total in [block + 1, block * 2 + 1, u64::MAX] {
            for ore in [0u64, 1, 1 << 30, u64::MAX] {
                assert!(calculate_kelly_optimal(block, total, ore) <= KELLY_MAX);
            }
        }
    }
}
