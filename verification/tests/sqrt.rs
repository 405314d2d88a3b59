use ore_deploy::sqrt::isqrt;

/// The floor of the square root, by bisection.
fn floor_sqrt(n: u64) -> u64 {
    let mut low: u128 = 0;
    let mut high: u128 = 1 << 32;
    while low + 1 < high {
        let mid = (low + high) / 2;
        if mid * mid <= n as u128 {
            low = mid;
        } else {
            high = mid;
        }
    }
    low as u64
}

#[test]
fn isqrt_of_zero_is_zero() {
    assert_eq!(isqrt(0), 0);
}

#[test]
fn isqrt_of_one_two_and_three_is_one() {
    assert_eq!(isqrt(1), 1);
    assert_eq!(isqrt(2), 1);
    assert_eq!(isqrt(3), 1);
}

#[test]
fn isqrt_of_squares_and_their_neighbours() {
    assert_eq!(isqrt(4), 2);
    assert_eq!(isqrt(15), 3);
    assert_eq!(isqrt(16), 4);
    assert_eq!(isqrt(17), 4);
    assert_eq!(isqrt(99), 9);
    assert_eq!(isqrt(100), 10);
    assert_eq!(isqrt(1_088), 32);
    assert_eq!(isqrt(1_089), 33);
    assert_eq!(isqrt(9_999), 99);
    assert_eq!(isqrt(10_000), 100);
    assert_eq!(isqrt(370_724), 608);
    assert_eq!(isqrt(999_999), 999);
    assert_eq!(isqrt(1_000_000), 1_000);
}

#[test]
fn isqrt_of_large_arguments() {
    assert_eq!(isqrt(999_999_999_999), 999_999);
    assert_eq!(isqrt(1_000_000_000_000), 1_000_000);
    assert_eq!(isqrt(760_612_063), 27_579);
    assert_eq!(isqrt(4_294_967_295 * 4_294_967_295 - 1), 4_294_967_294);
    assert_eq!(isqrt(4_294_967_295 * 4_294_967_295), 4_294_967_295);
    assert_eq!(isqrt(u64::MAX), 4_294_967_295);
}

#[test]
fn isqrt_is_the_floor_root_of_every_small_number() {
    for n in 0..200_000u64 {
        let r = isqrt(n);
        assert!(r * r <= n, "n = {}", n);
        assert!(n < (r + 1) * (r + 1), "n = {}", n);
    }
}

#[test]
fn isqrt_is_the_floor_root_up_to_a_million_millions_and_beyond() {
    let mut samples: Vec<u64> = Vec::new();
    let mut n: u64 = 5_000;
    while n <= 1_000_000_000_000 {
        samples.push(n - 1);
        samples.push(n);
        samples.push(n + 1);
        n = n * 3 + 7;
    }
    for root in [1_000u64, 65_535, 65_536, 999_999, 1_000_000, 3_037_000_499, 4_294_967_295] {
        samples.push(root * root - 1);
        samples.push(root * root);
        samples.push(root * root + 1);
    }
    samples.push(1_000_000_000_000);
    samples.push(u64::MAX - 1);
    samples.push(u64::MAX);
    for n in samples {
        let r = isqrt(n) as u128;
        assert!(r * r <= n as u128, "n = {}", n);
        assert!((n as u128) < (r + 1) * (r + 1), "n = {}", n);
        assert!(r <= 4_294_967_295);
        assert_eq!(r, floor_sqrt(n) as u128);
    }
}
