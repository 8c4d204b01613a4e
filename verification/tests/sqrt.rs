use amm_engine::IntegerSqrt;

fn check_floor_sqrt(n: u128) {
    let r = n.integer_sqrt();
    assert!(r.checked_mul(r).map_or(false, |sq| sq <= n), "{} squared exceeds {}", r, n);
    match (r + 1).checked_mul(r + 1) {
        Some(next) => assert!(n < next, "{} is not the largest root of {}", r, n),
        None => {}
    }
}

#[test]
fn sqrt_of_zero_is_zero() {
    assert_eq!(0u128.integer_sqrt(), 0);
}

#[test]
fn sqrt_of_small_numbers() {
    assert_eq!(1u128.integer_sqrt(), 1);
    assert_eq!(2u128.integer_sqrt(), 1);
    assert_eq!(3u128.integer_sqrt(), 1);
    assert_eq!(4u128.integer_sqrt(), 2);
    assert_eq!(5u128.integer_sqrt(), 2);
    assert_eq!(8u128.integer_sqrt(), 2);
    assert_eq!(9u128.integer_sqrt(), 3);
}

#[test]
fn sqrt_of_perfect_squares() {
    assert_eq!(16u128.integer_sqrt(), 4);
    assert_eq!(40000u128.integer_sqrt(), 200);
    assert_eq!(1_000_000u128.integer_sqrt(), 1000);
    assert_eq!(1_000_000_000_000u128.integer_sqrt(), 1_000_000);
    let big: u128 = 18_446_744_073_709_551_615;
    assert_eq!((big * big).integer_sqrt(), big);
}

#[test]
fn sqrt_just_below_and_above_a_square() {
    assert_eq!(39_999u128.integer_sqrt(), 199);
    assert_eq!(40_001u128.integer_sqrt(), 200);
    assert_eq!(40_400u128.integer_sqrt(), 200);
    assert_eq!(40_401u128.integer_sqrt(), 201);
}

#[test]
fn sqrt_of_primes() {
    assert_eq!(7u128.integer_sqrt(), 2);
    assert_eq!(13u128.integer_sqrt(), 3);
    assert_eq!(97u128.integer_sqrt(), 9);
    assert_eq!(7919u128.integer_sqrt(), 88);
    assert_eq!(104_729u128.integer_sqrt(), 323);
    assert_eq!(2_147_483_647u128.integer_sqrt(), 46_340);
}

#[test]
fn sqrt_of_the_largest_inputs() {
    assert_eq!(u128::MAX.integer_sqrt(), 18_446_744_073_709_551_615);
    assert_eq!((u128::MAX - 1).integer_sqrt(), 18_446_744_073_709_551_615);
    assert_eq!((1u128 << 127).integer_sqrt(), 13_043_817_825_332_782_212);
    assert_eq!((1u128 << 64).integer_sqrt(), 1u128 << 32);
}

#[test]
fn sqrt_is_the_largest_root_for_every_small_input() {
    let mut n: u128 = 0;
    while n <= 5000 {
        check_floor_sqrt(n);
        n += 1;
    }
}

#[test]
fn sqrt_is_the_largest_root_around_powers_of_two() {
    let mut k: u32 = 1;
    while k < 128 {
        let p: u128 = 1u128 << k;
        check_floor_sqrt(p - 1);
        check_floor_sqrt(p);
        check_floor_sqrt(p + 1);
        k += 1;
    }
    check_floor_sqrt(u128::MAX);
}
