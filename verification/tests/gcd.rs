use hell::gcd::{gcd, gcd_two};

#[test]
fn gcd_of_three_numbers() {
    assert_eq!(gcd(&[48, 18, 30]), 6);
}

#[test]
fn gcd_of_primes_is_one() {
    assert_eq!(gcd(&[101, 103, 107]), 1);
}

#[test]
fn gcd_of_zeros_is_zero() {
    assert_eq!(gcd(&[0, 0, 0]), 0);
}

#[test]
fn gcd_of_one_number_is_that_number() {
    assert_eq!(gcd(&[48]), 48);
    assert_eq!(gcd(&[0]), 0);
    assert_eq!(gcd(&[u32::MAX]), u32::MAX);
}

#[test]
fn gcd_of_nothing_is_zero() {
    assert_eq!(gcd(&[]), 0);
}

#[test]
fn gcd_skips_zeros() {
    assert_eq!(gcd(&[0, 12, 0, 18]), 6);
    assert_eq!(gcd(&[12, 0]), 12);
    assert_eq!(gcd(&[0, 12]), 12);
}

#[test]
fn gcd_of_ninety_twenty_thirty() {
    assert_eq!(gcd(&[90, 20, 30]), 10);
}

#[test]
fn gcd_does_not_depend_on_the_order() {
    assert_eq!(gcd(&[30, 48, 18]), 6);
    assert_eq!(gcd(&[18, 30, 48]), 6);
}

#[test]
fn gcd_divides_every_number_and_is_the_largest_that_does() {
    let numbers = [84u32, 126, 210, 462];
    let g = gcd(&numbers);
    assert_eq!(g, 42);
    for n in numbers {
        assert_eq!(n % g, 0);
    }
    for d in (g + 1)..=84 {
        assert!(numbers.iter().any(|n| n % d != 0));
    }
}

#[test]
fn gcd_two_with_zero() {
    assert_eq!(gcd_two(0, 0), 0);
    assert_eq!(gcd_two(0, 5), 5);
    assert_eq!(gcd_two(5, 0), 5);
}

#[test]
fn gcd_two_by_remainders() {
    assert_eq!(gcd_two(48, 18), 6);
    assert_eq!(gcd_two(18, 48), 6);
    assert_eq!(gcd_two(17, 5), 1);
    assert_eq!(gcd_two(1_000_000_007, 998_244_353), 1);
    assert_eq!(gcd_two(u32::MAX, u32::MAX), u32::MAX);
    assert_eq!(gcd_two(4_294_967_295, 65_535), 65_535);
}
