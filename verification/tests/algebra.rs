use hell::algebra::{factorial, fibonacci, power};

#[test]
fn factorial_of_zero_and_one_is_one() {
    assert_eq!(factorial(0), 1);
    assert_eq!(factorial(1), 1);
}

#[test]
fn factorial_of_five() {
    assert_eq!(factorial(5), 120);
}

#[test]
fn factorial_is_the_product_up_to_n() {
    let mut expected: u64 = 1;
    for n in 1..=20u64 {
        expected *= n;
        assert_eq!(factorial(n), expected);
    }
}

#[test]
fn factorial_of_twenty_is_the_largest_exact() {
    assert_eq!(factorial(20), 2_432_902_008_176_640_000);
}

#[test]
fn factorial_wraps_past_twenty() {
    assert_eq!(factorial(21), 14_197_454_024_290_336_768);
    assert_eq!(factorial(25), 7_034_535_277_573_963_776);
    assert_eq!(factorial(65), 9_223_372_036_854_775_808);
}

#[test]
fn factorial_is_zero_once_the_product_holds_sixty_four_twos() {
    assert_eq!(factorial(66), 0);
    assert_eq!(factorial(100), 0);
}

#[test]
fn fibonacci_starts_with_zero_and_one() {
    assert_eq!(fibonacci(0), 0);
    assert_eq!(fibonacci(1), 1);
    assert_eq!(fibonacci(2), 1);
}

#[test]
fn fibonacci_of_five_and_ten() {
    assert_eq!(fibonacci(5), 5);
    assert_eq!(fibonacci(10), 55);
}

#[test]
fn fibonacci_is_the_sum_of_the_two_before() {
    for n in 2..25u64 {
        assert_eq!(fibonacci(n), fibonacci(n - 1) + fibonacci(n - 2));
    }
}

#[test]
fn fibonacci_of_thirty() {
    assert_eq!(fibonacci(30), 832_040);
}

#[test]
fn power_of_two_and_three() {
    assert_eq!(power(2, 3), 8);
}

#[test]
fn power_with_exponent_zero_is_one() {
    assert_eq!(power(5, 0), 1);
    assert_eq!(power(0, 0), 1);
    assert_eq!(power(u64::MAX, 0), 1);
}

#[test]
fn power_with_exponent_one_is_the_base() {
    assert_eq!(power(0, 1), 0);
    assert_eq!(power(7, 1), 7);
    assert_eq!(power(u64::MAX, 1), u64::MAX);
}

#[test]
fn power_of_zero_and_one() {
    assert_eq!(power(0, 5), 0);
    assert_eq!(power(1, 1000), 1);
}

#[test]
fn power_largest_exact_values() {
    assert_eq!(power(2, 63), 9_223_372_036_854_775_808);
    assert_eq!(power(10, 19), 10_000_000_000_000_000_000);
    assert_eq!(power(3, 40), 12_157_665_459_056_928_801);
}

#[test]
fn power_wraps_past_the_largest_value() {
    assert_eq!(power(2, 64), 0);
    assert_eq!(power(10, 20), 7_766_279_631_452_241_920);
    assert_eq!(power(3, 41), 18_026_252_303_461_234_787);
    assert_eq!(power(u64::MAX, 2), 1);
}
