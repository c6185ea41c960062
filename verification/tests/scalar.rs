use hell::scalar::Scalar;

#[test]
fn integer_zero_and_one() {
    assert_eq!(<i64 as Scalar>::zero(), 0);
    assert_eq!(<i64 as Scalar>::one(), 1);
}

#[test]
fn integer_plus_and_times() {
    assert_eq!(Scalar::plus(2i64, 3i64), 5);
    assert_eq!(Scalar::times(-4i64, 6i64), -24);
}

#[test]
fn integer_plus_wraps() {
    assert_eq!(Scalar::plus(i64::MAX, 1i64), i64::MIN);
    assert_eq!(Scalar::plus(i64::MIN, -1i64), i64::MAX);
}

#[test]
fn integer_times_wraps() {
    assert_eq!(Scalar::times(i64::MAX, 2i64), -2);
    assert_eq!(Scalar::times(i64::MIN, -1i64), i64::MIN);
}

#[test]
fn integer_laws_on_some_values() {
    for a in [i64::MIN, -7, 0, 1, 12, i64::MAX] {
        assert_eq!(Scalar::plus(0i64, a), a);
        assert_eq!(Scalar::plus(a, 0i64), a);
        assert_eq!(Scalar::times(0i64, a), 0);
        assert_eq!(Scalar::times(1i64, a), a);
        for b in [i64::MIN, -3, 0, 5, i64::MAX] {
            assert_eq!(Scalar::plus(a, b), Scalar::plus(b, a));
        }
    }
}
