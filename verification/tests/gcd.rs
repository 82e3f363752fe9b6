use mandelbrot::gcd::gcd;

#[test]
fn test_gcd() {
    assert_eq!(gcd(14, 15), 1);

    assert_eq!(gcd(2 * 3 * 5 * 11 * 17, 3 * 7 * 11 * 13 * 19), 3 * 11);
}

#[test]
fn test_gcd_zero() {
    assert_eq!(gcd(0, 0), 0);
    assert_eq!(gcd(0, 9), 9);
    assert_eq!(gcd(9, 0), 9);
}
