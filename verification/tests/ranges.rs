use mandelbrot::ranges::overlap;

#[test]
fn test_overlap() {
    assert_eq!(overlap(0..7, 3..10), true);
    assert_eq!(overlap(1..5, 101..105), false);
    assert_eq!(overlap(0..0, 0..10), false);
    assert_eq!(overlap(0..10, 5..5), false);
    assert_eq!(overlap(3..4, 3..4), true);
    assert_eq!(overlap(0..3, 3..6), false);
}
