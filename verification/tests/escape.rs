use mandelbrot::escape::escape_index;

#[test]
fn test_escape_index_first_set_flag() {
    let flags = vec![false, false, true, true, false];
    assert_eq!(escape_index(&flags, 5), Some(2));
    assert_eq!(escape_index(&flags, 3), Some(2));
}

#[test]
fn test_escape_index_limit_cuts_off() {
    // the same trajectory under a lower limit reports no escape, and a
    // higher limit finds the escape at an index past the old limit
    let flags = vec![false, false, false, true];
    assert_eq!(escape_index(&flags, 2), None);
    assert_eq!(escape_index(&flags, 4), Some(3));
}

#[test]
fn test_escape_index_already_outside() {
    // a point already outside the disc escapes at index zero
    let flags = vec![true, false, false];
    assert_eq!(escape_index(&flags, 3), Some(0));
    assert_eq!(escape_index(&flags, 1), Some(0));
}

#[test]
fn test_escape_index_never_escapes() {
    // a trajectory that never leaves the disc reports no escape under
    // any limit
    let flags = vec![false; 300];
    for limit in [0, 1, 255, 300] {
        assert_eq!(escape_index(&flags, limit), None);
    }
}
