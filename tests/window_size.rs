use soft_matrix::window_size::ideal_window_size;

#[test]
fn smallest_power_of_two_not_below() {
    assert_eq!(ideal_window_size(0), Some(1));
    assert_eq!(ideal_window_size(1), Some(1));
    assert_eq!(ideal_window_size(3), Some(4));
    assert_eq!(ideal_window_size(4410), Some(8192));
    assert_eq!(ideal_window_size(4096), Some(4096));
    assert_eq!(ideal_window_size(usize::MAX / 2 + 1), Some(usize::MAX / 2 + 1));
    assert_eq!(ideal_window_size(usize::MAX), None);
}
