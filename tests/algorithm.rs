use waved::{deinterleave, interleave};

#[test]
fn algorithm_test_interleave() {
    let data = vec![0.0, 0.1, 0.2, 0.3, 0.4, 0.5, 0.6, 0.7, 0.8, 0.9];
    assert_eq!(
        interleave(&data, 2),
        [0.0, 0.5, 0.1, 0.6, 0.2, 0.7, 0.3, 0.8, 0.4, 0.9]
    );
}

#[test]
fn algorithm_test_deinterleave() {
    let data = vec![0.0, 0.5, 0.1, 0.6, 0.2, 0.7, 0.3, 0.8, 0.4, 0.9];
    assert_eq!(
        deinterleave(&data, 2),
        [0.0, 0.1, 0.2, 0.3, 0.4, 0.5, 0.6, 0.7, 0.8, 0.9]
    );
}

#[test]
fn round_trip_three_channels() {
    let data: Vec<i32> = (0..12).collect();
    let grouped = deinterleave(&data, 3);
    assert_eq!(grouped, vec![0, 3, 6, 9, 1, 4, 7, 10, 2, 5, 8, 11]);
    assert_eq!(interleave(&grouped, 3), data);
    assert_eq!(deinterleave(&interleave(&data, 3), 3), data);
}

#[test]
fn single_channel_is_unchanged() {
    let data = vec![5, -3, 7];
    assert_eq!(interleave(&data, 1), data);
    assert_eq!(deinterleave(&data, 1), data);
}

#[test]
fn empty_buffer_stays_empty() {
    let data: Vec<i32> = Vec::new();
    assert!(interleave(&data, 4).is_empty());
    assert!(deinterleave(&data, 4).is_empty());
}
