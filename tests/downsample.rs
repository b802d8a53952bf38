use waved::{downsample, downsample_channels, Bar};

fn bar(negative_sum_sq: u128, negative_count: usize, positive_sum_sq: u128, positive_count: usize) -> Bar {
    Bar { negative_sum_sq, negative_count, positive_sum_sq, positive_count }
}

#[test]
fn silent_buffer_gives_zero_bars() {
    let bars = downsample(&vec![0i32; 100], 10);
    assert_eq!(bars.len(), 11);
    for b in &bars {
        assert_eq!(b.negative_sum_sq, 0);
        assert_eq!(b.positive_sum_sq, 0);
        assert_eq!(b.negative_count, 0);
    }
    let total: usize = bars.iter().map(|b| b.positive_count).sum();
    assert_eq!(total, 100);
}

#[test]
fn empty_buffer_gives_no_bars() {
    let empty: Vec<i32> = Vec::new();
    assert!(downsample(&empty, 10).is_empty());
}

#[test]
fn zero_width_gives_no_bars() {
    assert!(downsample(&vec![1, 2, 3], 0).is_empty());
}

#[test]
fn samples_split_by_column_and_sign() {
    let bars = downsample(&vec![3, -4, 5, -1], 2);
    assert_eq!(bars, vec![bar(0, 0, 9, 1), bar(16, 1, 25, 1), bar(1, 1, 0, 0)]);
}

#[test]
fn column_rounds_to_nearest() {
    let samples: Vec<i32> = (1..=10).collect();
    let bars = downsample(&samples, 3);
    let counts: Vec<usize> = bars.iter().map(|b| b.positive_count).collect();
    assert_eq!(counts, vec![2, 3, 4, 1]);
    assert_eq!(bars[0].positive_sum_sq, 1 + 4);
    assert_eq!(bars[3].positive_sum_sq, 100);
}

#[test]
fn wide_view_leaves_empty_columns() {
    let bars = downsample(&vec![-2, 2], 5);
    assert_eq!(bars.len(), 6);
    assert_eq!(bars[0], bar(4, 1, 0, 0));
    assert_eq!(bars[3], bar(0, 0, 4, 1));
    assert_eq!(bars[1], bar(0, 0, 0, 0));
}

#[test]
fn extreme_samples_do_not_overflow() {
    let bars = downsample(&vec![i32::MIN, i32::MIN, i32::MAX], 1);
    assert_eq!(bars[0].negative_sum_sq, 2 * (1u128 << 62));
    assert_eq!(bars[1].positive_sum_sq, (i32::MAX as u128) * (i32::MAX as u128));
}

#[test]
fn channels_are_downsampled_separately() {
    let grouped = vec![1, 1, 1, 0, 0, 0];
    let bars = downsample_channels(&grouped, 2, 1);
    assert_eq!(bars.len(), 2);
    assert_eq!(bars[0], downsample(&vec![1, 1, 1], 1));
    assert_eq!(bars[1], downsample(&vec![0, 0, 0], 1));
    assert_eq!(bars[0][0], bar(0, 0, 2, 2));
}
