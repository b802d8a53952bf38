use waved::{inshuffle_permutation, inverse_inshuffle_permutation, rotate, SliceInterleave};

#[test]
fn interleave_test_interleave() {
    let mut data = vec![0.1, 0.1, 0.1, 0.1, 0.1, 0.2, 0.2, 0.2, 0.2, 0.2];
    data.interleave();
    assert_eq!(data, [0.1, 0.2, 0.1, 0.2, 0.1, 0.2, 0.1, 0.2, 0.1, 0.2]);
}

#[test]
fn interleave_test_deinterleave() {
    let mut data = vec![0.1, 0.2, 0.1, 0.2, 0.1, 0.2, 0.1, 0.2, 0.1, 0.2];
    data.deinterleave();
    assert_eq!(data, [0.1, 0.1, 0.1, 0.1, 0.1, 0.2, 0.2, 0.2, 0.2, 0.2]);
}

#[test]
fn in_place_matches_allocating_forms() {
    for half in 0..20usize {
        let data: Vec<u32> = (0..(2 * half) as u32).collect();
        let mut v = data.clone();
        v.interleave();
        assert_eq!(v, waved::interleave(&data, 2));
        v.deinterleave();
        assert_eq!(v, data);
    }
}

#[test]
fn rotate_exchanges_blocks() {
    let mut v = vec![0, 1, 2, 3, 4, 5, 6];
    rotate(&mut v, 1, 3, 6);
    assert_eq!(v, vec![0, 3, 4, 5, 1, 2, 6]);
    let mut w = vec![1, 2, 3];
    rotate(&mut w, 0, 0, 3);
    assert_eq!(w, vec![1, 2, 3]);
}

#[test]
fn inshuffle_puts_second_half_first() {
    let mut v = vec![0, 1, 2, 3, 4, 5, 6, 7];
    inshuffle_permutation(&mut v, 0, 8);
    assert_eq!(v, vec![4, 0, 5, 1, 6, 2, 7, 3]);
    inverse_inshuffle_permutation(&mut v, 0, 8);
    assert_eq!(v, vec![0, 1, 2, 3, 4, 5, 6, 7]);
}

#[test]
fn inshuffle_leaves_odd_ranges() {
    let mut v = vec![0, 1, 2, 3, 4];
    inshuffle_permutation(&mut v, 0, 5);
    assert_eq!(v, vec![0, 1, 2, 3, 4]);
    inshuffle_permutation(&mut v, 1, 3);
    assert_eq!(v, vec![0, 2, 1, 3, 4]);
}
