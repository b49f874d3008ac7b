//! Tests for the sliding-window minimum precomputation.

use strobemers_rs::compute_min_hashes;

#[test]
fn slide_min_window_three() {
    // Test vector: [5, 3, 6, 1, 4]
    // Windows of size 3:
    //  - [5, 3, 6] -> min=3 at index=1
    //  - [3, 6, 1] -> min=1 at index=3
    //  - [6, 1, 4] -> min=1 at index=3
    let v = [5, 3, 6, 1, 4];
    let (locs, mins) = compute_min_hashes(&v, 3);
    // We only care about positions >= w - 1 (i.e., indices 2, 3, 4)
    assert_eq!(&mins[2..], &[3, 1, 1]);
    assert_eq!(&locs[2..], &[1, 3, 3]);
}

#[test]
fn slide_min_window_one_is_identity() {
    let v = [9u64, 2, 7, 7, 0];
    let (locs, mins) = compute_min_hashes(&v, 1);
    assert_eq!(locs, vec![0, 1, 2, 3, 4]);
    assert_eq!(mins, v.to_vec());
}

#[test]
fn slide_min_sentinels_before_window_fills() {
    let v = [4u64, 8, 2, 6];
    let (locs, mins) = compute_min_hashes(&v, 3);
    assert_eq!(&locs[..2], &[0, 0]);
    assert_eq!(&mins[..2], &[u64::MAX, u64::MAX]);
}

#[test]
fn slide_min_ties_pick_earliest_index() {
    // Two equal minima inside one window: the earlier index wins.
    let v = [5u64, 3, 3, 9];
    let (locs, mins) = compute_min_hashes(&v, 3);
    assert_eq!(mins[2], 3);
    assert_eq!(locs[2], 1);
    assert_eq!(mins[3], 3);
    assert_eq!(locs[3], 1);
}

#[test]
fn slide_min_window_larger_than_input() {
    let v = [1u64, 2];
    let (locs, mins) = compute_min_hashes(&v, 5);
    assert_eq!(locs, vec![0, 0]);
    assert_eq!(mins, vec![u64::MAX, u64::MAX]);
}
