use fundamentals::chunked::{chunk_sum, chunked_sum, chunked_sum_checked};
use fundamentals::counter::{increment, shared_increment_demo};

#[test]
fn test_concurrent_sum() {
    let data: Vec<i32> = (1..=100).collect();
    assert_eq!(chunked_sum(&data, 4), 5050);
    assert_eq!(chunked_sum(&data, 1), 5050);
}

#[test]
fn test_mutex_counter() {
    assert_eq!(shared_increment_demo(), 5);
}

#[test]
fn counter_is_stable_across_runs() {
    for _ in 0..100 {
        assert_eq!(shared_increment_demo(), 5);
    }
}

#[test]
fn increment_adds_one() {
    assert_eq!(increment(0), 1);
    assert_eq!(increment(41), 42);
    assert_eq!(increment(-5), -4);
}

#[test]
fn empty_input_sums_to_zero() {
    let data: Vec<i32> = Vec::new();
    assert_eq!(chunked_sum(&data, 3), 0);
    assert_eq!(chunked_sum(&data, 1), 0);
}

#[test]
fn excess_workers_contribute_nothing() {
    let data: Vec<i32> = vec![1, 2, 3];
    assert_eq!(chunked_sum(&data, 10), 6);
    assert_eq!(chunked_sum(&data, 3), 6);
    assert_eq!(chunked_sum(&data, 105), 6);
}

#[test]
fn worker_count_does_not_change_total() {
    let data: Vec<i32> = vec![-7, 0, 12, -3, 9, 1];
    let expected: i128 = 12;
    for w in 1..=11 {
        assert_eq!(chunked_sum(&data, w), expected);
    }
}

#[test]
fn negative_values_sum_correctly() {
    let data: Vec<i32> = vec![i32::MIN, i32::MAX, -1];
    assert_eq!(chunked_sum(&data, 2), i32::MIN as i128 + i32::MAX as i128 - 1);
}

#[test]
fn checked_reducer_rejects_zero_workers() {
    let data: Vec<i32> = vec![1, 2, 3];
    assert_eq!(chunked_sum_checked(&data, 0), None);
    assert_eq!(chunked_sum_checked(&data, 2), Some(6));
}

#[test]
fn partial_sum_covers_only_its_chunk() {
    let data: Vec<i32> = vec![10, 20, 30, 40];
    assert_eq!(chunk_sum(&data, 0, 2), 30);
    assert_eq!(chunk_sum(&data, 2, 4), 70);
    assert_eq!(chunk_sum(&data, 4, 4), 0);
}
