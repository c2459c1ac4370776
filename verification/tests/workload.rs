use arceos_arm::workload::{add_load, load};

#[test]
fn load_of_small_values() {
    assert_eq!(load(0), 0);
    assert_eq!(load(1), 2);
    assert_eq!(load(2), 4);
}

#[test]
fn load_matches_direct_sum() {
    let n: u64 = 1000;
    let mut sum = n;
    for i in 0..n {
        sum += ((i ^ (i * 3)) ^ (i + n)) / (i + 1);
    }
    assert_eq!(load(n), sum);
}

#[test]
fn add_load_accumulates() {
    assert_eq!(add_load(0, 2), Some(4));
    assert_eq!(add_load(10, 1), Some(12));
    assert_eq!(add_load(0, 1000), Some(load(1000)));
}

#[test]
fn add_load_reports_overflow() {
    assert_eq!(add_load(u64::MAX, 1), None);
    assert_eq!(add_load(0, u64::MAX), None);
}
