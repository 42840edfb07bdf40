use lambda_shield::checker::{entropy_scan, get_collatz_bit, is_high_entropy, EntropyReport};

#[test]
fn collatz_bit_values() {
    assert_eq!(get_collatz_bit(6), (3, 0));
    assert_eq!(get_collatz_bit(7), (22, 1));
    assert_eq!(get_collatz_bit(0), (0, 0));
    assert_eq!(get_collatz_bit(u128::MAX), (u128::MAX - 1, 1));
}

#[test]
fn entropy_scan_default_seed() {
    let r = entropy_scan(12345, 10_000);
    assert_eq!((r.zeros, r.ones, r.transitions), (6561, 3439, 6876));
    assert!(is_high_entropy(&r));
}

#[test]
fn entropy_scan_small_seeds() {
    let r = entropy_scan(1, 10);
    assert_eq!((r.zeros, r.ones, r.transitions), (9, 1, 1));
    assert!(!is_high_entropy(&r));
    let r = entropy_scan(0, 5);
    assert_eq!((r.zeros, r.ones, r.transitions), (3, 2, 4));
    let r = entropy_scan(7, 20);
    assert_eq!((r.zeros, r.ones, r.transitions), (13, 7, 12));
}

#[test]
fn entropy_scan_counts_every_step() {
    for seed in [0u64, 1, 2, 27, 12345, u64::MAX] {
        let r = entropy_scan(seed, 500);
        assert_eq!(r.zeros + r.ones, 500);
        assert!(r.transitions < 500);
    }
    let r = entropy_scan(99, 0);
    assert_eq!((r.zeros, r.ones, r.transitions), (0, 0, 0));
}

#[test]
fn high_entropy_bounds_are_strict() {
    let at = |zeros: u32, ones: u32| is_high_entropy(&EntropyReport { zeros, ones, transitions: 0 });
    assert!(!at(7, 3));
    assert!(at(6, 4));
    assert!(at(4, 6));
    assert!(!at(3, 7));
    assert!(!at(0, 0));
    assert!(!at(10, 0));
    assert!(!at(0, 10));
}
