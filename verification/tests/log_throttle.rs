use my_socks_server::server::{LogThrottle, throttle_decision};

#[test]
fn allows_once_per_period() {
    let throttle = LogThrottle::new(3_600_000);
    assert!(throttle.allow());
    assert!(!throttle.allow());
    assert!(!throttle.allow());
}

#[test]
fn throttle_lets_one_line_through_per_period() {
    assert_eq!(throttle_decision(0, 0, 10_000), Some(10_000));
    assert_eq!(throttle_decision(9_999, 10_000, 10_000), None);
    assert_eq!(throttle_decision(10_000, 10_000, 10_000), Some(20_000));
    assert_eq!(throttle_decision(u64::MAX, 5, 10), Some(u64::MAX));
}
