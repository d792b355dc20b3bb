use my_socks_server::limits::{
    FD_RESERVE, NofileLimit, current_nofile_limit, descriptors_needed, must_restore,
    raise_nofile_limit,
};

#[test]
fn raises_soft_limit_to_hard_limit() {
    let before = current_nofile_limit().unwrap();
    let after = raise_nofile_limit().unwrap();
    assert!(after.soft >= before.soft);
    assert!(after.soft <= after.hard);
}

#[test]
fn descriptor_budget_covers_both_sides_of_each_connection() {
    assert_eq!(descriptors_needed(4096), 2 * 4096 + FD_RESERVE);
    assert_eq!(descriptors_needed(0), 64);
    assert_eq!(descriptors_needed(u32::MAX), 2 * u64::from(u32::MAX) + 64);
}

#[test]
fn a_raise_below_the_old_soft_limit_is_undone() {
    let before = NofileLimit {
        soft: 10_240,
        hard: 65_536,
    };
    assert!(must_restore(4_096, before));
    assert!(!must_restore(65_536, before));
}
