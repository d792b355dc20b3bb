use my_socks_server::net::IpAddress;
use my_socks_server::policy::{BanConfig, BanListInner, BanListStats, FailureVerdict};

const WINDOW: u64 = 600_000;
const BAN: u64 = 3_600_000;

fn config(max_failures: u32, max_tracked: usize) -> BanConfig {
    BanConfig {
        max_failures,
        window: WINDOW,
        duration: BAN,
        max_tracked,
    }
}

fn ip(value: &str) -> IpAddress {
    IpAddress::parse(value).unwrap()
}

fn secs(value: u64) -> u64 {
    value * 1000
}

/// An arbitrary start on the monotonic clock.
const START: u64 = 1_000_000;

#[test]
fn bans_after_max_failures_within_window() {
    let mut bans = BanListInner::new(config(3, 100));
    let client = ip("203.0.113.5");
    let start = START;
    assert_eq!(
        bans.record_failure(client, start),
        FailureVerdict::Counted { failures: 1 }
    );
    assert_eq!(
        bans.record_failure(client, start + secs(10)),
        FailureVerdict::Counted { failures: 2 }
    );
    assert!(!bans.is_banned(client, start + secs(10)));
    assert_eq!(
        bans.record_failure(client, start + secs(20)),
        FailureVerdict::Banned
    );
    assert!(bans.is_banned(client, start + secs(20)));
    assert!(bans.is_banned(client, start + secs(19) + BAN));
    assert!(!bans.is_banned(client, start + secs(20) + BAN));
    assert!(!bans.is_banned(ip("203.0.113.6"), start + secs(20)));
}

#[test]
fn failures_outside_the_window_do_not_count() {
    let mut bans = BanListInner::new(config(3, 100));
    let client = ip("203.0.113.5");
    let start = START;
    bans.record_failure(client, start);
    bans.record_failure(client, start + secs(1));
    assert_eq!(
        bans.record_failure(client, start + WINDOW + secs(1)),
        FailureVerdict::Counted { failures: 1 }
    );
    assert!(!bans.is_banned(client, start + WINDOW + secs(1)));
}

#[test]
fn counting_restarts_after_ban_expires() {
    let mut bans = BanListInner::new(config(2, 100));
    let client = ip("203.0.113.5");
    let start = START;
    bans.record_failure(client, start);
    assert_eq!(bans.record_failure(client, start), FailureVerdict::Banned);
    assert_eq!(
        bans.record_failure(client, start + secs(5)),
        FailureVerdict::Banned,
        "still banned"
    );
    let after = start + BAN + secs(1);
    assert!(!bans.is_banned(client, after));
    assert_eq!(
        bans.record_failure(client, after),
        FailureVerdict::Counted { failures: 1 }
    );
}

#[test]
fn ipv6_is_tracked_per_slash_64_and_mapped_ipv4_as_ipv4() {
    let mut bans = BanListInner::new(config(2, 100));
    let now = START;
    bans.record_failure(ip("2001:db8:1:2::1"), now);
    bans.record_failure(ip("2001:db8:1:2:ffff::9"), now);
    assert!(bans.is_banned(ip("2001:db8:1:2::77"), now));
    assert!(!bans.is_banned(ip("2001:db8:1:3::1"), now));

    bans.record_failure(ip("::ffff:198.51.100.1"), now);
    bans.record_failure(ip("198.51.100.1"), now);
    assert!(bans.is_banned(ip("198.51.100.1"), now));
}

#[test]
fn purge_drops_stale_entries_only() {
    let mut bans = BanListInner::new(config(2, 100));
    let start = START;
    bans.record_failure(ip("192.0.2.1"), start);
    bans.record_failure(ip("192.0.2.2"), start);
    bans.record_failure(ip("192.0.2.2"), start);
    assert_eq!(
        bans.stats(start),
        BanListStats {
            tracked_count: 2,
            banned: 1
        }
    );

    let later = start + WINDOW + secs(1);
    assert_eq!(bans.purge(later), 1, "stale counter of .1 is dropped");
    assert_eq!(
        bans.stats(later),
        BanListStats {
            tracked_count: 1,
            banned: 1
        }
    );
    assert_eq!(bans.purge(start + BAN + secs(1)), 1, "expired ban is dropped");
    assert_eq!(bans.stats(start + BAN + secs(1)), BanListStats::default());
}

#[test]
fn table_size_is_bounded() {
    let mut bans = BanListInner::new(config(5, 2));
    let now = START;
    bans.record_failure(ip("192.0.2.1"), now);
    bans.record_failure(ip("192.0.2.2"), now);
    assert_eq!(
        bans.record_failure(ip("192.0.2.3"), now),
        FailureVerdict::Untracked
    );
    assert_eq!(
        bans.record_failure(ip("192.0.2.1"), now),
        FailureVerdict::Counted { failures: 2 },
        "known addresses are still counted"
    );
    let later = now + WINDOW + secs(1);
    assert_eq!(
        bans.record_failure(ip("192.0.2.3"), later),
        FailureVerdict::Counted { failures: 1 },
        "room is made by purging stale entries"
    );
}

#[test]
fn zero_max_failures_disables_banning() {
    let mut bans = BanListInner::new(config(0, 100));
    let now = START;
    for _ in 0..10 {
        assert_eq!(
            bans.record_failure(ip("192.0.2.1"), now),
            FailureVerdict::Disabled
        );
    }
    assert!(!bans.is_banned(ip("192.0.2.1"), now));
}

#[test]
fn a_full_table_purges_at_most_once_per_second() {
    let mut bans = BanListInner::new(config(5, 1));
    let now = START;
    bans.record_failure(ip("192.0.2.1"), now);
    let stale = now + WINDOW + secs(1);
    // The first full-table purge at `stale` makes room.
    assert_eq!(
        bans.record_failure(ip("192.0.2.2"), stale),
        FailureVerdict::Counted { failures: 1 }
    );
    // Within a second of that purge the full table takes nobody new.
    assert_eq!(
        bans.record_failure(ip("192.0.2.3"), stale + 600),
        FailureVerdict::Untracked
    );
    // Once .2 went stale, the next full purge makes room again.
    let much_later = stale + WINDOW + 500;
    assert_eq!(
        bans.record_failure(ip("192.0.2.3"), much_later),
        FailureVerdict::Counted { failures: 1 }
    );
}

#[test]
fn stats_count_only_live_addresses() {
    let mut bans = BanListInner::new(config(3, 100));
    bans.record_failure(ip("192.0.2.1"), 0);
    assert_eq!(
        bans.stats(WINDOW - 1),
        BanListStats {
            tracked_count: 1,
            banned: 0
        }
    );
    assert_eq!(bans.stats(WINDOW), BanListStats::default());
}

#[test]
fn a_full_run_after_stale_history_bans_for_exactly_the_duration() {
    let mut bans = BanListInner::new(config(3, 100));
    let client = ip("198.51.100.9");
    bans.record_failure(client, START);
    bans.record_failure(client, START + secs(1));
    let later = START + secs(1) + WINDOW;
    let verdicts: Vec<FailureVerdict> = [later, later + secs(30), later + secs(60)]
        .iter()
        .map(|t| bans.record_failure(client, *t))
        .collect();
    assert_eq!(
        verdicts,
        vec![
            FailureVerdict::Counted { failures: 1 },
            FailureVerdict::Counted { failures: 2 },
            FailureVerdict::Banned,
        ]
    );
    let banned_at = later + secs(60);
    assert!(bans.is_banned(client, banned_at));
    assert!(bans.is_banned(client, banned_at + BAN - 1));
    assert!(!bans.is_banned(client, banned_at + BAN));
}

#[test]
fn each_failure_counts_the_recent_ones_since_the_last_ban() {
    let mut bans = BanListInner::new(config(3, 100));
    let client = ip("192.0.2.44");
    let t0 = START;
    assert_eq!(bans.record_failure(client, t0), FailureVerdict::Counted { failures: 1 });
    // The first failure leaves the window; the second is counted from one again.
    let t1 = t0 + WINDOW;
    assert_eq!(bans.record_failure(client, t1), FailureVerdict::Counted { failures: 1 });
    let t2 = t1 + WINDOW - 1;
    assert_eq!(bans.record_failure(client, t2), FailureVerdict::Counted { failures: 2 });
    // Only the failure at t2 is still inside the window.
    let t3 = t2 + WINDOW - 1;
    assert_eq!(bans.record_failure(client, t3), FailureVerdict::Counted { failures: 2 });
    assert_eq!(bans.record_failure(client, t3), FailureVerdict::Banned);
    let stats = bans.stats(t3);
    assert_eq!((stats.tracked_count, stats.banned), (1, 1));
}

#[test]
fn stats_never_exceed_the_table_limit() {
    let mut bans = BanListInner::new(config(5, 2));
    for (n, text) in ["192.0.2.1", "192.0.2.2", "192.0.2.3", "192.0.2.4"].iter().enumerate() {
        bans.record_failure(ip(text), START + n as u64);
        let stats = bans.stats(START + n as u64);
        assert!(stats.tracked_count <= 2);
        assert!(stats.banned <= stats.tracked_count);
    }
}
