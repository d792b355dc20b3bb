mod ban_list;
mod cidr;
mod client_acl;
mod destination_policy;
mod internal_whitelist_entry;
mod ip_class;
mod policy_parse_error;
mod port_range;

pub use ban_list::{
    BanConfig, BanEntry, BanListInner, BanListStats, BanState, EntryView, FULL_TABLE_PURGE_INTERVAL,
    FailureVerdict, IPV4_KEY_TAG, PREFIX_64_MASK, ban_active, ban_key, ban_key_of, banned_in,
    banned_keys, counted_times, counted_verdicts, nondecreasing, law_failure_counts_recent_failures_since_ban, entries_view, failure_outcome, failure_step, failures_run,
    fresh_entry, in_window, law_ban_after_max_failures_in_window,
    law_banned_failure_changes_nothing, law_disabled_changes_nothing,
    law_families_tracked_apart, law_ipv4_addresses_tracked_apart, law_ipv6_tracked_per_prefix,
    law_known_address_is_never_untracked, law_untracked_only_when_full,
    law_mapped_tracked_as_ipv4, law_purge_keeps_bans, law_stale_history_counts_from_one,
    law_table_stays_bounded, live_keys, purged, since, stale_entry, with_room, within_one_window,
    worth_keeping,
};
pub use cidr::{
    Cidr, INVALID_PREFIX, NOT_AN_ADDRESS, cidr_from_text, cidr_new, cidr_parts, cidr_prefix,
    law_cidr_is_network_and_prefix, law_cidr_text_reads_back, law_new_gives_masked_network,
    law_ipv4_network_holds_its_prefix, law_ipv6_network_holds_its_prefix, law_new_is_normal,
    law_read_cidr_is_normal, network_of,
    cidr_text, law_new_contains_its_address, law_zero_prefix_matches_family, v4_mask_of,
    v6_mask_of,
};
pub use client_acl::{
    ClientAcl, acl_allows, law_acl_judges_mapped_as_ipv4, law_empty_whitelist_allows_everyone,
};
pub use destination_policy::{
    DenyReason, DestinationPolicy, deny_text, destination_verdict,
    law_allow_internal_opens_private, law_blocked_ports_apply_everywhere,
    law_loopback_and_link_local_need_whitelist, law_mapped_destination_judged_as_ipv4,
    law_public_allowed, law_reserved_never_allowed, whitelisted,
};
pub use internal_whitelist_entry::{
    EXPECTED_FORMAT, EntryError, InternalWhitelistEntry, entry_error_reason, entry_from_text,
    entry_parts, entry_text, law_entry_text_reads_back, law_read_entry_reads_back, read_as,
};
pub use ip_class::{
    IpClass, canonical, canonical_ip, class_name, classify_ip, embedded_v4, ip_class,
    law_ipv4_classes_by_range, law_ipv6_classes_by_range,
    law_canonical_class, v4_class, v6_class,
};
pub use policy_parse_error::{PolicyParseError, parse_error_text};
pub use port_range::{
    PORT_FORMAT, PortRange, law_port_range_text_reads_back, port_from_text, port_range_from_text,
    port_range_text,
};
