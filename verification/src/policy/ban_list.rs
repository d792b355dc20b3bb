//! Brute-force bans. Time is passed in as milliseconds on a monotonic clock, so the logic
//! is testable without sleeping.
use std::collections::{HashMap, VecDeque};
use vstd::prelude::*;
use vstd::std_specs::iter::IteratorSpec;

use super::ip_class::{canonical, canonical_ip};
use crate::net::IpAddress;

verus! {

/// Brute-force protection: `max_failures` failed authentications within `window` ban the
/// client address for `duration`. Both durations are in milliseconds.
#[derive(Debug, Clone, Copy, PartialEq, Eq, Structural)]
pub struct BanConfig {
    /// 0 disables banning.
    pub max_failures: u32,
    pub window: u64,
    pub duration: u64,
    /// Upper bound of tracked addresses: keeps memory bounded under a distributed attack.
    pub max_tracked: usize,
}

/// Outcome of recording a failed authentication.
#[derive(Debug, Clone, Copy, PartialEq, Eq, Structural)]
pub enum FailureVerdict {
    /// Banning is disabled (`ban_max_failures: 0`).
    Disabled,
    /// Counted; `failures` is the number of failures inside the current window.
    Counted { failures: usize },
    /// The address is banned now (this failure triggered the ban, or it was already banned).
    Banned,
    /// The table is full; this address is not tracked (see [`BanConfig::max_tracked`]).
    Untracked,
}

#[derive(Debug, Clone, Copy, PartialEq, Eq, Structural, Default)]
pub struct BanListStats {
    /// Addresses with recent failures or an active ban.
    pub tracked_count: usize,
    /// Addresses currently banned.
    pub banned: usize,
}

/// While the table is full, a full purge runs at most this often (milliseconds).
pub const FULL_TABLE_PURGE_INTERVAL: u64 = 1000;

/// The bits that keep the `/64` prefix of an IPv6 address.
pub const PREFIX_64_MASK: u128 = 0xFFFF_FFFF_FFFF_FFFF_0000_0000_0000_0000;

/// Marks an IPv4 key; IPv6 keys have their low 64 bits clear, so the two never meet.
pub const IPV4_KEY_TAG: u128 = 0x1_0000_0000;

/// The table key of a client: an IPv4 address (IPv4-mapped IPv6 unwrapped first) by itself,
/// an IPv6 address by its `/64`, since one host usually controls a whole `/64`.
pub open spec fn ban_key(ip: IpAddress) -> u128 {
    match canonical(ip) {
        IpAddress::V4(a) => IPV4_KEY_TAG | (a as u128),
        IpAddress::V6(a) => a & PREFIX_64_MASK,
    }
}

pub fn ban_key_of(ip: IpAddress) -> (r: u128)
    ensures
        r == ban_key(ip),
{
    match canonical_ip(ip) {
        IpAddress::V4(a) => IPV4_KEY_TAG | (a as u128),
        IpAddress::V6(a) => a & PREFIX_64_MASK,
    }
}

/// Time from `at` to `now`, zero when `at` is later (`Instant::saturating_duration_since`).
pub open spec fn since(now: u64, at: u64) -> int {
    if now >= at {
        now - at
    } else {
        0
    }
}

fn elapsed(now: u64, at: u64) -> (r: u64)
    ensures
        r == since(now, at),
{
    if now >= at {
        now - at
    } else {
        0
    }
}

/// What the table knows about one address.
pub struct BanEntry {
    /// Failure moments inside the window, in the order they were recorded.
    failures: VecDeque<u64>,
    banned_at: Option<u64>,
}

/// One address as a value.
#[verifier::ext_equal]
pub struct EntryView {
    pub failures: Seq<u64>,
    pub banned_at: Option<u64>,
}

impl View for BanEntry {
    type V = EntryView;

    closed spec fn view(&self) -> EntryView {
        EntryView { failures: self.failures@, banned_at: self.banned_at }
    }
}

/// An address seen for the first time.
pub open spec fn fresh_entry() -> EntryView {
    EntryView { failures: Seq::empty(), banned_at: None }
}

/// The ban of `e` holds at `now`.
pub open spec fn ban_active(config: BanConfig, e: EntryView, now: u64) -> bool {
    e.banned_at matches Some(at) && since(now, at) < config.duration
}

/// A failure at `at` still counts at `now`.
pub open spec fn in_window(config: BanConfig, now: u64) -> spec_fn(u64) -> bool {
    |at: u64| since(now, at) < config.window
}

/// An entry that purging keeps: an active ban or a failure inside the window.
pub open spec fn worth_keeping(config: BanConfig, e: EntryView, now: u64) -> bool {
    ban_active(config, e, now) || exists|i: int|
        0 <= i < e.failures.len() && #[trigger] in_window(config, now)(e.failures[i])
}

/// What one more failure at `now` does to an entry, and the verdict. A banned address stays
/// as it is; otherwise old failures outside the window are forgotten and, when the count
/// reaches `max_failures`, the address is banned from `now` and its count starts over.
pub open spec fn failure_outcome(config: BanConfig, e: EntryView, now: u64) -> (
    EntryView,
    FailureVerdict,
) {
    if ban_active(config, e, now) {
        (e, FailureVerdict::Banned)
    } else {
        let failures = e.failures.filter(in_window(config, now)).push(now);
        if failures.len() >= config.max_failures {
            (EntryView { failures: Seq::empty(), banned_at: Some(now) }, FailureVerdict::Banned)
        } else {
            (
                EntryView { failures, banned_at: None },
                FailureVerdict::Counted { failures: failures.len() as usize },
            )
        }
    }
}

/// The ban table as a value.
#[verifier::ext_equal]
pub struct BanState {
    pub config: BanConfig,
    pub entries: Map<u128, EntryView>,
    pub last_full_purge: Option<u64>,
}

/// The table without its stale entries.
pub open spec fn purged(config: BanConfig, entries: Map<u128, EntryView>, now: u64) -> Map<
    u128,
    EntryView,
> {
    entries.restrict(entries.dom().filter(|k: u128| worth_keeping(config, entries[k], now)))
}

/// Room for a new address: a full table is purged first, at most once per
/// [`FULL_TABLE_PURGE_INTERVAL`]. Gives the table, the time of the last full purge and
/// whether there is room.
pub open spec fn with_room(s: BanState, now: u64) -> (Map<u128, EntryView>, Option<u64>, bool) {
    if s.entries.len() < s.config.max_tracked {
        (s.entries, s.last_full_purge, true)
    } else {
        let due = match s.last_full_purge {
            None => true,
            Some(at) => since(now, at) >= FULL_TABLE_PURGE_INTERVAL,
        };
        let entries = if due {
            purged(s.config, s.entries, now)
        } else {
            s.entries
        };
        let last = if due {
            Some(now)
        } else {
            s.last_full_purge
        };
        (entries, last, entries.len() < s.config.max_tracked)
    }
}

/// Recording a failed authentication of `ip` at `now`: the next table and the verdict.
pub open spec fn failure_step(s: BanState, ip: IpAddress, now: u64) -> (BanState, FailureVerdict) {
    if s.config.max_failures == 0 {
        (s, FailureVerdict::Disabled)
    } else {
        let key = ban_key(ip);
        let (entries, last, room) = if s.entries.contains_key(key) {
            (s.entries, s.last_full_purge, true)
        } else {
            with_room(s, now)
        };
        if !room {
            (BanState { config: s.config, entries, last_full_purge: last }, FailureVerdict::Untracked)
        } else {
            let e = if entries.contains_key(key) {
                entries[key]
            } else {
                fresh_entry()
            };
            let (e2, verdict) = failure_outcome(s.config, e, now);
            (
                BanState { config: s.config, entries: entries.insert(key, e2), last_full_purge: last },
                verdict,
            )
        }
    }
}

/// `ip` is banned at `now`.
pub open spec fn banned_in(s: BanState, ip: IpAddress, now: u64) -> bool {
    s.entries.contains_key(ban_key(ip)) && ban_active(s.config, s.entries[ban_key(ip)], now)
}

/// The addresses with an active ban or a failure inside the window at `now`.
pub open spec fn live_keys(s: BanState, now: u64) -> Set<u128> {
    s.entries.dom().filter(|k: u128| worth_keeping(s.config, s.entries[k], now))
}

/// The addresses banned at `now`.
pub open spec fn banned_keys(s: BanState, now: u64) -> Set<u128> {
    s.entries.dom().filter(|k: u128| ban_active(s.config, s.entries[k], now))
}

/// The table as values.
pub open spec fn entries_view(m: Map<u128, BanEntry>) -> Map<u128, EntryView> {
    m.map_values(|e: BanEntry| e@)
}

proof fn lemma_entries_view_dom(m: Map<u128, BanEntry>)
    ensures
        entries_view(m).dom() == m.dom(),
        entries_view(m).len() == m.len(),
{
    assert(entries_view(m).dom() =~= m.dom());
}

/// The banned addresses are among the live ones, which are no more than the table holds.
proof fn lemma_live_keys_bounded(m: HashMap<u128, BanEntry>, s: BanState, now: u64)
    requires
        s.entries == entries_view(m@),
    ensures
        banned_keys(s, now).subset_of(live_keys(s, now)),
        banned_keys(s, now).len() <= live_keys(s, now).len(),
        live_keys(s, now).len() <= m@.len(),
{
    vstd::std_specs::hash::axiom_hashmap_view_finite_dom(m);
    lemma_entries_view_dom(m@);
    let dom = s.entries.dom();
    dom.lemma_len_filter(|k: u128| worth_keeping(s.config, s.entries[k], now));
    assert(banned_keys(s, now).subset_of(live_keys(s, now)));
    vstd::set_lib::lemma_len_subset(banned_keys(s, now), live_keys(s, now));
}

/// Ban bookkeeping. IPv6 clients are tracked per `/64`.
pub struct BanListInner {
    config: BanConfig,
    // std `HashMap` (SipHash, random key) on purpose: the keys are chosen by untrusted
    // clients, so a hash-flooding resistant hasher is required here.
    entries: HashMap<u128, BanEntry>,
    last_full_purge: Option<u64>,
}

impl View for BanListInner {
    type V = BanState;

    closed spec fn view(&self) -> BanState {
        BanState {
            config: self.config,
            entries: entries_view(self.entries@),
            last_full_purge: self.last_full_purge,
        }
    }
}

impl BanListInner {
    #[verifier::type_invariant]
    spec fn bounded(self) -> bool {
        self.entries@.len() <= self.config.max_tracked
    }

    pub fn new(config: BanConfig) -> (r: Self)
        ensures
            r@.config == config,
            r@.entries == Map::<u128, EntryView>::empty(),
            r@.last_full_purge is None,
    {
        let r = BanListInner { config, entries: HashMap::new(), last_full_purge: None };
        assert(r@.entries =~= Map::<u128, EntryView>::empty());
        r
    }

    pub fn config(&self) -> (r: BanConfig)
        ensures
            r == self@.config,
    {
        self.config
    }

    pub fn is_banned(&self, ip: IpAddress, now: u64) -> (r: bool)
        ensures
            r == banned_in(self@, ip, now),
    {
        let key = ban_key_of(ip);
        match self.entries.get(&key) {
            Some(entry) => entry_banned(self.config, entry, now),
            None => false,
        }
    }
}

fn entry_banned(config: BanConfig, entry: &BanEntry, now: u64) -> (r: bool)
    ensures
        r == ban_active(config, entry@, now),
{
    match entry.banned_at {
        Some(at) => elapsed(now, at) < config.duration,
        None => false,
    }
}


/// The failures of `failures` that still count at `now`, in their order.
fn recent_failures(config: BanConfig, failures: &VecDeque<u64>, now: u64) -> (r: VecDeque<u64>)
    ensures
        r@ == failures@.filter(in_window(config, now)),
{
    let mut r: VecDeque<u64> = VecDeque::new();
    let mut i: usize = 0;
    while i < failures.len()
        invariant
            i <= failures@.len(),
            r@ == failures@.take(i as int).filter(in_window(config, now)),
        decreases failures@.len() - i,
    {
        let at = failures[i];
        proof {
            assert(failures@.take(i + 1) =~= failures@.take(i as int).push(at));
            failures@.take(i as int).lemma_filter_push(at, in_window(config, now));
        }
        if elapsed(now, at) < config.window {
            r.push_back(at);
        }
        i = i + 1;
    }
    assert(failures@.take(failures@.len() as int) =~= failures@);
    r
}

/// Applies one more failure at `now` to `entry` (see [`failure_outcome`]).
fn apply_failure(config: BanConfig, entry: BanEntry, now: u64) -> (r: (BanEntry, FailureVerdict))
    ensures
        r.0@ == failure_outcome(config, entry@, now).0,
        r.1 == failure_outcome(config, entry@, now).1,
{
    let active = match entry.banned_at {
        Some(at) => elapsed(now, at) < config.duration,
        None => false,
    };
    if active {
        return (entry, FailureVerdict::Banned);
    }
    let mut failures = recent_failures(config, &entry.failures, now);
    failures.push_back(now);
    if failures.len() >= config.max_failures as usize {
        let cleared = BanEntry { failures: VecDeque::new(), banned_at: Some(now) };
        assert(cleared@ =~= failure_outcome(config, entry@, now).0);
        (cleared, FailureVerdict::Banned)
    } else {
        let n = failures.len();
        let counted = BanEntry { failures, banned_at: None };
        assert(counted@ =~= failure_outcome(config, entry@, now).0);
        (counted, FailureVerdict::Counted { failures: n })
    }
}

/// A sequence without repeats has as many elements passing `p` as its set has.
proof fn lemma_filter_count_distinct(s: Seq<u128>, p: spec_fn(u128) -> bool)
    requires
        s.no_duplicates(),
    ensures
        s.filter(p).len() == s.to_set().filter(p).len(),
    decreases s.len(),
{
    broadcast use vstd::seq_lib::group_seq_properties;

    if s.len() == 0 {
        reveal(Seq::filter);
        assert(s.to_set().filter(p) =~= Set::<u128>::empty());
    } else {
        let t = s.drop_last();
        let x = s.last();
        assert(s =~= t.push(x));
        assert(t.no_duplicates());
        lemma_filter_count_distinct(t, p);
        t.lemma_filter_push(x, p);
        assert(s.to_set() =~= t.to_set().insert(x));
        assert(!t.to_set().contains(x)) by {
            if t.to_set().contains(x) {
                let j = choose|j: int| 0 <= j < t.len() && t[j] == x;
                assert(s[j] == s[s.len() - 1]);
            }
        }
        if p(x) {
            assert(s.to_set().filter(p) =~= t.to_set().filter(p).insert(x));
        } else {
            assert(s.to_set().filter(p) =~= t.to_set().filter(p));
        }
    }
}

/// Every address of `m`, once each.
fn keys_of(m: &HashMap<u128, BanEntry>) -> (r: Vec<u128>)
    ensures
        r@.to_set() == m@.dom(),
        r@.no_duplicates(),
{
    let mut r: Vec<u128> = Vec::new();
    let ghost all = vstd::std_specs::hash::spec_keys_iter(m).remaining();
    for k in it: m.keys()
        invariant
            all == vstd::std_specs::hash::spec_keys_iter(m).remaining(),
            it.seq() == all,
            r@ == all.take(it.index()).map_values(|x: &u128| *x),
    {
        r.push(*k);
    }
    proof {
        assert(r@ =~= all.map_values(|x: &u128| *x));
        assert(all.unref() =~= all.map_values(|x: &u128| *x));
    }
    r
}

/// Whether purging keeps `entry` (see [`worth_keeping`]).
fn entry_kept(config: BanConfig, entry: &BanEntry, now: u64) -> (r: bool)
    ensures
        r == worth_keeping(config, entry@, now),
{
    if entry_banned(config, entry, now) {
        return true;
    }
    let mut i: usize = 0;
    while i < entry.failures.len()
        invariant
            i <= entry@.failures.len(),
            entry@.failures == entry.failures@,
            forall|j: int| 0 <= j < i ==> !#[trigger] in_window(config, now)(entry@.failures[j]),
        decreases entry@.failures.len() - i,
    {
        if elapsed(now, entry.failures[i]) < config.window {
            assert(in_window(config, now)(entry@.failures[i as int]));
            return true;
        }
        i = i + 1;
    }
    false
}

impl BanListInner {
    /// Forgets expired bans and stale failure counters; returns how many addresses were
    /// dropped.
    pub fn purge(&mut self, now: u64) -> (r: usize)
        ensures
            final(self)@ == (BanState {
                config: old(self)@.config,
                entries: purged(old(self)@.config, old(self)@.entries, now),
                last_full_purge: old(self)@.last_full_purge,
            }),
            r == old(self)@.entries.len() - final(self)@.entries.len(),
            final(self)@.entries.len() <= final(self)@.config.max_tracked,
    {
        proof {
            use_type_invariant(&*self);
        }
        let ghost start = self@;
        let mut entries: HashMap<u128, BanEntry> = HashMap::new();
        std::mem::swap(&mut entries, &mut self.entries);
        assert(entries_view(entries@) == start.entries);
        proof {
            lemma_entries_view_dom(entries@);
        }
        let before = entries.len();
        let keys = keys_of(&entries);
        let config = self.config;
        let mut i: usize = 0;
        while i < keys.len()
            invariant
                i <= keys@.len(),
                keys@.to_set() == start.entries.dom(),
                keys@.no_duplicates(),
                config == start.config,
                forall|k: u128| #[trigger]
                    entries@.contains_key(k) <==> start.entries.contains_key(k) && (
                    !keys@.take(i as int).contains(k) || worth_keeping(
                        start.config,
                        start.entries[k],
                        now,
                    )),
                forall|k: u128| #[trigger] entries@.contains_key(k) ==> entries@[k]@ == start.entries[k],
            decreases keys@.len() - i,
        {
            let key = keys[i];
            let stale = match entries.get(&key) {
                Some(entry) => !entry_kept(config, entry, now),
                None => false,
            };
            if stale {
                entries.remove(&key);
            }
            proof {
                let done = keys@.take(i as int);
                assert(keys@.take(i + 1) =~= done.push(key));
                assert forall|k: u128| #[trigger] done.push(key).contains(k) == (done.contains(k) || k
                    == key) by {
                    if done.push(key).contains(k) && k != key {
                        let j = choose|j: int| 0 <= j < done.push(key).len() && done.push(key)[j] == k;
                        assert(done[j] == k);
                    }
                    if k == key {
                        assert(done.push(key)[done.len() as int] == k);
                    }
                    if done.contains(k) {
                        let j = choose|j: int| 0 <= j < done.len() && done[j] == k;
                        assert(done.push(key)[j] == k);
                    }
                }
                assert(start.entries.contains_key(key)) by {
                    assert(keys@.to_set().contains(key));
                }
            }
            i = i + 1;
        }
        let ghost kept = purged(start.config, start.entries, now);
        proof {
            assert(keys@.take(keys@.len() as int) =~= keys@);
            assert(entries_view(entries@) =~= kept) by {
                assert forall|k: u128| #[trigger]
                    entries_view(entries@).contains_key(k) == kept.contains_key(k) by {
                    if start.entries.contains_key(k) {
                        assert(keys@.to_set().contains(k));
                    }
                }
            }
            lemma_entries_view_dom(entries@);
            assert(entries@.dom().subset_of(start.entries.dom()));
            vstd::set_lib::lemma_len_subset(entries@.dom(), start.entries.dom());
        }
        let after = entries.len();
        self.entries = entries;
        assert(self@ =~= BanState {
            config: start.config,
            entries: kept,
            last_full_purge: start.last_full_purge,
        });
        before - after
    }

    /// Whether a new address may be tracked; purges (rate limited) when the table is full.
    fn make_room(&mut self, now: u64) -> (r: bool)
        ensures
            final(self)@.config == old(self)@.config,
            final(self)@.entries == with_room(old(self)@, now).0,
            final(self)@.last_full_purge == with_room(old(self)@, now).1,
            r == with_room(old(self)@, now).2,
    {
        proof {
            use_type_invariant(&*self);
            lemma_entries_view_dom(self.entries@);
        }
        if self.entries.len() < self.config.max_tracked {
            return true;
        }
        let due = match self.last_full_purge {
            None => true,
            Some(at) => elapsed(now, at) >= FULL_TABLE_PURGE_INTERVAL,
        };
        if due {
            self.last_full_purge = Some(now);
            self.purge(now);
        }
        proof {
            lemma_entries_view_dom(self.entries@);
        }
        self.entries.len() < self.config.max_tracked
    }

    /// Records a failed authentication of `ip` at `now` (see [`failure_step`]).
    pub fn record_failure(&mut self, ip: IpAddress, now: u64) -> (r: FailureVerdict)
        ensures
            final(self)@ == failure_step(old(self)@, ip, now).0,
            r == failure_step(old(self)@, ip, now).1,
            final(self)@.entries.len() <= final(self)@.config.max_tracked,
    {
        proof {
            use_type_invariant(&*self);
            lemma_entries_view_dom(self.entries@);
        }
        if self.config.max_failures == 0 {
            return FailureVerdict::Disabled;
        }
        let key = ban_key_of(ip);
        if !self.entries.contains_key(&key) {
            if !self.make_room(now) {
                proof {
                    use_type_invariant(&*self);
                    lemma_entries_view_dom(self.entries@);
                }
                return FailureVerdict::Untracked;
            }
        }
        proof {
            use_type_invariant(&*self);
            lemma_entries_view_dom(self.entries@);
        }
        let ghost mid = self@;
        let ghost had = self.entries@.contains_key(key);
        let mut entries: HashMap<u128, BanEntry> = HashMap::new();
        std::mem::swap(&mut entries, &mut self.entries);
        let entry = match entries.remove(&key) {
            Some(entry) => entry,
            None => {
                let fresh = BanEntry { failures: VecDeque::new(), banned_at: None };
                assert(fresh@ =~= fresh_entry());
                fresh
            },
        };
        let (next, verdict) = apply_failure(self.config, entry, now);
        entries.insert(key, next);
        proof {
            assert(entries_view(entries@) =~= mid.entries.insert(key, next@));
            lemma_entries_view_dom(entries@);
            if had {
                assert(entries@.dom() =~= mid.entries.dom());
            } else {
                assert(entries@.dom() =~= mid.entries.dom().insert(key));
            }
        }
        self.entries = entries;
        verdict
    }

    /// How many addresses have recent failures or an active ban at `now`, and how many of
    /// them are banned.
    pub fn stats(&self, now: u64) -> (r: BanListStats)
        ensures
            r.tracked_count == live_keys(self@, now).len(),
            r.banned == banned_keys(self@, now).len(),
            r.banned <= r.tracked_count,
            r.tracked_count <= self@.config.max_tracked,
    {
        proof {
            use_type_invariant(self);
            lemma_live_keys_bounded(self.entries, self@, now);
        }
        let keys = keys_of(&self.entries);
        let ghost p = |k: u128| ban_active(self@.config, self@.entries[k], now);
        let ghost q = |k: u128| worth_keeping(self@.config, self@.entries[k], now);
        let mut banned: usize = 0;
        let mut live: usize = 0;
        let mut i: usize = 0;
        while i < keys.len()
            invariant
                i <= keys@.len(),
                keys@.to_set() == self@.entries.dom(),
                p == (|k: u128| ban_active(self@.config, self@.entries[k], now)),
                q == (|k: u128| worth_keeping(self@.config, self@.entries[k], now)),
                banned == keys@.take(i as int).filter(p).len(),
                live == keys@.take(i as int).filter(q).len(),
            decreases keys@.len() - i,
        {
            let key = keys[i];
            proof {
                assert(keys@.take(i + 1) =~= keys@.take(i as int).push(key));
                keys@.take(i as int).lemma_filter_push(key, p);
                keys@.take(i as int).lemma_filter_push(key, q);
                keys@.take(i as int).lemma_filter_len(p);
                keys@.take(i as int).lemma_filter_len(q);
                assert(self@.entries.dom().contains(key)) by {
                    assert(keys@.to_set().contains(key));
                }
            }
            match self.entries.get(&key) {
                Some(entry) => {
                    if entry_banned(self.config, entry, now) {
                        banned = banned + 1;
                    }
                    if entry_kept(self.config, entry, now) {
                        live = live + 1;
                    }
                },
                None => {},
            }
            i = i + 1;
        }
        proof {
            assert(keys@.take(keys@.len() as int) =~= keys@);
            lemma_filter_count_distinct(keys@, p);
            lemma_filter_count_distinct(keys@, q);
            assert(banned_keys(self@, now) =~= self@.entries.dom().filter(p));
            assert(live_keys(self@, now) =~= self@.entries.dom().filter(q));
        }
        BanListStats { tracked_count: live, banned }
    }
}

/// Recording failures of `ip` at each of `times` in turn: the table after them and the
/// verdicts, in order.
pub open spec fn failures_run(s: BanState, ip: IpAddress, times: Seq<u64>) -> (
    BanState,
    Seq<FailureVerdict>,
)
    decreases times.len(),
{
    if times.len() == 0 {
        (s, Seq::empty())
    } else {
        let prev = failures_run(s, ip, times.drop_last());
        let step = failure_step(prev.0, ip, times.last());
        (step.0, prev.1.push(step.1))
    }
}

proof fn lemma_filter_keeps_all(s: Seq<u64>, p: spec_fn(u64) -> bool)
    requires
        forall|i: int| 0 <= i < s.len() ==> #[trigger] p(s[i]),
    ensures
        s.filter(p) == s,
    decreases s.len(),
{
    reveal(Seq::filter);
    if s.len() > 0 {
        lemma_filter_keeps_all(s.drop_last(), p);
        assert(s.drop_last().push(s.last()) =~= s);
    }
}

proof fn lemma_filter_keeps_none(s: Seq<u64>, p: spec_fn(u64) -> bool)
    requires
        forall|i: int| 0 <= i < s.len() ==> !#[trigger] p(s[i]),
    ensures
        s.filter(p) == Seq::<u64>::empty(),
{
    assert(s.all(|x: u64| !p(x))) by {
        assert forall|i: int| 0 <= i < s.len() implies !p(s[i]) by {}
    }
    s.lemma_all_neg_filter_empty(p);
    assert(s.filter(p) =~= Seq::<u64>::empty());
}

/// Failure times, in order, all inside one window.
pub open spec fn within_one_window(times: Seq<u64>, window: u64) -> bool {
    forall|i: int, j: int|
        0 <= i <= j < times.len() ==> times[i] <= times[j] && times[j] - times[i] < window
}

/// The verdicts of `k` failures counted one by one.
pub open spec fn counted_verdicts(k: nat) -> Seq<FailureVerdict> {
    Seq::new(k, |i: int| FailureVerdict::Counted { failures: (i + 1) as usize })
}

/// No active ban and no failure inside the window at `now`.
pub open spec fn stale_entry(config: BanConfig, e: EntryView, now: u64) -> bool {
    &&& !ban_active(config, e, now)
    &&& forall|i: int| 0 <= i < e.failures.len() ==> !#[trigger] in_window(config, now)(e.failures[i])
}

/// The first `k` failures, short of the threshold, are counted one by one.
proof fn lemma_failures_counted(s: BanState, ip: IpAddress, times: Seq<u64>, k: int)
    requires
        0 <= k < s.config.max_failures,
        k <= times.len(),
        s.entries.contains_key(ban_key(ip)) ==> stale_entry(
            s.config,
            s.entries[ban_key(ip)],
            times[0],
        ),
        !s.entries.contains_key(ban_key(ip)) ==> s.entries.len() < s.config.max_tracked,
        within_one_window(times, s.config.window),
    ensures
        failures_run(s, ip, times.take(k)).0.config == s.config,
        k == 0 ==> failures_run(s, ip, times.take(k)).0 == s,
        k > 0 ==> failures_run(s, ip, times.take(k)).0.entries.contains_key(ban_key(ip)),
        k > 0 ==> failures_run(s, ip, times.take(k)).0.entries[ban_key(ip)] == (EntryView {
            failures: times.take(k),
            banned_at: None,
        }),
        failures_run(s, ip, times.take(k)).1 == counted_verdicts(k as nat),
    decreases k,
{
    let key = ban_key(ip);
    if k == 0 {
        assert(times.take(0) =~= Seq::<u64>::empty());
        assert(failures_run(s, ip, times.take(k)).1 =~= counted_verdicts(k as nat));
    } else {
        lemma_failures_counted(s, ip, times, k - 1);
        assert(times.take(k).drop_last() =~= times.take(k - 1));
        let prev = failures_run(s, ip, times.take(k - 1));
        let now = times[k - 1];
        assert(times.take(k).last() == now);
        let e = if prev.0.entries.contains_key(key) {
            prev.0.entries[key]
        } else {
            fresh_entry()
        };
        if k == 1 {
            lemma_filter_keeps_none(e.failures, in_window(s.config, now));
            assert(Seq::<u64>::empty().push(now) =~= times.take(k));
        } else {
            assert(e.failures == times.take(k - 1));
            lemma_filter_keeps_all(e.failures, in_window(s.config, now));
            assert(e.failures.push(now) =~= times.take(k));
        }
        assert(failures_run(s, ip, times.take(k)).1 =~= counted_verdicts(k as nat));
    }
}

/// `max_failures` failed authentications within `window` ban the client address for
/// `duration`: the failures before the last are counted one by one, the last one bans, and
/// the ban holds from the last failure on for `duration`, and no longer. The address has
/// no active ban and no failure inside the window when the run starts: it is unknown to a
/// table with room for it, or its earlier failures fell out of the window, or its ban
/// expired.
pub proof fn law_ban_after_max_failures_in_window(s: BanState, ip: IpAddress, times: Seq<u64>)
    requires
        s.config.max_failures >= 1,
        times.len() == s.config.max_failures,
        s.entries.contains_key(ban_key(ip)) ==> stale_entry(
            s.config,
            s.entries[ban_key(ip)],
            times[0],
        ),
        !s.entries.contains_key(ban_key(ip)) ==> s.entries.len() < s.config.max_tracked,
        within_one_window(times, s.config.window),
    ensures
        failures_run(s, ip, times).1.take(times.len() - 1) == counted_verdicts(
            (times.len() - 1) as nat,
        ),
        failures_run(s, ip, times).1[times.len() - 1] == FailureVerdict::Banned,
        forall|t: u64|
            times.last() <= t < times.last() + s.config.duration ==> banned_in(
                failures_run(s, ip, times).0,
                ip,
                t,
            ),
        forall|t: u64|
            t >= times.last() + s.config.duration ==> !banned_in(
                failures_run(s, ip, times).0,
                ip,
                t,
            ),
{
    let key = ban_key(ip);
    let n = times.len() as int;
    lemma_failures_counted(s, ip, times, n - 1);
    assert(times.take(n) =~= times);
    assert(times.drop_last() =~= times.take(n - 1));
    let prev = failures_run(s, ip, times.take(n - 1));
    let now = times[n - 1];
    let e = if prev.0.entries.contains_key(key) {
        prev.0.entries[key]
    } else {
        fresh_entry()
    };
    if n == 1 {
        lemma_filter_keeps_none(e.failures, in_window(s.config, now));
        assert(Seq::<u64>::empty().push(now) =~= times);
    } else {
        assert(e.failures == times.take(n - 1));
        lemma_filter_keeps_all(e.failures, in_window(s.config, now));
        assert(e.failures.push(now) =~= times);
    }
}

/// Failure times in order, never decreasing.
pub open spec fn nondecreasing(times: Seq<u64>) -> bool {
    forall|i: int, j: int| 0 <= i <= j < times.len() ==> times[i] <= times[j]
}

/// The times of the failures answered `Counted` since the last one answered `Banned`, in
/// order, from failure times and their verdicts.
pub open spec fn counted_times(times: Seq<u64>, verdicts: Seq<FailureVerdict>) -> Seq<u64>
    decreases times.len(),
{
    if times.len() == 0 || verdicts.len() == 0 {
        Seq::empty()
    } else {
        let earlier = counted_times(times.drop_last(), verdicts.drop_last());
        match verdicts.last() {
            FailureVerdict::Counted { .. } => earlier.push(times.last()),
            FailureVerdict::Banned => Seq::empty(),
            _ => earlier,
        }
    }
}

/// A failure inside the window at a later time is inside it at an earlier one too.
proof fn lemma_window_shrinks(config: BanConfig, t1: u64, t2: u64, s: Seq<u64>)
    requires
        t1 <= t2,
    ensures
        s.filter(in_window(config, t1)).filter(in_window(config, t2)) == s.filter(
            in_window(config, t2),
        ),
    decreases s.len(),
{
    broadcast use Seq::lemma_filter_push;

    if s.len() == 0 {
        assert(s.filter(in_window(config, t1)) =~= Seq::<u64>::empty());
        assert(s.filter(in_window(config, t2)) =~= Seq::<u64>::empty());
        assert(Seq::<u64>::empty().filter(in_window(config, t2)) =~= Seq::<u64>::empty());
    } else {
        let x = s.last();
        lemma_window_shrinks(config, t1, t2, s.drop_last());
        assert(s.drop_last().push(x) =~= s);
        assert(in_window(config, t2)(x) ==> in_window(config, t1)(x));
    }
}

/// What a run from a table where `ip` has no active ban and no failure in the window keeps:
/// the address's failures inside the window at any time from the last failure on are the
/// counted ones since the last ban, and a ban leaves nothing counted.
proof fn lemma_run_keeps_counted(s: BanState, ip: IpAddress, times: Seq<u64>, i: int)
    requires
        s.config.max_failures >= 1,
        0 <= i <= times.len(),
        nondecreasing(times),
        times.len() > 0,
        s.entries.contains_key(ban_key(ip)) ==> stale_entry(
            s.config,
            s.entries[ban_key(ip)],
            times[0],
        ),
        !s.entries.contains_key(ban_key(ip)) ==> s.entries.len() < s.config.max_tracked,
    ensures
        ({
            let st = failures_run(s, ip, times.take(i)).0;
            let v = failures_run(s, ip, times.take(i)).1;
            let ct = counted_times(times.take(i), v);
            let last = if i == 0 {
                times[0]
            } else {
                times[i - 1]
            };
            &&& st.config == s.config
            &&& v.len() == i
            &&& i == 0 ==> st == s
            &&& i > 0 ==> st.entries.contains_key(ban_key(ip))
            &&& st.entries.contains_key(ban_key(ip)) ==> {
                let e = st.entries[ban_key(ip)];
                &&& forall|t: u64|
                    t >= last ==> #[trigger] e.failures.filter(in_window(s.config, t))
                        == ct.filter(in_window(s.config, t))
                &&& e.banned_at is Some ==> ct == Seq::<u64>::empty()
            }
        }),
    decreases i,
{
    broadcast use Seq::lemma_filter_push;

    let key = ban_key(ip);
    if i == 0 {
        assert(times.take(0) =~= Seq::<u64>::empty());
        if s.entries.contains_key(key) {
            let e = s.entries[key];
            assert forall|t: u64| t >= times[0] implies #[trigger] e.failures.filter(
                in_window(s.config, t),
            ) == Seq::<u64>::empty().filter(in_window(s.config, t)) by {
                assert forall|j: int| 0 <= j < e.failures.len() implies !#[trigger] in_window(
                    s.config,
                    t,
                )(e.failures[j]) by {
                    assert(!in_window(s.config, times[0])(e.failures[j]));
                }
                lemma_filter_keeps_none(e.failures, in_window(s.config, t));
                assert(Seq::<u64>::empty().filter(in_window(s.config, t)) =~= Seq::<u64>::empty());
            }
        }
    } else {
        lemma_run_keeps_counted(s, ip, times, i - 1);
        assert(times.take(i).drop_last() =~= times.take(i - 1));
        assert(times.take(i).last() == times[i - 1]);
        let prev = failures_run(s, ip, times.take(i - 1));
        let now = times[i - 1];
        let ct0 = counted_times(times.take(i - 1), prev.1);
        let last0 = if i - 1 == 0 {
            times[0]
        } else {
            times[i - 2]
        };
        assert(last0 <= now);
        let e = if prev.0.entries.contains_key(key) {
            prev.0.entries[key]
        } else {
            fresh_entry()
        };
        let step = failure_step(prev.0, ip, now);
        let cur = failures_run(s, ip, times.take(i));
        assert(cur.0 == step.0 && cur.1 == prev.1.push(step.1));
        assert(cur.1.drop_last() =~= prev.1);
        let ct = counted_times(times.take(i), cur.1);
        if !prev.0.entries.contains_key(key) {
            assert(e.failures.filter(in_window(s.config, now)) =~= Seq::<u64>::empty());
            assert(ct0 =~= Seq::<u64>::empty());
        }
        assert(e.failures.filter(in_window(s.config, now)) == ct0.filter(in_window(s.config, now)));
        if ban_active(s.config, e, now) {
            assert(ct =~= Seq::<u64>::empty());
            assert forall|t: u64| t >= now implies #[trigger] e.failures.filter(in_window(s.config, t))
                == ct.filter(in_window(s.config, t)) by {
                assert(ct.filter(in_window(s.config, t)) =~= Seq::<u64>::empty());
                assert(ct0.filter(in_window(s.config, t)) =~= Seq::<u64>::empty());
            }
        } else {
            let kept = e.failures.filter(in_window(s.config, now));
            let failures = kept.push(now);
            if failures.len() >= s.config.max_failures {
                assert(ct =~= Seq::<u64>::empty());
                let e2 = step.0.entries[key];
                assert forall|t: u64| t >= now implies #[trigger] e2.failures.filter(
                    in_window(s.config, t),
                ) == ct.filter(in_window(s.config, t)) by {
                    assert(ct.filter(in_window(s.config, t)) =~= Seq::<u64>::empty());
                    assert(e2.failures.filter(in_window(s.config, t)) =~= Seq::<u64>::empty());
                }
            } else {
                assert(ct == ct0.push(now));
                let e2 = step.0.entries[key];
                assert(e2.failures == failures);
                assert forall|t: u64| t >= now implies #[trigger] e2.failures.filter(
                    in_window(s.config, t),
                ) == ct.filter(in_window(s.config, t)) by {
                    lemma_window_shrinks(s.config, now, t, ct0);
                }
            }
        }
    }
}

/// A failure of an address with no active ban counts as one more than the failures counted
/// since its last ban that are still inside the window, and bans once that reaches
/// `max_failures`; a ban holds from that failure for exactly `duration`. This holds of a run
/// of failures at times that never decrease, from a table where the address has no active
/// ban and no failure inside the window (it is unknown to a table with room for it, or its
/// earlier failures fell out of the window, or its ban expired).
pub proof fn law_failure_counts_recent_failures_since_ban(
    s: BanState,
    ip: IpAddress,
    times: Seq<u64>,
    i: int,
)
    requires
        s.config.max_failures >= 1,
        0 <= i < times.len(),
        nondecreasing(times),
        s.entries.contains_key(ban_key(ip)) ==> stale_entry(
            s.config,
            s.entries[ban_key(ip)],
            times[0],
        ),
        !s.entries.contains_key(ban_key(ip)) ==> s.entries.len() < s.config.max_tracked,
        !banned_in(failures_run(s, ip, times.take(i)).0, ip, times[i]),
    ensures
        ({
            let k = 1 + counted_times(times.take(i), failures_run(s, ip, times.take(i)).1).filter(
                in_window(s.config, times[i]),
            ).len();
            &&& failures_run(s, ip, times.take(i + 1)).1[i] == if k >= s.config.max_failures {
                FailureVerdict::Banned
            } else {
                FailureVerdict::Counted { failures: k as usize }
            }
            &&& forall|t: u64|
                t >= times[i] ==> (#[trigger] banned_in(failures_run(s, ip, times.take(i + 1)).0, ip, t) <==> (
                k >= s.config.max_failures && t < times[i] + s.config.duration))
        }),
{
    let key = ban_key(ip);
    lemma_run_keeps_counted(s, ip, times, i);
    assert(times.take(i + 1).drop_last() =~= times.take(i));
    assert(times.take(i + 1).last() == times[i]);
    let prev = failures_run(s, ip, times.take(i));
    let now = times[i];
    let e = if prev.0.entries.contains_key(key) {
        prev.0.entries[key]
    } else {
        fresh_entry()
    };
    if !prev.0.entries.contains_key(key) {
        assert(e.failures.filter(in_window(s.config, now)) =~= Seq::<u64>::empty());
        assert(counted_times(times.take(i), prev.1) =~= Seq::<u64>::empty());
    }
    let last = if i == 0 {
        times[0]
    } else {
        times[i - 1]
    };
    assert(last <= now);
    assert(e.failures.filter(in_window(s.config, now)) == counted_times(times.take(i), prev.1).filter(
        in_window(s.config, now),
    ));
}

/// A failure of an address with no active ban and no failure inside the window counts as
/// the first one: unknown addresses (with room in the table), failures that fell out of
/// the window, and expired bans alike.
pub proof fn law_stale_history_counts_from_one(s: BanState, ip: IpAddress, now: u64)
    requires
        s.config.max_failures >= 2,
        s.entries.contains_key(ban_key(ip)) ==> stale_entry(s.config, s.entries[ban_key(ip)], now),
        !s.entries.contains_key(ban_key(ip)) ==> s.entries.len() < s.config.max_tracked,
    ensures
        failure_step(s, ip, now).1 == (FailureVerdict::Counted { failures: 1 }),
        failure_step(s, ip, now).0.entries[ban_key(ip)] == (EntryView {
            failures: seq![now],
            banned_at: None,
        }),
{
    let key = ban_key(ip);
    let e = if s.entries.contains_key(key) {
        s.entries[key]
    } else {
        fresh_entry()
    };
    lemma_filter_keeps_none(e.failures, in_window(s.config, now));
    assert(Seq::<u64>::empty().push(now) =~= seq![now]);
}

/// With `max_failures` 0 a failure changes nothing and is answered `Disabled`.
pub proof fn law_disabled_changes_nothing(s: BanState, ip: IpAddress, now: u64)
    requires
        s.config.max_failures == 0,
    ensures
        failure_step(s, ip, now).0 == s,
        failure_step(s, ip, now).1 == FailureVerdict::Disabled,
{
}

/// A failure of a banned address is answered `Banned` and leaves the table as it is.
pub proof fn law_banned_failure_changes_nothing(s: BanState, ip: IpAddress, now: u64)
    requires
        s.config.max_failures >= 1,
        banned_in(s, ip, now),
    ensures
        failure_step(s, ip, now).1 == FailureVerdict::Banned,
        failure_step(s, ip, now).0.entries == s.entries,
{
    assert(s.entries.insert(ban_key(ip), s.entries[ban_key(ip)]) =~= s.entries);
}

/// Purging changes no ban: an address is banned after a purge exactly when it was before.
pub proof fn law_purge_keeps_bans(s: BanState, ip: IpAddress, now: u64)
    ensures
        banned_in(
            BanState {
                config: s.config,
                entries: purged(s.config, s.entries, now),
                last_full_purge: s.last_full_purge,
            },
            ip,
            now,
        ) == banned_in(s, ip, now),
{
}

/// The table never grows past `max_tracked`: a failure of a new address is tracked only
/// when there is room, a purge made room, or else it is answered `Untracked`.
pub proof fn law_table_stays_bounded(s: BanState, ip: IpAddress, now: u64)
    requires
        s.entries.len() <= s.config.max_tracked,
        s.entries.dom().finite(),
    ensures
        failure_step(s, ip, now).0.entries.len() <= s.config.max_tracked,
        failure_step(s, ip, now).1 == FailureVerdict::Untracked ==> !failure_step(
            s,
            ip,
            now,
        ).0.entries.contains_key(ban_key(ip)),
{
    let key = ban_key(ip);
    if s.config.max_failures != 0 && !s.entries.contains_key(key) {
        let kept = s.entries.dom().filter(|k: u128| worth_keeping(s.config, s.entries[k], now));
        let p = purged(s.config, s.entries, now);
        assert(p.dom() =~= kept);
        vstd::set_lib::lemma_len_subset(kept, s.entries.dom());
        let (entries, last, room) = with_room(s, now);
        assert(!entries.contains_key(key));
        if room {
            assert(entries.insert(key, fresh_entry()).dom() =~= entries.dom().insert(key));
        }
    } else if s.config.max_failures != 0 {
        assert(s.entries.insert(key, fresh_entry()).dom() =~= s.entries.dom());
    }
}

/// A failure is answered `Untracked` exactly when banning is on, the address is not in the
/// table, the table is full, and it is still full after the purge that runs at most once per
/// [`FULL_TABLE_PURGE_INTERVAL`] while it is full.
pub proof fn law_untracked_only_when_full(s: BanState, ip: IpAddress, now: u64)
    ensures
        failure_step(s, ip, now).1 is Untracked <==> (s.config.max_failures > 0
            && !s.entries.contains_key(ban_key(ip)) && s.entries.len() >= s.config.max_tracked
            && with_room(s, now).0.len() >= s.config.max_tracked),
{
}

/// An address the table already tracks is always counted (or stays banned), even when the
/// table is full.
pub proof fn law_known_address_is_never_untracked(s: BanState, ip: IpAddress, now: u64)
    requires
        s.config.max_failures >= 1,
        s.entries.contains_key(ban_key(ip)),
    ensures
        failure_step(s, ip, now).1 is Counted || failure_step(s, ip, now).1 is Banned,
        failure_step(s, ip, now).0.entries.dom() == s.entries.dom(),
{
    assert(failure_step(s, ip, now).0.entries.dom() =~= s.entries.dom());
}

/// Distinct IPv4 addresses are tracked apart.
pub proof fn law_ipv4_addresses_tracked_apart(a: u32, b: u32)
    requires
        a != b,
    ensures
        ban_key(IpAddress::V4(a)) != ban_key(IpAddress::V4(b)),
{
    assert(a != b ==> IPV4_KEY_TAG | (a as u128) != IPV4_KEY_TAG | (b as u128)) by (bit_vector);
}

/// IPv6 addresses are tracked per `/64`: two addresses (neither IPv4-mapped) share an entry
/// exactly when their first 64 bits agree.
pub proof fn law_ipv6_tracked_per_prefix(a: u128, b: u128)
    requires
        a >> 32u128 != 0xFFFFu128,
        b >> 32u128 != 0xFFFFu128,
    ensures
        (ban_key(IpAddress::V6(a)) == ban_key(IpAddress::V6(b))) == (a >> 64u128 == b >> 64u128),
{
    assert((a & PREFIX_64_MASK == b & PREFIX_64_MASK) == (a >> 64u128 == b >> 64u128))
        by (bit_vector);
}

/// An IPv4-mapped IPv6 client is tracked as its IPv4 address.
pub proof fn law_mapped_tracked_as_ipv4(a: u32)
    ensures
        ban_key(IpAddress::V6(0xFFFF_0000_0000u128 | (a as u128))) == ban_key(IpAddress::V4(a)),
{
    let v6 = 0xFFFF_0000_0000u128 | (a as u128);
    assert((0xFFFF_0000_0000u128 | (a as u128)) >> 32u128 == 0xFFFFu128) by (bit_vector);
    assert(((0xFFFF_0000_0000u128 | (a as u128)) & 0xFFFF_FFFFu128) as u32 == a) by (bit_vector);
}

/// IPv4 and IPv6 clients never share an entry.
pub proof fn law_families_tracked_apart(a: u32, b: u128)
    requires
        b >> 32u128 != 0xFFFFu128,
    ensures
        ban_key(IpAddress::V4(a)) != ban_key(IpAddress::V6(b)),
{
    assert(IPV4_KEY_TAG | (a as u128) != b & PREFIX_64_MASK) by (bit_vector);
}

} // verus!
