use vstd::prelude::*;

use crate::net::IpAddress;
use crate::policy::{
    BanListInner, BanState, Cidr, ClientAcl, acl_allows, banned_in, canonical, canonical_ip,
};

verus! {

/// The checks a freshly accepted connection goes through before a single byte is read, in
/// this order: the client whitelist, then the ban list. What passes goes on to the
/// connection limit.
#[derive(Debug, Clone, Copy, PartialEq, Eq, Structural)]
pub enum Screening {
    /// Neither check drops the client; the peer address in its canonical form.
    Pass(IpAddress),
    /// The client whitelist does not hold the address.
    NotWhitelisted,
    /// The whitelist holds the address, but the address is banned.
    Banned,
}

/// How `peer` is screened at `now`: by its canonical address, the whitelist first.
pub open spec fn screening_of(
    networks: Seq<Cidr>,
    bans: BanState,
    peer: IpAddress,
    now: u64,
) -> Screening {
    let ip = canonical(peer);
    if !acl_allows(networks, ip) {
        Screening::NotWhitelisted
    } else if banned_in(bans, ip, now) {
        Screening::Banned
    } else {
        Screening::Pass(ip)
    }
}

/// Screens the peer of a new connection against the whitelist and the ban list at `now`.
pub fn screen_peer(acl: &ClientAcl, bans: &BanListInner, peer: IpAddress, now: u64) -> (r:
    Screening)
    ensures
        r == screening_of(acl.spec_networks(), bans@, peer, now),
{
    let ip = canonical_ip(peer);
    if !acl.is_allowed(ip) {
        Screening::NotWhitelisted
    } else if bans.is_banned(ip, now) {
        Screening::Banned
    } else {
        Screening::Pass(ip)
    }
}

} // verus!
