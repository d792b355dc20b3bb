use vstd::prelude::*;

use super::cidr::Cidr;
use super::ip_class::{canonical, canonical_ip};
use crate::net::IpAddress;

verus! {

/// `client_whitelist`: when not empty, only clients from these networks may connect;
/// everyone else is dropped right after `accept()`, before any SOCKS byte is read.
#[derive(Debug, Clone)]
pub struct ClientAcl {
    networks: Vec<Cidr>,
}

/// A client is allowed when the whitelist is empty or one of its networks holds the
/// client's canonical address.
pub open spec fn acl_allows(networks: Seq<Cidr>, ip: IpAddress) -> bool {
    networks.len() == 0 || exists|i: int|
        0 <= i < networks.len() && #[trigger] networks[i].holds(canonical(ip))
}

impl Default for ClientAcl {
    /// No whitelist: any client may connect.
    fn default() -> (r: Self)
        ensures
            r.spec_networks() == Seq::<Cidr>::empty(),
    {
        ClientAcl { networks: Vec::new() }
    }
}

impl ClientAcl {
    pub closed spec fn spec_networks(&self) -> Seq<Cidr> {
        self.networks@
    }

    pub fn new(networks: Vec<Cidr>) -> (r: Self)
        ensures
            r.spec_networks() == networks@,
    {
        ClientAcl { networks }
    }

    /// An ACL without networks: every client may connect.
    pub fn open_to_all() -> (r: Self)
        ensures
            r.spec_networks() == Seq::<Cidr>::empty(),
    {
        ClientAcl { networks: Vec::new() }
    }

    pub fn is_allowed(&self, ip: IpAddress) -> (r: bool)
        ensures
            r == acl_allows(self.spec_networks(), ip),
    {
        let cip = canonical_ip(ip);
        if self.networks.len() == 0 {
            return true;
        }
        let mut i: usize = 0;
        while i < self.networks.len()
            invariant
                i <= self.networks@.len(),
                cip == canonical(ip),
                forall|j: int| 0 <= j < i ==> !(#[trigger] self.networks@[j]).holds(cip),
            decreases self.networks.len() - i,
        {
            if self.networks[i].contains(cip) {
                assert(self.networks@[i as int].holds(canonical(ip)));
                return true;
            }
            i = i + 1;
        }
        false
    }

    /// No whitelist: any client may connect.
    pub fn is_open(&self) -> (r: bool)
        ensures
            r == (self.spec_networks().len() == 0),
    {
        self.networks.len() == 0
    }

    pub fn networks(&self) -> (r: &[Cidr])
        ensures
            r@ == self.spec_networks(),
    {
        self.networks.as_slice()
    }
}

/// Without a whitelist every client is allowed.
pub proof fn law_empty_whitelist_allows_everyone(ip: IpAddress)
    ensures
        acl_allows(Seq::<Cidr>::empty(), ip),
{
}

/// An IPv4-mapped IPv6 client (dual-stack listener) is judged as its IPv4 address.
pub proof fn law_acl_judges_mapped_as_ipv4(networks: Seq<Cidr>, ip: IpAddress)
    ensures
        acl_allows(networks, ip) == acl_allows(networks, canonical(ip)),
{
    assert(canonical(canonical(ip)) == canonical(ip));
}

} // verus!
