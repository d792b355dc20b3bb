use vstd::prelude::*;

use super::internal_whitelist_entry::InternalWhitelistEntry;
use super::ip_class::{IpClass, canonical, class_name, classify_ip, ip_class};
use crate::net::SocketAddress;
use crate::text::{chars_to_string, decimal_text, push_decimal, push_str};

verus! {

/// Why a destination was refused.
#[derive(Debug, Clone, Copy, PartialEq, Eq, Structural)]
pub enum DenyReason {
    /// Port 0 or a port listed in `blocked_ports`.
    BlockedPort(u16),
    /// Special-purpose address that is never a valid destination.
    ReservedAddress,
    /// Internal address not opened by `allow_internal` or `internal_whitelist`.
    InternalAddress(IpClass),
}

/// The text of a refusal.
pub open spec fn deny_text(reason: DenyReason) -> Seq<char> {
    match reason {
        DenyReason::BlockedPort(port) => "port "@ + decimal_text(port as nat) + " is blocked"@,
        DenyReason::ReservedAddress => "reserved address"@,
        DenyReason::InternalAddress(IpClass::Private) =>
            "private address (allow_internal or internal_whitelist opens it)"@,
        DenyReason::InternalAddress(class) => class_name(class)
            + " address (only an internal_whitelist entry opens it)"@,
    }
}

impl DenyReason {
    /// The text of the refusal (its `Display` form).
    pub fn describe(&self) -> (r: String)
        ensures
            r@ == deny_text(*self),
    {
        let mut out: Vec<char> = Vec::new();
        match self {
            DenyReason::BlockedPort(port) => {
                push_str(&mut out, "port ");
                push_decimal(&mut out, *port as u64);
                push_str(&mut out, " is blocked");
            },
            DenyReason::ReservedAddress => push_str(&mut out, "reserved address"),
            DenyReason::InternalAddress(IpClass::Private) => push_str(
                &mut out,
                "private address (allow_internal or internal_whitelist opens it)",
            ),
            DenyReason::InternalAddress(class) => {
                push_str(&mut out, class.as_str());
                push_str(&mut out, " address (only an internal_whitelist entry opens it)");
            },
        }
        assert(out@ =~= deny_text(*self));
        chars_to_string(out.as_slice())
    }
}

/// Whether some entry of the whitelist opens `addr`.
pub open spec fn whitelisted(whitelist: Seq<InternalWhitelistEntry>, addr: SocketAddress) -> bool {
    exists|i: int| 0 <= i < whitelist.len() && #[trigger] whitelist[i].opens(addr)
}

/// The policy's decision for a destination:
///
/// | address class          | allowed when                                    |
/// |------------------------|-------------------------------------------------|
/// | public                 | always                                          |
/// | private                | `allow_internal` or an `internal_whitelist` hit |
/// | loopback, link-local   | an `internal_whitelist` hit                     |
/// | reserved               | never                                           |
///
/// Port 0 and `blocked_ports` are refused for every destination, whitelisted ones included.
pub open spec fn destination_verdict(
    blocked_ports: Seq<u16>,
    allow_internal: bool,
    whitelist: Seq<InternalWhitelistEntry>,
    addr: SocketAddress,
) -> Result<(), DenyReason> {
    if addr.port == 0 || blocked_ports.contains(addr.port) {
        Err(DenyReason::BlockedPort(addr.port))
    } else {
        match ip_class(addr.ip) {
            IpClass::Public => Ok(()),
            IpClass::Reserved => Err(DenyReason::ReservedAddress),
            IpClass::Private if allow_internal => Ok(()),
            class => if whitelisted(whitelist, addr) {
                Ok(())
            } else {
                Err(DenyReason::InternalAddress(class))
            },
        }
    }
}

/// Which destinations the proxy may connect to.
///
/// Decisions are made on the address the socket actually connects to, after DNS resolution,
/// so a name that resolves (or re-resolves) to an internal address cannot bypass them.
#[derive(Debug, Clone)]
pub struct DestinationPolicy {
    blocked_ports: Vec<u16>,
    allow_internal: bool,
    internal_whitelist: Vec<InternalWhitelistEntry>,
}

impl DestinationPolicy {
    pub closed spec fn spec_blocked_ports(&self) -> Seq<u16> {
        self.blocked_ports@
    }

    pub closed spec fn spec_allow_internal(&self) -> bool {
        self.allow_internal
    }

    pub closed spec fn spec_whitelist(&self) -> Seq<InternalWhitelistEntry> {
        self.internal_whitelist@
    }

    /// The decision for `addr` under this policy.
    pub open spec fn verdict(&self, addr: SocketAddress) -> Result<(), DenyReason> {
        destination_verdict(
            self.spec_blocked_ports(),
            self.spec_allow_internal(),
            self.spec_whitelist(),
            addr,
        )
    }

    pub fn new(
        blocked_ports: Vec<u16>,
        allow_internal: bool,
        internal_whitelist: Vec<InternalWhitelistEntry>,
    ) -> (r: Self)
        ensures
            r.spec_blocked_ports() == blocked_ports@,
            r.spec_allow_internal() == allow_internal,
            r.spec_whitelist() == internal_whitelist@,
    {
        DestinationPolicy { blocked_ports, allow_internal, internal_whitelist }
    }

    /// # Errors
    /// The reason the destination is refused.
    pub fn check(&self, addr: SocketAddress) -> (r: Result<(), DenyReason>)
        ensures
            r == self.verdict(addr),
    {
        let port = addr.port;
        if port == 0 || self.is_blocked(port) {
            return Err(DenyReason::BlockedPort(port));
        }
        match classify_ip(addr.ip) {
            IpClass::Public => Ok(()),
            IpClass::Reserved => Err(DenyReason::ReservedAddress),
            IpClass::Private if self.allow_internal => Ok(()),
            class => {
                if self.is_whitelisted(addr) {
                    Ok(())
                } else {
                    Err(DenyReason::InternalAddress(class))
                }
            },
        }
    }

    fn is_blocked(&self, port: u16) -> (r: bool)
        ensures
            r == self.blocked_ports@.contains(port),
    {
        let mut i: usize = 0;
        while i < self.blocked_ports.len()
            invariant
                i <= self.blocked_ports@.len(),
                forall|j: int| 0 <= j < i ==> self.blocked_ports@[j] != port,
            decreases self.blocked_ports.len() - i,
        {
            if self.blocked_ports[i] == port {
                assert(self.blocked_ports@[i as int] == port);
                return true;
            }
            i = i + 1;
        }
        false
    }

    fn is_whitelisted(&self, addr: SocketAddress) -> (r: bool)
        ensures
            r == whitelisted(self.internal_whitelist@, addr),
    {
        let mut i: usize = 0;
        while i < self.internal_whitelist.len()
            invariant
                i <= self.internal_whitelist@.len(),
                forall|j: int| 0 <= j < i ==> !(#[trigger] self.internal_whitelist@[j]).opens(addr),
            decreases self.internal_whitelist.len() - i,
        {
            if self.internal_whitelist[i].matches(addr) {
                assert(self.internal_whitelist@[i as int].opens(addr));
                return true;
            }
            i = i + 1;
        }
        false
    }

    pub fn blocked_ports(&self) -> (r: &[u16])
        ensures
            r@ == self.spec_blocked_ports(),
    {
        self.blocked_ports.as_slice()
    }

    pub fn allow_internal(&self) -> (r: bool)
        ensures
            r == self.spec_allow_internal(),
    {
        self.allow_internal
    }

    pub fn internal_whitelist(&self) -> (r: &[InternalWhitelistEntry])
        ensures
            r@ == self.spec_whitelist(),
    {
        self.internal_whitelist.as_slice()
    }
}

/// `blocked_ports` (and port 0) apply to every destination, whitelisted ones included.
pub proof fn law_blocked_ports_apply_everywhere(policy: DestinationPolicy, addr: SocketAddress)
    requires
        addr.port == 0 || policy.spec_blocked_ports().contains(addr.port),
    ensures
        policy.verdict(addr) == Err::<(), DenyReason>(DenyReason::BlockedPort(addr.port)),
{
}

/// Reserved addresses are never allowed, whatever the flags and the whitelist say.
pub proof fn law_reserved_never_allowed(policy: DestinationPolicy, addr: SocketAddress)
    requires
        ip_class(addr.ip) == IpClass::Reserved,
    ensures
        policy.verdict(addr) is Err,
{
}

/// Public addresses are allowed on every port that is not blocked.
pub proof fn law_public_allowed(policy: DestinationPolicy, addr: SocketAddress)
    requires
        ip_class(addr.ip) == IpClass::Public,
        addr.port != 0,
        !policy.spec_blocked_ports().contains(addr.port),
    ensures
        policy.verdict(addr) == Ok::<(), DenyReason>(()),
{
}

/// `allow_internal` opens private networks only: loopback and link-local destinations are
/// allowed exactly when an `internal_whitelist` entry opens them.
pub proof fn law_loopback_and_link_local_need_whitelist(
    policy: DestinationPolicy,
    addr: SocketAddress,
)
    requires
        ip_class(addr.ip) == IpClass::Loopback || ip_class(addr.ip) == IpClass::LinkLocal,
        addr.port != 0,
        !policy.spec_blocked_ports().contains(addr.port),
    ensures
        policy.verdict(addr) is Ok <==> whitelisted(policy.spec_whitelist(), addr),
{
}

/// With `allow_internal`, private destinations on unblocked ports are allowed.
pub proof fn law_allow_internal_opens_private(policy: DestinationPolicy, addr: SocketAddress)
    requires
        policy.spec_allow_internal(),
        ip_class(addr.ip) == IpClass::Private,
        addr.port != 0,
        !policy.spec_blocked_ports().contains(addr.port),
    ensures
        policy.verdict(addr) == Ok::<(), DenyReason>(()),
{
}

/// IPv4-mapped IPv6 destinations are judged as the IPv4 address they map to.
pub proof fn law_mapped_destination_judged_as_ipv4(policy: DestinationPolicy, addr: SocketAddress)
    ensures
        policy.verdict(addr) == policy.verdict(
            SocketAddress { ip: canonical(addr.ip), port: addr.port },
        ),
{
    let c = SocketAddress { ip: canonical(addr.ip), port: addr.port };
    assert(canonical(canonical(addr.ip)) == canonical(addr.ip));
    assert(ip_class(c.ip) == ip_class(addr.ip));
    let w = policy.spec_whitelist();
    if whitelisted(w, addr) {
        let i = choose|i: int| 0 <= i < w.len() && #[trigger] w[i].opens(addr);
        assert(w[i].opens(c));
    }
    if whitelisted(w, c) {
        let i = choose|i: int| 0 <= i < w.len() && #[trigger] w[i].opens(c);
        assert(w[i].opens(addr));
    }
}

} // verus!
