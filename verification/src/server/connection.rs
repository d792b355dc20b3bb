use vstd::prelude::*;

use crate::net::SocketAddress;
use crate::relay::RelayCounters;

verus! {

/// What is known about a connection; written to the log when it closes.
#[derive(Debug, Default)]
pub struct ConnectionReport {
    pub user: Option<String>,
    /// Target as requested by the client.
    pub target: Option<String>,
    /// Address actually connected to.
    pub target_addr: Option<SocketAddress>,
    pub counters: RelayCounters,
}

} // verus!
