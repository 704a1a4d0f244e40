//! Raw socket-flow observations and the logical connection key they are
//! aggregated under.
//!
//! A raw flow is one directional socket-level observation captured by a
//! kernel probe pair, keyed by addresses, ports and the observing side's
//! role. A `Connection` is the coarser, service-granularity key under which
//! traffic from many raw flows is accumulated.

use vstd::prelude::*;

verus! {

/// The observing side of a raw flow is not known.
pub const CONNECTION_ROLE_UNKNOWN: u32 = 0;

/// The observation was produced by the initiating (client) side.
pub const CONNECTION_ROLE_CLIENT: u32 = 1;

/// The observation was produced by the listening (server) side.
pub const CONNECTION_ROLE_SERVER: u32 = 2;

/// Identifies one directional observation of a socket-level flow as seen by
/// a single probe pair.
#[derive(Clone, Copy, PartialEq, Eq, Structural, Debug)]
pub struct RawFlowKey {
    pub src_addr: u32,
    pub src_port: u32,
    pub dest_addr: u32,
    pub dest_port: u32,
    pub role: u32,
}

/// Per-flow counters written by the kernel side: a monotonic byte counter
/// and an activity flag that is cleared once the underlying socket is known
/// to have closed or gone idle.
#[derive(Clone, Copy, PartialEq, Eq, Structural, Debug)]
pub struct RawFlowStats {
    pub bytes_sent: u64,
    pub is_active: bool,
}

/// The logical, service-granularity aggregation key derived from raw flows.
///
/// The two endpoints are resolved workload identities (opaque numeric
/// handles issued by the identity resolver). Equality is structural over
/// all four fields: two raw observations of the same physical flow taken
/// from opposite sides keep their distinct roles and are aggregated as two
/// entries. Repeated raw flows between the same two services on the same
/// logical port and side collapse into one entry.
#[derive(Clone, Copy, PartialEq, Eq, Structural, Debug)]
pub struct Connection {
    pub client: u64,
    pub server: u64,
    pub role: u32,
    pub server_port: u32,
}

/// An IPv4 address, given as a host-order `u32`, is a loopback address
/// exactly when its first octet is 127.
pub open spec fn is_loopback_spec(addr: u32) -> bool {
    addr >> 24 == 127
}

/// Whether `addr` lies in the IPv4 loopback block 127.0.0.0/8.
pub fn is_loopback_address(addr: u32) -> (r: bool)
    ensures
        r == is_loopback_spec(addr),
{
    (addr >> 24) == 127
}

/// The logical connection a raw key resolves to, given the resolved
/// workload identities of its source and destination endpoints: for a
/// client-side observation the source is the client and the server port is
/// the destination port; for a server-side observation the source is the
/// server (the side that was listening) and the server port is the source
/// port.
pub open spec fn connection_for_spec(key: RawFlowKey, src_w: u64, dest_w: u64) -> Connection {
    if key.role == CONNECTION_ROLE_CLIENT {
        Connection {
            client: src_w,
            server: dest_w,
            role: key.role,
            server_port: key.dest_port,
        }
    } else {
        Connection {
            client: dest_w,
            server: src_w,
            role: key.role,
            server_port: key.src_port,
        }
    }
}

} // verus!
