//! A host-resident network-observability library: a verified model of the
//! user-space aggregation engine and the kernel-side syscall correlation
//! protocol that together derive a service-level connection graph from
//! intercepted socket I/O.

pub mod flow;
pub mod probes;
pub mod registry;
pub mod resolver;
pub mod service_map;
pub mod sums;
pub mod table;
pub mod totals;
pub mod types;
