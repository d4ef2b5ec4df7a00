//! Verified core of a subdomain and port scanner.
//!
//! Everything that touches the network lives outside this crate. The functions
//! here take what the network answered as plain values and decide what follows
//! from it: which names are candidates, which of them are kept, which endpoints
//! are probed and which ports are reported open.

pub mod candidates;
pub mod catalog;
pub mod port;
pub mod resolution;
pub mod scanner;
pub mod subdomain;
pub mod text;

pub use catalog::{PortCatalog, MOST_COMMON_PORTS_100};
pub use port::{Port, ProbeOutcome};
pub use resolution::{Address, Endpoint, Lookup};
pub use subdomain::{AggregatorError, AggregatorReply, CrtShEntry, Subdomain};
