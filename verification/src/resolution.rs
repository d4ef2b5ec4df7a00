//! What a name resolution answered, as plain values.

use vstd::prelude::*;

verus! {

/// Seconds a name resolution may take before it counts as timed out.
pub const LOOKUP_TIMEOUT_SECS: u64 = 4;

/// Port that is handed to a resolver which wants one although only the
/// addresses are of interest.
pub const PLACEHOLDER_PORT: u16 = 1024;

/// A network address. The scanner never looks inside it: it carries the
/// address from the resolver to the probe.
#[derive(Clone, Copy, Debug, PartialEq, Eq, Structural)]
pub enum Address {
    /// An IPv4 address, as its 32 bits.
    V4 { bits: u32 },
    /// An IPv6 address, as its 128 bits, with its flow information and scope.
    V6 { wide_bits: u128, flowinfo: u32, scope_id: u32 },
}

/// An address together with a port: what one probe connects to.
#[derive(Clone, Copy, Debug, PartialEq, Eq, Structural)]
pub struct Endpoint {
    pub address: Address,
    pub port: u16,
}

/// How the resolution of one name ended.
#[derive(Clone, Debug)]
pub enum Lookup {
    /// The resolver answered with these addresses, in its order.
    Answer(Vec<Address>),
    /// The resolver knows no address for the name.
    NoRecords,
    /// Nothing answered within the timeout.
    TimedOut,
}

impl Lookup {
    /// The addresses that the resolution gave; none where it failed.
    pub open spec fn addresses(&self) -> Seq<Address> {
        match self {
            Lookup::Answer(found) => found@,
            Lookup::NoRecords => Seq::empty(),
            Lookup::TimedOut => Seq::empty(),
        }
    }

    /// A name resolves when the resolution gave at least one address.
    pub open spec fn resolves(&self) -> bool {
        self.addresses().len() > 0
    }

    /// The address that a scan of the name goes to: the first one, if any.
    pub open spec fn target(&self) -> Option<Address> {
        if self.resolves() {
            Some(self.addresses()[0])
        } else {
            None
        }
    }

    /// Whether the resolution gave at least one address.
    pub fn is_resolved(&self) -> (resolved: bool)
        ensures
            resolved == self.resolves(),
    {
        match self {
            Lookup::Answer(found) => found.len() > 0,
            Lookup::NoRecords => false,
            Lookup::TimedOut => false,
        }
    }

    /// The first address that the resolution gave.
    pub fn first_address(&self) -> (first: Option<Address>)
        ensures
            first == self.target(),
    {
        match self {
            Lookup::Answer(found) => {
                if found.len() > 0 {
                    Some(found[0])
                } else {
                    None
                }
            },
            Lookup::NoRecords => None,
            Lookup::TimedOut => None,
        }
    }
}

} // verus!
