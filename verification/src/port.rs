//! A probed port and how a connection attempt is classified.

use vstd::prelude::*;
use crate::resolution::Endpoint;

verus! {

/// Seconds a single connection attempt may take before it counts as timed out.
pub const PROBE_TIMEOUT_SECS: u64 = 3;

/// How one connection attempt ended.
#[derive(Clone, Copy, Debug, PartialEq, Eq, Structural)]
pub enum ProbeOutcome {
    /// The connection was established.
    Connected,
    /// The peer refused the connection.
    Refused,
    /// The peer reset the connection.
    Reset,
    /// Nothing answered within the timeout.
    TimedOut,
    /// The attempt failed in some other way.
    Failed,
}

impl ProbeOutcome {
    /// Only an established connection counts as open.
    pub open spec fn accepts(self) -> bool {
        self is Connected
    }
}

/// A port number together with its classification.
#[derive(Clone, Copy, Debug, PartialEq, Eq, Structural)]
pub struct Port {
    port: u16,
    is_open: bool,
}

impl Port {
    /// The port number, in specifications.
    pub closed spec fn number(self) -> u16 {
        self.port
    }

    /// The classification, in specifications.
    pub closed spec fn open(self) -> bool {
        self.is_open
    }

    /// The port with the given number and classification.
    pub closed spec fn of(number: u16, open: bool) -> Port {
        Port { port: number, is_open: open }
    }

    pub fn port(&self) -> (number: u16)
        ensures
            number == self.number(),
    {
        self.port
    }

    pub fn is_open(&self) -> (open: bool)
        ensures
            open == self.open(),
    {
        self.is_open
    }

    /// Classifies one probe of `target`: its port is open exactly when the
    /// connection was established.
    pub fn scan(target: &Endpoint, outcome: ProbeOutcome) -> (probed: Port)
        ensures
            probed == Port::of(target.port, outcome.accepts()),
    {
        let port = target.port;
        let is_open = match outcome {
            ProbeOutcome::Connected => true,
            ProbeOutcome::Refused => false,
            ProbeOutcome::Reset => false,
            ProbeOutcome::TimedOut => false,
            ProbeOutcome::Failed => false,
        };
        Port { port, is_open }
    }
}

/// Every port of `ports` is classified open.
pub open spec fn all_open(ports: Seq<Port>) -> bool {
    forall|i: int| 0 <= i < ports.len() ==> (#[trigger] ports[i]).open()
}

/// Picks the ports that are classified open.
pub open spec fn is_open_port() -> spec_fn(Port) -> bool {
    |probe: Port| probe.open()
}

/// The ports of `probes` that are classified open, in the order of `probes`.
pub open spec fn open_among(probes: Seq<Port>) -> Seq<Port> {
    probes.filter(is_open_port())
}

/// The numbers of `ports`, in their order.
pub open spec fn numbers(ports: Seq<Port>) -> Seq<u16> {
    ports.map_values(|port: Port| port.number())
}

/// The number and the classification of a port that was made from them.
pub broadcast proof fn lemma_port_of(number: u16, open: bool)
    ensures
        (#[trigger] Port::of(number, open)).number() == number,
        Port::of(number, open).open() == open,
{
}

} // verus!
