//! Which endpoints a scan probes, and what its probes say together.

use vstd::prelude::*;
use crate::catalog::PortCatalog;
use crate::port::{all_open, is_open_port, numbers, open_among, Port, ProbeOutcome};
use crate::resolution::{Address, Endpoint, Lookup};

verus! {

/// The endpoints at `address` with the ports `ports`, in their order.
pub open spec fn endpoints(address: Address, ports: Seq<u16>) -> Seq<Endpoint> {
    ports.map_values(|port: u16| Endpoint { address, port })
}

/// The endpoints that a scan probes after the lookup `lookup` of its name:
/// every port of the catalog at the first address, and nothing where the
/// lookup gave no address.
pub open spec fn planned(lookup: Lookup, catalog: Seq<u16>) -> Seq<Endpoint> {
    match lookup.target() {
        Some(address) => endpoints(address, catalog),
        None => Seq::empty(),
    }
}

/// The classified ports that the probes of `targets` give, where the probe of
/// the `i`-th target ended as the `i`-th outcome says.
pub open spec fn probed(targets: Seq<Endpoint>, outcomes: Seq<ProbeOutcome>) -> Seq<Port> {
    Seq::new(targets.len(), |i: int| Port::of(targets[i].port, outcomes[i].accepts()))
}

/// The open ports that a scan reports after the lookup `lookup`, with the
/// probes ending as `outcomes` says.
pub open spec fn reported(lookup: Lookup, catalog: Seq<u16>, outcomes: Seq<ProbeOutcome>) -> Seq<
    Port,
> {
    open_among(probed(planned(lookup, catalog), outcomes))
}

/// The endpoints to probe after the lookup of a name.
pub fn probe_targets(lookup: &Lookup, catalog: &PortCatalog) -> (targets: Vec<Endpoint>)
    ensures
        targets@ == planned(*lookup, catalog@),
{
    let mut targets: Vec<Endpoint> = Vec::new();
    match lookup.first_address() {
        None => {},
        Some(address) => {
            let ports = catalog.ports();
            let n = ports.len();
            let mut i: usize = 0;
            while i < n
                invariant
                    i <= n,
                    n == ports@.len(),
                    targets@ == endpoints(address, ports@.take(i as int)),
                decreases n - i,
            {
                targets.push(Endpoint { address, port: ports[i] });
                assert(targets@ =~= endpoints(address, ports@.take(i + 1)));
                i += 1;
            }
            assert(ports@.take(n as int) =~= ports@);
        },
    }
    targets
}

/// A name whose lookup gave no address is not probed, and its scan reports
/// no open port, whatever else holds.
pub proof fn lemma_unresolved_reports_nothing(
    lookup: Lookup,
    catalog: Seq<u16>,
    outcomes: Seq<ProbeOutcome>,
)
    requires
        !lookup.resolves(),
    ensures
        planned(lookup, catalog) == Seq::<Endpoint>::empty(),
        reported(lookup, catalog, outcomes) == Seq::<Port>::empty(),
{
    reveal(Seq::filter);
    assert(probed(planned(lookup, catalog), outcomes) =~= Seq::empty());
}

/// After a lookup that gave an address, the scan reports the port of the
/// catalog's `i`-th entry exactly when the `i`-th probe was accepted: an
/// accepted port is reported as open, and a port whose probe was refused, was
/// reset, timed out or failed is not reported at all.
pub proof fn lemma_reported_iff_accepted(
    lookup: Lookup,
    catalog: Seq<u16>,
    outcomes: Seq<ProbeOutcome>,
    i: int,
)
    requires
        lookup.resolves(),
        catalog.no_duplicates(),
        outcomes.len() == catalog.len(),
        0 <= i < catalog.len(),
    ensures
        outcomes[i].accepts() <==> reported(lookup, catalog, outcomes).contains(
            Port::of(catalog[i], true),
        ),
        outcomes[i].accepts() <==> numbers(reported(lookup, catalog, outcomes)).contains(
            catalog[i],
        ),
{
    broadcast use crate::port::lemma_port_of;

    let probes = probed(planned(lookup, catalog), outcomes);
    let found = open_among(probes);
    assert(probes.len() == catalog.len());
    assert(probes[i] == Port::of(catalog[i], outcomes[i].accepts()));
    if outcomes[i].accepts() {
        probes.lemma_filter_contains(is_open_port(), i);
        let k = choose|k: int| 0 <= k < found.len() && found[k] == probes[i];
        assert(numbers(found)[k] == catalog[i]);
    }
    if found.contains(Port::of(catalog[i], true)) {
        probes.lemma_filter_contains_rev(is_open_port(), Port::of(catalog[i], true));
        let k = choose|k: int| 0 <= k < probes.len() && probes[k] == Port::of(catalog[i], true);
        assert(probes[k].number() == catalog[k]);
        assert(k == i);
    }
    if numbers(found).contains(catalog[i]) {
        let m = choose|m: int| 0 <= m < numbers(found).len() && numbers(found)[m] == catalog[i];
        assert(found.contains(found[m]));
        probes.lemma_filter_contains_rev(is_open_port(), found[m]);
        probes.lemma_filter_pred(is_open_port(), m);
        let k = choose|k: int| 0 <= k < probes.len() && probes[k] == found[m];
        assert(probes[k].number() == catalog[k]);
        assert(k == i);
    }
}

/// Whether `port` is a port of the catalog whose probe was accepted.
pub open spec fn accepted(catalog: Seq<u16>, outcomes: Seq<ProbeOutcome>, port: u16) -> bool {
    exists|i: int| 0 <= i < catalog.len() && #[trigger] catalog[i] == port && outcomes[i].accepts()
}

/// Every reported port is open, no port is reported twice, and the reported
/// ports are exactly the ports of the catalog whose probe was accepted.
pub proof fn lemma_reported_ports(
    lookup: Lookup,
    catalog: Seq<u16>,
    outcomes: Seq<ProbeOutcome>,
)
    requires
        catalog.no_duplicates(),
        outcomes.len() == catalog.len(),
    ensures
        all_open(reported(lookup, catalog, outcomes)),
        numbers(reported(lookup, catalog, outcomes)).no_duplicates(),
        forall|port: u16| #[trigger]
            numbers(reported(lookup, catalog, outcomes)).contains(port) <==> lookup.resolves()
                && accepted(catalog, outcomes, port),
{
    broadcast use crate::port::lemma_port_of;

    let probes = probed(planned(lookup, catalog), outcomes);
    let found = open_among(probes);
    if lookup.resolves() {
        assert(numbers(probes) =~= catalog);
        lemma_open_among_distinct(probes);
        assert forall|port: u16| #[trigger]
            numbers(found).contains(port) <==> accepted(catalog, outcomes, port) by {
            if numbers(found).contains(port) {
                let m = choose|m: int| 0 <= m < numbers(found).len() && numbers(found)[m] == port;
                assert(found.contains(found[m]));
                let k = choose|k: int| 0 <= k < probes.len() && probes[k] == found[m];
                assert(catalog[k] == port && outcomes[k].accepts());
            }
            if accepted(catalog, outcomes, port) {
                let i = choose|i: int|
                    0 <= i < catalog.len() && catalog[i] == port && outcomes[i].accepts();
                lemma_reported_iff_accepted(lookup, catalog, outcomes, i);
            }
        }
    } else {
        lemma_unresolved_reports_nothing(lookup, catalog, outcomes);
    }
}

/// The open ports among probes of distinct ports are open, come from the
/// probes, and are ports that differ from each other.
proof fn lemma_open_among_distinct(probes: Seq<Port>)
    requires
        numbers(probes).no_duplicates(),
    ensures
        all_open(open_among(probes)),
        numbers(open_among(probes)).no_duplicates(),
        forall|port: Port| #[trigger] open_among(probes).contains(port) ==> probes.contains(port),
    decreases probes.len(),
{
    reveal(Seq::filter);
    if probes.len() > 0 {
        let init = probes.drop_last();
        let last = probes.last();
        let found = open_among(probes);
        let before = open_among(init);
        assert forall|a: int, b: int|
            0 <= a < init.len() && 0 <= b < init.len() && a != b implies numbers(init)[a]
            != numbers(init)[b] by {
            assert(numbers(probes)[a] != numbers(probes)[b]);
        }
        lemma_open_among_distinct(init);
        assert forall|port: Port| #[trigger] found.contains(port) implies probes.contains(
            port,
        ) by {
            let k = choose|k: int| 0 <= k < found.len() && found[k] == port;
            if k < before.len() {
                assert(before.contains(port));
                let m = choose|m: int| 0 <= m < init.len() && init[m] == port;
                assert(probes[m] == port);
            } else {
                assert(probes[probes.len() - 1] == port);
            }
        }
        assert forall|a: int, b: int|
            0 <= a < found.len() && 0 <= b < found.len() && a != b implies numbers(found)[a]
            != numbers(found)[b] by {
            if a < before.len() && b < before.len() {
                assert(numbers(before)[a] != numbers(before)[b]);
            } else {
                let c = if a < before.len() {
                    a
                } else {
                    b
                };
                assert(before.contains(before[c]));
                let m = choose|m: int| 0 <= m < init.len() && init[m] == before[c];
                assert(numbers(probes)[m] != numbers(probes)[probes.len() - 1]);
            }
        }
    }
}

} // verus!
