//! Subdomains: how they are enumerated, filtered and scanned.

use vstd::prelude::*;
use crate::candidates::{candidates, collect};
use crate::port::{all_open, is_open_port, open_among, Port};
use crate::resolution::Lookup;

verus! {

/// Number of subdomains that are scanned at the same time.
pub const WORKERS: usize = 8;

/// The only status with which the aggregator delivers records.
pub const STATUS_OK: u16 = 200;

/// One certificate record of the aggregator: the names of one certificate,
/// one per line.
#[derive(Clone, Debug)]
pub struct CrtShEntry {
    name_value: String,
}

impl View for CrtShEntry {
    type V = Seq<char>;

    closed spec fn view(&self) -> Seq<char> {
        self.name_value@
    }
}

impl DeepView for CrtShEntry {
    type V = Seq<char>;

    open spec fn deep_view(&self) -> Seq<char> {
        self@
    }
}

impl CrtShEntry {
    pub fn new(name_value: String) -> (entry: CrtShEntry)
        ensures
            entry@ == name_value@,
    {
        CrtShEntry { name_value }
    }

    pub fn name_value(&self) -> (text: &str)
        ensures
            text@ == self@,
    {
        self.name_value.as_str()
    }
}

/// The address at which the aggregator is asked for the certificates of the
/// names below `target`.
pub fn search_url(target: &str) -> (url: String)
    ensures
        url@ == "https://crt.sh/?q=%25."@ + target@ + "&output=json"@,
{
    let url = String::from_str("https://crt.sh/?q=%25.");
    let url = url.concat(target);
    url.concat("&output=json")
}

/// Why an enumeration failed.
#[derive(Clone, Copy, Debug, PartialEq, Eq, Structural)]
pub enum AggregatorError {
    /// The aggregator could not be reached, or no response came back.
    Transport,
    /// The aggregator answered with this status instead of 200.
    Status(u16),
    /// The body of the response was not a list of records.
    Decode,
}

/// What came back from the aggregator.
#[derive(Clone, Debug)]
pub enum AggregatorReply {
    /// The request failed before any response arrived.
    Unreachable,
    /// A response arrived whose body could not be decoded.
    Malformed { status: u16 },
    /// A response arrived with these records.
    Records { status: u16, entries: Vec<CrtShEntry> },
}

impl AggregatorReply {
    /// The error that the reply stands for, if it stands for one. A failed
    /// request is a transport error; otherwise a status other than 200 is
    /// reported before an undecodable body.
    pub open spec fn failure(&self) -> Option<AggregatorError> {
        match self {
            AggregatorReply::Unreachable => Some(AggregatorError::Transport),
            AggregatorReply::Malformed { status } => if *status != STATUS_OK {
                Some(AggregatorError::Status(*status))
            } else {
                Some(AggregatorError::Decode)
            },
            AggregatorReply::Records { status, entries } => if *status != STATUS_OK {
                Some(AggregatorError::Status(*status))
            } else {
                None
            },
        }
    }

    /// The texts of the records that the reply delivered.
    pub open spec fn records(&self) -> Seq<Seq<char>> {
        match self {
            AggregatorReply::Records { status, entries } => entries.deep_view(),
            _ => Seq::empty(),
        }
    }
}

/// A subdomain as specifications see it.
pub struct SubdomainView {
    pub domain: Seq<char>,
    pub open_ports: Seq<Port>,
}

/// A domain name with the ports that were found open on it.
#[derive(Debug)]
pub struct Subdomain {
    domain: String,
    open_ports: Vec<Port>,
}

impl View for Subdomain {
    type V = SubdomainView;

    closed spec fn view(&self) -> SubdomainView {
        SubdomainView { domain: self.domain@, open_ports: self.open_ports@ }
    }
}

impl DeepView for Subdomain {
    type V = SubdomainView;

    open spec fn deep_view(&self) -> SubdomainView {
        self@
    }
}

impl Clone for Subdomain {
    fn clone(&self) -> (copy: Self)
        ensures
            copy@ == self@,
    {
        proof {
            use_type_invariant(self);
        }
        Subdomain { domain: self.domain.clone(), open_ports: self.open_ports.clone() }
    }
}

/// The subdomains with the names `names`, none of them scanned yet.
pub open spec fn unscanned(names: Seq<Seq<char>>) -> Seq<SubdomainView> {
    names.map_values(|name: Seq<char>| SubdomainView { domain: name, open_ports: Seq::empty() })
}

/// The subdomain `before` after a scan that gave `probes`: it keeps its name,
/// and its open ports are those of `probes` that are classified open.
pub open spec fn scanned(before: SubdomainView, probes: Seq<Port>) -> SubdomainView {
    SubdomainView { domain: before.domain, open_ports: open_among(probes) }
}

/// The names of `subdomains`, in their order.
pub open spec fn domains(subdomains: Seq<Subdomain>) -> Seq<Seq<char>> {
    subdomains.map_values(|subdomain: Subdomain| subdomain@.domain)
}

/// Picks the candidates whose lookup resolved.
pub open spec fn has_resolved_lookup() -> spec_fn((Subdomain, Lookup)) -> bool {
    |answered: (Subdomain, Lookup)| answered.1.resolves()
}

/// The candidates of `answered` whose lookup resolved, in their order.
pub open spec fn retained(answered: Seq<(Subdomain, Lookup)>) -> Seq<Subdomain> {
    answered.filter(has_resolved_lookup()).map_values(|answered: (Subdomain, Lookup)| answered.0)
}

/// The names that were looked up, in the order of `answered`.
pub open spec fn asked(answered: Seq<(Subdomain, Lookup)>) -> Seq<Seq<char>> {
    answered.map_values(|answered: (Subdomain, Lookup)| answered.0@.domain)
}

/// Among candidates with different names, a candidate is kept exactly when
/// its own lookup resolved.
pub proof fn lemma_kept_iff_resolves(answered: Seq<(Subdomain, Lookup)>, i: int)
    requires
        asked(answered).no_duplicates(),
        0 <= i < answered.len(),
    ensures
        domains(retained(answered)).contains(asked(answered)[i]) <==> answered[i].1.resolves(),
{
    let passed = answered.filter(has_resolved_lookup());
    let kept = retained(answered);
    let name = asked(answered)[i];
    if answered[i].1.resolves() {
        answered.lemma_filter_contains(has_resolved_lookup(), i);
        let k = choose|k: int| 0 <= k < passed.len() && passed[k] == answered[i];
        assert(domains(kept)[k] == name);
    }
    if domains(kept).contains(name) {
        let k = choose|k: int| 0 <= k < domains(kept).len() && domains(kept)[k] == name;
        assert(passed.contains(passed[k]));
        answered.lemma_filter_contains_rev(has_resolved_lookup(), passed[k]);
        answered.lemma_filter_pred(has_resolved_lookup(), k);
        let m = choose|m: int| 0 <= m < answered.len() && answered[m] == passed[k];
        assert(asked(answered)[m] == name);
        assert(m == i);
    }
}

/// Where the enumerated candidates for `target` were looked up, the target is
/// kept exactly when its own lookup resolved. Its lookup is the last one.
pub proof fn lemma_target_kept_iff_resolves(
    answered: Seq<(Subdomain, Lookup)>,
    records: Seq<Seq<char>>,
    target: Seq<char>,
)
    requires
        asked(answered) == candidates(records, target),
    ensures
        answered.len() > 0,
        answered.last().0@.domain == target,
        domains(retained(answered)).contains(target) <==> answered.last().1.resolves(),
{
    crate::candidates::lemma_candidates_distinct(records, target);
    assert(asked(answered).len() == answered.len());
    assert(candidates(records, target).len() > 0);
    assert(candidates(records, target).last() == target);
    assert(asked(answered)[answered.len() - 1] == target);
    lemma_kept_iff_resolves(answered, answered.len() - 1);
}

/// A scan replaces what earlier scans found: its result does not depend on
/// the ports that the subdomain held before, so that a second scan with the
/// same probes changes nothing.
pub proof fn lemma_scan_idempotent(before: SubdomainView, probes: Seq<Port>)
    ensures
        scanned(before, probes).domain == before.domain,
        scanned(before, probes).open_ports == open_among(probes),
        scanned(scanned(before, probes), probes) == scanned(before, probes),
{
}

impl Subdomain {
    #[verifier::type_invariant]
    spec fn only_open_ports(self) -> bool {
        all_open(self.open_ports@)
    }

    pub fn domain(&self) -> (name: &str)
        ensures
            name@ == self@.domain,
    {
        self.domain.as_str()
    }

    /// The ports found open. Every one of them is classified open.
    pub fn open_ports(&self) -> (ports: &[Port])
        ensures
            ports@ == self@.open_ports,
            all_open(ports@),
    {
        proof {
            use_type_invariant(self);
        }
        self.open_ports.as_slice()
    }

    /// The candidates that a reply of the aggregator yields for `target`.
    ///
    /// A reply that stands for an error yields that error and no candidate.
    /// Otherwise the candidates are the distinct names that the records list,
    /// without the wildcard names, followed by the target itself, each with no
    /// open ports yet.
    pub fn enumerate(reply: AggregatorReply, target: &str) -> (found: Result<
        Vec<Subdomain>,
        AggregatorError,
    >)
        ensures
            match found {
                Ok(subdomains) => reply.failure() is None && subdomains.deep_view() == unscanned(
                    candidates(reply.records(), target@),
                ),
                Err(error) => reply.failure() == Some(error),
            },
    {
        match reply {
            AggregatorReply::Unreachable => Err(AggregatorError::Transport),
            AggregatorReply::Malformed { status } => {
                if status != STATUS_OK {
                    Err(AggregatorError::Status(status))
                } else {
                    Err(AggregatorError::Decode)
                }
            },
            AggregatorReply::Records { status, entries } => {
                if status != STATUS_OK {
                    Err(AggregatorError::Status(status))
                } else {
                    let names = collect(&entries, target);
                    let ghost listed = names.deep_view();
                    let ghost expected = unscanned(listed);
                    let mut subdomains: Vec<Subdomain> = Vec::new();
                    for name in it: names.into_iter()
                        invariant
                            it.seq() == names@,
                            listed == names.deep_view(),
                            expected == unscanned(listed),
                            subdomains.deep_view() == expected.take(it.index()),
                    {
                        let ghost before = subdomains.deep_view();
                        assert(listed[it.index()] == name@);
                        let subdomain = Subdomain { domain: name, open_ports: Vec::new() };
                        subdomains.push(subdomain);
                        assert(subdomains.deep_view() =~= before.push(subdomain@));
                        assert(expected.take(it.index() + 1) =~= expected.take(it.index()).push(
                            subdomain@,
                        ));
                    }
                    assert(expected.take(listed.len() as int) =~= expected);
                    Ok(subdomains)
                }
            },
        }
    }

    /// Whether the candidate is kept, given how the lookup of its name ended:
    /// it is kept exactly when the lookup gave at least one address.
    pub fn resolves(&self, lookup: &Lookup) -> (kept: bool)
        ensures
            kept == lookup.resolves(),
    {
        lookup.is_resolved()
    }

    /// Keeps the candidates whose lookup resolved and drops the others.
    pub fn retain_resolving(answered: Vec<(Subdomain, Lookup)>) -> (kept: Vec<Subdomain>)
        ensures
            kept@ == retained(answered@),
    {
        let mut kept: Vec<Subdomain> = Vec::new();
        let ghost mut seen: Seq<(Subdomain, Lookup)> = Seq::empty();
        proof {
            reveal(Seq::filter);
            assert(retained(seen) =~= Seq::empty());
        }
        for pair in it: answered.into_iter()
            invariant
                it.seq() == answered@,
                seen == answered@.take(it.index()),
                kept@ == retained(seen),
        {
            proof {
                seen.lemma_filter_push(pair, has_resolved_lookup());
                assert(answered@.take(it.index() + 1) =~= seen.push(pair));
            }
            let (candidate, lookup) = pair;
            if candidate.resolves(&lookup) {
                proof {
                    seen.filter(has_resolved_lookup()).lemma_push_map_commute(
                        |answered: (Subdomain, Lookup)| answered.0,
                        pair,
                    );
                }
                kept.push(candidate);
            }
            proof {
                seen = seen.push(pair);
            }
        }
        assert(answered@.take(answered@.len() as int) =~= answered@);
        kept
    }

    /// Replaces the open ports by those of `probes` that are classified open.
    pub fn scan_ports(&mut self, probes: Vec<Port>)
        ensures
            final(self)@ == scanned(old(self)@, probes@),
    {
        let mut open: Vec<Port> = Vec::new();
        let n = probes.len();
        let mut i: usize = 0;
        proof {
            reveal(Seq::filter);
            assert(probes@.take(0) =~= Seq::empty());
        }
        while i < n
            invariant
                i <= n,
                n == probes.len(),
                open@ == open_among(probes@.take(i as int)),
                all_open(open@),
            decreases n - i,
        {
            let probe = probes[i];
            proof {
                probes@.take(i as int).lemma_filter_push(probe, is_open_port());
                assert(probes@.take(i + 1) =~= probes@.take(i as int).push(probe));
            }
            if probe.is_open() {
                open.push(probe);
            }
            i += 1;
        }
        assert(probes@.take(n as int) =~= probes@);
        self.open_ports = open;
    }
}

} // verus!
