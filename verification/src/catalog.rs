//! The ports that a scan probes.

use vstd::prelude::*;

verus! {

/// The hundred ports that are most often found open, most common first.
pub const MOST_COMMON_PORTS_100: [u16; 100] = [
    80, 23, 443, 21, 22, 25, 3389, 110, 445, 139,
    143, 53, 135, 3306, 8080, 1723, 111, 995, 993, 5900,
    1025, 587, 8888, 199, 1720, 465, 548, 113, 81, 6001,
    10000, 514, 5060, 179, 1026, 2000, 8443, 8000, 32768, 554,
    26, 1433, 49152, 2001, 515, 8008, 49154, 1027, 5666, 646,
    5000, 5631, 631, 49153, 8081, 2049, 88, 79, 5800, 106,
    2121, 1110, 49155, 6000, 513, 990, 5357, 427, 49156, 543,
    544, 5101, 144, 7, 389, 8009, 3128, 444, 9999, 5009,
    7070, 5190, 3000, 5432, 1900, 3986, 13, 1029, 9, 5051,
    6646, 49157, 1028, 873, 1755, 2717, 4899, 9100, 119, 37,
];

/// An ordered list of ports in which no port occurs twice.
#[derive(Debug)]
pub struct PortCatalog {
    ports: Vec<u16>,
}

impl View for PortCatalog {
    type V = Seq<u16>;

    closed spec fn view(&self) -> Seq<u16> {
        self.ports@
    }
}

/// Whether `port` is among `ports`.
fn is_listed(ports: &Vec<u16>, upto: usize, port: u16) -> (found: bool)
    requires
        upto <= ports.len(),
    ensures
        found == ports@.take(upto as int).contains(port),
{
    let mut i: usize = 0;
    while i < upto
        invariant
            i <= upto <= ports.len(),
            forall|k: int| 0 <= k < i ==> ports@[k] != port,
        decreases upto - i,
    {
        if ports[i] == port {
            assert(ports@.take(upto as int)[i as int] == port);
            return true;
        }
        i += 1;
    }
    false
}

impl Clone for PortCatalog {
    fn clone(&self) -> (copy: Self)
        ensures
            copy@ == self@,
    {
        proof {
            use_type_invariant(self);
        }
        PortCatalog { ports: self.ports.clone() }
    }
}

impl PortCatalog {
    #[verifier::type_invariant]
    spec fn distinct(self) -> bool {
        self.ports@.no_duplicates()
    }

    /// The catalog that lists `ports` in their order, where no port occurs
    /// twice among them; otherwise nothing.
    pub fn new(ports: Vec<u16>) -> (catalog: Option<PortCatalog>)
        ensures
            catalog is Some <==> ports@.no_duplicates(),
            catalog matches Some(c) ==> c@ == ports@,
    {
        let n = ports.len();
        let mut i: usize = 0;
        while i < n
            invariant
                i <= n,
                n == ports.len(),
                ports@.take(i as int).no_duplicates(),
            decreases n - i,
        {
            if is_listed(&ports, i, ports[i]) {
                proof {
                    let k = choose|k: int|
                        0 <= k < i && ports@.take(i as int)[k] == ports@[i as int];
                    assert(ports@[k] == ports@[i as int]);
                }
                return None;
            }
            proof {
                let earlier = ports@.take(i as int);
                let now = ports@.take(i + 1);
                assert forall|a: int, b: int| 0 <= a < now.len() && 0 <= b < now.len() && a
                    != b implies now[a] != now[b] by {
                    if a < i && b < i {
                        assert(earlier[a] != earlier[b]);
                    } else if a < i {
                        assert(earlier[a] == now[a]);
                    } else {
                        assert(earlier[b] == now[b]);
                    }
                }
            }
            i += 1;
        }
        assert(ports@.take(n as int) =~= ports@);
        Some(PortCatalog { ports })
    }

    /// The catalog of the hundred most common ports.
    pub fn most_common() -> (catalog: PortCatalog)
        ensures
            catalog@ == MOST_COMMON_PORTS_100@,
    {
        let mut ports: Vec<u16> = Vec::new();
        let mut i: usize = 0;
        while i < 100
            invariant
                i <= 100,
                ports@ == MOST_COMMON_PORTS_100@.take(i as int),
            decreases 100 - i,
        {
            ports.push(MOST_COMMON_PORTS_100[i]);
            assert(ports@ =~= MOST_COMMON_PORTS_100@.take(i + 1));
            i += 1;
        }
        assert(MOST_COMMON_PORTS_100@.take(100) =~= MOST_COMMON_PORTS_100@);
        assert(MOST_COMMON_PORTS_100@.no_duplicates());
        PortCatalog { ports }
    }

    /// The ports of the catalog, in its order.
    pub fn ports(&self) -> (ports: &[u16])
        ensures
            ports@ == self@,
            self@.no_duplicates(),
    {
        proof {
            use_type_invariant(self);
        }
        self.ports.as_slice()
    }

    /// Number of ports in the catalog.
    pub fn len(&self) -> (n: usize)
        ensures
            n == self@.len(),
    {
        self.ports.len()
    }
}

} // verus!
