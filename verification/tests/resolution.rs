use tricoder::resolution::{LOOKUP_TIMEOUT_SECS, PLACEHOLDER_PORT};
use tricoder::{Address, AggregatorReply, CrtShEntry, Lookup, Subdomain};

fn v4(bits: u32) -> Address {
    Address::V4 { bits }
}

fn candidates(text: &str, target: &str) -> Vec<Subdomain> {
    let entries = vec![CrtShEntry::new(text.to_string())];
    Subdomain::enumerate(AggregatorReply::Records { status: 200, entries }, target).unwrap()
}

fn answered(candidates: Vec<Subdomain>, lookups: Vec<Lookup>) -> Vec<(Subdomain, Lookup)> {
    assert_eq!(candidates.len(), lookups.len());
    candidates.into_iter().zip(lookups).collect()
}

fn domains(subdomains: &[Subdomain]) -> Vec<String> {
    subdomains.iter().map(|subdomain| subdomain.domain().to_string()).collect()
}

#[test]
fn lookup_with_an_address_resolves() {
    assert!(Lookup::Answer(vec![v4(0x7F00_0001)]).is_resolved());
    assert!(Lookup::Answer(vec![v4(1), v4(2)]).is_resolved());
    let wide = Address::V6 { wide_bits: 1, flowinfo: 0, scope_id: 0 };
    assert!(Lookup::Answer(vec![wide]).is_resolved());
}

#[test]
fn lookup_without_an_address_does_not_resolve() {
    assert!(!Lookup::Answer(Vec::new()).is_resolved());
    assert!(!Lookup::NoRecords.is_resolved());
    assert!(!Lookup::TimedOut.is_resolved());
}

#[test]
fn first_address_is_the_scan_target() {
    assert_eq!(Lookup::Answer(vec![v4(7), v4(8)]).first_address(), Some(v4(7)));
    assert_eq!(Lookup::Answer(Vec::new()).first_address(), None);
    assert_eq!(Lookup::NoRecords.first_address(), None);
    assert_eq!(Lookup::TimedOut.first_address(), None);
}

#[test]
fn candidate_resolves_when_its_lookup_does() {
    let found = candidates("a.example.com", "example.com");
    assert!(found[0].resolves(&Lookup::Answer(vec![v4(1)])));
    assert!(!found[0].resolves(&Lookup::Answer(Vec::new())));
    assert!(!found[0].resolves(&Lookup::NoRecords));
    assert!(!found[0].resolves(&Lookup::TimedOut));
}

#[test]
fn unresolved_candidates_are_dropped_in_silence() {
    let found = candidates("a.example.com\nb.example.com\nc.example.com", "example.com");
    let kept = Subdomain::retain_resolving(answered(
        found,
        vec![
            Lookup::Answer(vec![v4(1)]),
            Lookup::NoRecords,
            Lookup::TimedOut,
            Lookup::Answer(vec![v4(2), v4(3)]),
        ],
    ));
    assert_eq!(domains(&kept), vec!["a.example.com", "example.com"]);
}

#[test]
fn target_is_kept_exactly_when_it_resolves() {
    let found = candidates("a.example.com", "example.com");
    let kept = Subdomain::retain_resolving(answered(
        found,
        vec![Lookup::Answer(vec![v4(1)]), Lookup::NoRecords],
    ));
    assert_eq!(domains(&kept), vec!["a.example.com"]);

    let found = candidates("a.example.com", "example.com");
    let kept = Subdomain::retain_resolving(answered(
        found,
        vec![Lookup::NoRecords, Lookup::Answer(vec![v4(1)])],
    ));
    assert_eq!(domains(&kept), vec!["example.com"]);
}

#[test]
fn nothing_is_kept_when_nothing_resolves() {
    let found = candidates("a.example.com\nb.example.com", "example.com");
    let kept = Subdomain::retain_resolving(answered(
        found,
        vec![Lookup::TimedOut, Lookup::NoRecords, Lookup::Answer(Vec::new())],
    ));
    assert!(kept.is_empty());
    assert!(Subdomain::retain_resolving(Vec::new()).is_empty());
}

#[test]
fn kept_candidates_hold_no_ports_yet() {
    let found = candidates("a.example.com", "example.com");
    let kept = Subdomain::retain_resolving(answered(
        found,
        vec![Lookup::Answer(vec![v4(1)]), Lookup::Answer(vec![v4(1)])],
    ));
    assert_eq!(kept.len(), 2);
    assert!(kept.iter().all(|subdomain| subdomain.open_ports().is_empty()));
}

#[test]
fn resolver_settings() {
    assert_eq!(LOOKUP_TIMEOUT_SECS, 4);
    assert_eq!(PLACEHOLDER_PORT, 1024);
}
