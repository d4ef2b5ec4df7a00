use tricoder::candidates::collect;
use tricoder::subdomain::search_url;
use tricoder::{AggregatorError, AggregatorReply, CrtShEntry, Subdomain};

fn entries(texts: &[&str]) -> Vec<CrtShEntry> {
    texts.iter().map(|text| CrtShEntry::new(text.to_string())).collect()
}

fn records(texts: &[&str]) -> AggregatorReply {
    AggregatorReply::Records { status: 200, entries: entries(texts) }
}

fn domains(subdomains: &[Subdomain]) -> Vec<String> {
    subdomains.iter().map(|subdomain| subdomain.domain().to_string()).collect()
}

fn sorted(mut names: Vec<String>) -> Vec<String> {
    names.sort();
    names
}

#[test]
fn duplicate_and_wildcard_names_leave_two_candidates() {
    let reply = records(&["a.example.com\n*.example.com\na.example.com"]);
    let found = Subdomain::enumerate(reply, "example.com").unwrap();
    assert_eq!(found.len(), 2);
    assert_eq!(sorted(domains(&found)), vec!["a.example.com", "example.com"]);
}

#[test]
fn candidates_come_in_order_of_first_occurrence_with_the_target_last() {
    let reply = records(&["b.example.com\na.example.com", "c.example.com\nb.example.com"]);
    let found = Subdomain::enumerate(reply, "example.com").unwrap();
    assert_eq!(
        domains(&found),
        vec!["b.example.com", "a.example.com", "c.example.com", "example.com"]
    );
}

#[test]
fn candidates_start_without_open_ports() {
    let reply = records(&["a.example.com\nb.example.com"]);
    let found = Subdomain::enumerate(reply, "example.com").unwrap();
    assert_eq!(found.len(), 3);
    for subdomain in &found {
        assert!(subdomain.open_ports().is_empty());
    }
}

#[test]
fn duplicates_across_records_collapse() {
    let reply = records(&["a.example.com", "a.example.com", "b.example.com\na.example.com"]);
    let found = Subdomain::enumerate(reply, "example.com").unwrap();
    assert_eq!(domains(&found), vec!["a.example.com", "b.example.com", "example.com"]);
}

#[test]
fn whitespace_variants_collapse() {
    let reply = records(&[" a.example.com\na.example.com \n\ta.example.com\r"]);
    let found = Subdomain::enumerate(reply, "example.com").unwrap();
    assert_eq!(domains(&found), vec!["a.example.com", "example.com"]);
}

#[test]
fn case_variants_stay_apart() {
    let reply = records(&["a.example.com\nA.example.com\na.Example.com\nA.example.com"]);
    let found = Subdomain::enumerate(reply, "example.com").unwrap();
    assert_eq!(
        domains(&found),
        vec!["a.example.com", "A.example.com", "a.Example.com", "example.com"]
    );
}

#[test]
fn wildcard_names_never_appear() {
    let reply = records(&["*.example.com\na.*.example.com\n *.b.example.com \nc.example.com*"]);
    let found = Subdomain::enumerate(reply, "example.com").unwrap();
    assert_eq!(domains(&found), vec!["example.com"]);
}

#[test]
fn target_is_listed_once_when_the_records_name_it() {
    let reply = records(&["example.com\n example.com \na.example.com\nexample.com"]);
    let found = Subdomain::enumerate(reply, "example.com").unwrap();
    assert_eq!(domains(&found), vec!["a.example.com", "example.com"]);
}

#[test]
fn target_is_a_candidate_without_any_record() {
    let found = Subdomain::enumerate(records(&[]), "example.com").unwrap();
    assert_eq!(domains(&found), vec!["example.com"]);
}

#[test]
fn target_is_inserted_as_given() {
    let found = Subdomain::enumerate(records(&["a.example.com"]), " *.example.com ").unwrap();
    assert_eq!(domains(&found), vec!["a.example.com", " *.example.com "]);
}

#[test]
fn blank_lines_yield_the_empty_name_once() {
    let found = Subdomain::enumerate(records(&["a.example.com\n\n \n", ""]), "example.com").unwrap();
    assert_eq!(domains(&found), vec!["a.example.com", "", "example.com"]);
}

#[test]
fn unreachable_aggregator_is_an_error_without_candidates() {
    let found = Subdomain::enumerate(AggregatorReply::Unreachable, "example.com");
    assert_eq!(found.err(), Some(AggregatorError::Transport));
}

#[test]
fn status_other_than_200_is_an_error() {
    let reply = AggregatorReply::Records { status: 503, entries: entries(&["a.example.com"]) };
    assert_eq!(
        Subdomain::enumerate(reply, "example.com").err(),
        Some(AggregatorError::Status(503))
    );
    let reply = AggregatorReply::Records { status: 404, entries: Vec::new() };
    assert_eq!(
        Subdomain::enumerate(reply, "example.com").err(),
        Some(AggregatorError::Status(404))
    );
}

#[test]
fn status_is_reported_before_an_undecodable_body() {
    let reply = AggregatorReply::Malformed { status: 502 };
    assert_eq!(
        Subdomain::enumerate(reply, "example.com").err(),
        Some(AggregatorError::Status(502))
    );
}

#[test]
fn undecodable_body_is_an_error() {
    let reply = AggregatorReply::Malformed { status: 200 };
    assert_eq!(Subdomain::enumerate(reply, "example.com").err(), Some(AggregatorError::Decode));
}

#[test]
fn collect_lists_distinct_names_and_then_the_target() {
    let found = collect(&entries(&["x.org\ny.org", " y.org\n*.org\nz.org"]), "org");
    assert_eq!(found, vec!["x.org", "y.org", "z.org", "org"]);
}

#[test]
fn entry_keeps_its_text() {
    let entry = CrtShEntry::new("a.example.com\n*.example.com".to_string());
    assert_eq!(entry.name_value(), "a.example.com\n*.example.com");
}

#[test]
fn search_url_asks_for_names_below_the_target() {
    assert_eq!(search_url("example.com"), "https://crt.sh/?q=%25.example.com&output=json");
    assert_eq!(search_url(""), "https://crt.sh/?q=%25.&output=json");
}
