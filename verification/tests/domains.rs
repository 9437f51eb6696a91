use cheburcheck::domain::{domain_chunks, domain_labels};
use cheburcheck::domain_set::DomainSet;
use cheburcheck::lists::RuBlacklist;

fn lines(items: &[&str]) -> Vec<String> {
    items.iter().map(|s| s.to_string()).collect()
}

fn blacklist(domains: &[&str]) -> RuBlacklist {
    let mut list = RuBlacklist::new();
    assert_eq!(list.update(&lines(&[]), &lines(domains)), Ok(()));
    list
}

#[test]
fn domain_labels_split_at_dots() {
    assert_eq!(domain_labels("a.b.com"), vec!["a", "b", "com"]);
    assert_eq!(domain_labels("localhost"), vec!["localhost"]);
}

#[test]
fn domain_labels_keep_empty_pieces() {
    assert_eq!(domain_labels(""), vec![""]);
    assert_eq!(domain_labels("a."), vec!["a", ""]);
    assert_eq!(domain_labels(".a"), vec!["", "a"]);
    assert_eq!(domain_labels("a..b"), vec!["a", "", "b"]);
}

#[test]
fn domain_chunks_are_the_labels_reversed() {
    assert_eq!(domain_chunks("a.b.com"), vec!["com", "b", "a"]);
    assert_eq!(domain_chunks("com"), vec!["com"]);
}

#[test]
fn domain_chunks_handle_other_scripts() {
    assert_eq!(domain_chunks("пример.рф"), vec!["рф", "пример"]);
}

#[test]
fn blacklist_scenario_subdomain_of_entry() {
    let list = blacklist(&["example.com"]);
    assert_eq!(list.contains_domain("sub.example.com"), Some("example.com".to_string()));
    assert_eq!(list.contains_domain("notexample.com"), None);
}

#[test]
fn blacklist_matches_the_entry_itself() {
    let list = blacklist(&["example.com"]);
    assert_eq!(list.contains_domain("example.com"), Some("example.com".to_string()));
}

#[test]
fn blacklist_does_not_match_a_parent_of_an_entry() {
    let list = blacklist(&["sub.example.com"]);
    assert_eq!(list.contains_domain("example.com"), None);
    assert_eq!(list.contains_domain("com"), None);
    assert_eq!(list.contains_domain("other.example.com"), None);
}

#[test]
fn blacklist_matches_deep_subdomains() {
    let list = blacklist(&["example.com"]);
    assert_eq!(list.contains_domain("a.b.c.example.com"), Some("example.com".to_string()));
}

#[test]
fn blacklist_returns_the_broadest_of_several_ancestors() {
    let list = blacklist(&["a.example.com", "example.com", "b.a.example.com"]);
    assert_eq!(list.contains_domain("b.a.example.com"), Some("example.com".to_string()));
    assert_eq!(list.contains_domain("x.a.example.com"), Some("example.com".to_string()));
}

#[test]
fn blacklist_returns_the_only_ancestor_there_is() {
    let list = blacklist(&["a.example.com", "other.net"]);
    assert_eq!(list.contains_domain("b.a.example.com"), Some("a.example.com".to_string()));
    assert_eq!(list.contains_domain("example.com"), None);
}

#[test]
fn blacklist_closed_under_ancestors_matches_all_below() {
    let list = blacklist(&["com", "example.com", "sub.example.com"]);
    assert!(list.contains_domain("sub.example.com").is_some());
    assert!(list.contains_domain("deep.sub.example.com").is_some());
    assert!(list.contains_domain("anything.com").is_some());
    assert_eq!(list.contains_domain("example.org"), None);
}

#[test]
fn blacklist_empty_matches_nothing() {
    let list = RuBlacklist::new();
    assert_eq!(list.contains_domain("example.com"), None);
    assert_eq!(list.contains_domain(""), None);
}

#[test]
fn blacklist_is_case_sensitive_and_exact_on_labels() {
    let list = blacklist(&["example.com"]);
    assert_eq!(list.contains_domain("Example.com"), None);
    assert_eq!(list.contains_domain("example.com."), None);
    assert_eq!(list.contains_domain("xexample.com"), None);
}

#[test]
fn domain_set_from_lines_finds_ancestors() {
    let set = DomainSet::from_lines(&lines(&["blocked.org", "also.blocked.net"]));
    assert_eq!(set.find_ancestor("www.blocked.org"), Some("blocked.org".to_string()));
    assert_eq!(set.find_ancestor("blocked.net"), None);
    assert_eq!(set.find_ancestor("x.also.blocked.net"), Some("also.blocked.net".to_string()));
}

#[test]
fn domain_set_holds_a_repeated_line_once() {
    let set = DomainSet::from_lines(&lines(&["a.com", "a.com"]));
    assert_eq!(set.find_ancestor("a.com"), Some("a.com".to_string()));
}
