use cheburcheck::addr::{IpAddress, Network};
use cheburcheck::lists::{CdnList, CdnRow, RuBlacklist, UpdateError};
use cheburcheck::prefix_table::PrefixTable;

fn v4(a: u8, b: u8, c: u8, d: u8) -> IpAddress {
    IpAddress::V4(u32::from_be_bytes([a, b, c, d]))
}

fn v6(groups: [u16; 8]) -> IpAddress {
    let mut bits: u128 = 0;
    for g in groups {
        bits = (bits << 16) | g as u128;
    }
    IpAddress::V6(bits)
}

fn row(provider: &str, cidr: &str, region: Option<&str>) -> CdnRow {
    CdnRow {
        provider: provider.to_string(),
        cidr: cidr.to_string(),
        region: region.map(|r| r.to_string()),
    }
}

fn lines(items: &[&str]) -> Vec<String> {
    items.iter().map(|s| s.to_string()).collect()
}

#[test]
fn network_new_clears_host_bits() {
    let net = Network::new(v4(10, 1, 2, 3), 8).unwrap();
    assert_eq!(net.addr, v4(10, 0, 0, 0));
    assert_eq!(net.prefix_len, 8);
}

#[test]
fn network_new_keeps_a_whole_address() {
    let net = Network::new(v4(192, 168, 1, 77), 32).unwrap();
    assert_eq!(net.addr, v4(192, 168, 1, 77));
}

#[test]
fn network_new_with_empty_prefix_is_everything() {
    let net = Network::new(v4(8, 8, 8, 8), 0).unwrap();
    assert_eq!(net.addr, v4(0, 0, 0, 0));
    let net = Network::new(v6([0x2001, 0xdb8, 0, 0, 0, 0, 0, 1]), 0).unwrap();
    assert_eq!(net.addr, IpAddress::V6(0));
}

#[test]
fn network_new_refuses_a_prefix_that_is_too_long() {
    assert_eq!(Network::new(v4(1, 2, 3, 4), 33), None);
    assert_eq!(Network::new(IpAddress::V6(1), 129), None);
    assert!(Network::new(IpAddress::V6(1), 128).is_some());
}

#[test]
fn network_new_v6_clears_host_bits() {
    let net = Network::new(v6([0x2001, 0xdb8, 0xdead, 0xbeef, 1, 2, 3, 4]), 48).unwrap();
    assert_eq!(net.addr, v6([0x2001, 0xdb8, 0xdead, 0, 0, 0, 0, 0]));
    let net = Network::new(v6([0x2001, 0xdb8, 0xdead, 0xbeef, 1, 2, 3, 4]), 127).unwrap();
    assert_eq!(net.addr, v6([0x2001, 0xdb8, 0xdead, 0xbeef, 1, 2, 3, 4]));
}

#[test]
fn network_parse_reads_cidr_notation() {
    let net = Network::parse("104.16.0.0/12").unwrap();
    assert_eq!(net, Network { addr: v4(104, 16, 0, 0), prefix_len: 12 });
    let net = Network::parse("2001:db8::/32").unwrap();
    assert_eq!(net, Network { addr: v6([0x2001, 0xdb8, 0, 0, 0, 0, 0, 0]), prefix_len: 32 });
}

#[test]
fn network_parse_clears_host_bits() {
    let net = Network::parse("10.1.2.3/8").unwrap();
    assert_eq!(net, Network { addr: v4(10, 0, 0, 0), prefix_len: 8 });
}

#[test]
fn network_parse_refuses_what_is_no_cidr() {
    assert_eq!(Network::parse("10.0.0.1"), None);
    assert_eq!(Network::parse("10.0.0.0/33"), None);
    assert_eq!(Network::parse("example.com"), None);
    assert_eq!(Network::parse(""), None);
    assert_eq!(Network::parse(" 10.0.0.0/8"), None);
}

#[test]
fn prefix_table_finds_the_most_specific_block() {
    let mut table = PrefixTable::new();
    table.insert(Network::parse("10.0.0.0/8").unwrap(), 1);
    table.insert(Network::parse("10.1.0.0/16").unwrap(), 2);
    table.insert(Network::parse("10.1.2.0/24").unwrap(), 3);
    assert_eq!(
        table.longest_match(v4(10, 1, 2, 3)),
        Some((Network::parse("10.1.2.0/24").unwrap(), 3))
    );
    assert_eq!(
        table.longest_match(v4(10, 1, 3, 3)),
        Some((Network::parse("10.1.0.0/16").unwrap(), 2))
    );
    assert_eq!(
        table.longest_match(v4(10, 2, 0, 1)),
        Some((Network::parse("10.0.0.0/8").unwrap(), 1))
    );
    assert_eq!(table.longest_match(v4(11, 0, 0, 1)), None);
}

#[test]
fn prefix_table_insert_replaces_the_value_of_a_block() {
    let mut table = PrefixTable::new();
    let net = Network::parse("192.0.2.0/24").unwrap();
    table.insert(net, 1);
    table.insert(net, 7);
    assert_eq!(table.longest_match(v4(192, 0, 2, 9)), Some((net, 7)));
}

#[test]
fn prefix_table_keeps_families_apart() {
    let mut table = PrefixTable::new();
    table.insert(Network::parse("::/0").unwrap(), 6);
    assert_eq!(table.longest_match(v4(1, 2, 3, 4)), None);
    assert_eq!(
        table.longest_match(IpAddress::V6(5)),
        Some((Network { addr: IpAddress::V6(0), prefix_len: 0 }, 6))
    );
}

#[test]
fn prefix_table_counts_distinct_v4_addresses() {
    let mut table = PrefixTable::new();
    assert_eq!(table.v4_count(), 0);
    table.insert(Network::parse("192.0.2.128/25").unwrap(), 1);
    table.insert(Network::parse("192.0.2.0/24").unwrap(), 1);
    assert_eq!(table.v4_count(), 256);
    table.insert(Network::parse("198.51.100.0/25").unwrap(), 1);
    table.insert(Network::parse("198.51.100.64/26").unwrap(), 1);
    assert_eq!(table.v4_count(), 384);
    table.insert(Network::parse("2001:db8::/32").unwrap(), 1);
    assert_eq!(table.v4_count(), 384);
}

#[test]
fn prefix_table_counts_the_whole_v4_space() {
    let mut table = PrefixTable::new();
    table.insert(Network::parse("0.0.0.0/0").unwrap(), 1);
    assert_eq!(table.v4_count(), 1u64 << 32);
}

#[test]
fn cdn_list_scenario_single_provider() {
    let mut list = CdnList::new();
    assert_eq!(list.update(&vec![row("ProviderX", "104.16.0.0/12", None)]), Ok(()));
    let found = list.contains(&v4(104, 16, 5, 5)).unwrap();
    assert_eq!(found.provider, "ProviderX");
    assert_eq!(found.cidr, Network::parse("104.16.0.0/12").unwrap());
    assert_eq!(found.region, None);
    assert!(list.contains(&v4(8, 8, 8, 8)).is_none());
}

#[test]
fn cdn_list_returns_the_most_specific_range() {
    let mut list = CdnList::new();
    let rows = vec![
        row("Wide", "104.16.0.0/12", None),
        row("Narrow", "104.16.5.0/24", Some("eu")),
        row("Other", "151.101.0.0/16", Some("us")),
    ];
    assert_eq!(list.update(&rows), Ok(()));
    let found = list.contains(&v4(104, 16, 5, 5)).unwrap();
    assert_eq!(found.provider, "Narrow");
    assert_eq!(found.region, Some("eu".to_string()));
    let found = list.contains(&v4(104, 17, 0, 1)).unwrap();
    assert_eq!(found.provider, "Wide");
    let found = list.contains(&v4(151, 101, 1, 1)).unwrap();
    assert_eq!(found.provider, "Other");
    assert!(list.contains(&v4(104, 32, 0, 1)).is_none());
}

#[test]
fn cdn_list_later_row_replaces_earlier_one() {
    let mut list = CdnList::new();
    let rows = vec![row("First", "10.0.0.0/8", None), row("Second", "10.0.0.0/8", Some("x"))];
    assert_eq!(list.update(&rows), Ok(()));
    let found = list.contains(&v4(10, 9, 9, 9)).unwrap();
    assert_eq!(found.provider, "Second");
    assert_eq!(found.region, Some("x".to_string()));
}

#[test]
fn cdn_list_update_replaces_the_whole_list() {
    let mut list = CdnList::new();
    assert_eq!(list.update(&vec![row("Old", "10.0.0.0/8", None)]), Ok(()));
    assert_eq!(list.update(&vec![row("New", "172.16.0.0/12", None)]), Ok(()));
    assert!(list.contains(&v4(10, 0, 0, 1)).is_none());
    assert_eq!(list.contains(&v4(172, 16, 0, 1)).unwrap().provider, "New");
}

#[test]
fn cdn_list_bad_row_leaves_the_list_as_it_was() {
    let mut list = CdnList::new();
    assert_eq!(list.update(&vec![row("Old", "10.0.0.0/8", None)]), Ok(()));
    let rows = vec![row("New", "172.16.0.0/12", None), row("Bad", "not-a-network", None)];
    assert_eq!(list.update(&rows), Err(UpdateError::InvalidNetwork { line: 1 }));
    assert_eq!(list.contains(&v4(10, 0, 0, 1)).unwrap().provider, "Old");
    assert!(list.contains(&v4(172, 16, 0, 1)).is_none());
}

#[test]
fn cdn_list_empty_never_matches() {
    let list = CdnList::new();
    assert!(list.contains(&v4(1, 1, 1, 1)).is_none());
    assert_eq!(list.v4_count(), 0);
}

#[test]
fn cdn_list_counts_v4_addresses() {
    let mut list = CdnList::new();
    let rows = vec![row("A", "10.0.0.0/24", None), row("B", "10.0.0.0/25", None)];
    assert_eq!(list.update(&rows), Ok(()));
    assert_eq!(list.v4_count(), 256);
}

#[test]
fn network_record_label_with_and_without_region() {
    let mut list = CdnList::new();
    let rows = vec![row("Fastly", "151.101.0.0/16", Some("us-east")), row("Cloud", "10.0.0.0/8", None)];
    assert_eq!(list.update(&rows), Ok(()));
    assert_eq!(list.contains(&v4(151, 101, 0, 1)).unwrap().label(), "Fastly (us-east)");
    assert_eq!(list.contains(&v4(10, 0, 0, 1)).unwrap().label(), "Cloud");
}

#[test]
fn network_record_same_as_compares_all_fields() {
    let mut list = CdnList::new();
    let rows = vec![row("A", "10.0.0.0/8", Some("x")), row("A", "11.0.0.0/8", Some("x"))];
    assert_eq!(list.update(&rows), Ok(()));
    let a = list.contains(&v4(10, 0, 0, 1)).unwrap();
    let b = list.contains(&v4(11, 0, 0, 1)).unwrap();
    assert!(a.same_as(&a.clone()));
    assert!(!a.same_as(&b));
}

#[test]
fn ru_blacklist_contains_ip_returns_the_network() {
    let mut list = RuBlacklist::new();
    let nets = lines(&["1.2.3.0/24", "1.2.3.4/32", "2001:db8::/32"]);
    assert_eq!(list.update(&nets, &lines(&[])), Ok(()));
    assert_eq!(list.contains_ip(&v4(1, 2, 3, 4)), Some(Network::parse("1.2.3.4/32").unwrap()));
    assert_eq!(list.contains_ip(&v4(1, 2, 3, 5)), Some(Network::parse("1.2.3.0/24").unwrap()));
    assert_eq!(list.contains_ip(&v4(1, 2, 4, 5)), None);
    assert_eq!(
        list.contains_ip(&v6([0x2001, 0xdb8, 1, 0, 0, 0, 0, 1])),
        Some(Network::parse("2001:db8::/32").unwrap())
    );
}

#[test]
fn ru_blacklist_bad_line_leaves_everything_as_it_was() {
    let mut list = RuBlacklist::new();
    assert_eq!(list.update(&lines(&["10.0.0.0/8"]), &lines(&["example.com"])), Ok(()));
    let r = list.update(&lines(&["11.0.0.0/8", "11.0.0.1", "x"]), &lines(&["other.org", "more.org"]));
    assert_eq!(r, Err(UpdateError::InvalidNetwork { line: 1 }));
    assert!(list.contains_ip(&v4(10, 0, 0, 1)).is_some());
    assert!(list.contains_ip(&v4(11, 0, 0, 1)).is_none());
    assert_eq!(list.contains_domain("example.com"), Some("example.com".to_string()));
    assert_eq!(list.contains_domain("other.org"), None);
    assert_eq!(list.domain_count(), 1);
}

#[test]
fn ru_blacklist_counts_domain_lines() {
    let mut list = RuBlacklist::new();
    assert_eq!(list.domain_count(), 0);
    assert_eq!(list.update(&lines(&[]), &lines(&["a.com", "b.com", "a.com"])), Ok(()));
    assert_eq!(list.domain_count(), 3);
    assert_eq!(list.v4_count(), 0);
}

#[test]
fn ru_blacklist_counts_v4_addresses() {
    let mut list = RuBlacklist::new();
    assert_eq!(list.update(&lines(&["10.0.0.0/30", "10.0.0.1/32", "10.0.1.0/31"]), &lines(&[])), Ok(()));
    assert_eq!(list.v4_count(), 6);
}
